//! The text of each part of the screen, line by line: the header, the browser rows,
//! the work-pane tabs, the dialogs and the bottom bar. Drawing them is left to the
//! terminal front end.
use crate::action::{Focus, WorkTab};
use crate::app::{
    draft_field, field_label, App, BrowserItem, BrowserItemKind, ConnectionDraft, ConnectionField,
};
use crate::queue::QueueState;
use crate::keys::string_views;
use crate::queue::{QueueJob, QueueJobStatus};
use crate::services::s3::{resolved_target, target_text};
use crate::paths::with_separator;
use crate::system::{joined_path, path_shown};
use crate::text::{decimal, decimal_string, push_char, str_chars, trim};
use vstd::prelude::*;

verus! {

/// `n` blanks.
pub open spec fn spaces(n: nat) -> Seq<char> {
    Seq::new(n, |_i: int| ' ')
}

/// `s` followed by blanks up to `width` characters (what `{:<width}` prints).
pub open spec fn pad_end(s: Seq<char>, width: nat) -> Seq<char> {
    if s.len() < width {
        s + spaces((width - s.len()) as nat)
    } else {
        s
    }
}

/// `s` preceded by blanks up to `width` characters (what `{:>width}` prints).
pub open spec fn pad_start(s: Seq<char>, width: nat) -> Seq<char> {
    if s.len() < width {
        spaces((width - s.len()) as nat) + s
    } else {
        s
    }
}

/// Appends `n` blanks.
fn push_spaces(out: &mut String, n: usize)
    ensures
        final(out)@ == old(out)@ + spaces(n as nat),
{
    let ghost start = out@;
    let mut i: usize = 0;
    while i < n
        invariant
            i <= n,
            out@ == start + spaces(i as nat),
        decreases n - i,
    {
        push_char(out, ' ');
        i = i + 1;
        assert(spaces(i as nat) =~= spaces((i - 1) as nat).push(' '));
    }
}

/// Appends `s` padded with blanks after it to `width` characters.
fn push_padded_end(out: &mut String, s: &str, width: usize)
    ensures
        final(out)@ == old(out)@ + pad_end(s@, width as nat),
{
    let n = str_chars(s).len();
    out.append(s);
    if n < width {
        push_spaces(out, width - n);
    }
    assert(final(out)@ =~= old(out)@ + pad_end(s@, width as nat)) by {
        if n < width {
            assert(old(out)@ + s@ + spaces((width - n) as nat) =~= old(out)@ + (s@ + spaces(
                (width - n) as nat,
            )));
        }
    }
}

/// Appends `s` padded with blanks before it to `width` characters.
fn push_padded_start(out: &mut String, s: &str, width: usize)
    ensures
        final(out)@ == old(out)@ + pad_start(s@, width as nat),
{
    let n = str_chars(s).len();
    if n < width {
        push_spaces(out, width - n);
    }
    out.append(s);
    assert(final(out)@ =~= old(out)@ + pad_start(s@, width as nat)) by {
        if n < width {
            assert(old(out)@ + spaces((width - n) as nat) + s@ =~= old(out)@ + (spaces(
                (width - n) as nat,
            ) + s@));
        }
    }
}

/// The title of the browser pane, marked when it has the focus.
pub fn browser_title(focus: Focus) -> (r: &'static str)
    ensures
        r@ == if focus == Focus::Browser {
            "S3 Browser [focus]"@
        } else {
            "S3 Browser"@
        },
{
    if focus == Focus::Browser {
        "S3 Browser [focus]"
    } else {
        "S3 Browser"
    }
}

/// The selection mark of a row: none for the way up.
pub open spec fn mark_text(kind: BrowserItemKind, selected: bool) -> Seq<char> {
    if kind == BrowserItemKind::Parent {
        "   "@
    } else if selected {
        "[x]"@
    } else {
        "[ ]"@
    }
}

/// The type column of a row.
pub open spec fn kind_text(kind: BrowserItemKind) -> Seq<char> {
    match kind {
        BrowserItemKind::Parent => "UP"@,
        BrowserItemKind::Dir => "DIR"@,
        BrowserItemKind::Obj => "OBJ"@,
    }
}

/// The size column of a row: bytes, or `-` when unknown.
pub open spec fn size_text(size: Option<u64>) -> Seq<char> {
    match size {
        Some(v) => decimal(v as nat) + " B"@,
        None => "-"@,
    }
}

/// One browser row: mark, type, name, size and modification time in fixed columns.
pub open spec fn browser_row_text(item: BrowserItem, selected: Seq<Seq<char>>) -> Seq<char> {
    mark_text(item.kind, selected.contains(item.key@)) + " "@ + pad_end(kind_text(item.kind), 3)
        + " "@ + pad_end(item.name@, 26) + " "@ + pad_start(size_text(item.size), 10) + " "@
        + item.modified@
}

fn size_column(size: Option<u64>) -> (r: String)
    ensures
        r@ == size_text(size),
{
    match size {
        Some(v) => {
            let mut s = decimal_string(v);
            s.append(" B");
            s
        },
        None => String::from_str("-"),
    }
}

/// The text of row `index` of the browser.
pub fn browser_row(app: &App, index: usize) -> (r: String)
    requires
        index < app.browser.items.len(),
    ensures
        r@ == browser_row_text(app.browser.items@[index as int], app.browser.selected@),
{
    let item = &app.browser.items[index];
    let selected = app.browser.selected.contains(&item.key);
    let mut out = String::new();
    match item.kind {
        BrowserItemKind::Parent => out.append("   "),
        _ => {
            if selected {
                out.append("[x]");
            } else {
                out.append("[ ]");
            }
        },
    }
    out.append(" ");
    let kind = match item.kind {
        BrowserItemKind::Parent => "UP",
        BrowserItemKind::Dir => "DIR",
        BrowserItemKind::Obj => "OBJ",
    };
    push_padded_end(&mut out, kind, 3);
    out.append(" ");
    push_padded_end(&mut out, item.name.as_str(), 26);
    out.append(" ");
    let size = size_column(item.size);
    push_padded_start(&mut out, size.as_str(), 10);
    out.append(" ");
    out.append(item.modified.as_str());
    assert(out@ =~= browser_row_text(app.browser.items@[index as int], app.browser.selected@));
    out
}

/// Every browser row, in order.
pub fn browser_rows(app: &App) -> (r: Vec<String>)
    ensures
        r.len() == app.browser.items.len(),
        forall|i: int|
            0 <= i < r.len() ==> #[trigger] r@[i]@ == browser_row_text(
                app.browser.items@[i],
                app.browser.selected@,
            ),
{
    let mut rows: Vec<String> = Vec::new();
    let mut i: usize = 0;
    while i < app.browser.items.len()
        invariant
            i <= app.browser.items.len(),
            rows.len() == i,
            forall|j: int|
                0 <= j < i ==> #[trigger] rows@[j]@ == browser_row_text(
                    app.browser.items@[j],
                    app.browser.selected@,
                ),
        decreases app.browser.items.len() - i,
    {
        rows.push(browser_row(app, i));
        i = i + 1;
    }
    rows
}

/// Appends one line to a list of lines.
fn push_line(lines: &mut Vec<String>, line: String)
    ensures
        string_views(final(lines)@) == string_views(old(lines)@).push(line@),
{
    lines.push(line);
    assert(string_views(final(lines)@) =~= string_views(old(lines)@).push(line@));
}

/// Appends a line holding a copy of `s`.
fn push_text(lines: &mut Vec<String>, s: &str)
    ensures
        string_views(final(lines)@) == string_views(old(lines)@).push(s@),
{
    push_line(lines, String::from_str(s));
}

/// The name of the pane with the focus, as the header shows it.
pub open spec fn focus_text(focus: Focus) -> Seq<char> {
    match focus {
        Focus::Browser => "browser"@,
        Focus::WorkPane => "work"@,
    }
}

/// The profile as shown: `default-chain` when blank.
pub open spec fn shown_profile(profile: Seq<char>) -> Seq<char> {
    if trim(profile).len() == 0 {
        "default-chain"@
    } else {
        profile
    }
}

/// The header line: session context, effective target, mode and focus.
pub open spec fn header_text(app: App) -> Seq<char> {
    "Profile: "@ + shown_profile(app.session.profile@) + "  Region: "@ + app.session.region@
        + "  Bucket: "@ + app.session.bucket@ + "  Path: "@ + app.session.path@ + "  Target: "@
        + target_text(resolved_target(app.session.profile@, app.session.endpoint_url@).0)
        + "  Mode: "@ + app.session.mode@ + "  Focus: "@ + focus_text(app.ui.focus)
}

/// The header line.
pub fn header_line(app: &App) -> (r: String)
    ensures
        r@ == header_text(*app),
{
    let mut out = String::from_str("Profile: ");
    out.append(app.display_profile());
    out.append("  Region: ");
    out.append(app.session.region.as_str());
    out.append("  Bucket: ");
    out.append(app.session.bucket.as_str());
    out.append("  Path: ");
    out.append(app.session.path.as_str());
    out.append("  Target: ");
    let target = app.display_effective_target();
    out.append(target.as_str());
    out.append("  Mode: ");
    out.append(app.session.mode.as_str());
    out.append("  Focus: ");
    match app.ui.focus {
        Focus::Browser => out.append("browser"),
        Focus::WorkPane => out.append("work"),
    }
    assert(out@ =~= header_text(*app));
    out
}

/// The position of the active tab among the tab titles.
pub fn tab_position(tab: WorkTab) -> (r: usize)
    ensures
        r == crate::action::tab_index(tab),
        WorkTab::ALL@[r as int] == tab,
{
    match tab {
        WorkTab::Selection => 0,
        WorkTab::Preview => 1,
        WorkTab::Queue => 2,
        WorkTab::Logs => 3,
    }
}

/// Tenths of a mebibyte per second, rounded half up.
pub open spec fn speed_tenths(bytes_per_sec: nat) -> nat {
    (bytes_per_sec * 10 + 524288) / 1048576
}

/// A speed in mebibytes per second with one decimal.
pub open spec fn speed_text(bytes_per_sec: nat) -> Seq<char> {
    let t = speed_tenths(bytes_per_sec);
    decimal(t / 10) + "."@ + decimal(t % 10)
}

/// The speed in mebibytes per second with one decimal.
pub fn format_speed(bytes_per_sec: u64) -> (r: String)
    ensures
        r@ == speed_text(bytes_per_sec as nat),
{
    let whole = bytes_per_sec / 1048576;
    let rest = bytes_per_sec % 1048576;
    let tenths = whole * 10 + (rest * 10 + 524288) / 1048576;
    assert(tenths == speed_tenths(bytes_per_sec as nat)) by (nonlinear_arith)
        requires
            whole == bytes_per_sec / 1048576,
            rest == bytes_per_sec % 1048576,
            tenths == whole * 10 + (rest * 10 + 524288) / 1048576,
    ;
    let mut out = decimal_string(tenths / 10);
    out.append(".");
    let frac = decimal_string(tenths % 10);
    out.append(frac.as_str());
    out
}

/// The selection tab: the count, then each selected key in ascending order, or hints
/// when nothing is selected.
pub open spec fn selection_panel_text(keys: Seq<Seq<char>>) -> Seq<Seq<char>> {
    let head = seq!["Selected items: "@ + decimal(keys.len()), ""@];
    if keys.len() == 0 {
        head + seq![
            "No selection yet."@,
            "Use Space to add/remove current item."@,
            "Use a to select all, x to clear."@,
        ]
    } else {
        head + keys.map_values(|k: Seq<char>| "- "@ + k)
    }
}

/// The lines of the selection tab.
pub fn selection_panel(app: &App) -> (r: Vec<String>)
    ensures
        string_views(r@) == selection_panel_text(app.browser.selected@),
{
    let keys = app.browser.selected.keys();
    let mut lines: Vec<String> = Vec::new();
    let mut head = String::from_str("Selected items: ");
    let count = decimal_string(keys.len() as u64);
    head.append(count.as_str());
    push_line(&mut lines, head);
    push_text(&mut lines, "");
    if keys.len() == 0 {
        push_text(&mut lines, "No selection yet.");
        push_text(&mut lines, "Use Space to add/remove current item.");
        push_text(&mut lines, "Use a to select all, x to clear.");
    } else {
        let ghost sel = app.browser.selected@;
        let ghost base = string_views(lines@);
        let mut i: usize = 0;
        while i < keys.len()
            invariant
                i <= keys.len(),
                keys@.map_values(|s: String| s@) == sel,
                string_views(lines@) == base + sel.take(i as int).map_values(
                    |k: Seq<char>| "- "@ + k,
                ),
            decreases keys.len() - i,
        {
            let mut line = String::from_str("- ");
            line.append(keys[i].as_str());
            push_line(&mut lines, line);
            i = i + 1;
            assert(sel.take(i as int).map_values(|k: Seq<char>| "- "@ + k) =~= sel.take(
                (i - 1) as int,
            ).map_values(|k: Seq<char>| "- "@ + k).push("- "@ + sel[i - 1]));
        }
        assert(sel.take(keys.len() as int) =~= sel);
    }
    assert(string_views(lines@) =~= selection_panel_text(app.browser.selected@));
    lines
}

/// The details tab for the row under the cursor; `path` is where an object would be
/// saved.
pub open spec fn details_text(item: Option<BrowserItem>, path: Seq<char>) -> Seq<Seq<char>> {
    match item {
        Some(it) => match it.kind {
            BrowserItemKind::Obj => seq![
                "Key: "@ + it.key@,
                "Name: "@ + it.name@,
                "Size: "@ + decimal(
                    match it.size {
                        Some(v) => v as nat,
                        None => 0,
                    },
                ) + " bytes"@,
                "Modified: "@ + it.modified@,
                "Download Path: "@ + path,
                ""@,
                "Text preview is intentionally disabled. Use your editor after download."@,
            ],
            BrowserItemKind::Dir => seq![
                "Directory: "@ + it.key@,
                "Use d or D to queue downloads."@,
            ],
            BrowserItemKind::Parent => seq![
                "Parent entry selected."@,
                "Press Enter to navigate up."@,
            ],
        },
        None => seq!["No item selected."@],
    }
}

/// The row under the cursor, if the cursor is on a row.
pub open spec fn current_item(app: App) -> Option<BrowserItem> {
    if app.browser.cursor < app.browser.items@.len() {
        Some(app.browser.items@[app.browser.cursor as int])
    } else {
        None
    }
}

/// Where the row under the cursor would be saved, as the platform shows the path, with
/// `sep` as the platform's separator.
pub open spec fn shown_destination(app: App, sep: char) -> Seq<char> {
    match current_item(app) {
        Some(it) => path_shown(joined_path(app.download_root, with_separator(it.key@, sep))),
        None => Seq::empty(),
    }
}

/// The lines of the details tab. Which character the platform's path separator is, is
/// not stated.
pub fn details_panel(app: &App) -> (r: Vec<String>)
    ensures
        exists|sep: char| string_views(r@) == details_text(current_item(*app), #[trigger] shown_destination(*app, sep)),
{
    let mut lines: Vec<String> = Vec::new();
    if app.browser.cursor >= app.browser.items.len() {
        push_text(&mut lines, "No item selected.");
        assert(string_views(lines@) =~= details_text(current_item(*app), shown_destination(*app, '/')));
        return lines;
    }
    let item = &app.browser.items[app.browser.cursor];
    match item.kind {
        BrowserItemKind::Obj => {
            let mut l0 = String::from_str("Key: ");
            l0.append(item.key.as_str());
            push_line(&mut lines, l0);
            let mut l1 = String::from_str("Name: ");
            l1.append(item.name.as_str());
            push_line(&mut lines, l1);
            let size = match item.size {
                Some(v) => v,
                None => 0,
            };
            let mut l2 = String::from_str("Size: ");
            let digits = decimal_string(size);
            l2.append(digits.as_str());
            l2.append(" bytes");
            push_line(&mut lines, l2);
            let mut l3 = String::from_str("Modified: ");
            l3.append(item.modified.as_str());
            push_line(&mut lines, l3);
            let key_text = item.key.as_str();
            let dest = crate::paths::local_destination_for_key(&app.download_root, key_text);
            let ghost sep = choose|sep: char| dest == #[trigger] joined_path(app.download_root, with_separator(key_text@, sep));
            let shown = crate::system::path_text(&dest);
            let mut l4 = String::from_str("Download Path: ");
            l4.append(shown.as_str());
            push_line(&mut lines, l4);
            push_text(&mut lines, "");
            push_text(
                &mut lines,
                "Text preview is intentionally disabled. Use your editor after download.",
            );
            assert(shown@ == shown_destination(*app, sep));
            assert(string_views(lines@) =~= details_text(current_item(*app), shown_destination(*app, sep)));
        },
        BrowserItemKind::Dir => {
            let mut l0 = String::from_str("Directory: ");
            l0.append(item.key.as_str());
            push_line(&mut lines, l0);
            push_text(&mut lines, "Use d or D to queue downloads.");
            assert(string_views(lines@) =~= details_text(current_item(*app), shown_destination(*app, '/')));
        },
        BrowserItemKind::Parent => {
            push_text(&mut lines, "Parent entry selected.");
            push_text(&mut lines, "Press Enter to navigate up.");
            assert(string_views(lines@) =~= details_text(current_item(*app), shown_destination(*app, '/')));
        },
    }
    lines
}

/// How a job's status is written in the queue tab.
pub open spec fn status_word(status: QueueJobStatus) -> Seq<char> {
    match status {
        QueueJobStatus::Pending => "PENDING"@,
        QueueJobStatus::Running => "RUNNING"@,
        QueueJobStatus::Done => "DONE"@,
        QueueJobStatus::Failed => "FAILED"@,
    }
}

/// One job in the queue tab: status, attempts so far, key.
pub open spec fn job_line_text(job: QueueJob) -> Seq<char> {
    status_word(job.status) + "  a:"@ + pad_start(decimal(job.attempts as nat), 2) + "  "@
        + job.key@
}

/// How many jobs the queue tab lists.
pub open spec fn shown_jobs(n: nat) -> nat {
    if n < 8 {
        n
    } else {
        8
    }
}

/// The queue tab: file and byte counters, speed, time left, then the first eight jobs.
pub open spec fn queue_panel_text(q: QueueState) -> Seq<Seq<char>> {
    seq![
        "Files: "@ + decimal(q.done_files as nat) + "/"@ + decimal(q.total_files as nat),
        "Bytes: "@ + decimal(q.done_bytes as nat) + "/"@ + decimal(q.total_bytes as nat),
        "Speed: "@ + speed_text(q.speed_bytes_per_sec as nat) + " MB/s"@,
        "ETA: "@ + q.eta@,
        ""@,
    ] + q.jobs@.take(shown_jobs(q.jobs@.len()) as int).map_values(|j: QueueJob| job_line_text(j))
}

fn counter_pair(label: &str, done: u64, total: u64) -> (r: String)
    ensures
        r@ == label@ + decimal(done as nat) + "/"@ + decimal(total as nat),
{
    let mut out = String::from_str(label);
    let d = decimal_string(done);
    out.append(d.as_str());
    out.append("/");
    let t = decimal_string(total);
    out.append(t.as_str());
    out
}

fn job_line(job: &QueueJob) -> (r: String)
    ensures
        r@ == job_line_text(*job),
{
    let mut out = String::new();
    match job.status {
        QueueJobStatus::Pending => out.append("PENDING"),
        QueueJobStatus::Running => out.append("RUNNING"),
        QueueJobStatus::Done => out.append("DONE"),
        QueueJobStatus::Failed => out.append("FAILED"),
    }
    out.append("  a:");
    let attempts = decimal_string(job.attempts as u64);
    push_padded_start(&mut out, attempts.as_str(), 2);
    out.append("  ");
    out.append(job.key.as_str());
    assert(out@ =~= job_line_text(*job));
    out
}

/// The lines of the queue tab.
pub fn queue_panel(app: &App) -> (r: Vec<String>)
    ensures
        string_views(r@) == queue_panel_text(app.queue),
{
    let q = &app.queue;
    let mut lines: Vec<String> = Vec::new();
    push_line(&mut lines, counter_pair("Files: ", q.done_files, q.total_files));
    push_line(&mut lines, counter_pair("Bytes: ", q.done_bytes, q.total_bytes));
    let mut speed = String::from_str("Speed: ");
    let figure = format_speed(q.speed_bytes_per_sec);
    speed.append(figure.as_str());
    speed.append(" MB/s");
    push_line(&mut lines, speed);
    let mut eta = String::from_str("ETA: ");
    eta.append(q.eta.as_str());
    push_line(&mut lines, eta);
    push_text(&mut lines, "");
    let n: usize = if q.jobs.len() < 8 {
        q.jobs.len()
    } else {
        8
    };
    let ghost base = string_views(lines@);
    let mut i: usize = 0;
    while i < n
        invariant
            i <= n,
            n == shown_jobs(q.jobs@.len()),
            n <= q.jobs.len(),
            string_views(lines@) == base + q.jobs@.take(i as int).map_values(
                |j: QueueJob| job_line_text(j),
            ),
        decreases n - i,
    {
        push_line(&mut lines, job_line(&q.jobs[i]));
        i = i + 1;
        assert(q.jobs@.take(i as int).map_values(|j: QueueJob| job_line_text(j)) =~= q.jobs@.take(
            (i - 1) as int,
        ).map_values(|j: QueueJob| job_line_text(j)).push(job_line_text(q.jobs@[i - 1])));
    }
    assert(string_views(lines@) =~= queue_panel_text(app.queue));
    lines
}

/// The logs tab: the newest twelve lines, newest first, or a note when there are none.
pub open spec fn logs_panel_text(logs: Seq<Seq<char>>) -> Seq<Seq<char>> {
    if logs.len() == 0 {
        seq!["No logs yet."@]
    } else {
        let n: nat = if logs.len() < 12 {
            logs.len()
        } else {
            12
        };
        Seq::new(n, |i: int| logs[logs.len() - 1 - i])
    }
}

/// The lines of the logs tab.
pub fn logs_panel(app: &App) -> (r: Vec<String>)
    ensures
        string_views(r@) == logs_panel_text(string_views(app.logs@)),
{
    let mut lines: Vec<String> = Vec::new();
    let len = app.logs.len();
    if len == 0 {
        push_text(&mut lines, "No logs yet.");
        assert(string_views(lines@) =~= logs_panel_text(string_views(app.logs@)));
        return lines;
    }
    let n: usize = if len < 12 {
        len
    } else {
        12
    };
    let ghost logs = string_views(app.logs@);
    let mut i: usize = 0;
    while i < n
        invariant
            i <= n <= len,
            len == app.logs.len(),
            logs == string_views(app.logs@),
            string_views(lines@) == Seq::new(i as nat, |k: int| logs[len - 1 - k]),
        decreases n - i,
    {
        push_text(&mut lines, app.logs[len - 1 - i].as_str());
        i = i + 1;
        assert(Seq::new(i as nat, |k: int| logs[len - 1 - k]) =~= Seq::new(
            (i - 1) as nat,
            |k: int| logs[len - 1 - k],
        ).push(logs[len - 1 - (i - 1)]));
    }
    assert(string_views(lines@) =~= logs_panel_text(string_views(app.logs@)));
    lines
}

/// How a line is emphasised on screen.
#[derive(Debug, Clone, Copy, PartialEq, Eq, Structural)]
pub enum Tone {
    Normal,
    Highlight,
    Warning,
    Error,
}

/// A line of text with its emphasis.
#[derive(Debug)]
pub struct ScreenLine {
    pub text: String,
    pub tone: Tone,
}

/// The text and emphasis of each line.
pub open spec fn line_views(lines: Seq<ScreenLine>) -> Seq<(Seq<char>, Tone)> {
    lines.map_values(|l: ScreenLine| (l.text@, l.tone))
}

fn push_toned(lines: &mut Vec<ScreenLine>, text: String, tone: Tone)
    ensures
        line_views(final(lines)@) == line_views(old(lines)@).push((text@, tone)),
{
    lines.push(ScreenLine { text, tone });
    assert(line_views(final(lines)@) =~= line_views(old(lines)@).push((text@, tone)));
}

/// One field of the connection dialog: a marker on the active field, the caption in a
/// column of eighteen, and the value or `<empty>`.
pub open spec fn field_line_text(f: ConnectionField, active: bool, value: Seq<char>) -> Seq<char> {
    (if active {
        ">"@
    } else {
        " "@
    }) + " "@ + pad_end(field_label(f), 18) + ": "@ + (if value.len() == 0 {
        "<empty>"@
    } else {
        value
    })
}

/// A field line with the active field highlighted.
pub open spec fn field_entry(d: ConnectionDraft, f: ConnectionField) -> (Seq<char>, Tone) {
    let active = d.active_field == f;
    (field_line_text(f, active, draft_field(d, f)@), if active {
        Tone::Highlight
    } else {
        Tone::Normal
    })
}

/// The connection dialog: usage notes, the five fields, then the warning and the error
/// when there are any.
pub open spec fn connection_panel_text(d: ConnectionDraft) -> Seq<(Seq<char>, Tone)> {
    let head = seq![
        ("Configure S3 context. Profile is optional (empty => default-chain)."@, Tone::Normal),
        ("Endpoint URL is optional (empty => standard AWS S3 endpoint)."@, Tone::Normal),
        ("Tab/Shift+Tab move field  Enter apply  Esc cancel"@, Tone::Normal),
        (""@, Tone::Normal),
    ];
    let fields = seq![
        field_entry(d, ConnectionField::Profile),
        field_entry(d, ConnectionField::Region),
        field_entry(d, ConnectionField::Bucket),
        field_entry(d, ConnectionField::Prefix),
        field_entry(d, ConnectionField::EndpointUrl),
    ];
    head + fields + warning_entries(d) + error_entries(d.error)
}

/// A blank line and the warning, when the values being edited hide the endpoint.
pub open spec fn warning_entries(d: ConnectionDraft) -> Seq<(Seq<char>, Tone)> {
    match crate::app::modal_warning_text(resolved_target(d.profile@, d.endpoint_url@).1) {
        Some(w) => seq![(""@, Tone::Normal), ("Warning: "@ + w, Tone::Warning)],
        None => Seq::empty(),
    }
}

/// A blank line and the error, when the last apply failed.
pub open spec fn error_entries(error: Option<String>) -> Seq<(Seq<char>, Tone)> {
    match error {
        Some(e) => seq![(""@, Tone::Normal), ("Error: "@ + e@, Tone::Error)],
        None => Seq::empty(),
    }
}

fn field_row(d: &ConnectionDraft, f: ConnectionField, value: &String) -> (r: ScreenLine)
    requires
        *value == draft_field(*d, f),
    ensures
        (r.text@, r.tone) == field_entry(*d, f),
{
    let active = d.active_field == f;
    let mut out = String::new();
    if active {
        out.append(">");
    } else {
        out.append(" ");
    }
    out.append(" ");
    push_padded_end(&mut out, f.label(), 18);
    out.append(": ");
    if value.as_str().is_empty() {
        out.append("<empty>");
    } else {
        out.append(value.as_str());
    }
    assert(out@ =~= field_line_text(f, active, value@));
    ScreenLine { text: out, tone: if active { Tone::Highlight } else { Tone::Normal } }
}

/// The lines of the connection dialog.
pub fn connection_panel(app: &App) -> (r: Vec<ScreenLine>)
    ensures
        line_views(r@) == connection_panel_text(app.ui.connection_draft),
{
    proof {
        reveal_strlit("");
        assert(""@ =~= Seq::<char>::empty());
    }
    let d = &app.ui.connection_draft;
    let mut lines: Vec<ScreenLine> = Vec::new();
    push_toned(
        &mut lines,
        String::from_str("Configure S3 context. Profile is optional (empty => default-chain)."),
        Tone::Normal,
    );
    push_toned(
        &mut lines,
        String::from_str("Endpoint URL is optional (empty => standard AWS S3 endpoint)."),
        Tone::Normal,
    );
    push_toned(
        &mut lines,
        String::from_str("Tab/Shift+Tab move field  Enter apply  Esc cancel"),
        Tone::Normal,
    );
    push_toned(&mut lines, String::new(), Tone::Normal);
    let ghost before = line_views(lines@);
    let r0 = field_row(d, ConnectionField::Profile, &d.profile);
    push_toned(&mut lines, r0.text, r0.tone);
    let r1 = field_row(d, ConnectionField::Region, &d.region);
    push_toned(&mut lines, r1.text, r1.tone);
    let r2 = field_row(d, ConnectionField::Bucket, &d.bucket);
    push_toned(&mut lines, r2.text, r2.tone);
    let r3 = field_row(d, ConnectionField::Prefix, &d.prefix);
    push_toned(&mut lines, r3.text, r3.tone);
    let r4 = field_row(d, ConnectionField::EndpointUrl, &d.endpoint_url);
    push_toned(&mut lines, r4.text, r4.tone);
    let ghost with_fields = line_views(lines@);
    proof {
        let spec_d = app.ui.connection_draft;
        assert(with_fields =~= before + seq![
            field_entry(spec_d, ConnectionField::Profile),
            field_entry(spec_d, ConnectionField::Region),
            field_entry(spec_d, ConnectionField::Bucket),
            field_entry(spec_d, ConnectionField::Prefix),
            field_entry(spec_d, ConnectionField::EndpointUrl),
        ]);
    }
    let ghost warning_lines = warning_entries(app.ui.connection_draft);
    match app.connection_modal_warning() {
        Some(w) => {
            push_toned(&mut lines, String::new(), Tone::Normal);
            let mut t = String::from_str("Warning: ");
            t.append(w);
            push_toned(&mut lines, t, Tone::Warning);
            assert(line_views(lines@) =~= with_fields + warning_lines);
        },
        None => {
            assert(line_views(lines@) =~= with_fields + warning_lines);
        },
    }
    let ghost with_warning = line_views(lines@);
    let ghost error_lines = error_entries(app.ui.connection_draft.error);
    match &d.error {
        Some(e) => {
            push_toned(&mut lines, String::new(), Tone::Normal);
            let mut t = String::from_str("Error: ");
            t.append(e.as_str());
            push_toned(&mut lines, t, Tone::Error);
            assert(line_views(lines@) =~= with_warning + error_lines);
        },
        None => {
            assert(line_views(lines@) =~= with_warning + error_lines);
        },
    }
    assert(line_views(lines@) =~= connection_panel_text(app.ui.connection_draft));
    lines
}

/// The lines of the help dialog.
pub fn help_lines() -> (r: Vec<String>)
    ensures
        string_views(r@) == seq![
            "Navigation: Up/Down move, Enter open, Backspace parent"@,
            "Selection: Space toggle, a select all, x clear"@,
            "Tabs/Views: Tab next, Shift+Tab previous"@,
            "Operations: d download selected, D download folder, S select script, s run script, r refresh"@,
            "System: h/? toggle help, q quit, y confirm quit, Esc close dialogs"@,
        ],
{
    let mut lines: Vec<String> = Vec::new();
    push_text(&mut lines, "Navigation: Up/Down move, Enter open, Backspace parent");
    push_text(&mut lines, "Selection: Space toggle, a select all, x clear");
    push_text(&mut lines, "Tabs/Views: Tab next, Shift+Tab previous");
    push_text(
        &mut lines,
        "Operations: d download selected, D download folder, S select script, s run script, r refresh",
    );
    push_text(&mut lines, "System: h/? toggle help, q quit, y confirm quit, Esc close dialogs");
    lines
}

/// The lines of the quit confirmation dialog.
pub fn quit_lines() -> (r: Vec<String>)
    ensures
        string_views(r@) == seq![
            "Downloads are still running. Quit anyway?"@,
            "Press y to confirm, Esc to cancel."@,
        ],
{
    let mut lines: Vec<String> = Vec::new();
    push_text(&mut lines, "Downloads are still running. Quit anyway?");
    push_text(&mut lines, "Press y to confirm, Esc to cancel.");
    lines
}

/// The warning line above the browser, when the last listing reported one.
pub fn browser_warning_line(app: &App) -> (r: Option<String>)
    ensures
        match app.browser.warning {
            Some(w) => r is Some && r->0@ == "Warning: "@ + w@,
            None => r is None,
        },
{
    match &app.browser.warning {
        Some(w) => {
            let mut t = String::from_str("Warning: ");
            t.append(w.as_str());
            Some(t)
        },
        None => None,
    }
}

/// The key hints of the bottom bar.
pub open spec fn key_hints() -> Seq<char> {
    "Keys: h help  c connection  q quit  ↑↓ move  Enter open  Backspace up  Space select  a all  x clear  d download  l logs"@
}

/// The bottom bar: key hints, transfer progress, and session, target and script status.
pub open spec fn status_bar_text(app: App) -> Seq<Seq<char>> {
    seq![key_hints(), progress_text(app.queue), session_text(app)]
}

/// The transfer line of the bottom bar.
pub open spec fn progress_text(q: QueueState) -> Seq<char> {
    "Progress: "@ + decimal(q.done_files as nat) + "/"@ + decimal(q.total_files as nat)
        + " files  "@ + decimal(q.done_bytes as nat) + "/"@ + decimal(q.total_bytes as nat)
        + " bytes  "@ + speed_text(q.speed_bytes_per_sec as nat) + "MB/s  ETA "@ + q.eta@
}

/// The session line of the bottom bar.
pub open spec fn session_text(app: App) -> Seq<char> {
    "Profile: "@ + shown_profile(app.session.profile@) + "  Region: "@ + app.session.region@
        + "  Bucket: "@ + app.session.bucket@ + "  Target: "@ + target_text(
        resolved_target(app.session.profile@, app.session.endpoint_url@).0,
    ) + "  Script: "@ + app.script.command@ + "  Last: "@ + app.script.last_result@
}

fn progress_line(app: &App) -> (r: String)
    ensures
        r@ == progress_text(app.queue),
{
    let q = &app.queue;
    let mut progress = counter_pair("Progress: ", q.done_files, q.total_files);
    progress.append(" files  ");
    let db = decimal_string(q.done_bytes);
    progress.append(db.as_str());
    progress.append("/");
    let tb = decimal_string(q.total_bytes);
    progress.append(tb.as_str());
    progress.append(" bytes  ");
    let speed = format_speed(q.speed_bytes_per_sec);
    progress.append(speed.as_str());
    progress.append("MB/s  ETA ");
    progress.append(q.eta.as_str());
    assert(progress@ =~= progress_text(app.queue));
    progress
}

fn session_line(app: &App) -> (r: String)
    ensures
        r@ == session_text(*app),
{
    let mut session = String::from_str("Profile: ");
    session.append(app.display_profile());
    session.append("  Region: ");
    session.append(app.session.region.as_str());
    session.append("  Bucket: ");
    session.append(app.session.bucket.as_str());
    session.append("  Target: ");
    let target = app.display_effective_target();
    session.append(target.as_str());
    session.append("  Script: ");
    session.append(app.script.command.as_str());
    session.append("  Last: ");
    session.append(app.script.last_result.as_str());
    assert(session@ =~= session_text(*app));
    session
}

/// The lines of the bottom bar.
pub fn status_bar(app: &App) -> (r: Vec<String>)
    ensures
        string_views(r@) == status_bar_text(*app),
{
    let mut lines: Vec<String> = Vec::new();
    push_text(
        &mut lines,
        "Keys: h help  c connection  q quit  ↑↓ move  Enter open  Backspace up  Space select  a all  x clear  d download  l logs",
    );
    push_line(&mut lines, progress_line(app));
    push_line(&mut lines, session_line(app));
    assert(string_views(lines@) =~= status_bar_text(*app));
    lines
}

} // verus!
