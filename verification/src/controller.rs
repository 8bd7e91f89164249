//! How the application reacts to actions, and the I/O it asks its host to perform.
//!
//! [`App::update`] never talks to S3 itself: when an action needs a listing or downloads,
//! it returns an [`IoRequest`]; the host performs it and hands the outcome to the matching
//! `finish_*` method, which may in turn ask for more.
use crate::action::{tab_after, tab_before, Action, Focus, WorkTab};
use crate::app::{
    draft_field, field_after, field_before, log_view, target_label, target_text, App,
    BrowserItem, BrowserItemKind, BrowserState, ConnectionDraft, ConnectionField, ScriptState,
    SessionState, UiState,
};
use crate::keys::{string_views, strictly_sorted, KeySet, Keyed};
use crate::services::s3::{S3ConnectParams, S3DownloadResult, S3ListResult, S3ObjectSummary, S3Target, TargetWarning};
use crate::paths::{eta_text, format_eta, display_key, display_name, normalize_prefix, normalized, parent_path, parent_prefix};
use crate::services::s3::{api_prefix, endpoint_problem, resolve_target, resolved_target, validate_endpoint_url, TargetSpec};
use crate::queue::{finished_count, lemma_count_status_update, key_sizes, lemma_first_by_key_of_key_sizes, remaining_fits, key_set, count_status, remaining_size, speed_for, eta_seconds_for, jobs_for, keep_first_by_key, first_by_key, jobs_for_objects, merged_total, QueueJob, QueueJobStatus, QueueState};
use crate::selection::{folder_keys, kept_prefixes, object_keys, uncovered_keys, SelectionPlan};
use crate::system::path_shown;
use crate::text::{decimal, decimal_string, char_is_control, is_control, pop_char, chars_eq_str, lines_of, owned, push_char, str_chars, string_from_chars, text_lines, trim, trim_str};
use std::path::PathBuf;
use vstd::prelude::*;

verus! {

/// A download to perform: job `index` of the queue, its key and where to save it.
#[derive(Debug)]
pub struct DownloadTask {
    pub index: usize,
    pub key: String,
    pub path: PathBuf,
}

/// What came of a [`DownloadTask`].
#[derive(Debug)]
pub struct DownloadOutcome {
    pub index: usize,
    pub key: String,
    pub path: PathBuf,
    pub result: Result<S3DownloadResult, String>,
}

/// I/O the application needs before it can go on.
#[derive(Debug)]
pub enum IoRequest {
    /// List `params.prefix` with new connection settings; answer with
    /// [`App::finish_connect`].
    Connect {
        params: S3ConnectParams,
        target: S3Target,
        warning: Option<TargetWarning>,
        target_changed: bool,
    },
    /// List the current prefix again; answer with [`App::finish_refresh`].
    Refresh { params: S3ConnectParams },
    /// List `params.prefix` to move there; answer with [`App::finish_navigation`].
    Navigate { params: S3ConnectParams, reason: String },
    /// List every object under the current prefix; answer with
    /// [`App::finish_queue_folder`].
    ListFolder { params: S3ConnectParams },
    /// List every object under `prefixes[next]` (which `params.prefix` addresses) while
    /// resolving the selection; `listed` holds what earlier prefixes returned. Answer with
    /// [`App::continue_selection`].
    ExpandSelection {
        params: S3ConnectParams,
        prefixes: Vec<String>,
        next: usize,
        listed: Vec<S3ObjectSummary>,
    },
    /// Download each task with `params`; answer with [`App::finish_downloads`].
    Download { params: S3ConnectParams, tasks: Vec<DownloadTask> },
}

/// `lines` were appended to the log `old`, giving `new`.
pub open spec fn logs_appended(old: Seq<String>, new: Seq<String>, lines: Seq<Seq<char>>) -> bool {
    string_views(new) == string_views(old) + lines
}

/// The log lines for a warning with a multi-line detail: a headline, then each line.
pub open spec fn warn_lines(headline: Seq<char>, detail: Seq<char>) -> Seq<Seq<char>> {
    seq!["WARN "@ + headline] + lines_of(detail).map_values(|l: Seq<char>| "WARN "@ + l)
}

/// `p` addresses `prefix` with the session's connection and the given page size.
pub open spec fn session_params(s: SessionState, p: S3ConnectParams, prefix: Seq<char>, max_keys: i32) -> bool {
    &&& p.profile == s.profile
    &&& p.region == s.region
    &&& p.bucket == s.bucket
    &&& p.endpoint_url == s.endpoint_url
    &&& p.prefix@ == prefix
    &&& p.max_keys == max_keys
}

impl App {
    /// Appends one line to the log.
    pub fn push_log(&mut self, line: String)
        ensures
            *final(self) == (App { logs: final(self).logs, ..*old(self) }),
            logs_appended(old(self).logs@, final(self).logs@, seq![line@]),
    {
        let ghost before = self.logs@;
        self.logs.push(line);
        assert(string_views(self.logs@) =~= string_views(before) + seq![line@]);
    }

    /// Logs a warning headline followed by each line of `detail`.
    pub fn push_warn_multiline(&mut self, headline: &str, detail: &str)
        ensures
            *final(self) == (App { logs: final(self).logs, ..*old(self) }),
            logs_appended(old(self).logs@, final(self).logs@, warn_lines(headline@, detail@)),
    {
        let mut first = owned("WARN ");
        first.append(headline);
        self.push_log(first);
        let lines = text_lines(detail);
        let ghost start = self.logs@;
        let ghost ls = lines_of(detail@);
        let mut i: usize = 0;
        while i < lines.len()
            invariant
                i <= lines.len(),
                lines@.map_values(|x: String| x@) == ls,
                *self == (App { logs: self.logs, ..*old(self) }),
                logs_appended(start, self.logs@, ls.take(i as int).map_values(|l: Seq<char>| "WARN "@ + l)),
            decreases lines.len() - i,
        {
            let mut line = owned("WARN ");
            line.append(lines[i].as_str());
            let ghost before = self.logs@;
            self.push_log(line);
            proof {
                let t0 = ls.take(i as int).map_values(|l: Seq<char>| "WARN "@ + l);
                assert(ls[i as int] == lines@[i as int]@);
                assert(ls.take(i + 1).map_values(|l: Seq<char>| "WARN "@ + l) =~= t0.push(
                    "WARN "@ + ls[i as int],
                ));
                assert(string_views(self.logs@) =~= (string_views(start) + t0) + seq![
                    "WARN "@ + ls[i as int],
                ]);
                assert((string_views(start) + t0) + seq!["WARN "@ + ls[i as int]] =~= string_views(
                    start,
                ) + t0.push("WARN "@ + ls[i as int]));
            }
            i = i + 1;
        }
        assert(ls.take(lines.len() as int) =~= ls);
        assert(string_views(self.logs@) =~= string_views(old(self).logs@) + warn_lines(
            headline@,
            detail@,
        ));
    }

    /// Connection parameters for `prefix` from the session.
    pub fn session_params_for(&self, prefix: String, max_keys: i32) -> (r: S3ConnectParams)
        ensures
            session_params(self.session, r, prefix@, max_keys),
    {
        S3ConnectParams {
            profile: self.session.profile.clone(),
            region: self.session.region.clone(),
            bucket: self.session.bucket.clone(),
            prefix,
            endpoint_url: self.session.endpoint_url.clone(),
            max_keys,
        }
    }
}

/// `items` are the browser rows for `listing` shown at browser path `path`: a way up
/// (unless at the root), then the folders, then the objects, named relative to the
/// listed prefix.
pub open spec fn rows_for(path: Seq<char>, listing: S3ListResult, items: Seq<BrowserItem>) -> bool {
    let base = api_prefix(path);
    let up: int = if path != "/"@ { 1 } else { 0 };
    let np = listing.prefixes@.len();
    let no = listing.objects@.len();
    &&& items.len() == up + np + no
    &&& up == 1 ==> {
        &&& items[0].kind == BrowserItemKind::Parent
        &&& items[0].is_dir
        &&& items[0].key@ == parent_path(path)
        &&& items[0].name@ == "[..]"@
        &&& items[0].size is None
        &&& items[0].modified@ == "-"@
    }
    &&& forall|i: int| 0 <= i < np ==> {
        let it = #[trigger] items[up + i];
        &&& it.kind == BrowserItemKind::Dir
        &&& it.is_dir
        &&& it.key == listing.prefixes@[i]
        &&& it.name@ == display_name(listing.prefixes@[i]@, base)
        &&& it.size is None
        &&& it.modified@ == "-"@
    }
    &&& forall|i: int| 0 <= i < no ==> {
        let it = #[trigger] items[up + np + i];
        &&& it.kind == BrowserItemKind::Obj
        &&& !it.is_dir
        &&& it.key == listing.objects@[i].key
        &&& it.name@ == display_name(listing.objects@[i].key@, base)
        &&& it.size == Some(listing.objects@[i].size)
        &&& it.modified == listing.objects@[i].modified
    }
}

/// Whether the string is exactly `/`.
fn is_root(s: &String) -> (r: bool)
    ensures
        r == (s@ == "/"@),
{
    chars_eq_str(&str_chars(s.as_str()), "/")
}

/// The browser rows for a listing at browser path `path`.
pub fn build_browser_items(path: &String, listing: &S3ListResult) -> (r: Vec<BrowserItem>)
    ensures
        rows_for(path@, *listing, r@),
{
    let base = crate::paths::api_prefix_from_path(path.as_str());
    let mut items: Vec<BrowserItem> = Vec::new();
    let up: usize = if !is_root(path) {
        items.push(
            BrowserItem {
                kind: BrowserItemKind::Parent,
                is_dir: true,
                key: parent_prefix(path.as_str()),
                name: owned("[..]"),
                size: None,
                modified: owned("-"),
            },
        );
        1
    } else {
        0
    };
    let ghost bv: Option<Seq<char>> = match &base {
        Some(b) => Some(b@),
        None => None,
    };
    assert(bv == api_prefix(path@));
    let mut i: usize = 0;
    while i < listing.prefixes.len()
        invariant
            i <= listing.prefixes@.len(),
            up == (if path@ != "/"@ { 1int } else { 0int }),
            items@.len() == up + i,
            bv == api_prefix(path@),
            match base {
                Some(b) => bv == Some(b@),
                None => bv is None,
            },
            up == 1 ==> {
                &&& items@[0].kind == BrowserItemKind::Parent
                &&& items@[0].is_dir
                &&& items@[0].key@ == parent_path(path@)
                &&& items@[0].name@ == "[..]"@
                &&& items@[0].size is None
                &&& items@[0].modified@ == "-"@
            },
            forall|k: int| 0 <= k < i ==> {
                let it = #[trigger] items@[up + k];
                &&& it.kind == BrowserItemKind::Dir
                &&& it.is_dir
                &&& it.key == listing.prefixes@[k]
                &&& it.name@ == display_name(listing.prefixes@[k]@, bv)
                &&& it.size is None
                &&& it.modified@ == "-"@
            },
        decreases listing.prefixes.len() - i,
    {
        let p = &listing.prefixes[i];
        let name = match &base {
            Some(b) => display_key(p.as_str(), Some(b.as_str())),
            None => display_key(p.as_str(), None),
        };
        items.push(
            BrowserItem {
                kind: BrowserItemKind::Dir,
                is_dir: true,
                key: p.clone(),
                name,
                size: None,
                modified: owned("-"),
            },
        );
        i = i + 1;
    }
    let np = listing.prefixes.len();
    let mut j: usize = 0;
    while j < listing.objects.len()
        invariant
            j <= listing.objects@.len(),
            np == listing.prefixes@.len(),
            up == (if path@ != "/"@ { 1int } else { 0int }),
            items@.len() == up + np + j,
            bv == api_prefix(path@),
            match base {
                Some(b) => bv == Some(b@),
                None => bv is None,
            },
            up == 1 ==> {
                &&& items@[0].kind == BrowserItemKind::Parent
                &&& items@[0].is_dir
                &&& items@[0].key@ == parent_path(path@)
                &&& items@[0].name@ == "[..]"@
                &&& items@[0].size is None
                &&& items@[0].modified@ == "-"@
            },
            forall|k: int| 0 <= k < np ==> {
                let it = #[trigger] items@[up + k];
                &&& it.kind == BrowserItemKind::Dir
                &&& it.is_dir
                &&& it.key == listing.prefixes@[k]
                &&& it.name@ == display_name(listing.prefixes@[k]@, bv)
                &&& it.size is None
                &&& it.modified@ == "-"@
            },
            forall|k: int| 0 <= k < j ==> {
                let it = #[trigger] items@[up + np + k];
                &&& it.kind == BrowserItemKind::Obj
                &&& !it.is_dir
                &&& it.key == listing.objects@[k].key
                &&& it.name@ == display_name(listing.objects@[k].key@, bv)
                &&& it.size == Some(listing.objects@[k].size)
                &&& it.modified == listing.objects@[k].modified
            },
        decreases listing.objects.len() - j,
    {
        let o = &listing.objects[j];
        let name = match &base {
            Some(b) => display_key(o.key.as_str(), Some(b.as_str())),
            None => display_key(o.key.as_str(), None),
        };
        items.push(
            BrowserItem {
                kind: BrowserItemKind::Obj,
                is_dir: false,
                key: o.key.clone(),
                name,
                size: Some(o.size),
                modified: o.modified.clone(),
            },
        );
        j = j + 1;
    }
    items
}

/// `new` is draft `old` with its active field's text replaced by `text` and its error
/// set to `error`.
pub open spec fn edited_draft(
    old: ConnectionDraft,
    new: ConnectionDraft,
    text: Seq<char>,
    error: Option<String>,
) -> bool {
    &&& new.active_field == old.active_field
    &&& new.error == error
    &&& forall|f: ConnectionField| f != old.active_field ==> draft_field(new, f) == draft_field(old, f)
    &&& draft_field(new, old.active_field)@ == text
}

/// `s` without its last character, if it has one.
pub open spec fn without_last(s: Seq<char>) -> Seq<char> {
    if s.len() > 0 {
        s.drop_last()
    } else {
        s
    }
}

/// Only the connection draft of `new` differs from `old`.
pub open spec fn only_draft_changed(old: App, new: App) -> bool {
    new == (App {
        ui: UiState { connection_draft: new.ui.connection_draft, ..old.ui },
        ..old
    })
}

/// Applying the dialog: a blank bucket is refused in the dialog; otherwise the values are
/// trimmed, the prefix normalised (or reset to `/` when profile or endpoint changed), the
/// target resolved, and an effective endpoint URL validated. A valid draft becomes a
/// [`IoRequest::Connect`] for the new context; nothing else changes until it is answered.
pub open spec fn apply_step(p: App, q: App, req: Option<IoRequest>) -> bool {
    let d = p.ui.connection_draft;
    let bucket = trim(d.bucket@);
    let profile = trim(d.profile@);
    let region = trim(d.region@);
    let endpoint = trim(d.endpoint_url@);
    let changed = p.session.profile@ != profile || p.session.endpoint_url@ != endpoint;
    let prefix = if changed {
        "/"@
    } else {
        normalized(trim(d.prefix@))
    };
    let (target, warning) = resolved_target(profile, endpoint);
    let problem_found = match target {
        TargetSpec::Endpoint(url) => endpoint_problem(trim(url)),
        _ => None,
    };
    if bucket.len() == 0 {
        &&& req is None
        &&& only_draft_changed(p, q)
        &&& q.ui.connection_draft == (ConnectionDraft { error: q.ui.connection_draft.error, ..d })
        &&& q.ui.connection_draft.error matches Some(e) && e@ == "Bucket is required"@
    } else if problem_found is Some {
        let problem = problem_found->0;
        &&& req is None
        &&& q == (App {
            ui: UiState { connection_draft: ConnectionDraft { error: q.ui.connection_draft.error, ..d }, ..p.ui },
            browser: BrowserState { warning: q.browser.warning, ..p.browser },
            logs: q.logs,
            ..p
        })
        &&& q.ui.connection_draft.error matches Some(e) && e@ == "Invalid endpoint-url: "@ + problem
        &&& q.browser.warning matches Some(w) && w@ == "Invalid endpoint-url: "@ + problem
        &&& logs_appended(p.logs@, q.logs@, seq!["WARN connection rejected due to endpoint-url: "@ + problem])
    } else {
        &&& q == p
        &&& req matches Some(IoRequest::Connect { params, target: t, warning: w, target_changed }) && {
            &&& params.profile@ == profile
            &&& params.region@ == region
            &&& params.bucket@ == bucket
            &&& params.prefix@ == prefix
            &&& params.endpoint_url@ == endpoint
            &&& params.max_keys == 200
            &&& t@ == target
            &&& w == warning
            &&& target_changed == changed
        }
    }
}

/// How the connection dialog reacts while it is open.
pub open spec fn modal_step(p: App, a: Action, q: App, req: Option<IoRequest>) -> bool {
    let d = p.ui.connection_draft;
    match a {
        Action::CancelDialog => req is None && q == (App {
            ui: UiState { show_connection_settings: false, ..p.ui },
            ..p
        }),
        Action::NextTab | Action::MoveDown => req is None && q == (App {
            ui: UiState {
                connection_draft: ConnectionDraft { active_field: field_after(d.active_field), ..d },
                ..p.ui
            },
            ..p
        }),
        Action::PreviousTab | Action::MoveUp => req is None && q == (App {
            ui: UiState {
                connection_draft: ConnectionDraft { active_field: field_before(d.active_field), ..d },
                ..p.ui
            },
            ..p
        }),
        Action::Enter => apply_step(p, q, req),
        Action::BackspaceKey => req is None && only_draft_changed(p, q) && edited_draft(
            d,
            q.ui.connection_draft,
            without_last(draft_field(d, d.active_field)@),
            d.error,
        ),
        Action::InputChar(ch) => req is None && if is_control(ch) {
            q == p
        } else {
            only_draft_changed(p, q) && edited_draft(
                d,
                q.ui.connection_draft,
                draft_field(d, d.active_field)@.push(ch),
                None,
            )
        },
        _ => req is None && q == p,
    }
}

impl App {
    fn pop_active_field(&mut self)
        ensures
            only_draft_changed(*old(self), *final(self)),
            edited_draft(
                old(self).ui.connection_draft,
                final(self).ui.connection_draft,
                without_last(draft_field(old(self).ui.connection_draft, old(self).ui.connection_draft.active_field)@),
                old(self).ui.connection_draft.error,
            ),
    {
        match self.ui.connection_draft.active_field {
            ConnectionField::Profile => {
                pop_char(&mut self.ui.connection_draft.profile);
            },
            ConnectionField::Region => {
                pop_char(&mut self.ui.connection_draft.region);
            },
            ConnectionField::Bucket => {
                pop_char(&mut self.ui.connection_draft.bucket);
            },
            ConnectionField::Prefix => {
                pop_char(&mut self.ui.connection_draft.prefix);
            },
            ConnectionField::EndpointUrl => {
                pop_char(&mut self.ui.connection_draft.endpoint_url);
            },
        }
    }

    fn push_active_field(&mut self, ch: char)
        ensures
            only_draft_changed(*old(self), *final(self)),
            edited_draft(
                old(self).ui.connection_draft,
                final(self).ui.connection_draft,
                draft_field(old(self).ui.connection_draft, old(self).ui.connection_draft.active_field)@.push(ch),
                None,
            ),
    {
        match self.ui.connection_draft.active_field {
            ConnectionField::Profile => push_char(&mut self.ui.connection_draft.profile, ch),
            ConnectionField::Region => push_char(&mut self.ui.connection_draft.region, ch),
            ConnectionField::Bucket => push_char(&mut self.ui.connection_draft.bucket, ch),
            ConnectionField::Prefix => push_char(&mut self.ui.connection_draft.prefix, ch),
            ConnectionField::EndpointUrl => push_char(&mut self.ui.connection_draft.endpoint_url, ch),
        }
        self.ui.connection_draft.error = None;
    }

    /// Handles an action while the connection dialog is open.
    pub fn update_connection_modal(&mut self, action: Action) -> (r: Option<IoRequest>)
        ensures
            modal_step(*old(self), action, *final(self), r),
    {
        match action {
            Action::CancelDialog => {
                self.ui.show_connection_settings = false;
                None
            },
            Action::NextTab | Action::MoveDown => {
                self.ui.connection_draft.active_field = self.ui.connection_draft.active_field.next();
                None
            },
            Action::PreviousTab | Action::MoveUp => {
                self.ui.connection_draft.active_field = self.ui.connection_draft.active_field.previous();
                None
            },
            Action::Enter => self.apply_connection_settings(),
            Action::BackspaceKey => {
                self.pop_active_field();
                None
            },
            Action::InputChar(ch) => {
                if !char_is_control(ch) {
                    self.push_active_field(ch);
                }
                None
            },
            _ => None,
        }
    }

    /// Validates the dialog's values and asks to connect with them.
    pub fn apply_connection_settings(&mut self) -> (r: Option<IoRequest>)
        ensures
            apply_step(*old(self), *final(self), r),
    {
        let bucket = trim_str(self.ui.connection_draft.bucket.as_str());
        if bucket.len() == 0 {
            self.ui.connection_draft.error = Some(owned("Bucket is required"));
            return None;
        }
        let draft_profile = string_from_chars(&trim_str(self.ui.connection_draft.profile.as_str()));
        let draft_region = string_from_chars(&trim_str(self.ui.connection_draft.region.as_str()));
        let draft_bucket = string_from_chars(&bucket);
        let trimmed_prefix = string_from_chars(&trim_str(self.ui.connection_draft.prefix.as_str()));
        let draft_prefix = normalize_prefix(trimmed_prefix.as_str());
        let draft_endpoint = string_from_chars(&trim_str(self.ui.connection_draft.endpoint_url.as_str()));
        proof {
            crate::text::lemma_trim_idempotent(self.ui.connection_draft.profile@);
            crate::text::lemma_trim_idempotent(self.ui.connection_draft.endpoint_url@);
        }
        let (target, warning) = resolve_target(draft_profile.as_str(), draft_endpoint.as_str());
        let connection_target_changed = self.session.profile != draft_profile
            || self.session.endpoint_url != draft_endpoint;
        let effective_prefix = if connection_target_changed {
            owned("/")
        } else {
            draft_prefix
        };
        if let S3Target::Endpoint { endpoint_url } = &target {
            if let Err(err) = validate_endpoint_url(endpoint_url.as_str()) {
                let mut message = owned("Invalid endpoint-url: ");
                message.append(err.as_str());
                let mut warning_text = owned("Invalid endpoint-url: ");
                warning_text.append(err.as_str());
                self.ui.connection_draft.error = Some(message);
                self.browser.warning = Some(warning_text);
                let mut line = owned("WARN connection rejected due to endpoint-url: ");
                line.append(err.as_str());
                self.push_log(line);
                return None;
            }
        }
        let params = S3ConnectParams {
            profile: draft_profile,
            region: draft_region,
            bucket: draft_bucket,
            prefix: effective_prefix,
            endpoint_url: draft_endpoint,
            max_keys: 200,
        };
        Some(IoRequest::Connect { params, target, warning, target_changed: connection_target_changed })
    }
}

/// The log lines of a successful reconnection.
pub open spec fn connection_log(
    target: TargetSpec,
    region: Seq<char>,
    bucket: Seq<char>,
    path: Seq<char>,
    warning: Option<TargetWarning>,
    changed: bool,
) -> Seq<Seq<char>> {
    seq![
        "INFO connection updated target="@ + target_text(target) + " region="@ + region
            + " bucket="@ + bucket + " prefix="@ + path,
    ] + (if warning is Some {
        seq!["WARN endpoint-url ignored because profile takes precedence"@]
    } else {
        Seq::empty()
    }) + (if changed {
        seq!["INFO profile/endpoint changed; browser reset to root prefix"@]
    } else {
        Seq::empty()
    })
}

/// The queue counters are cleared (the jobs are kept).
pub open spec fn counters_reset(old: crate::queue::QueueState, new: crate::queue::QueueState) -> bool {
    &&& new == (crate::queue::QueueState {
        done_files: 0,
        total_files: 0,
        done_bytes: 0,
        total_bytes: 0,
        speed_bytes_per_sec: 0,
        eta: new.eta,
        summary: new.summary,
        started_at: None,
        ..old
    })
    &&& new.eta@ == "--:--"@
    &&& new.summary@ == "No queue prepared. Use d (selected) or D (folder)."@
}

/// The outcome of the listing for new connection settings: on failure the session stays
/// as it was and the dialog and browser show an error; on success the new context is
/// adopted, the browser shows the listing with nothing selected, the queue counters are
/// cleared, the change is logged and the dialog closes.
pub open spec fn connect_finished(
    p: App,
    params: S3ConnectParams,
    target: TargetSpec,
    warning: Option<TargetWarning>,
    changed: bool,
    listing: Result<S3ListResult, String>,
    q: App,
) -> bool {
    match listing {
        Err(e) => {
            &&& q == (App {
                ui: UiState {
                    connection_draft: ConnectionDraft { error: q.ui.connection_draft.error, ..p.ui.connection_draft },
                    ..p.ui
                },
                browser: BrowserState { warning: q.browser.warning, ..p.browser },
                logs: q.logs,
                ..p
            })
            &&& q.ui.connection_draft.error matches Some(m) && m@ == "Connection failed. See Logs tab for details."@
            &&& q.browser.warning matches Some(m) && m@ == "Connection failed. See Logs tab for details."@
            &&& logs_appended(p.logs@, q.logs@, warn_lines("connection failed"@, e@))
        },
        Ok(l) => {
            &&& q == (App {
                session: q.session,
                browser: q.browser,
                queue: q.queue,
                ui: q.ui,
                logs: q.logs,
                ..p
            })
            &&& q.session == (SessionState {
                profile: params.profile,
                region: params.region,
                bucket: params.bucket,
                path: params.prefix,
                endpoint_url: params.endpoint_url,
                mode: q.session.mode,
            })
            &&& q.session.mode@ == "Browse"@
            &&& rows_for(params.prefix@, l, q.browser.items@)
            &&& q.browser.cursor == 0
            &&& q.browser.selected@.len() == 0
            &&& q.browser.warning is None
            &&& counters_reset(p.queue, q.queue)
            &&& q.ui == (UiState {
                show_connection_settings: false,
                connection_draft: ConnectionDraft { error: None, ..p.ui.connection_draft },
                ..p.ui
            })
            &&& logs_appended(
                p.logs@,
                q.logs@,
                connection_log(target, params.region@, params.bucket@, params.prefix@, warning, changed),
            )
        },
    }
}

impl App {
    /// Takes the listing for new connection settings (see [`connect_finished`]).
    pub fn finish_connect(
        &mut self,
        params: S3ConnectParams,
        target: S3Target,
        warning: Option<TargetWarning>,
        target_changed: bool,
        listing: Result<S3ListResult, String>,
    )
        ensures
            connect_finished(*old(self), params, target@, warning, target_changed, listing, *final(self)),
    {
        match listing {
            Err(err) => {
                self.ui.connection_draft.error = Some(owned("Connection failed. See Logs tab for details."));
                self.browser.warning = Some(owned("Connection failed. See Logs tab for details."));
                self.push_warn_multiline("connection failed", err.as_str());
            },
            Ok(l) => {
                let ghost p = params;
                self.session = SessionState {
                    profile: params.profile,
                    region: params.region,
                    bucket: params.bucket,
                    path: params.prefix,
                    endpoint_url: params.endpoint_url,
                    mode: owned("Browse"),
                };
                self.browser.warning = None;
                self.browser.items = build_browser_items(&self.session.path, &l);
                self.browser.selected.clear();
                self.browser.cursor = 0;
                self.queue.done_files = 0;
                self.queue.total_files = 0;
                self.queue.done_bytes = 0;
                self.queue.total_bytes = 0;
                self.queue.speed_bytes_per_sec = 0;
                self.queue.eta = owned("--:--");
                self.queue.started_at = None;
                self.queue.summary = owned("No queue prepared. Use d (selected) or D (folder).");
                let ghost before = self.logs@;
                let mut line = owned("INFO connection updated target=");
                line.append(target_label(&target).as_str());
                line.append(" region=");
                line.append(self.session.region.as_str());
                line.append(" bucket=");
                line.append(self.session.bucket.as_str());
                line.append(" prefix=");
                line.append(self.session.path.as_str());
                self.push_log(line);
                let ghost first = self.logs@;
                if warning.is_some() {
                    self.push_log(owned("WARN endpoint-url ignored because profile takes precedence"));
                }
                let ghost second = self.logs@;
                if target_changed {
                    self.push_log(owned("INFO profile/endpoint changed; browser reset to root prefix"));
                }
                self.ui.connection_draft.error = None;
                self.ui.show_connection_settings = false;
                proof {
                    let l0 = seq![
                        "INFO connection updated target="@ + target_text(target@) + " region="@ + p.region@
                            + " bucket="@ + p.bucket@ + " prefix="@ + p.prefix@,
                    ];
                    let l1: Seq<Seq<char>> = if warning is Some {
                        seq!["WARN endpoint-url ignored because profile takes precedence"@]
                    } else {
                        Seq::empty()
                    };
                    let l2: Seq<Seq<char>> = if target_changed {
                        seq!["INFO profile/endpoint changed; browser reset to root prefix"@]
                    } else {
                        Seq::empty()
                    };
                    assert(string_views(first) =~= string_views(before) + l0);
                    assert(string_views(second) =~= string_views(first) + l1);
                    assert(string_views(self.logs@) =~= string_views(second) + l2);
                    assert(string_views(self.logs@) =~= string_views(before) + (l0 + l1 + l2));
                }
            },
        }
    }
}

/// `req` asks to list `prefix` of the session's bucket in order to move there.
pub open spec fn navigate_request(p: App, req: Option<IoRequest>, prefix: Seq<char>, reason: Seq<char>) -> bool {
    req matches Some(IoRequest::Navigate { params, reason: r }) && session_params(p.session, params, prefix, 200)
        && r@ == reason
}

/// The browser shows `listing` at `path`, with the cursor on top, nothing selected and no
/// warning.
pub open spec fn browser_shows(b: BrowserState, path: Seq<char>, listing: S3ListResult) -> bool {
    &&& rows_for(path, listing, b.items@)
    &&& b.cursor == 0
    &&& b.selected@.len() == 0
    &&& b.warning is None
}

/// Only the browser warning and the log changed: the warning reads `warning` and the log
/// gained `lines`.
pub open spec fn warned(p: App, q: App, warning: Seq<char>, lines: Seq<Seq<char>>) -> bool {
    &&& q == (App { browser: BrowserState { warning: q.browser.warning, ..p.browser }, logs: q.logs, ..p })
    &&& q.browser.warning matches Some(w) && w@ == warning
    &&& logs_appended(p.logs@, q.logs@, lines)
}

/// The outcome of a listing made to move to `prefix`.
pub open spec fn navigation_finished(
    p: App,
    prefix: Seq<char>,
    reason: Seq<char>,
    listing: Result<S3ListResult, String>,
    q: App,
) -> bool {
    match listing {
        Err(e) => warned(
            p,
            q,
            "S3 navigation failed. See Logs tab for details."@,
            warn_lines("S3 navigation failed"@, e@),
        ),
        Ok(l) => {
            &&& q == (App {
                session: SessionState { path: q.session.path, ..p.session },
                browser: q.browser,
                logs: q.logs,
                ..p
            })
            &&& q.session.path@ == normalized(prefix)
            &&& browser_shows(q.browser, normalized(prefix), l)
            &&& logs_appended(
                p.logs@,
                q.logs@,
                seq![
                    "INFO navigated reason="@ + reason + " prefix="@ + normalized(prefix) + " target="@
                        + target_text(resolved_target(p.session.profile@, p.session.endpoint_url@).0),
                ],
            )
        },
    }
}

/// The outcome of listing the current prefix again.
pub open spec fn refresh_finished(p: App, listing: Result<S3ListResult, String>, q: App) -> bool {
    match listing {
        Err(e) => warned(
            p,
            q,
            "S3 refresh failed. See Logs tab for details."@,
            warn_lines("S3 refresh failed"@, e@),
        ),
        Ok(l) => {
            &&& q == (App { browser: q.browser, logs: q.logs, ..p })
            &&& browser_shows(q.browser, p.session.path@, l)
            &&& logs_appended(
                p.logs@,
                q.logs@,
                seq![
                    "INFO refreshed S3 listing target="@ + target_text(
                        resolved_target(p.session.profile@, p.session.endpoint_url@).0,
                    ),
                ],
            )
        },
    }
}

/// Enter on the cursor row: the way up and folders are opened (a listing is requested);
/// an object switches to the preview tab.
pub open spec fn enter_step(p: App, q: App, req: Option<IoRequest>) -> bool {
    let c = p.browser.cursor as int;
    if c >= p.browser.items@.len() {
        q == p && req is None
    } else {
        let it = p.browser.items@[c];
        match it.kind {
            BrowserItemKind::Parent => q == p && navigate_request(p, req, it.key@, "parent"@),
            BrowserItemKind::Dir => q == p && navigate_request(p, req, normalized(it.key@), "open-dir"@),
            BrowserItemKind::Obj => {
                &&& req is None
                &&& q == (App { ui: UiState { tab: WorkTab::Preview, ..p.ui }, logs: q.logs, ..p })
                &&& logs_appended(p.logs@, q.logs@, seq!["INFO open object preview key="@ + it.key@])
            },
        }
    }
}

/// Backspace: at the root only a note is logged; elsewhere the parent is requested.
pub open spec fn parent_step(p: App, q: App, req: Option<IoRequest>) -> bool {
    if p.session.path@ == "/"@ {
        &&& req is None
        &&& q == (App { logs: q.logs, ..p })
        &&& logs_appended(p.logs@, q.logs@, seq!["INFO already at root prefix"@])
    } else {
        q == p && navigate_request(p, req, parent_path(p.session.path@), "parent"@)
    }
}

impl App {
    /// Asks to list `prefix` in order to move there.
    pub fn navigate_to_prefix(&self, prefix: String, reason: &str) -> (r: IoRequest)
        ensures
            navigate_request(*self, Some(r), prefix@, reason@),
    {
        IoRequest::Navigate { params: self.session_params_for(prefix, 200), reason: owned(reason) }
    }

    /// Takes the listing of a prefix being moved to (see [`navigation_finished`]).
    pub fn finish_navigation(
        &mut self,
        params: S3ConnectParams,
        reason: String,
        listing: Result<S3ListResult, String>,
    )
        ensures
            navigation_finished(*old(self), params.prefix@, reason@, listing, *final(self)),
    {
        match listing {
            Ok(l) => {
                self.session.path = normalize_prefix(params.prefix.as_str());
                self.browser.items = build_browser_items(&self.session.path, &l);
                self.browser.cursor = 0;
                self.browser.warning = None;
                self.browser.selected.clear();
                let mut line = owned("INFO navigated reason=");
                line.append(reason.as_str());
                line.append(" prefix=");
                line.append(self.session.path.as_str());
                line.append(" target=");
                line.append(self.display_effective_target().as_str());
                self.push_log(line);
            },
            Err(err) => {
                self.browser.warning = Some(owned("S3 navigation failed. See Logs tab for details."));
                self.push_warn_multiline("S3 navigation failed", err.as_str());
            },
        }
    }

    /// Asks to list the current prefix again.
    pub fn reload_current_listing(&self) -> (r: IoRequest)
        ensures
            r matches IoRequest::Refresh { params } && session_params(self.session, params, self.session.path@, 200),
    {
        IoRequest::Refresh { params: self.session_params_for(self.session.path.clone(), 200) }
    }

    /// Takes the new listing of the current prefix (see [`refresh_finished`]).
    pub fn finish_refresh(&mut self, listing: Result<S3ListResult, String>)
        ensures
            refresh_finished(*old(self), listing, *final(self)),
    {
        match listing {
            Ok(l) => {
                self.browser.items = build_browser_items(&self.session.path, &l);
                self.browser.cursor = 0;
                self.browser.warning = None;
                self.browser.selected.clear();
                let mut line = owned("INFO refreshed S3 listing target=");
                line.append(self.display_effective_target().as_str());
                self.push_log(line);
            },
            Err(err) => {
                self.browser.warning = Some(owned("S3 refresh failed. See Logs tab for details."));
                self.push_warn_multiline("S3 refresh failed", err.as_str());
            },
        }
    }

    /// Opens the row under the cursor (see [`enter_step`]).
    pub fn handle_enter(&mut self) -> (r: Option<IoRequest>)
        ensures
            enter_step(*old(self), *final(self), r),
    {
        if self.browser.cursor >= self.browser.items.len() {
            return None;
        }
        let kind = self.browser.items[self.browser.cursor].kind;
        match kind {
            BrowserItemKind::Parent => {
                let key = self.browser.items[self.browser.cursor].key.clone();
                Some(self.navigate_to_prefix(key, "parent"))
            },
            BrowserItemKind::Dir => {
                let target = normalize_prefix(self.browser.items[self.browser.cursor].key.as_str());
                Some(self.navigate_to_prefix(target, "open-dir"))
            },
            BrowserItemKind::Obj => {
                self.ui.tab = WorkTab::Preview;
                let mut line = owned("INFO open object preview key=");
                line.append(self.browser.items[self.browser.cursor].key.as_str());
                self.push_log(line);
                None
            },
        }
    }

    /// Goes one level up (see [`parent_step`]).
    pub fn go_parent_prefix(&mut self) -> (r: Option<IoRequest>)
        ensures
            parent_step(*old(self), *final(self), r),
    {
        if is_root(&self.session.path) {
            self.push_log(owned("INFO already at root prefix"));
            return None;
        }
        let parent = parent_prefix(self.session.path.as_str());
        Some(self.navigate_to_prefix(parent, "parent"))
    }
}

/// Appends the decimal notation of `n`.
pub fn append_decimal(s: &mut String, n: u64)
    ensures
        final(s)@ == old(s)@ + decimal(n as nat),
{
    let d = decimal_string(n);
    s.append(d.as_str());
}

/// The queue was rebuilt from `objs`: fresh jobs, counters for the new total, the
/// estimate pending, the clock started when there is work, and the mode set to
/// `Download` (or `Browse` when there is nothing to do). The summary is left as it was.
pub open spec fn queue_prepared(p: App, objs: Seq<S3ObjectSummary>, q: App) -> bool {
    &&& q == (App {
        queue: q.queue,
        session: SessionState { mode: q.session.mode, ..p.session },
        ..p
    })
    &&& queue_rebuilt(p, objs, q)
    &&& q.queue.summary == p.queue.summary
}

/// The queue of `q` was rebuilt from `objs` (see [`queue_prepared`]); the summary and
/// other parts of the state are not constrained.
pub open spec fn queue_rebuilt(p: App, objs: Seq<S3ObjectSummary>, q: App) -> bool {
    let n = q.queue.jobs@.len();
    &&& jobs_for(objs, p.download_root, q.queue.jobs@)
    &&& q.queue.total_files == n
    &&& q.queue.total_bytes == merged_total(objs)
    &&& q.queue.done_files == 0
    &&& q.queue.done_bytes == 0
    &&& q.queue.speed_bytes_per_sec == 0
    &&& q.queue.eta@ == (if n > 0 { "calculating"@ } else { "--:--"@ })
    &&& (q.queue.started_at is Some) == (n > 0)
    &&& q.session.mode@ == (if n > 0 { "Download"@ } else { "Browse"@ })
}

/// Only the queue, the mode and the log of `q` may differ from `p`.
pub open spec fn queue_frame(p: App, q: App) -> bool {
    q == (App {
        queue: q.queue,
        session: SessionState { mode: q.session.mode, ..p.session },
        logs: q.logs,
        ..p
    })
}

/// The selection of `p`, with `listed` from its folders, was queued: the queue is rebuilt
/// from the resolved objects, and the plan is summarised and logged.
pub open spec fn selection_queued(p: App, listed: Seq<S3ObjectSummary>, q: App) -> bool {
    exists|r: SelectionResolution| #[trigger] resolution_of(p, listed, r) && {
        &&& queue_frame(p, q)
        &&& queue_rebuilt(p, r.objects@, q)
        &&& q.queue.summary@ == selection_summary(r.stats, q.queue.total_files)
        &&& logs_appended(p.logs@, q.logs@, seq![selection_log(r.stats, q.queue.total_files)])
    }
}

/// Every resolution of the selection of `p` with `listed` has a merged size that fits in
/// `u64`.
pub open spec fn selection_fits(p: App, listed: Seq<S3ObjectSummary>) -> bool {
    forall|r: SelectionResolution| #[trigger] resolution_of(p, listed, r) ==> merged_total(r.objects@) <= u64::MAX
}

/// `d`: nothing selected is reported; a selection without folders to expand is queued
/// at once; otherwise the first folder's listing is requested.
pub open spec fn queue_selected_step(p: App, q: App, req: Option<IoRequest>) -> bool {
    let sel = p.browser.selected@;
    let kept = kept_prefixes(folder_keys(sel));
    if sel.len() == 0 {
        &&& req is None
        &&& warned(
            p,
            q,
            "No selection to queue. Select objects or folders first."@,
            seq!["WARN queue requested with empty selection"@],
        )
    } else if kept.len() == 0 {
        req is None && selection_queued(p, Seq::empty(), q)
    } else {
        &&& q == p
        &&& req matches Some(IoRequest::ExpandSelection { params, prefixes, next, listed }) && {
            &&& session_params(p.session, params, normalized(kept[0]), 1000)
            &&& string_views(prefixes@) == kept
            &&& next == 0
            &&& listed@.len() == 0
        }
    }
}

/// The answer for folder `prefixes[next]` while resolving a selection: a failure is
/// reported; otherwise the next folder is requested, or, after the last one, the
/// selection is queued.
pub open spec fn selection_continued(
    p: App,
    prefixes: Seq<String>,
    next: int,
    listed: Seq<S3ObjectSummary>,
    result: Result<Vec<S3ObjectSummary>, String>,
    q: App,
    req: Option<IoRequest>,
) -> bool {
    match result {
        Err(e) => req is None && warned(
            p,
            q,
            "Failed to resolve selected objects. See Logs tab."@,
            warn_lines("resolve selected objects failed"@, e@),
        ),
        Ok(o) => if next + 1 < prefixes.len() {
            &&& q == p
            &&& req matches Some(IoRequest::ExpandSelection { params, prefixes: ps, next: n, listed: l }) && {
                &&& session_params(p.session, params, normalized(prefixes[next + 1]@), 1000)
                &&& ps@ == prefixes
                &&& n == next + 1
                &&& l@ == listed + o@
            }
        } else {
            req is None && selection_queued(p, listed + o@, q)
        },
    }
}

/// The summary after queueing the current folder.
pub open spec fn folder_summary(path: Seq<char>, total: u64) -> Seq<char> {
    "Plan: full folder prefix "@ + path + " => "@ + decimal(total as nat) + " queued object(s)"@
}

/// The outcome of listing the whole current folder to queue it.
pub open spec fn folder_queued(p: App, result: Result<Vec<S3ObjectSummary>, String>, q: App) -> bool {
    match result {
        Err(e) => warned(
            p,
            q,
            "Failed to queue folder download. See Logs tab."@,
            warn_lines("queue folder download failed"@, e@),
        ),
        Ok(o) => {
            &&& queue_frame(p, q)
            &&& queue_rebuilt(p, o@, q)
            &&& q.queue.summary@ == folder_summary(p.session.path@, q.queue.total_files)
            &&& logs_appended(
                p.logs@,
                q.logs@,
                seq![
                    "INFO queued folder prefix "@ + p.session.path@ + " with "@ + decimal(
                        q.queue.total_files as nat,
                    ) + " object(s)"@,
                ],
            )
        },
    }
}

/// The size known for key `k` from the first browser row with that key (0 when unknown).
pub open spec fn known_size(items: Seq<BrowserItem>, k: Seq<char>) -> u64
    decreases items.len(),
{
    if items.len() == 0 {
        0
    } else if items[0].key@ == k {
        match items[0].size {
            Some(sz) => sz,
            None => 0,
        }
    } else {
        known_size(items.drop_first(), k)
    }
}

/// `directs` are summaries for the direct keys: sizes from the browser, time unknown.
pub open spec fn direct_summaries(items: Seq<BrowserItem>, keys: Seq<Seq<char>>, directs: Seq<S3ObjectSummary>) -> bool {
    &&& directs.len() == keys.len()
    &&& forall|i: int| 0 <= i < keys.len() ==> {
        let d = #[trigger] directs[i];
        &&& d.key@ == keys[i]
        &&& d.size == known_size(items, keys[i])
        &&& d.modified@ == "-"@
    }
}

/// Counts describing how a selection was resolved.
#[derive(Debug, Clone, Copy)]
pub struct SelectionResolutionStats {
    pub selected_prefix_count: usize,
    pub selected_object_count: usize,
    pub effective_prefix_count: usize,
    pub effective_direct_object_count: usize,
    pub overlapping_prefixes_skipped: usize,
    pub covered_objects_skipped: usize,
}

/// The objects a selection resolves to, and how.
#[derive(Debug)]
pub struct SelectionResolution {
    pub objects: Vec<S3ObjectSummary>,
    pub stats: SelectionResolutionStats,
}

/// `r` resolves the selection of `p` given `listed`, what the selected folders' listings
/// returned: the first summary per key among the listed objects followed by the direct
/// objects, in key order; and the plan's counts.
pub open spec fn resolution_of(p: App, listed: Seq<S3ObjectSummary>, r: SelectionResolution) -> bool {
    let sel = p.browser.selected@;
    let folders = folder_keys(sel);
    let objects = object_keys(sel);
    let kept = kept_prefixes(folders);
    let direct = uncovered_keys(objects, kept);
    &&& exists|directs: Seq<S3ObjectSummary>|
        direct_summaries(p.browser.items@, direct, directs) && #[trigger] first_by_key(listed + directs, r.objects@)
    &&& r.stats.selected_prefix_count == folders.len()
    &&& r.stats.selected_object_count == objects.len()
    &&& r.stats.effective_prefix_count == kept.len()
    &&& r.stats.effective_direct_object_count == direct.len()
    &&& r.stats.overlapping_prefixes_skipped == folders.len() - kept.len()
    &&& r.stats.covered_objects_skipped == objects.len() - direct.len()
}

/// The queue summary after queueing a selection.
pub open spec fn selection_summary(st: SelectionResolutionStats, total: u64) -> Seq<char> {
    "Plan: selected "@ + decimal(st.selected_object_count as nat) + " objects + "@ + decimal(
        st.selected_prefix_count as nat,
    ) + " prefixes -> "@ + decimal(st.effective_prefix_count as nat) + " effective prefixes + "@
        + decimal(st.effective_direct_object_count as nat) + " direct objects (skipped "@ + decimal(
        st.overlapping_prefixes_skipped as nat,
    ) + " overlap prefixes, "@ + decimal(st.covered_objects_skipped as nat) + " covered objects) => "@
        + decimal(total as nat) + " queued"@
}

/// The log line after queueing a selection.
pub open spec fn selection_log(st: SelectionResolutionStats, total: u64) -> Seq<char> {
    "INFO queue summary selected(objects="@ + decimal(st.selected_object_count as nat) + ", prefixes="@
        + decimal(st.selected_prefix_count as nat) + ") effective(prefixes="@ + decimal(
        st.effective_prefix_count as nat,
    ) + ", direct_objects="@ + decimal(st.effective_direct_object_count as nat)
        + ") skipped(overlap_prefixes="@ + decimal(st.overlapping_prefixes_skipped as nat)
        + ", covered_objects="@ + decimal(st.covered_objects_skipped as nat) + ") final_objects="@
        + decimal(total as nat)
}

/// The size shown for `key` in the browser, or 0.
fn known_size_of(items: &Vec<BrowserItem>, key: &String) -> (r: u64)
    ensures
        r == known_size(items@, key@),
{
    let k = str_chars(key.as_str());
    let mut i: usize = 0;
    assert(items@.skip(0) =~= items@);
    while i < items.len()
        invariant
            i <= items@.len(),
            k@ == key@,
            known_size(items@, key@) == known_size(items@.skip(i as int), key@),
        decreases items.len() - i,
    {
        let ik = str_chars(items[i].key.as_str());
        assert(items@.skip(i as int)[0] == items@[i as int]);
        if crate::text::chars_eq(&ik, &k) {
            return match items[i].size {
                Some(sz) => sz,
                None => 0,
            };
        }
        assert(items@.skip(i as int).drop_first() =~= items@.skip(i + 1));
        i = i + 1;
    }
    0
}

impl App {
    /// Rebuilds the queue from listed objects (see [`queue_prepared`]).
    pub fn prepare_download_queue(&mut self, objects: Vec<S3ObjectSummary>)
        requires
            merged_total(objects@) <= u64::MAX,
        ensures
            queue_prepared(*old(self), objects@, *final(self)),
    {
        let jobs = jobs_for_objects(&objects, &self.download_root);
        self.queue.jobs = jobs;
        let n = self.queue.jobs.len();
        self.queue.total_files = n as u64;
        self.queue.total_bytes = crate::queue::sum_job_sizes(&self.queue.jobs);
        self.queue.done_files = 0;
        self.queue.done_bytes = 0;
        self.queue.speed_bytes_per_sec = 0;
        if n > 0 {
            self.queue.eta = owned("calculating");
            self.queue.started_at = Some(crate::system::now());
            self.session.mode = owned("Download");
        } else {
            self.queue.eta = owned("--:--");
            self.queue.started_at = None;
            self.session.mode = owned("Browse");
        }
    }

    /// The objects the current selection resolves to, given what the listings of the
    /// selected folders returned (see [`resolution_of`]).
    pub fn resolve_selected_objects(&self, listed: Vec<S3ObjectSummary>) -> (r: SelectionResolution)
        ensures
            resolution_of(*self, listed@, r),
    {
        let plan = SelectionPlan::from_selected(&self.browser.selected);
        let ghost direct = string_views(plan.effective_object_keys@);
        let mut directs: Vec<S3ObjectSummary> = Vec::new();
        let mut i: usize = 0;
        while i < plan.effective_object_keys.len()
            invariant
                i <= plan.effective_object_keys@.len(),
                direct == string_views(plan.effective_object_keys@),
                direct_summaries(self.browser.items@, direct.take(i as int), directs@),
            decreases plan.effective_object_keys.len() - i,
        {
            let key = &plan.effective_object_keys[i];
            let size = known_size_of(&self.browser.items, key);
            directs.push(S3ObjectSummary { key: key.clone(), size, modified: owned("-") });
            i = i + 1;
        }
        assert(direct.take(direct.len() as int) =~= direct);
        let ghost ds = directs@;
        let mut combined = listed;
        let ghost lv = combined@;
        combined.append(&mut directs);
        assert(combined@ =~= lv + ds);
        let objects = keep_first_by_key(&combined);
        proof {
            assert(crate::selection::plan_for(self.browser.selected@, plan));
        }
        let r = SelectionResolution {
            objects,
            stats: SelectionResolutionStats {
                selected_prefix_count: plan.selected_prefix_count,
                selected_object_count: plan.selected_object_count,
                effective_prefix_count: plan.effective_prefixes.len(),
                effective_direct_object_count: plan.effective_object_keys.len(),
                overlapping_prefixes_skipped: plan.overlapping_prefixes_skipped,
                covered_objects_skipped: plan.covered_objects_skipped,
            },
        };
        proof {
            assert(direct_summaries(self.browser.items@, direct, ds) && first_by_key(listed@ + ds, r.objects@));
        }
        r
    }
}

impl App {
    /// Queues the selection once every folder listing is in (see [`selection_queued`]).
    pub fn finish_selection(&mut self, listed: Vec<S3ObjectSummary>)
        requires
            selection_fits(*old(self), listed@),
        ensures
            selection_queued(*old(self), listed@, *final(self)),
    {
        let ghost p = *self;
        let ghost lv = listed@;
        let resolution = self.resolve_selected_objects(listed);
        assert(resolution_of(p, lv, resolution));
        let stats = resolution.stats;
        self.prepare_download_queue(resolution.objects);
        let total = self.queue.total_files;
        let mut summary = owned("Plan: selected ");
        append_decimal(&mut summary, stats.selected_object_count as u64);
        summary.append(" objects + ");
        append_decimal(&mut summary, stats.selected_prefix_count as u64);
        summary.append(" prefixes -> ");
        append_decimal(&mut summary, stats.effective_prefix_count as u64);
        summary.append(" effective prefixes + ");
        append_decimal(&mut summary, stats.effective_direct_object_count as u64);
        summary.append(" direct objects (skipped ");
        append_decimal(&mut summary, stats.overlapping_prefixes_skipped as u64);
        summary.append(" overlap prefixes, ");
        append_decimal(&mut summary, stats.covered_objects_skipped as u64);
        summary.append(" covered objects) => ");
        append_decimal(&mut summary, total);
        summary.append(" queued");
        self.queue.summary = summary;
        let mut line = owned("INFO queue summary selected(objects=");
        append_decimal(&mut line, stats.selected_object_count as u64);
        line.append(", prefixes=");
        append_decimal(&mut line, stats.selected_prefix_count as u64);
        line.append(") effective(prefixes=");
        append_decimal(&mut line, stats.effective_prefix_count as u64);
        line.append(", direct_objects=");
        append_decimal(&mut line, stats.effective_direct_object_count as u64);
        line.append(") skipped(overlap_prefixes=");
        append_decimal(&mut line, stats.overlapping_prefixes_skipped as u64);
        line.append(", covered_objects=");
        append_decimal(&mut line, stats.covered_objects_skipped as u64);
        line.append(") final_objects=");
        append_decimal(&mut line, total);
        self.push_log(line);
        assert(resolution_of(p, lv, resolution));
    }

    /// Queues the selected keys (see [`queue_selected_step`]).
    pub fn queue_download_selected(&mut self) -> (r: Option<IoRequest>)
        requires
            selection_fits(*old(self), Seq::empty()),
        ensures
            queue_selected_step(*old(self), *final(self), r),
    {
        if self.browser.selected.is_empty() {
            self.browser.warning = Some(owned("No selection to queue. Select objects or folders first."));
            self.push_log(owned("WARN queue requested with empty selection"));
            return None;
        }
        let plan = SelectionPlan::from_selected(&self.browser.selected);
        if plan.effective_prefixes.len() == 0 {
            self.finish_selection(Vec::new());
            return None;
        }
        let first = normalize_prefix(plan.effective_prefixes[0].as_str());
        let params = self.session_params_for(first, 1000);
        Some(IoRequest::ExpandSelection { params, prefixes: plan.effective_prefixes, next: 0, listed: Vec::new() })
    }

    /// Takes the listing of folder `prefixes[next]` while resolving a selection
    /// (see [`selection_continued`]).
    pub fn continue_selection(
        &mut self,
        prefixes: Vec<String>,
        next: usize,
        listed: Vec<S3ObjectSummary>,
        result: Result<Vec<S3ObjectSummary>, String>,
    ) -> (r: Option<IoRequest>)
        requires
            next < prefixes@.len(),
            result matches Ok(o) ==> (next + 1 >= prefixes@.len() ==> selection_fits(*old(self), listed@ + o@)),
        ensures
            selection_continued(*old(self), prefixes@, next as int, listed@, result, *final(self), r),
    {
        match result {
            Err(err) => {
                self.browser.warning = Some(owned("Failed to resolve selected objects. See Logs tab."));
                self.push_warn_multiline("resolve selected objects failed", err.as_str());
                None
            },
            Ok(objects) => {
                let mut all = listed;
                let ghost lv = all@;
                let ghost ov = objects@;
                let mut more = objects;
                all.append(&mut more);
                assert(all@ =~= lv + ov);
                if next < prefixes.len() - 1 {
                    let following = normalize_prefix(prefixes[next + 1].as_str());
                    let params = self.session_params_for(following, 1000);
                    Some(IoRequest::ExpandSelection { params, prefixes, next: next + 1, listed: all })
                } else {
                    self.finish_selection(all);
                    None
                }
            },
        }
    }

    /// Asks to list every object under the current prefix in order to queue it.
    pub fn queue_download_folder(&self) -> (r: IoRequest)
        ensures
            r matches IoRequest::ListFolder { params } && session_params(self.session, params, self.session.path@, 1000),
    {
        IoRequest::ListFolder { params: self.session_params_for(self.session.path.clone(), 1000) }
    }

    /// Queues the objects listed under the current prefix (see [`folder_queued`]).
    pub fn finish_queue_folder(&mut self, result: Result<Vec<S3ObjectSummary>, String>)
        requires
            result matches Ok(o) ==> merged_total(o@) <= u64::MAX,
        ensures
            folder_queued(*old(self), result, *final(self)),
    {
        match result {
            Ok(objects) => {
                self.prepare_download_queue(objects);
                let total = self.queue.total_files;
                let mut summary = owned("Plan: full folder prefix ");
                summary.append(self.session.path.as_str());
                summary.append(" => ");
                append_decimal(&mut summary, total);
                summary.append(" queued object(s)");
                self.queue.summary = summary;
                let mut line = owned("INFO queued folder prefix ");
                line.append(self.session.path.as_str());
                line.append(" with ");
                append_decimal(&mut line, total);
                line.append(" object(s)");
                self.push_log(line);
            },
            Err(err) => {
                self.browser.warning = Some(owned("Failed to queue folder download. See Logs tab."));
                self.push_warn_multiline("queue folder download failed", err.as_str());
            },
        }
    }
}

/// The estimate shown after `nanos` nanoseconds of transfer: nothing measurable yet, or
/// the average speed so far and the time left for the unfinished jobs at that speed.
pub open spec fn estimate_for(qs: QueueState, nanos: u64, speed: u64, eta: Seq<char>) -> bool {
    let remaining = remaining_size(qs.jobs@);
    if nanos == 0 {
        speed == 0 && eta == "calculating"@
    } else {
        &&& speed == speed_for(qs.done_bytes as nat, nanos as nat)
        &&& eta == if remaining == 0 {
            "00:00"@
        } else if qs.done_bytes == 0 {
            "calculating"@
        } else {
            eta_text(eta_seconds_for(remaining, qs.done_bytes as nat, nanos as nat))
        }
    }
}

/// `speed` and `eta` are the estimate for the queue `qs` after some elapsed time since it
/// started (none when it has not started).
pub open spec fn estimate_ok(qs: QueueState, speed: u64, eta: Seq<char>) -> bool {
    match qs.started_at {
        None => speed == 0 && eta == "--:--"@,
        Some(_) => exists|n: u64| #[trigger] estimate_for(qs, n, speed, eta),
    }
}

/// Only the speed and the estimate of the queue changed (see [`estimate_ok`]).
pub open spec fn metrics_refreshed(p: App, q: App) -> bool {
    &&& q == (App {
        queue: QueueState { speed_bytes_per_sec: q.queue.speed_bytes_per_sec, eta: q.queue.eta, ..p.queue },
        ..p
    })
    &&& estimate_ok(p.queue, q.queue.speed_bytes_per_sec, q.queue.eta@)
}

/// Every job is done or failed.
pub open spec fn all_finished(jobs: Seq<QueueJob>) -> bool {
    forall|i: int| 0 <= i < jobs.len() ==> !crate::queue::is_unfinished(#[trigger] jobs[i].status)
}

/// Whether every job is done or failed.
fn jobs_all_finished(jobs: &Vec<QueueJob>) -> (r: bool)
    ensures
        r == all_finished(jobs@),
{
    let mut i: usize = 0;
    while i < jobs.len()
        invariant
            i <= jobs@.len(),
            forall|k: int| 0 <= k < i ==> !crate::queue::is_unfinished(#[trigger] jobs@[k].status),
        decreases jobs.len() - i,
    {
        if jobs[i].status == QueueJobStatus::Pending || jobs[i].status == QueueJobStatus::Running {
            return false;
        }
        i = i + 1;
    }
    true
}

impl App {
    /// Sets speed and estimate for `nanos` nanoseconds of transfer (see [`estimate_for`]).
    pub fn apply_transfer_metrics(&mut self, nanos: u64)
        requires
            remaining_size(old(self).queue.jobs@) <= u64::MAX,
        ensures
            *final(self) == (App {
                queue: QueueState {
                    speed_bytes_per_sec: final(self).queue.speed_bytes_per_sec,
                    eta: final(self).queue.eta,
                    ..old(self).queue
                },
                ..*old(self)
            }),
            estimate_for(old(self).queue, nanos, final(self).queue.speed_bytes_per_sec, final(self).queue.eta@),
    {
        if nanos == 0 {
            self.queue.speed_bytes_per_sec = 0;
            self.queue.eta = owned("calculating");
            return;
        }
        let remaining = crate::queue::sum_remaining_sizes(&self.queue.jobs);
        if self.queue.done_bytes == 0 {
            self.queue.speed_bytes_per_sec = 0;
            assert(speed_for(0, nanos as nat) == 0) by (nonlinear_arith)
                requires
                    nanos > 0,
            ;
            self.queue.eta = if remaining == 0 {
                owned("00:00")
            } else {
                owned("calculating")
            };
            return;
        }
        let (speed, eta_seconds) = crate::queue::transfer_rates(self.queue.done_bytes, remaining, nanos);
        self.queue.speed_bytes_per_sec = speed;
        self.queue.eta = if remaining == 0 {
            owned("00:00")
        } else {
            format_eta(eta_seconds)
        };
    }

    /// Refreshes speed and estimate from the clock (see [`metrics_refreshed`]).
    pub fn update_transfer_metrics(&mut self)
        requires
            remaining_size(old(self).queue.jobs@) <= u64::MAX,
        ensures
            metrics_refreshed(*old(self), *final(self)),
    {
        match &self.queue.started_at {
            None => {
                self.queue.speed_bytes_per_sec = 0;
                self.queue.eta = owned("--:--");
            },
            Some(started) => {
                let elapsed = crate::system::nanos_since(started);
                let nanos: u64 = if elapsed > u64::MAX as u128 {
                    u64::MAX
                } else {
                    elapsed as u64
                };
                self.apply_transfer_metrics(nanos);
                assert(estimate_for(old(self).queue, nanos, self.queue.speed_bytes_per_sec, self.queue.eta@));
            },
        }
    }
}

/// The positions of the pending jobs, in order.
pub open spec fn pending_positions(jobs: Seq<QueueJob>) -> Seq<int>
    decreases jobs.len(),
{
    if jobs.len() == 0 {
        Seq::empty()
    } else {
        let r = pending_positions(jobs.drop_last());
        if jobs.last().status == QueueJobStatus::Pending {
            r.push(jobs.len() - 1)
        } else {
            r
        }
    }
}

/// The first `k` elements of `s`, or all of them.
pub open spec fn take_at_most(s: Seq<int>, k: int) -> Seq<int> {
    if s.len() <= k {
        s
    } else {
        s.take(k)
    }
}

/// The attempt number after one more attempt (saturating).
pub open spec fn attempt_after(a: u8) -> u8 {
    if a < 255 {
        (a + 1) as u8
    } else {
        255
    }
}

/// A job handed out for download: one more attempt, running.
pub open spec fn dispatched_job(j: QueueJob) -> QueueJob {
    QueueJob { attempts: attempt_after(j.attempts), status: QueueJobStatus::Running, ..j }
}

/// The log line for handing out a download.
pub open spec fn download_log(key: Seq<char>, attempt: u8, max_retries: u8) -> Seq<char> {
    "INFO downloading key="@ + key + " attempt="@ + decimal(attempt as nat) + "/"@ + decimal(
        max_retries as nat,
    )
}

/// When every job is done or failed while downloading, the mode goes back to `Browse`
/// and the completion is logged; otherwise mode and log stay.
pub open spec fn completion_checked(p: App, jobs: Seq<QueueJob>, q: App) -> bool {
    if all_finished(jobs) && p.session.mode@ == "Download"@ {
        q.session.mode@ == "Browse"@ && logs_appended(p.logs@, q.logs@, seq!["INFO download queue completed"@])
    } else {
        q.session.mode == p.session.mode && q.logs == p.logs
    }
}

/// How many jobs may start now: the free download slots.
pub open spec fn free_slots(p: App) -> int {
    let running = count_status(p.queue.jobs@, QueueJobStatus::Running);
    if p.download_concurrency > running {
        p.download_concurrency - running
    } else {
        0
    }
}

/// A timer tick: with jobs queued, the clock starts if needed; the first pending jobs,
/// up to the free slots, are handed out for download (with one more attempt each and a
/// log line). When none can start, the estimate is refreshed, and when nothing is left to
/// do the download mode ends.
pub open spec fn tick_step(p: App, q: App, req: Option<IoRequest>) -> bool {
    let jobs = p.queue.jobs@;
    let chosen = take_at_most(pending_positions(jobs), free_slots(p));
    let started = App { queue: QueueState { started_at: q.queue.started_at, ..p.queue }, ..p };
    if jobs.len() == 0 {
        q == p && req is None
    } else {
        &&& q.queue.started_at is Some
        &&& p.queue.started_at is Some ==> q.queue.started_at == p.queue.started_at
        &&& if free_slots(p) == 0 {
            req is None && metrics_refreshed(started, q)
        } else if chosen.len() == 0 {
            &&& req is None
            &&& q == (App {
                queue: QueueState {
                    speed_bytes_per_sec: q.queue.speed_bytes_per_sec,
                    eta: q.queue.eta,
                    started_at: q.queue.started_at,
                    ..p.queue
                },
                session: SessionState { mode: q.session.mode, ..p.session },
                logs: q.logs,
                ..p
            })
            &&& metrics_refreshed(started, App { session: p.session, logs: p.logs, ..q })
            &&& completion_checked(p, jobs, q)
        } else {
            &&& q == (App {
                queue: QueueState { jobs: q.queue.jobs, started_at: q.queue.started_at, ..p.queue },
                logs: q.logs,
                ..p
            })
            &&& q.queue.jobs@.len() == jobs.len()
            &&& forall|i: int| 0 <= i < jobs.len() ==> #[trigger] q.queue.jobs@[i] == if chosen.contains(i) {
                dispatched_job(jobs[i])
            } else {
                jobs[i]
            }
            &&& logs_appended(
                p.logs@,
                q.logs@,
                chosen.map_values(|i: int| download_log(jobs[i].key@, attempt_after(jobs[i].attempts), p.max_retries)),
            )
            &&& req matches Some(IoRequest::Download { params, tasks }) && {
                &&& session_params(p.session, params, p.session.path@, 200)
                &&& tasks@.len() == chosen.len()
                &&& forall|k: int| 0 <= k < chosen.len() ==> {
                    let t = #[trigger] tasks@[k];
                    &&& t.index == chosen[k]
                    &&& t.key == jobs[chosen[k]].key
                    &&& t.path == jobs[chosen[k]].local_path
                }
            }
        }
    }
}

proof fn lemma_pending_positions(jobs: Seq<QueueJob>)
    ensures
        forall|k: int| 0 <= k < pending_positions(jobs).len() ==> {
            let i = #[trigger] pending_positions(jobs)[k];
            0 <= i < jobs.len() && jobs[i].status == QueueJobStatus::Pending
        },
        forall|a: int, b: int| 0 <= a < b < pending_positions(jobs).len() ==> pending_positions(jobs)[a] < pending_positions(jobs)[b],
        pending_positions(jobs).len() == 0 ==> forall|i: int| 0 <= i < jobs.len() ==> jobs[i].status != QueueJobStatus::Pending,
    decreases jobs.len(),
{
    if jobs.len() > 0 {
        lemma_pending_positions(jobs.drop_last());
        let r = pending_positions(jobs.drop_last());
        assert forall|i: int| 0 <= i < jobs.len() - 1 implies jobs.drop_last()[i] == jobs[i] by {}
    }
}

proof fn lemma_pending_positions_step(jobs: Seq<QueueJob>, i: int)
    requires
        0 <= i < jobs.len(),
    ensures
        pending_positions(jobs.take(i + 1)) == if jobs[i].status == QueueJobStatus::Pending {
            pending_positions(jobs.take(i)).push(i)
        } else {
            pending_positions(jobs.take(i))
        },
{
    assert(jobs.take(i + 1).drop_last() =~= jobs.take(i));
}

impl App {
    /// Handles a timer tick for the download queue (see [`tick_step`]).
    pub fn process_queue_tick(&mut self) -> (r: Option<IoRequest>)
        requires
            remaining_size(old(self).queue.jobs@) <= u64::MAX,
        ensures
            tick_step(*old(self), *final(self), r),
    {
        if self.queue.jobs.len() == 0 {
            return None;
        }
        if self.queue.started_at.is_none() {
            self.queue.started_at = Some(crate::system::now());
        }
        let ghost p = *old(self);
        let ghost jobs = p.queue.jobs@;
        let running = crate::queue::count_jobs_with(&self.queue.jobs, QueueJobStatus::Running);
        let slots: usize = if self.download_concurrency > running {
            self.download_concurrency - running
        } else {
            0
        };
        if slots == 0 {
            self.update_transfer_metrics();
            return None;
        }
        let mut indices: Vec<usize> = Vec::new();
        let mut i: usize = 0;
        while i < self.queue.jobs.len()
            invariant
                i <= jobs.len(),
                self.queue.jobs@ == jobs,
                slots as int == free_slots(p),
                indices@.map_values(|x: usize| x as int) == take_at_most(pending_positions(jobs.take(i as int)), slots as int),
            decreases jobs.len() - i,
        {
            proof {
                lemma_pending_positions_step(jobs, i as int);
            }
            if self.queue.jobs[i].status == QueueJobStatus::Pending && indices.len() < slots {
                let ghost before = indices@;
                indices.push(i);
                assert(indices@.map_values(|x: usize| x as int) =~= before.map_values(|x: usize| x as int).push(i as int));
            }
            proof {
                let a = pending_positions(jobs.take(i as int));
                if jobs[i as int].status == QueueJobStatus::Pending && a.len() >= slots {
                    assert(a.push(i as int).take(slots as int) =~= a.take(slots as int));
                }
            }
            i = i + 1;
        }
        assert(jobs.take(jobs.len() as int) =~= jobs);
        let ghost chosen = take_at_most(pending_positions(jobs), slots as int);
        proof {
            lemma_pending_positions(jobs);
        }
        if indices.len() == 0 {
            let ghost started = *self;
            self.update_transfer_metrics();
            let ghost measured = *self;
            let finished = jobs_all_finished(&self.queue.jobs);
            let downloading = chars_eq_str(&str_chars(self.session.mode.as_str()), "Download");
            if finished && downloading {
                self.session.mode = owned("Browse");
                self.push_log(owned("INFO download queue completed"));
            }
            proof {
                assert(metrics_refreshed(started, measured));
                assert(App { session: p.session, logs: p.logs, ..*self } == measured);
            }
            return None;
        }
        let ghost logs0 = self.logs@;
        let mut tasks: Vec<DownloadTask> = Vec::new();
        let mut k: usize = 0;
        while k < indices.len()
            invariant
                k <= indices@.len(),
                indices@.map_values(|x: usize| x as int) == chosen,
                forall|a: int| 0 <= a < chosen.len() ==> {
                    let x = #[trigger] chosen[a];
                    0 <= x < jobs.len() && jobs[x].status == QueueJobStatus::Pending
                },
                forall|a: int, b: int| 0 <= a < b < chosen.len() ==> chosen[a] < chosen[b],
                self.queue.jobs@.len() == jobs.len(),
                forall|x: int| 0 <= x < jobs.len() ==> #[trigger] self.queue.jobs@[x] == if chosen.take(k as int).contains(x) {
                    dispatched_job(jobs[x])
                } else {
                    jobs[x]
                },
                *self == (App {
                    queue: QueueState { jobs: self.queue.jobs, ..self.queue },
                    logs: self.logs,
                    ..*self
                }),
                self.queue == (QueueState { jobs: self.queue.jobs, started_at: self.queue.started_at, ..p.queue }),
                self.queue.started_at is Some,
                p.queue.started_at is Some ==> self.queue.started_at == p.queue.started_at,
                self.session == p.session,
                self.max_retries == p.max_retries,
                *self == (App { queue: self.queue, logs: self.logs, ..p }),
                logs_appended(
                    logs0,
                    self.logs@,
                    chosen.take(k as int).map_values(|x: int| download_log(jobs[x].key@, attempt_after(jobs[x].attempts), p.max_retries)),
                ),
                string_views(logs0) == string_views(p.logs@),
                tasks@.len() == k,
                forall|a: int| 0 <= a < k ==> {
                    let t = #[trigger] tasks@[a];
                    &&& t.index == chosen[a]
                    &&& t.key == jobs[chosen[a]].key
                    &&& t.path == jobs[chosen[a]].local_path
                },
            decreases indices.len() - k,
        {
            let idx = indices[k];
            assert(chosen[k as int] == idx as int);
            let ghost jobs_before = self.queue.jobs@;
            let mut job = self.queue.jobs.remove(idx);
            assert(job == jobs[idx as int]) by {
                assert(!chosen.take(k as int).contains(idx as int)) by {
                    if chosen.take(k as int).contains(idx as int) {
                        let a = choose|a: int| 0 <= a < k && chosen.take(k as int)[a] == idx as int;
                        assert(chosen[a] < chosen[k as int]);
                    }
                }
            }
            let attempt: u8 = if job.attempts < 255 {
                job.attempts + 1
            } else {
                255
            };
            job.attempts = attempt;
            job.status = QueueJobStatus::Running;
            let key = job.key.clone();
            let path = job.local_path.clone();
            self.queue.jobs.insert(idx, job);
            proof {
                assert(self.queue.jobs@ =~= jobs_before.update(idx as int, dispatched_job(jobs[idx as int])));
                assert(chosen.take(k + 1) =~= chosen.take(k as int).push(idx as int));
                assert forall|x: int| 0 <= x < jobs.len() implies #[trigger] self.queue.jobs@[x] == if chosen.take(k + 1).contains(x) {
                    dispatched_job(jobs[x])
                } else {
                    jobs[x]
                } by {
                    if x == idx as int {
                        assert(chosen.take(k + 1)[k as int] == x);
                    } else {
                        assert(self.queue.jobs@[x] == jobs_before[x]);
                        if chosen.take(k + 1).contains(x) {
                            let a = choose|a: int| 0 <= a < k + 1 && #[trigger] chosen.take(k + 1)[a] == x;
                            assert(a < k);
                            assert(chosen.take(k as int)[a] == x);
                        }
                        if chosen.take(k as int).contains(x) {
                            let a = choose|a: int| 0 <= a < k && #[trigger] chosen.take(k as int)[a] == x;
                            assert(chosen.take(k + 1)[a] == x);
                        }
                    }
                }
            }
            let mut line = owned("INFO downloading key=");
            line.append(key.as_str());
            line.append(" attempt=");
            append_decimal(&mut line, attempt as u64);
            line.append("/");
            append_decimal(&mut line, self.max_retries as u64);
            let ghost logs_before = self.logs@;
            self.push_log(line);
            proof {
                let f = |x: int| download_log(jobs[x].key@, attempt_after(jobs[x].attempts), p.max_retries);
                assert(chosen.take(k + 1).map_values(f) =~= chosen.take(k as int).map_values(f).push(f(idx as int)));
                assert(string_views(self.logs@) =~= string_views(logs0) + chosen.take(k + 1).map_values(f));
            }
            tasks.push(DownloadTask { index: idx, key, path });
            k = k + 1;
        }
        proof {
            assert(chosen.take(chosen.len() as int) =~= chosen);
        }
        let params = self.session_params_for(self.session.path.clone(), 200);
        Some(IoRequest::Download { params, tasks })
    }
}

/// The expected text of a log line.
pub enum LogLine {
    Exact(Seq<char>),
}

/// Whether line `l` has the expected text.
pub open spec fn line_fits(l: Seq<char>, shape: LogLine) -> bool {
    match shape {
        LogLine::Exact(t) => l == t,
    }
}

/// Lines of the given shapes were appended to log `old`, giving `new`.
pub open spec fn logs_shaped(old: Seq<String>, new: Seq<String>, shapes: Seq<LogLine>) -> bool {
    &&& new.len() == old.len() + shapes.len()
    &&& string_views(new).take(old.len() as int) == string_views(old)
    &&& forall|i: int| 0 <= i < shapes.len() ==> line_fits(#[trigger] new[old.len() + i]@, shapes[i])
}

/// Exact-text shapes for the given lines.
pub open spec fn exact_lines(lines: Seq<Seq<char>>) -> Seq<LogLine> {
    lines.map_values(|l: Seq<char>| LogLine::Exact(l))
}

/// Jobs, counters and new log lines while download outcomes are taken in.
pub struct Progress {
    pub jobs: Seq<QueueJob>,
    pub done_files: nat,
    pub done_bytes: nat,
    pub lines: Seq<LogLine>,
}

/// Taking in one download outcome: success marks the job done and counts its bytes;
/// a failure puts the job back in line while retries remain (`max_retries` retries after
/// the first attempt, so at most `max_retries + 1` attempts), and otherwise marks it
/// failed; the error is kept on the job and logged.
pub open spec fn after_outcome(s: Progress, o: DownloadOutcome, max_retries: u8) -> Progress {
    let i = o.index as int;
    let j = s.jobs[i];
    match o.result {
        Ok(d) => Progress {
            jobs: s.jobs.update(i, QueueJob { status: QueueJobStatus::Done, error: None, ..j }),
            done_files: s.done_files + 1,
            done_bytes: s.done_bytes + d.bytes_written as nat,
            lines: s.lines.push(
                LogLine::Exact(
                    "INFO download complete key="@ + o.key@ + " bytes="@ + decimal(d.bytes_written as nat)
                        + " path="@ + path_shown(o.path),
                ),
            ),
        },
        Err(e) => if j.attempts <= max_retries {
            Progress {
                jobs: s.jobs.update(i, QueueJob { status: QueueJobStatus::Pending, error: Some(e), ..j }),
                lines: s.lines + exact_lines(
                    seq![
                        "WARN download failed key="@ + o.key@ + " attempt="@ + decimal(j.attempts as nat)
                            + "/"@ + decimal(max_retries as nat) + " retrying"@,
                    ] + warn_lines("download attempt failed"@, e@),
                ),
                ..s
            }
        } else {
            Progress {
                jobs: s.jobs.update(i, QueueJob { status: QueueJobStatus::Failed, error: Some(e), ..j }),
                done_files: s.done_files + 1,
                lines: s.lines + exact_lines(
                    seq![
                        "WARN download failed permanently key="@ + o.key@ + " attempts="@ + decimal(
                            j.attempts as nat,
                        ),
                    ] + warn_lines("download failed permanently"@, e@),
                ),
                ..s
            }
        },
    }
}

/// Taking in the outcomes in order.
pub open spec fn after_outcomes(s: Progress, outs: Seq<DownloadOutcome>, max_retries: u8) -> Progress
    decreases outs.len(),
{
    if outs.len() == 0 {
        s
    } else {
        after_outcome(after_outcomes(s, outs.drop_last(), max_retries), outs.last(), max_retries)
    }
}

/// The progress of `p`'s queue before any outcome is taken in.
pub open spec fn progress_of(p: App) -> Progress {
    Progress {
        jobs: p.queue.jobs@,
        done_files: p.queue.done_files as nat,
        done_bytes: p.queue.done_bytes as nat,
        lines: Seq::empty(),
    }
}

/// Whether the outcomes can be taken in by `p`: every index names a job, and the
/// counters and the unfinished bytes stay within `u64`.
pub open spec fn outcomes_fit(p: App, outs: Seq<DownloadOutcome>) -> bool {
    let end = after_outcomes(progress_of(p), outs, p.max_retries);
    &&& forall|k: int| 0 <= k < outs.len() ==> (#[trigger] outs[k]).index < p.queue.jobs@.len()
    &&& end.done_files <= u64::MAX
    &&& end.done_bytes <= u64::MAX
    &&& remaining_size(end.jobs) <= u64::MAX
}

/// The outcomes of a download batch were taken in (see [`after_outcome`]), then the
/// estimate refreshed; when everything is finished while downloading, the estimate reads
/// `00:00`, the mode goes back to `Browse` and the completion is logged.
pub open spec fn downloads_finished(p: App, outs: Seq<DownloadOutcome>, q: App) -> bool {
    let end = after_outcomes(progress_of(p), outs, p.max_retries);
    let mid = QueueState {
        jobs: q.queue.jobs,
        done_files: q.queue.done_files,
        done_bytes: q.queue.done_bytes,
        ..p.queue
    };
    let completed = all_finished(end.jobs) && p.session.mode@ == "Download"@;
    &&& q == (App {
        queue: QueueState {
            jobs: q.queue.jobs,
            done_files: q.queue.done_files,
            done_bytes: q.queue.done_bytes,
            speed_bytes_per_sec: q.queue.speed_bytes_per_sec,
            eta: q.queue.eta,
            ..p.queue
        },
        session: SessionState { mode: q.session.mode, ..p.session },
        logs: q.logs,
        ..p
    })
    &&& q.queue.jobs@ == end.jobs
    &&& q.queue.done_files == end.done_files
    &&& q.queue.done_bytes == end.done_bytes
    &&& if completed {
        &&& q.queue.eta@ == "00:00"@
        &&& q.session.mode@ == "Browse"@
        &&& exists|e: Seq<char>| #[trigger] estimate_ok(mid, q.queue.speed_bytes_per_sec, e)
        &&& logs_shaped(p.logs@, q.logs@, end.lines.push(LogLine::Exact("INFO download queue completed"@)))
    } else {
        &&& q.session.mode == p.session.mode
        &&& estimate_ok(mid, q.queue.speed_bytes_per_sec, q.queue.eta@)
        &&& logs_shaped(p.logs@, q.logs@, end.lines)
    }
}

proof fn lemma_after_outcomes_grow(s: Progress, outs: Seq<DownloadOutcome>, max_retries: u8, k: int)
    requires
        0 <= k <= outs.len(),
        forall|m: int| 0 <= m < outs.len() ==> (#[trigger] outs[m]).index < s.jobs.len(),
    ensures
        after_outcomes(s, outs.take(k), max_retries).done_files <= after_outcomes(s, outs, max_retries).done_files,
        after_outcomes(s, outs.take(k), max_retries).done_bytes <= after_outcomes(s, outs, max_retries).done_bytes,
        after_outcomes(s, outs, max_retries).jobs.len() == s.jobs.len(),
    decreases outs.len(),
{
    if outs.len() > 0 {
        assert(outs.last() == outs[outs.len() - 1]);
        assert forall|m: int| 0 <= m < outs.drop_last().len() implies (#[trigger] outs.drop_last()[m]).index < s.jobs.len() by {
            assert(outs.drop_last()[m] == outs[m]);
        }
        if k < outs.len() {
            assert(outs.drop_last().take(k) =~= outs.take(k));
            lemma_after_outcomes_grow(s, outs.drop_last(), max_retries, k);
        } else {
            assert(outs.take(k) =~= outs);
            lemma_after_outcomes_grow(s, outs.drop_last(), max_retries, k - 1);
        }
    }
}

proof fn lemma_shapes_append(old: Seq<String>, mid: Seq<String>, new: Seq<String>, a: Seq<LogLine>, b: Seq<LogLine>)
    requires
        logs_shaped(old, mid, a),
        logs_shaped(mid, new, b),
    ensures
        logs_shaped(old, new, a + b),
{
    assert(string_views(new).take(old.len() as int) =~= string_views(mid).take(old.len() as int));
    assert forall|i: int| 0 <= i < (a + b).len() implies line_fits(#[trigger] new[old.len() + i]@, (a + b)[i]) by {
        if i < a.len() {
            assert(new[old.len() + i]@ == string_views(new)[old.len() + i]);
            assert(string_views(new)[old.len() + i] == string_views(mid)[old.len() + i]);
            assert(mid[old.len() + i]@ == string_views(mid)[old.len() + i]);
        } else {
            assert(new[mid.len() + (i - a.len())]@ == new[old.len() + i]@);
        }
    }
}

proof fn lemma_exact_shapes(old: Seq<String>, new: Seq<String>, lines: Seq<Seq<char>>)
    requires
        logs_appended(old, new, lines),
    ensures
        logs_shaped(old, new, exact_lines(lines)),
{
    assert(string_views(new).len() == new.len());
    assert(string_views(new).take(old.len() as int) =~= string_views(old));
    assert forall|i: int| 0 <= i < lines.len() implies line_fits(#[trigger] new[old.len() + i]@, exact_lines(lines)[i]) by {
        assert(string_views(new)[old.len() + i] == lines[i]);
    }
}

impl App {
    /// Takes in the outcomes of a download batch (see [`downloads_finished`]).
    pub fn finish_downloads(&mut self, outcomes: Vec<DownloadOutcome>)
        requires
            outcomes_fit(*old(self), outcomes@),
        ensures
            downloads_finished(*old(self), outcomes@, *final(self)),
    {
        let ghost p = *self;
        let ghost outs = outcomes@;
        let ghost init = progress_of(p);
        proof {
            assert(outs.take(0) =~= Seq::<DownloadOutcome>::empty());
            assert(string_views(self.logs@).take(self.logs@.len() as int) =~= string_views(self.logs@));
        }
        let mut i: usize = 0;
        while i < outcomes.len()
            invariant
                i <= outs.len(),
                outs == outcomes@,
                init == progress_of(p),
                outcomes_fit(p, outs),
                ({
                    let cur = after_outcomes(init, outs.take(i as int), p.max_retries);
                    &&& self.queue.jobs@ == cur.jobs
                    &&& self.queue.done_files == cur.done_files
                    &&& self.queue.done_bytes == cur.done_bytes
                    &&& logs_shaped(p.logs@, self.logs@, cur.lines)
                }),
                *self == (App {
                    queue: QueueState {
                        jobs: self.queue.jobs,
                        done_files: self.queue.done_files,
                        done_bytes: self.queue.done_bytes,
                        ..p.queue
                    },
                    logs: self.logs,
                    ..p
                }),
            decreases outs.len() - i,
        {
            let ghost before = *self;
            let ghost cur = after_outcomes(init, outs.take(i as int), p.max_retries);
            proof {
                assert(outs.take(i + 1).drop_last() =~= outs.take(i as int));
                assert(outs.take(i + 1).last() == outs[i as int]);
                lemma_after_outcomes_grow(init, outs, p.max_retries, i + 1);
                assert forall|m: int| 0 <= m < outs.take(i as int).len() implies (#[trigger] outs.take(i as int)[m]).index < init.jobs.len() by {
                    assert(outs.take(i as int)[m] == outs[m]);
                }
                lemma_after_outcomes_grow(init, outs.take(i as int), p.max_retries, i as int);
                assert(outs[i as int].index < p.queue.jobs@.len());
            }
            let ghost nxt = after_outcome(cur, outs[i as int], p.max_retries);
            assert(nxt == after_outcomes(init, outs.take(i + 1), p.max_retries));
            let index = outcomes[i].index;
            assert(index < self.queue.jobs@.len());
            let mut job = self.queue.jobs.remove(index);
            let ghost logs_before = self.logs@;
            match &outcomes[i].result {
                Ok(d) => {
                    job.status = QueueJobStatus::Done;
                    job.error = None;
                    self.queue.jobs.insert(index, job);
                    self.queue.done_files = self.queue.done_files + 1;
                    self.queue.done_bytes = self.queue.done_bytes + d.bytes_written;
                    let mut line = owned("INFO download complete key=");
                    line.append(outcomes[i].key.as_str());
                    line.append(" bytes=");
                    append_decimal(&mut line, d.bytes_written);
                    line.append(" path=");
                    line.append(crate::system::path_text(&outcomes[i].path).as_str());
                    let ghost lv = line@;
                    self.push_log(line);
                    proof {
                        let sh = seq![LogLine::Exact(lv)];
                        assert(string_views(self.logs@) == string_views(logs_before) + seq![lv]);
                        assert(string_views(self.logs@)[logs_before.len() as int] == lv);
                        assert(self.logs@[logs_before.len() as int]@ == lv);
                        assert(logs_shaped(logs_before, self.logs@, sh)) by {
                            assert(string_views(self.logs@).take(logs_before.len() as int) =~= string_views(logs_before));
                            assert(line_fits(self.logs@[logs_before.len() as int]@, sh[0]));
                        }
                        lemma_shapes_append(p.logs@, logs_before, self.logs@, cur.lines, sh);
                        assert(cur.lines + sh =~= cur.lines.push(LogLine::Exact(lv)));
                    }
                },
                Err(e) => {
                    let attempts = job.attempts;
                    let err = e.clone();
                    let mut line = if attempts <= self.max_retries {
                        job.status = QueueJobStatus::Pending;
                        job.error = Some(err);
                        let mut l = owned("WARN download failed key=");
                        l.append(outcomes[i].key.as_str());
                        l.append(" attempt=");
                        append_decimal(&mut l, attempts as u64);
                        l.append("/");
                        append_decimal(&mut l, self.max_retries as u64);
                        l.append(" retrying");
                        l
                    } else {
                        job.status = QueueJobStatus::Failed;
                        job.error = Some(err);
                        self.queue.done_files = self.queue.done_files + 1;
                        let mut l = owned("WARN download failed permanently key=");
                        l.append(outcomes[i].key.as_str());
                        l.append(" attempts=");
                        append_decimal(&mut l, attempts as u64);
                        l
                    };
                    self.queue.jobs.insert(index, job);
                    let ghost first = line@;
                    self.push_log(line);
                    let ghost logs_mid = self.logs@;
                    if attempts <= self.max_retries {
                        self.push_warn_multiline("download attempt failed", e.as_str());
                    } else {
                        self.push_warn_multiline("download failed permanently", e.as_str());
                    }
                    proof {
                        let head = if attempts <= p.max_retries { "download attempt failed"@ } else { "download failed permanently"@ };
                        let ls = seq![first] + warn_lines(head, e@);
                        assert(logs_appended(logs_before, self.logs@, ls)) by {
                            assert(string_views(self.logs@) =~= string_views(logs_before) + ls);
                        }
                        lemma_exact_shapes(logs_before, self.logs@, ls);
                        lemma_shapes_append(p.logs@, logs_before, self.logs@, cur.lines, exact_lines(ls));
                    }
                },
            }
            proof {
                let nxt = after_outcomes(init, outs.take(i + 1), p.max_retries);
                assert(self.queue.jobs@ =~= nxt.jobs);
            }
            i = i + 1;
        }
        proof {
            assert(outs.take(outs.len() as int) =~= outs);
        }
        let ghost after_loop = *self;
        self.update_transfer_metrics();
        let ghost measured = *self;
        let finished = jobs_all_finished(&self.queue.jobs);
        let downloading = chars_eq_str(&str_chars(self.session.mode.as_str()), "Download");
        if finished && downloading {
            self.queue.eta = owned("00:00");
            self.session.mode = owned("Browse");
            let ghost logs_before = self.logs@;
            self.push_log(owned("INFO download queue completed"));
            proof {
                lemma_exact_shapes(logs_before, self.logs@, seq!["INFO download queue completed"@]);
                let end = after_outcomes(init, outs, p.max_retries);
                lemma_shapes_append(p.logs@, logs_before, self.logs@, end.lines, exact_lines(seq!["INFO download queue completed"@]));
                assert(exact_lines(seq!["INFO download queue completed"@]) =~= seq![LogLine::Exact("INFO download queue completed"@)]);
                assert(end.lines + seq![LogLine::Exact("INFO download queue completed"@)] =~= end.lines.push(LogLine::Exact("INFO download queue completed"@)));
                assert(estimate_ok(after_loop.queue, measured.queue.speed_bytes_per_sec, measured.queue.eta@));
            }
        }
    }
}

/// Whether a browser row can be selected: every row but the way up.
pub fn item_is_selectable(item: &BrowserItem) -> (r: bool)
    ensures
        r == (item.kind != BrowserItemKind::Parent),
{
    item.kind != BrowserItemKind::Parent
}

/// The keys of the selectable rows.
pub open spec fn selectable_keys(items: Seq<BrowserItem>) -> Set<Seq<char>> {
    Set::new(|k: Seq<char>| exists|i: int| 0 <= i < items.len() && items[i].kind != BrowserItemKind::Parent && #[trigger] items[i].key@ == k)
}

/// Only the selection of `q` differs from `p`, and it is still ascending.
pub open spec fn only_selection_changed(p: App, q: App) -> bool {
    &&& q == (App { browser: BrowserState { selected: q.browser.selected, ..p.browser }, ..p })
    &&& strictly_sorted(q.browser.selected@)
}

/// Space: the selectable row under the cursor is added to the selection, or removed
/// when it was selected.
pub open spec fn toggle_select_step(p: App, q: App) -> bool {
    let c = p.browser.cursor as int;
    if c < p.browser.items@.len() && p.browser.items@[c].kind != BrowserItemKind::Parent {
        let k = p.browser.items@[c].key@;
        &&& only_selection_changed(p, q)
        &&& q.browser.selected@.to_set() == if p.browser.selected@.contains(k) {
            p.browser.selected@.to_set().remove(k)
        } else {
            p.browser.selected@.to_set().insert(k)
        }
    } else {
        q == p
    }
}

/// `a`: every selectable row is added to the selection.
pub open spec fn select_all_step(p: App, q: App) -> bool {
    &&& only_selection_changed(p, q)
    &&& q.browser.selected@.to_set() == p.browser.selected@.to_set().union(selectable_keys(p.browser.items@))
}

/// `q`: with downloads still to finish, quitting waits for confirmation; otherwise the
/// application stops.
pub open spec fn quit_step(p: App, q: App) -> bool {
    if p.queue.total_files > p.queue.done_files {
        q == (App { ui: UiState { confirm_quit: true, ..p.ui }, ..p })
    } else {
        q == (App { running: false, ..p })
    }
}

/// `c`: the dialog opens with the session's values, on the first field, without error.
pub open spec fn connection_opened(p: App, q: App) -> bool {
    q == (App {
        ui: UiState {
            show_connection_settings: true,
            connection_draft: ConnectionDraft {
                profile: p.session.profile,
                region: p.session.region,
                bucket: p.session.bucket,
                prefix: p.session.path,
                endpoint_url: p.session.endpoint_url,
                active_field: ConnectionField::Profile,
                error: None,
            },
            ..p.ui
        },
        ..p
    })
}

/// `s`: the script run is recorded as successful.
pub open spec fn script_step(p: App, q: App) -> bool {
    &&& q == (App {
        session: SessionState { mode: q.session.mode, ..p.session },
        script: ScriptState { last_result: q.script.last_result, ..p.script },
        logs: q.logs,
        ..p
    })
    &&& q.session.mode@ == "Script"@
    &&& q.script.last_result@ == "last run: success"@
    &&& logs_appended(p.logs@, q.logs@, seq!["INFO post-process script completed"@])
}

/// Only a log line was added.
pub open spec fn logged(p: App, q: App, line: Seq<char>) -> bool {
    q == (App { logs: q.logs, ..p }) && logs_appended(p.logs@, q.logs@, seq![line])
}

/// The tab changed to `t`.
pub open spec fn tab_set(p: App, q: App, t: WorkTab) -> bool {
    q == (App { ui: UiState { tab: t, ..p.ui }, ..p })
}

/// The cursor moved to `c`.
pub open spec fn cursor_set(p: App, q: App, c: int) -> bool {
    q == (App { browser: BrowserState { cursor: c as usize, ..p.browser }, ..p })
}

/// How the main screen reacts to an action when no dialog is open.
pub open spec fn main_step(p: App, a: Action, q: App, req: Option<IoRequest>) -> bool {
    match a {
        Action::QuitRequested | Action::InputChar('q') => req is None && quit_step(p, q),
        Action::InputChar('h') | Action::InputChar('?') | Action::ToggleHelp => req is None && q == (App {
            ui: UiState { show_help: true, ..p.ui },
            ..p
        }),
        Action::InputChar('c') | Action::InputChar('C') => req is None && connection_opened(p, q),
        Action::MoveUp => req is None && cursor_set(
            p,
            q,
            if p.browser.cursor > 0 { p.browser.cursor - 1 } else { 0 },
        ),
        Action::MoveDown => req is None && cursor_set(
            p,
            q,
            if p.browser.cursor + 1 < p.browser.items@.len() { p.browser.cursor + 1 } else { p.browser.cursor as int },
        ),
        Action::BackspaceKey => parent_step(p, q, req),
        Action::FocusNext | Action::InputChar('f') => req is None && q == (App {
            ui: UiState {
                focus: if p.ui.focus == Focus::Browser { Focus::WorkPane } else { Focus::Browser },
                ..p.ui
            },
            ..p
        }),
        Action::ToggleSelectCurrent => req is None && toggle_select_step(p, q),
        Action::InputChar('a') => req is None && select_all_step(p, q),
        Action::InputChar('x') => req is None && only_selection_changed(p, q) && q.browser.selected@.len() == 0,
        Action::NextTab => req is None && tab_set(p, q, tab_after(p.ui.tab)),
        Action::PreviousTab => req is None && tab_set(p, q, tab_before(p.ui.tab)),
        Action::OpenPreview | Action::InputChar('p') => req is None && tab_set(p, q, WorkTab::Preview),
        Action::OpenLogsTab | Action::InputChar('l') => req is None && tab_set(p, q, WorkTab::Logs),
        Action::QueueDownloadSelected | Action::InputChar('d') => queue_selected_step(p, q, req),
        Action::QueueDownloadFolder | Action::InputChar('D') => q == p && (req matches Some(
            IoRequest::ListFolder { params },
        ) && session_params(p.session, params, p.session.path@, 1000)),
        Action::RunScript | Action::InputChar('s') => req is None && script_step(p, q),
        Action::Refresh | Action::InputChar('r') => q == p && (req matches Some(IoRequest::Refresh { params })
            && session_params(p.session, params, p.session.path@, 200)),
        Action::OpenFilter | Action::InputChar('/') => req is None && logged(
            p,
            q,
            "INFO filter input not yet implemented"@,
        ),
        Action::Tick => tick_step(p, q, req),
        Action::MoveLeft | Action::MoveRight | Action::CancelDialog | Action::InputChar(_) => req is None && q
            == p,
        Action::Enter => enter_step(p, q, req),
    }
}

/// The keys that close the help panel: `h`, `?` and Esc.
pub open spec fn closes_help(a: Action) -> bool {
    a == Action::ToggleHelp || a == Action::CancelDialog || a == Action::InputChar('h') || a
        == Action::InputChar('?')
}

/// How the application reacts to an action: the help panel, then the quit
/// confirmation, then the connection dialog take the action when open; otherwise the
/// main screen does.
pub open spec fn update_spec(p: App, a: Action, q: App, req: Option<IoRequest>) -> bool {
    if p.ui.show_help {
        &&& req is None
        &&& q == if closes_help(a) {
            App { ui: UiState { show_help: false, ..p.ui }, ..p }
        } else {
            p
        }
    } else if p.ui.confirm_quit {
        &&& req is None
        &&& q == if a == Action::InputChar('y') || a == Action::InputChar('Y') {
            App { running: false, ..p }
        } else if a == Action::CancelDialog {
            App { ui: UiState { confirm_quit: false, ..p.ui }, ..p }
        } else {
            p
        }
    } else if p.ui.show_connection_settings {
        modal_step(p, a, q, req)
    } else {
        main_step(p, a, q, req)
    }
}

/// What an action needs from the state so that no counter can overflow: a tick needs the
/// unfinished bytes to fit in `u64`, and queueing a selection without folders needs its
/// merged size to fit.
pub open spec fn update_fits(p: App, a: Action) -> bool {
    !p.ui.show_help && !p.ui.confirm_quit && !p.ui.show_connection_settings ==> {
        &&& a == Action::Tick ==> remaining_size(p.queue.jobs@) <= u64::MAX
        &&& (a == Action::QueueDownloadSelected || a == Action::InputChar('d')) ==> selection_fits(p, Seq::empty())
    }
}

impl App {
    /// Opens the connection dialog with the session's values.
    pub fn open_connection_settings(&mut self)
        ensures
            connection_opened(*old(self), *final(self)),
    {
        self.ui.connection_draft.profile = self.session.profile.clone();
        self.ui.connection_draft.region = self.session.region.clone();
        self.ui.connection_draft.bucket = self.session.bucket.clone();
        self.ui.connection_draft.prefix = self.session.path.clone();
        self.ui.connection_draft.endpoint_url = self.session.endpoint_url.clone();
        self.ui.connection_draft.active_field = ConnectionField::Profile;
        self.ui.connection_draft.error = None;
        self.ui.show_connection_settings = true;
    }

    fn toggle_select_current(&mut self)
        ensures
            toggle_select_step(*old(self), *final(self)),
    {
        if self.browser.cursor < self.browser.items.len() {
            if item_is_selectable(&self.browser.items[self.browser.cursor]) {
                let key = self.browser.items[self.browser.cursor].key.clone();
                if self.browser.selected.contains(&key) {
                    self.browser.selected.remove(&key);
                } else {
                    self.browser.selected.insert(key);
                }
            }
        }
    }

    fn select_all_visible(&mut self)
        ensures
            select_all_step(*old(self), *final(self)),
    {
        let ghost p = *self;
        let ghost items = self.browser.items@;
        let mut i: usize = 0;
        let _ = self.browser.selected.keys();
        while i < self.browser.items.len()
            invariant
                i <= items.len(),
                self.browser.items@ == items,
                *self == (App { browser: BrowserState { selected: self.browser.selected, ..p.browser }, ..p }),
                strictly_sorted(self.browser.selected@),
                self.browser.selected@.to_set() == p.browser.selected@.to_set().union(
                    selectable_keys(items.take(i as int)),
                ),
            decreases items.len() - i,
        {
            let ghost before = self.browser.selected@.to_set();
            if item_is_selectable(&self.browser.items[i]) {
                let key = self.browser.items[i].key.clone();
                self.browser.selected.insert(key);
            }
            proof {
                let a = selectable_keys(items.take(i as int));
                let b = selectable_keys(items.take(i + 1));
                assert forall|k: Seq<char>| b.contains(k) <==> a.contains(k) || (items[i as int].kind != BrowserItemKind::Parent && items[i as int].key@ == k) by {
                    if b.contains(k) {
                        let j = choose|j: int| 0 <= j < i + 1 && items.take(i + 1)[j].kind != BrowserItemKind::Parent && #[trigger] items.take(i + 1)[j].key@ == k;
                        if j < i {
                            assert(items.take(i as int)[j] == items.take(i + 1)[j]);
                        }
                    }
                    if a.contains(k) {
                        let j = choose|j: int| 0 <= j < i && items.take(i as int)[j].kind != BrowserItemKind::Parent && #[trigger] items.take(i as int)[j].key@ == k;
                        assert(items.take(i + 1)[j] == items.take(i as int)[j]);
                    }
                    if items[i as int].kind != BrowserItemKind::Parent && items[i as int].key@ == k {
                        assert(items.take(i + 1)[i as int] == items[i as int]);
                    }
                }
                assert(self.browser.selected@.to_set() =~= p.browser.selected@.to_set().union(b));
            }
            i = i + 1;
        }
        assert(items.take(items.len() as int) =~= items);
    }

    /// Reacts to an action (see [`update_spec`]); returns the I/O needed to go on, if any.
    pub fn update(&mut self, action: Action) -> (r: Option<IoRequest>)
        requires
            update_fits(*old(self), action),
        ensures
            update_spec(*old(self), action, *final(self), r),
    {
        if self.ui.show_help {
            match action {
                Action::ToggleHelp | Action::CancelDialog | Action::InputChar('h') | Action::InputChar('?') => {
                    self.ui.show_help = false
                },
                _ => {},
            }
            return None;
        }
        if self.ui.confirm_quit {
            match action {
                Action::InputChar('y') | Action::InputChar('Y') => self.running = false,
                Action::CancelDialog => self.ui.confirm_quit = false,
                _ => {},
            }
            return None;
        }
        if self.ui.show_connection_settings {
            return self.update_connection_modal(action);
        }
        match action {
            Action::QuitRequested | Action::InputChar('q') => {
                if self.queue.total_files > self.queue.done_files {
                    self.ui.confirm_quit = true;
                } else {
                    self.running = false;
                }
                None
            },
            Action::InputChar('h') | Action::InputChar('?') | Action::ToggleHelp => {
                self.ui.show_help = true;
                None
            },
            Action::InputChar('c') | Action::InputChar('C') => {
                self.open_connection_settings();
                None
            },
            Action::MoveUp => {
                if self.browser.cursor > 0 {
                    self.browser.cursor = self.browser.cursor - 1;
                }
                None
            },
            Action::MoveDown => {
                if self.browser.items.len() > 0 && self.browser.cursor < self.browser.items.len() - 1 {
                    self.browser.cursor = self.browser.cursor + 1;
                }
                None
            },
            Action::BackspaceKey => self.go_parent_prefix(),
            Action::FocusNext | Action::InputChar('f') => {
                self.ui.focus = match self.ui.focus {
                    Focus::Browser => Focus::WorkPane,
                    Focus::WorkPane => Focus::Browser,
                };
                None
            },
            Action::ToggleSelectCurrent => {
                self.toggle_select_current();
                None
            },
            Action::InputChar('a') => {
                self.select_all_visible();
                None
            },
            Action::InputChar('x') => {
                self.browser.selected.clear();
                None
            },
            Action::NextTab => {
                self.ui.tab = self.ui.tab.next();
                None
            },
            Action::PreviousTab => {
                self.ui.tab = self.ui.tab.previous();
                None
            },
            Action::OpenPreview | Action::InputChar('p') => {
                self.ui.tab = WorkTab::Preview;
                None
            },
            Action::OpenLogsTab | Action::InputChar('l') => {
                self.ui.tab = WorkTab::Logs;
                None
            },
            Action::QueueDownloadSelected | Action::InputChar('d') => self.queue_download_selected(),
            Action::QueueDownloadFolder | Action::InputChar('D') => Some(self.queue_download_folder()),
            Action::RunScript | Action::InputChar('s') => {
                self.session.mode = owned("Script");
                self.script.last_result = owned("last run: success");
                self.push_log(owned("INFO post-process script completed"));
                None
            },
            Action::Refresh | Action::InputChar('r') => Some(self.reload_current_listing()),
            Action::OpenFilter | Action::InputChar('/') => {
                self.push_log(owned("INFO filter input not yet implemented"));
                None
            },
            Action::Tick => self.process_queue_tick(),
            Action::MoveLeft | Action::MoveRight | Action::CancelDialog | Action::InputChar(_) => None,
            Action::Enter => self.handle_enter(),
        }
    }
}

/// While the help panel is open, no action other than closing it changes anything, and
/// even closing it leaves selection, browser, queue and session untouched.
pub proof fn lemma_help_is_modal(p: App, a: Action, q: App, req: Option<IoRequest>)
    requires
        update_spec(p, a, q, req),
        p.ui.show_help,
    ensures
        req is None,
        !closes_help(a) ==> q == p,
        q.browser == p.browser && q.queue == p.queue && q.session == p.session && q.logs == p.logs,
{
}

/// Opening the help panel (`h` or `?`) changes nothing but the panel flag: selection,
/// browser, queue, session and logs stay as they were.
pub proof fn lemma_opening_help_changes_nothing_else(p: App, a: Action, q: App, req: Option<IoRequest>)
    requires
        update_spec(p, a, q, req),
        !p.ui.show_help && !p.ui.confirm_quit && !p.ui.show_connection_settings,
        a == Action::InputChar('h') || a == Action::InputChar('?') || a == Action::ToggleHelp,
    ensures
        req is None,
        q == (App { ui: UiState { show_help: true, ..p.ui }, ..p }),
{
}

/// Quitting with downloads left asks for confirmation and keeps running.
pub proof fn lemma_quit_needs_confirmation(p: App, q: App, req: Option<IoRequest>)
    requires
        update_spec(p, Action::QuitRequested, q, req),
        !p.ui.show_help && !p.ui.confirm_quit && !p.ui.show_connection_settings,
        p.queue.total_files > p.queue.done_files,
    ensures
        q.running == p.running,
        q.ui.confirm_quit,
        q.queue == p.queue,
{
}

/// Moving the cursor up or down keeps it on a row.
pub proof fn lemma_cursor_stays_on_rows(p: App, a: Action, q: App, req: Option<IoRequest>)
    requires
        update_spec(p, a, q, req),
        !p.ui.show_help && !p.ui.confirm_quit && !p.ui.show_connection_settings,
        a == Action::MoveUp || a == Action::MoveDown,
        p.browser.cursor < p.browser.items@.len(),
    ensures
        q.browser.cursor < q.browser.items@.len(),
        q.browser.items == p.browser.items,
{
}

/// Toggling the row under the cursor twice gives back the selection one started with.
pub proof fn lemma_toggle_twice_restores(p: App, q: App, r: App)
    requires
        toggle_select_step(p, q),
        toggle_select_step(q, r),
    ensures
        r.browser.selected@.to_set() == p.browser.selected@.to_set(),
{
    let c = p.browser.cursor as int;
    if c < p.browser.items@.len() && p.browser.items@[c].kind != BrowserItemKind::Parent {
        let k = p.browser.items@[c].key@;
        let s0 = p.browser.selected@.to_set();
        let s1 = q.browser.selected@.to_set();
        assert(q.browser.selected@.contains(k) <==> s1.contains(k));
        assert(p.browser.selected@.contains(k) <==> s0.contains(k));
        if s0.contains(k) {
            assert(!s1.contains(k));
            assert(r.browser.selected@.to_set() =~= s0);
        } else {
            assert(s1.contains(k));
            assert(r.browser.selected@.to_set() =~= s0);
        }
    }
}

/// After selecting all, every selectable row is selected.
pub proof fn lemma_select_all_covers_rows(p: App, q: App, i: int)
    requires
        select_all_step(p, q),
        0 <= i < p.browser.items@.len(),
        p.browser.items@[i].kind != BrowserItemKind::Parent,
    ensures
        q.browser.selected@.contains(p.browser.items@[i].key@),
{
    assert(selectable_keys(p.browser.items@).contains(p.browser.items@[i].key@));
    assert(q.browser.selected@.to_set().contains(p.browser.items@[i].key@));
}

/// A refused connection attempt (blank bucket, invalid endpoint URL, or failed listing)
/// leaves the session, the browser rows, the selection and the queue as they were: there
/// is no fallback to another target.
pub proof fn lemma_refused_connection_keeps_context(
    p: App,
    q: App,
    req: Option<IoRequest>,
    params: S3ConnectParams,
    target: TargetSpec,
    warning: Option<TargetWarning>,
    changed: bool,
    err: String,
    r: App,
)
    requires
        apply_step(p, q, req),
        connect_finished(p, params, target, warning, changed, Err(err), r),
    ensures
        req is None ==> q.session == p.session && q.browser.items == p.browser.items
            && q.browser.selected == p.browser.selected && q.queue == p.queue,
        r.session == p.session,
        r.browser.items == p.browser.items,
        r.browser.selected == p.browser.selected,
        r.queue == p.queue,
        r.ui.show_connection_settings == p.ui.show_connection_settings,
{
}

/// A timer tick hands out no more jobs than there are free slots, and only pending ones.
pub proof fn lemma_tick_respects_slots(p: App, q: App, req: Option<IoRequest>)
    requires
        tick_step(p, q, req),
    ensures
        req matches Some(IoRequest::Download { params, tasks }) ==> {
            &&& tasks@.len() <= free_slots(p)
            &&& forall|k: int| 0 <= k < tasks@.len() ==> {
                let t = #[trigger] tasks@[k];
                &&& t.index < p.queue.jobs@.len()
                &&& p.queue.jobs@[t.index as int].status == QueueJobStatus::Pending
            }
        },
{
    lemma_pending_positions(p.queue.jobs@);
    let chosen = take_at_most(pending_positions(p.queue.jobs@), free_slots(p));
    assert forall|k: int| 0 <= k < chosen.len() implies chosen[k] == pending_positions(p.queue.jobs@)[k] by {}
}

/// A failed download goes back in line only while retries remain (up to `max_retries`
/// retries after the first attempt); otherwise it is marked failed and counted as
/// finished.
pub proof fn lemma_retries_are_bounded(s: Progress, o: DownloadOutcome, max_retries: u8)
    requires
        o.result is Err,
        o.index < s.jobs.len(),
    ensures
        ({
            let t = after_outcome(s, o, max_retries);
            let i = o.index as int;
            &&& t.jobs[i].status == QueueJobStatus::Pending <==> s.jobs[i].attempts <= max_retries
            &&& t.jobs[i].status == QueueJobStatus::Failed <==> s.jobs[i].attempts > max_retries
            &&& t.jobs[i].attempts == s.jobs[i].attempts
            &&& t.done_files == s.done_files + if s.jobs[i].attempts <= max_retries { 0nat } else { 1nat }
        }),
{
}

proof fn lemma_count_all_pending(jobs: Seq<QueueJob>)
    requires
        forall|i: int| 0 <= i < jobs.len() ==> (#[trigger] jobs[i]).status == QueueJobStatus::Pending,
    ensures
        count_status(jobs, QueueJobStatus::Pending) == jobs.len(),
        count_status(jobs, QueueJobStatus::Running) == 0,
        count_status(jobs, QueueJobStatus::Done) == 0,
        count_status(jobs, QueueJobStatus::Failed) == 0,
    decreases jobs.len(),
{
    if jobs.len() > 0 {
        assert(jobs.last() == jobs[jobs.len() - 1]);
        assert forall|i: int| 0 <= i < jobs.drop_last().len() implies (#[trigger] jobs.drop_last()[i]).status == QueueJobStatus::Pending by {
            assert(jobs.drop_last()[i] == jobs[i]);
        }
        lemma_count_all_pending(jobs.drop_last());
    }
}

/// A freshly built queue holds one pending job per distinct listed key: the file count
/// is the number of distinct keys and nothing is running, done or failed yet.
pub proof fn lemma_fresh_queue(p: App, objs: Seq<S3ObjectSummary>, q: App)
    requires
        queue_rebuilt(p, objs, q),
    ensures
        q.queue.total_files == key_set(objs).len(),
        count_status(q.queue.jobs@, QueueJobStatus::Pending) == q.queue.total_files,
        count_status(q.queue.jobs@, QueueJobStatus::Running) == 0,
        count_status(q.queue.jobs@, QueueJobStatus::Done) == 0,
        count_status(q.queue.jobs@, QueueJobStatus::Failed) == 0,
        q.queue.total_bytes == crate::queue::total_size(q.queue.jobs@),
{
    let jobs = q.queue.jobs@;
    assert forall|i: int| 0 <= i < jobs.len() implies (#[trigger] jobs[i]).status == QueueJobStatus::Pending by {}
    lemma_count_all_pending(jobs);
    let ks = jobs.map_values(|j: QueueJob| j.key@);
    assert(ks.no_duplicates()) by {
        assert forall|a: int, b: int| 0 <= a < ks.len() && 0 <= b < ks.len() && a != b implies ks[a] != ks[b] by {
            crate::text::lemma_lex_irreflexive(ks[a]);
            assert(crate::keys::strictly_sorted_by_key(jobs));
            assert(ks[a] == jobs[a].key_of());
            assert(ks[b] == jobs[b].key_of());
            if a < b {
                assert(crate::text::lex_lt(jobs[a].key_of(), jobs[b].key_of()));
            } else {
                assert(crate::text::lex_lt(jobs[b].key_of(), jobs[a].key_of()));
            }
        }
    }
    ks.unique_seq_to_set();
}

proof fn lemma_key_set_concat(a: Seq<S3ObjectSummary>, b: Seq<S3ObjectSummary>)
    ensures
        key_set(a + b) == key_set(a).union(key_set(b)),
{
    let f = |o: S3ObjectSummary| o.key@;
    let (x, y) = (a.map_values(f), b.map_values(f));
    assert((a + b).map_values(f) =~= x + y);
    assert forall|k: Seq<char>| (x + y).to_set().contains(k) <==> x.to_set().union(y.to_set()).contains(k) by {
        if (x + y).contains(k) {
            let i = choose|i: int| 0 <= i < (x + y).len() && (x + y)[i] == k;
            if i < x.len() {
                assert(x[i] == k);
            } else {
                assert(y[i - x.len()] == k);
            }
        }
        if x.contains(k) {
            let i = choose|i: int| 0 <= i < x.len() && x[i] == k;
            assert((x + y)[i] == k);
        }
        if y.contains(k) {
            let i = choose|i: int| 0 <= i < y.len() && y[i] == k;
            assert((x + y)[x.len() + i] == k);
        }
    }
    assert((x + y).to_set() =~= x.to_set().union(y.to_set()));
}

/// Queueing a selection queues exactly the objects listed under the selected folders
/// plus the selected objects outside them, each key once.
pub proof fn lemma_selection_queues_selected(p: App, listed: Seq<S3ObjectSummary>, q: App)
    requires
        selection_queued(p, listed, q),
    ensures
        q.queue.jobs@.map_values(|j: QueueJob| j.key@).to_set() == key_set(listed).union(
            uncovered_keys(object_keys(p.browser.selected@), kept_prefixes(folder_keys(p.browser.selected@))).to_set(),
        ),
        crate::keys::strictly_sorted_by_key(q.queue.jobs@),
{
    let r = choose|r: SelectionResolution| #[trigger] resolution_of(p, listed, r) && {
        &&& queue_frame(p, q)
        &&& queue_rebuilt(p, r.objects@, q)
        &&& q.queue.summary@ == selection_summary(r.stats, q.queue.total_files)
        &&& logs_appended(p.logs@, q.logs@, seq![selection_log(r.stats, q.queue.total_files)])
    };
    let sel = p.browser.selected@;
    let direct = uncovered_keys(object_keys(sel), kept_prefixes(folder_keys(sel)));
    let directs = choose|directs: Seq<S3ObjectSummary>|
        direct_summaries(p.browser.items@, direct, directs) && #[trigger] first_by_key(listed + directs, r.objects@);
    lemma_key_set_concat(listed, directs);
    assert(key_set(directs) =~= direct.to_set()) by {
        let f = |o: S3ObjectSummary| o.key@;
        assert(directs.map_values(f) =~= direct);
    }
}

/// Target precedence: a profile wins over an endpoint URL, which wins over the default
/// chain; an endpoint URL next to a profile is ignored with a warning.
pub proof fn lemma_target_precedence(profile: Seq<char>, endpoint_url: Seq<char>)
    ensures
        trim(profile).len() > 0 ==> resolved_target(profile, endpoint_url).0 == TargetSpec::Profile(trim(profile)),
        trim(profile).len() > 0 && trim(endpoint_url).len() > 0 ==> resolved_target(profile, endpoint_url).1
            == Some(TargetWarning::ProfileOverridesEndpoint),
        trim(profile).len() == 0 && trim(endpoint_url).len() > 0 ==> resolved_target(profile, endpoint_url).0
            == TargetSpec::Endpoint(trim(endpoint_url)),
        trim(profile).len() == 0 && trim(endpoint_url).len() == 0 ==> resolved_target(profile, endpoint_url).0
            == TargetSpec::DefaultChain,
        resolved_target(profile, endpoint_url).1 is Some ==> resolved_target(profile, endpoint_url).0 is Profile,
{
}

/// Resolutions of one selection against one listing queue the same number of bytes.
pub proof fn lemma_resolution_total_unique(
    p: App,
    listed: Seq<S3ObjectSummary>,
    r1: SelectionResolution,
    r2: SelectionResolution,
)
    requires
        resolution_of(p, listed, r1),
        resolution_of(p, listed, r2),
    ensures
        merged_total(r1.objects@) == merged_total(r2.objects@),
{
    let sel = p.browser.selected@;
    let direct = uncovered_keys(object_keys(sel), kept_prefixes(folder_keys(sel)));
    let d1 = choose|d: Seq<S3ObjectSummary>|
        direct_summaries(p.browser.items@, direct, d) && #[trigger] first_by_key(listed + d, r1.objects@);
    let d2 = choose|d: Seq<S3ObjectSummary>|
        direct_summaries(p.browser.items@, direct, d) && #[trigger] first_by_key(listed + d, r2.objects@);
    assert(key_sizes(listed + d1) =~= key_sizes(listed + d2)) by {
        assert forall|i: int| 0 <= i < (listed + d1).len() implies key_sizes(listed + d1)[i] == key_sizes(
            listed + d2,
        )[i] by {
            if i >= listed.len() {
                let t = i - listed.len();
                assert(d1[t].key@ == direct[t] && d2[t].key@ == direct[t]);
            }
        }
    }
    lemma_first_by_key_of_key_sizes(listed + d1, listed + d2, r1.objects@, r2.objects@);
}

fn copy_summaries(v: &Vec<S3ObjectSummary>) -> (r: Vec<S3ObjectSummary>)
    ensures
        r@ == v@,
{
    let mut r: Vec<S3ObjectSummary> = Vec::new();
    let mut i: usize = 0;
    while i < v.len()
        invariant
            i <= v.len(),
            r@ == v@.take(i as int),
        decreases v.len() - i,
    {
        r.push(v[i].duplicate());
        i = i + 1;
        assert(r@ =~= v@.take(i as int));
    }
    assert(v@.take(v.len() as int) =~= v@);
    r
}

impl App {
    /// Whether the selection, with `listed` from its folders' listings, resolves to objects
    /// whose sizes sum to at most `u64::MAX` (what queueing it needs).
    pub fn selection_total_fits(&self, listed: &Vec<S3ObjectSummary>) -> (r: bool)
        ensures
            r == selection_fits(*self, listed@),
    {
        let res = self.resolve_selected_objects(copy_summaries(listed));
        let fits = crate::queue::queue_total_fits(&res.objects);
        proof {
            if fits {
                assert forall|r2: SelectionResolution| #[trigger] resolution_of(*self, listed@, r2) implies merged_total(
                    r2.objects@,
                ) <= u64::MAX by {
                    lemma_resolution_total_unique(*self, listed@, res, r2);
                }
            } else {
                assert(resolution_of(*self, listed@, res));
            }
        }
        fits
    }

    /// Whether [`App::update`] can take `action` in this state (see [`update_fits`]).
    pub fn update_fits_check(&self, action: Action) -> (r: bool)
        ensures
            r == update_fits(*self, action),
    {
        if self.ui.show_help || self.ui.confirm_quit || self.ui.show_connection_settings {
            return true;
        }
        match action {
            Action::Tick => remaining_fits(&self.queue.jobs),
            Action::QueueDownloadSelected => self.selection_total_fits(&Vec::new()),
            Action::InputChar(c) => {
                if c == 'd' {
                    let empty: Vec<S3ObjectSummary> = Vec::new();
                    let r = self.selection_total_fits(&empty);
                    assert(empty@ =~= Seq::<S3ObjectSummary>::empty());
                    r
                } else {
                    true
                }
            },
            _ => true,
        }
    }
}

impl App {
    /// Whether [`App::finish_downloads`] can take these outcomes (see [`outcomes_fit`]).
    pub fn outcomes_fit_check(&self, outcomes: &Vec<DownloadOutcome>) -> (r: bool)
        ensures
            r == outcomes_fit(*self, outcomes@),
    {
        let n = self.queue.jobs.len();
        let ghost outs = outcomes@;
        let mut k: usize = 0;
        while k < outcomes.len()
            invariant
                k <= outcomes.len(),
                n == self.queue.jobs.len(),
                outs == outcomes@,
                forall|t: int| 0 <= t < k ==> (#[trigger] outs[t]).index < n,
            decreases outcomes.len() - k,
        {
            if outcomes[k].index >= n {
                return false;
            }
            k = k + 1;
        }
        let mut status: Vec<QueueJobStatus> = Vec::new();
        let mut i: usize = 0;
        while i < n
            invariant
                i <= n,
                n == self.queue.jobs.len(),
                status@.len() == i,
                forall|t: int| 0 <= t < i ==> #[trigger] status@[t] == self.queue.jobs@[t].status,
            decreases n - i,
        {
            status.push(self.queue.jobs[i].status);
            i = i + 1;
        }
        let ghost start = progress_of(*self);
        let ghost mut prog = start;
        let mut files: u128 = self.queue.done_files as u128;
        let mut bytes: u128 = self.queue.done_bytes as u128;
        k = 0;
        proof {
            assert(outs.take(0) =~= Seq::<DownloadOutcome>::empty());
        }
        while k < outcomes.len()
            invariant
                k <= outcomes.len(),
                outs == outcomes@,
                n == self.queue.jobs.len(),
                forall|t: int| 0 <= t < outs.len() ==> (#[trigger] outs[t]).index < n,
                start == progress_of(*self),
                prog == after_outcomes(start, outs.take(k as int), self.max_retries),
                prog.jobs.len() == n,
                status@.len() == n,
                forall|t: int| 0 <= t < n ==> #[trigger] prog.jobs[t].status == status@[t],
                forall|t: int| 0 <= t < n ==> #[trigger] prog.jobs[t].size == self.queue.jobs@[t].size,
                forall|t: int| 0 <= t < n ==> #[trigger] prog.jobs[t].attempts == self.queue.jobs@[t].attempts,
                files == prog.done_files,
                bytes == prog.done_bytes,
                files <= u64::MAX + k,
                bytes <= (k + 1) * u64::MAX,
            decreases outcomes.len() - k,
        {
            let o = &outcomes[k];
            let j = o.index;
            proof {
                assert(outs.take(k + 1).drop_last() =~= outs.take(k as int));
                assert(outs.take(k + 1).last() == outs[k as int]);
            }
            match &o.result {
                Ok(d) => {
                    status.set(j, QueueJobStatus::Done);
                    files = files + 1;
                    bytes = bytes + d.bytes_written as u128;
                },
                Err(_) => {
                    if self.queue.jobs[j].attempts <= self.max_retries {
                        status.set(j, QueueJobStatus::Pending);
                    } else {
                        status.set(j, QueueJobStatus::Failed);
                        files = files + 1;
                    }
                },
            }
            proof {
                prog = after_outcome(prog, outs[k as int], self.max_retries);
            }
            k = k + 1;
        }
        proof {
            assert(outs.take(outs.len() as int) =~= outs);
        }
        let mut rem: u128 = 0;
        i = 0;
        while i < n
            invariant
                i <= n,
                n == self.queue.jobs.len(),
                prog.jobs.len() == n,
                status@.len() == n,
                forall|t: int| 0 <= t < n ==> #[trigger] prog.jobs[t].status == status@[t],
                forall|t: int| 0 <= t < n ==> #[trigger] prog.jobs[t].size == self.queue.jobs@[t].size,
                rem == remaining_size(prog.jobs.take(i as int)),
                rem <= i * u64::MAX,
            decreases n - i,
        {
            proof {
                assert(prog.jobs.take(i + 1).drop_last() =~= prog.jobs.take(i as int));
                assert(prog.jobs.take(i + 1).last() == prog.jobs[i as int]);
            }
            if status[i] == QueueJobStatus::Pending || status[i] == QueueJobStatus::Running {
                rem = rem + self.queue.jobs[i].size as u128;
            }
            i = i + 1;
        }
        proof {
            assert(prog.jobs.take(n as int) =~= prog.jobs);
        }
        files <= u64::MAX as u128 && bytes <= u64::MAX as u128 && rem <= u64::MAX as u128
    }
}

/// The bytes reported by the successful downloads among `outs`.
pub open spec fn downloaded_bytes(outs: Seq<DownloadOutcome>) -> nat
    decreases outs.len(),
{
    if outs.len() == 0 {
        0
    } else {
        downloaded_bytes(outs.drop_last()) + match outs.last().result {
            Ok(d) => d.bytes_written as nat,
            Err(_) => 0nat,
        }
    }
}

/// Each outcome answers a different job, and that job is running.
pub open spec fn outcomes_for_running(jobs: Seq<QueueJob>, outs: Seq<DownloadOutcome>) -> bool {
    &&& forall|k: int| 0 <= k < outs.len() ==> {
        let i = (#[trigger] outs[k]).index as int;
        &&& i < jobs.len()
        &&& jobs[i].status == QueueJobStatus::Running
    }
    &&& forall|k: int, m: int| 0 <= k < m < outs.len() ==> (#[trigger] outs[k]).index != (#[trigger] outs[m]).index
}

proof fn lemma_outcomes_keep_done_count(s: Progress, outs: Seq<DownloadOutcome>, max_retries: u8)
    requires
        s.done_files == finished_count(s.jobs),
        outcomes_for_running(s.jobs, outs),
    ensures
        ({
            let e = after_outcomes(s, outs, max_retries);
            &&& e.jobs.len() == s.jobs.len()
            &&& e.done_files == finished_count(e.jobs)
            &&& e.done_bytes == s.done_bytes + downloaded_bytes(outs)
            &&& forall|i: int| 0 <= i < s.jobs.len() && (forall|k: int| 0 <= k < outs.len() ==> (#[trigger] outs[k]).index != i)
                ==> #[trigger] e.jobs[i] == s.jobs[i]
            &&& forall|k: int| 0 <= k < outs.len() ==> e.jobs[(#[trigger] outs[k]).index as int].status
                != QueueJobStatus::Running
        }),
    decreases outs.len(),
{
    if outs.len() > 0 {
        let d = outs.drop_last();
        let last = outs.len() - 1;
        assert forall|k: int| 0 <= k < d.len() implies (#[trigger] d[k]) == outs[k] by {}
        assert(outcomes_for_running(s.jobs, d)) by {
            assert forall|k: int, m: int| 0 <= k < m < d.len() implies (#[trigger] d[k]).index != (#[trigger] d[m]).index by {
                assert(d[k] == outs[k] && d[m] == outs[m]);
            }
        }
        lemma_outcomes_keep_done_count(s, d, max_retries);
        let mid = after_outcomes(s, d, max_retries);
        let o = outs.last();
        let i = o.index as int;
        assert(o == outs[last]);
        assert forall|k: int| 0 <= k < d.len() implies (#[trigger] d[k]).index != i by {
            assert(d[k] == outs[k]);
            assert(outs[k].index != outs[last].index);
        }
        assert(mid.jobs[i] == s.jobs[i]);
        let j = mid.jobs[i];
        let x = match o.result {
            Ok(_) => QueueJob { status: QueueJobStatus::Done, error: None, ..j },
            Err(e) => if j.attempts <= max_retries {
                QueueJob { status: QueueJobStatus::Pending, error: Some(e), ..j }
            } else {
                QueueJob { status: QueueJobStatus::Failed, error: Some(e), ..j }
            },
        };
        let end = after_outcomes(s, outs, max_retries);
        assert(end == after_outcome(mid, o, max_retries));
        assert(end.jobs == mid.jobs.update(i, x));
        lemma_count_status_update(mid.jobs, i, x, QueueJobStatus::Done);
        lemma_count_status_update(mid.jobs, i, x, QueueJobStatus::Failed);
        assert forall|i2: int| 0 <= i2 < s.jobs.len() && (forall|k: int| 0 <= k < outs.len() ==> (#[trigger] outs[k]).index != i2)
            implies #[trigger] end.jobs[i2] == s.jobs[i2] by {
            assert forall|k: int| 0 <= k < d.len() implies (#[trigger] d[k]).index != i2 by {
                assert(d[k] == outs[k]);
            }
            assert(outs[last].index != i2);
        }
        assert forall|k: int| 0 <= k < outs.len() implies end.jobs[(#[trigger] outs[k]).index as int].status
            != QueueJobStatus::Running by {
            if k < last {
                assert(d[k] == outs[k]);
                assert(outs[k].index != outs[last].index);
                assert(mid.jobs[d[k].index as int].status != QueueJobStatus::Running);
            }
        }
    }
}

/// A download batch keeps the finished-file counter equal to the number of done or
/// failed jobs when every outcome answers a different running job: the counter never
/// exceeds the queued files, and the byte counter grows by exactly the bytes downloaded.
pub proof fn lemma_batch_keeps_done_count(p: App, outs: Seq<DownloadOutcome>, q: App)
    requires
        downloads_finished(p, outs, q),
        p.queue.done_files == finished_count(p.queue.jobs@),
        p.queue.total_files == p.queue.jobs@.len(),
        outcomes_for_running(p.queue.jobs@, outs),
    ensures
        q.queue.done_files == finished_count(q.queue.jobs@),
        q.queue.jobs@.len() == p.queue.jobs@.len(),
        q.queue.total_files == p.queue.total_files,
        q.queue.total_bytes == p.queue.total_bytes,
        q.queue.done_files <= q.queue.total_files,
        q.queue.done_bytes == p.queue.done_bytes + downloaded_bytes(outs),
{
    lemma_outcomes_keep_done_count(progress_of(p), outs, p.max_retries);
    crate::queue::lemma_finished_count_bound(q.queue.jobs@);
}

/// A timer tick leaves the finished-file and byte counters alone and keeps the
/// finished-file counter equal to the number of done or failed jobs; the downloads it
/// hands out name different jobs, each now running.
pub proof fn lemma_tick_keeps_done_count(p: App, q: App, req: Option<IoRequest>)
    requires
        tick_step(p, q, req),
        p.queue.done_files == finished_count(p.queue.jobs@),
    ensures
        q.queue.done_files == finished_count(q.queue.jobs@),
        q.queue.done_files == p.queue.done_files,
        q.queue.done_bytes == p.queue.done_bytes,
        q.queue.total_files == p.queue.total_files,
        q.queue.total_bytes == p.queue.total_bytes,
        q.queue.jobs@.len() == p.queue.jobs@.len(),
        req matches Some(IoRequest::Download { params, tasks }) ==> {
            &&& forall|k: int| 0 <= k < tasks@.len() ==> {
                let i = (#[trigger] tasks@[k]).index as int;
                &&& i < q.queue.jobs@.len()
                &&& q.queue.jobs@[i].status == QueueJobStatus::Running
            }
            &&& forall|k: int, m: int| 0 <= k < m < tasks@.len() ==> (#[trigger] tasks@[k]).index != (#[trigger] tasks@[m]).index
        },
{
    let jobs = p.queue.jobs@;
    lemma_pending_positions(jobs);
    let pp = pending_positions(jobs);
    let chosen = take_at_most(pp, free_slots(p));
    assert forall|k: int| 0 <= k < chosen.len() implies chosen[k] == pp[k] by {}
    if jobs.len() > 0 && free_slots(p) != 0 && chosen.len() > 0 {
        let qj = q.queue.jobs@;
        assert forall|i: int| 0 <= i < jobs.len() implies (#[trigger] jobs[i].status == QueueJobStatus::Done)
            == (qj[i].status == QueueJobStatus::Done) by {
            if chosen.contains(i) {
                let k = choose|k: int| 0 <= k < chosen.len() && chosen[k] == i;
                assert(pp[k] == i);
            }
            assert(qj[i] == if chosen.contains(i) { dispatched_job(jobs[i]) } else { jobs[i] });
        }
        assert forall|i: int| 0 <= i < jobs.len() implies (#[trigger] jobs[i].status == QueueJobStatus::Failed)
            == (qj[i].status == QueueJobStatus::Failed) by {
            if chosen.contains(i) {
                let k = choose|k: int| 0 <= k < chosen.len() && chosen[k] == i;
                assert(pp[k] == i);
            }
            assert(qj[i] == if chosen.contains(i) { dispatched_job(jobs[i]) } else { jobs[i] });
        }
        crate::queue::lemma_count_status_pointwise(jobs, qj, QueueJobStatus::Done);
        crate::queue::lemma_count_status_pointwise(jobs, qj, QueueJobStatus::Failed);
        if let Some(IoRequest::Download { params, tasks }) = req {
            assert forall|k: int| 0 <= k < tasks@.len() implies {
                let i = (#[trigger] tasks@[k]).index as int;
                &&& i < qj.len()
                &&& qj[i].status == QueueJobStatus::Running
            } by {
                let i = chosen[k];
                assert(chosen.contains(i));
                assert(qj[i] == dispatched_job(jobs[i]));
            }
        }
    }
}

/// No job is running.
pub open spec fn none_running(jobs: Seq<QueueJob>) -> bool {
    forall|i: int| 0 <= i < jobs.len() ==> (#[trigger] jobs[i]).status != QueueJobStatus::Running
}

/// Each outcome answers the download task at the same position, and every task is
/// answered.
pub open spec fn answers_tasks(tasks: Seq<DownloadTask>, outs: Seq<DownloadOutcome>) -> bool {
    &&& outs.len() == tasks.len()
    &&& forall|k: int| 0 <= k < outs.len() ==> (#[trigger] outs[k]).index == tasks[k].index
}

/// One timer tick together with the downloads it hands out, each answered once: when the
/// finished-file counter equals the number of done or failed jobs and nothing is running
/// before, the same holds after; the counter stays within the queued files, the byte
/// counter grows by the bytes downloaded, and the totals stay.
pub proof fn lemma_tick_with_downloads(
    p: App,
    q: App,
    req: Option<IoRequest>,
    outs: Seq<DownloadOutcome>,
    r: App,
)
    requires
        tick_step(p, q, req),
        p.queue.done_files == finished_count(p.queue.jobs@),
        p.queue.total_files == p.queue.jobs@.len(),
        none_running(p.queue.jobs@),
        req matches Some(IoRequest::Download { params, tasks }) ==> answers_tasks(tasks@, outs)
            && downloads_finished(q, outs, r),
        req is None ==> r == q,
    ensures
        r.queue.done_files == finished_count(r.queue.jobs@),
        r.queue.done_files <= r.queue.total_files,
        none_running(r.queue.jobs@),
        r.queue.done_bytes == p.queue.done_bytes + if req is Some {
            downloaded_bytes(outs)
        } else {
            0nat
        },
        r.queue.total_files == p.queue.total_files,
        r.queue.total_bytes == p.queue.total_bytes,
        r.queue.jobs@.len() == p.queue.jobs@.len(),
{
    lemma_tick_keeps_done_count(p, q, req);
    let jobs = p.queue.jobs@;
    lemma_pending_positions(jobs);
    let pp = pending_positions(jobs);
    let chosen = take_at_most(pp, free_slots(p));
    assert forall|k: int| 0 <= k < chosen.len() implies chosen[k] == pp[k] by {}
    match req {
        None => {
            crate::queue::lemma_finished_count_bound(q.queue.jobs@);
            if jobs.len() > 0 && free_slots(p) != 0 {
                assert(chosen.len() == 0);
            }
            assert(q.queue.jobs@ == jobs);
        },
        Some(rq) => {
            if let IoRequest::Download { params, tasks } = rq {
                let qj = q.queue.jobs@;
                assert(jobs.len() > 0 && free_slots(p) != 0 && chosen.len() > 0);
                assert(outcomes_for_running(qj, outs)) by {
                    assert forall|k: int| 0 <= k < outs.len() implies {
                        let i = (#[trigger] outs[k]).index as int;
                        &&& i < qj.len()
                        &&& qj[i].status == QueueJobStatus::Running
                    } by {
                        assert(outs[k].index == tasks@[k].index);
                    }
                    assert forall|k: int, m: int| 0 <= k < m < outs.len() implies (#[trigger] outs[k]).index
                        != (#[trigger] outs[m]).index by {
                        assert(outs[k].index == tasks@[k].index);
                        assert(outs[m].index == tasks@[m].index);
                    }
                }
                lemma_batch_keeps_done_count(q, outs, r);
                lemma_outcomes_keep_done_count(progress_of(q), outs, q.max_retries);
                let rj = r.queue.jobs@;
                assert forall|i: int| 0 <= i < rj.len() implies (#[trigger] rj[i]).status != QueueJobStatus::Running by {
                    if exists|k: int| 0 <= k < outs.len() && (#[trigger] outs[k]).index == i {
                        let k = choose|k: int| 0 <= k < outs.len() && (#[trigger] outs[k]).index == i;
                        assert(rj[outs[k].index as int].status != QueueJobStatus::Running);
                    } else {
                        assert(rj[i] == qj[i]);
                        if chosen.contains(i) {
                            let m = choose|m: int| 0 <= m < chosen.len() && chosen[m] == i;
                            assert(tasks@[m].index == chosen[m]);
                            assert(outs[m].index == i);
                        }
                        assert(qj[i] == if chosen.contains(i) { dispatched_job(jobs[i]) } else { jobs[i] });
                    }
                }
            }
        },
    }
}

/// A queued job after it was handed out once more and that download failed with `e`:
/// what a tick and the failed outcome do to it.
pub open spec fn failed_round(j: QueueJob, e: String, max_retries: u8) -> QueueJob {
    let d = dispatched_job(j);
    if d.attempts <= max_retries {
        QueueJob { status: QueueJobStatus::Pending, error: Some(e), ..d }
    } else {
        QueueJob { status: QueueJobStatus::Failed, error: Some(e), ..d }
    }
}

/// A job after `n` rounds in which, while it is pending, it is handed out and its
/// download fails with `e`.
pub open spec fn after_failed_rounds(j: QueueJob, e: String, max_retries: u8, n: nat) -> QueueJob
    decreases n,
{
    if n == 0 {
        j
    } else {
        let prev = after_failed_rounds(j, e, max_retries, (n - 1) as nat);
        if prev.status == QueueJobStatus::Pending {
            failed_round(prev, e, max_retries)
        } else {
            prev
        }
    }
}

/// A failed round is what a tick followed by the failed outcome does to the job: the
/// tick hands it out (one more attempt, running) and the outcome takes it in.
pub proof fn lemma_failed_round_is_tick_then_outcome(
    s: Progress,
    o: DownloadOutcome,
    j: QueueJob,
    e: String,
    max_retries: u8,
)
    requires
        o.index < s.jobs.len(),
        s.jobs[o.index as int] == dispatched_job(j),
        o.result == Err::<S3DownloadResult, String>(e),
    ensures
        after_outcome(s, o, max_retries).jobs[o.index as int] == failed_round(j, e, max_retries),
{
}

/// A download that always fails is retried `max_retries` times after its first attempt:
/// after each of the first `max_retries` failures it is pending again with the error
/// kept, after the next one it is failed with `max_retries + 1` attempts, and from then
/// on it is not handed out again.
pub proof fn lemma_failing_job_fails_after_all_retries(j: QueueJob, e: String, max_retries: u8, n: nat)
    requires
        j.status == QueueJobStatus::Pending,
        j.attempts == 0,
        max_retries < 255,
    ensures
        1 <= n <= max_retries ==> {
            let k = after_failed_rounds(j, e, max_retries, n);
            &&& k.status == QueueJobStatus::Pending
            &&& k.attempts == n
            &&& k.error == Some(e)
        },
        n > max_retries ==> {
            let k = after_failed_rounds(j, e, max_retries, n);
            &&& k.status == QueueJobStatus::Failed
            &&& k.attempts == max_retries + 1
            &&& k.error == Some(e)
        },
    decreases n,
{
    if n > 0 {
        lemma_failing_job_fails_after_all_retries(j, e, max_retries, (n - 1) as nat);
    }
}

/// On the main screen the Down arrow moves the cursor one row down and the Up arrow one
/// row up, as far as there are rows; nothing else changes.
pub proof fn lemma_arrow_keys_move_the_cursor(p: App, k: crate::event::KeyPress, q: App, req: Option<IoRequest>)
    requires
        update_spec(p, crate::event::action_for_key(k), q, req),
        !p.ui.show_help && !p.ui.confirm_quit && !p.ui.show_connection_settings,
    ensures
        k.key == crate::event::Key::Down ==> {
            &&& req is None
            &&& q.browser.cursor == if p.browser.cursor + 1 < p.browser.items@.len() {
                p.browser.cursor + 1
            } else {
                p.browser.cursor as int
            }
            &&& q == (App { browser: BrowserState { cursor: q.browser.cursor, ..p.browser }, ..p })
        },
        k.key == crate::event::Key::Up ==> {
            &&& req is None
            &&& q.browser.cursor == if p.browser.cursor > 0 {
                p.browser.cursor - 1
            } else {
                0
            }
            &&& q == (App { browser: BrowserState { cursor: q.browser.cursor, ..p.browser }, ..p })
        },
{
    crate::event::lemma_keys_have_their_actions(k.no_modifiers, ' ');
    assert(p.browser.items@.len() == p.browser.items.len());
}

/// The size taken for a directly selected object is that of the first browser row whose
/// key is the selected key (0 when that row shows no size, or when no row has the key).
pub proof fn lemma_known_size_is_first_row_with_key(items: Seq<BrowserItem>, k: Seq<char>, i: int)
    requires
        0 <= i < items.len(),
        items[i].key@ == k,
        forall|j: int| 0 <= j < i ==> items[j].key@ != k,
    ensures
        known_size(items, k) == match items[i].size {
            Some(s) => s,
            None => 0u64,
        },
    decreases i,
{
    if i > 0 {
        assert(items[0].key@ != k);
        let rest = items.drop_first();
        assert forall|j: int| 0 <= j < i - 1 implies rest[j].key@ != k by {
            assert(rest[j] == items[j + 1]);
        }
        assert(rest[i - 1] == items[i]);
        lemma_known_size_is_first_row_with_key(rest, k, i - 1);
    }
}

/// No browser row with the key: the size is 0.
pub proof fn lemma_known_size_without_row(items: Seq<BrowserItem>, k: Seq<char>)
    requires
        forall|j: int| 0 <= j < items.len() ==> items[j].key@ != k,
    ensures
        known_size(items, k) == 0,
    decreases items.len(),
{
    if items.len() > 0 {
        let rest = items.drop_first();
        assert forall|j: int| 0 <= j < rest.len() implies rest[j].key@ != k by {
            assert(rest[j] == items[j + 1]);
        }
        lemma_known_size_without_row(rest, k);
    }
}

/// Each directly selected object is queued with the size of the first browser row whose
/// key is that object's key.
pub proof fn lemma_direct_objects_take_their_row_size(
    items: Seq<BrowserItem>,
    keys: Seq<Seq<char>>,
    directs: Seq<S3ObjectSummary>,
    t: int,
    i: int,
)
    requires
        direct_summaries(items, keys, directs),
        0 <= t < keys.len(),
        0 <= i < items.len(),
        items[i].key@ == keys[t],
        forall|j: int| 0 <= j < i ==> items[j].key@ != keys[t],
    ensures
        directs[t].key@ == keys[t],
        directs[t].size == match items[i].size {
            Some(s) => s,
            None => 0u64,
        },
{
    lemma_known_size_is_first_row_with_key(items, keys[t], i);
    let d = directs[t];
}

/// Select-all adds exactly the keys of the rows that are not the way up: a key is
/// selected afterwards if and only if it was before or some folder or object row has it.
/// In particular the key of the way-up row is not added unless another row has it.
pub proof fn lemma_select_all_adds_only_selectable_rows(p: App, q: App)
    requires
        select_all_step(p, q),
    ensures
        forall|k: Seq<char>| q.browser.selected@.contains(k) <==> (p.browser.selected@.contains(k) || exists|i: int|
            0 <= i < p.browser.items@.len() && p.browser.items@[i].kind != BrowserItemKind::Parent
                && #[trigger] p.browser.items@[i].key@ == k),
        forall|i: int|
            0 <= i < p.browser.items@.len() && p.browser.items@[i].kind == BrowserItemKind::Parent
                && !p.browser.selected@.contains(#[trigger] p.browser.items@[i].key@) && (forall|j: int|
                0 <= j < p.browser.items@.len() && p.browser.items@[j].key@ == p.browser.items@[i].key@
                    ==> p.browser.items@[j].kind == BrowserItemKind::Parent) ==> !q.browser.selected@.contains(
                p.browser.items@[i].key@,
            ),
        q.browser.items == p.browser.items,
{
    let items = p.browser.items@;
    assert forall|k: Seq<char>| q.browser.selected@.contains(k) <==> (p.browser.selected@.contains(k) || exists|i: int|
        0 <= i < items.len() && items[i].kind != BrowserItemKind::Parent && #[trigger] items[i].key@ == k) by {
        assert(q.browser.selected@.contains(k) <==> q.browser.selected@.to_set().contains(k));
        assert(p.browser.selected@.contains(k) <==> p.browser.selected@.to_set().contains(k));
    }
}

/// Changing the profile or the endpoint URL in the connection dialog and applying it
/// (with a bucket, and with a usable endpoint URL when that is the target) asks to
/// connect with a changed target at the bucket root; keeping both asks to connect at
/// the dialog's prefix, with the target unchanged.
pub proof fn lemma_target_change_resets_to_root(p: App, q: App, req: Option<IoRequest>)
    requires
        apply_step(p, q, req),
        trim(p.ui.connection_draft.bucket@).len() > 0,
        trim(p.ui.connection_draft.profile@).len() > 0 || trim(p.ui.connection_draft.endpoint_url@).len() == 0
            || endpoint_problem(trim(p.ui.connection_draft.endpoint_url@)) is None,
    ensures
        req matches Some(IoRequest::Connect { params, target, warning, target_changed }) && {
            let changed = trim(p.ui.connection_draft.profile@) != p.session.profile@
                || trim(p.ui.connection_draft.endpoint_url@) != p.session.endpoint_url@;
            &&& target_changed == changed
            &&& changed ==> params.prefix@ == "/"@
            &&& !changed ==> params.prefix@ == normalized(trim(p.ui.connection_draft.prefix@))
            &&& params.profile@ == trim(p.ui.connection_draft.profile@)
            &&& params.endpoint_url@ == trim(p.ui.connection_draft.endpoint_url@)
        },
{
    let d = p.ui.connection_draft;
    let profile = trim(d.profile@);
    let endpoint = trim(d.endpoint_url@);
    crate::text::lemma_trim_idempotent(d.endpoint_url@);
    crate::text::lemma_trim_idempotent(d.profile@);
    let (target, warning) = resolved_target(profile, endpoint);
    if profile.len() > 0 {
        assert(target == TargetSpec::Profile(profile));
    } else if endpoint.len() > 0 {
        assert(target == TargetSpec::Endpoint(trim(endpoint)));
        assert(endpoint_problem(trim(endpoint)) is None);
    } else {
        assert(target == TargetSpec::DefaultChain);
    }
}

/// Enter on the way-up row asks to list that row's key; for rows built at a path other
/// than the root that is the parent of the path, one level up, which is also what
/// Backspace asks for.
pub proof fn lemma_enter_on_way_up_goes_one_level_up(
    p: App,
    q: App,
    req: Option<IoRequest>,
    listing: S3ListResult,
    q2: App,
    req2: Option<IoRequest>,
)
    requires
        enter_step(p, q, req),
        p.browser.cursor < p.browser.items@.len(),
        p.browser.items@[p.browser.cursor as int].kind == BrowserItemKind::Parent,
    ensures
        req matches Some(IoRequest::Navigate { params, reason }) && params.prefix@
            == p.browser.items@[p.browser.cursor as int].key@ && reason@ == "parent"@,
        rows_for(p.session.path@, listing, p.browser.items@) && p.session.path@ != "/"@
            && p.browser.cursor == 0 ==> (req matches Some(IoRequest::Navigate { params, reason })
            && params.prefix@ == parent_path(p.session.path@)),
        rows_for(p.session.path@, listing, p.browser.items@) && p.session.path@ != "/"@
            && p.browser.cursor == 0 && parent_step(p, q2, req2) ==> (req matches Some(
            IoRequest::Navigate { params, reason },
        ) && (req2 matches Some(IoRequest::Navigate { params: params2, reason: reason2 })
            && params.prefix@ == params2.prefix@ && reason@ == reason2@)),
{
}

} // verus!
