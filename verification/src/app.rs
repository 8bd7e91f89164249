//! Application state: session, browser, queue, script, UI flags and logs, with the
//! queries the screens are drawn from.
pub use crate::queue::{QueueJob, QueueJobStatus, QueueState};
pub use crate::selection::SelectionPlan;
use crate::action::{Focus, WorkTab};
use crate::keys::{string_views, KeySet};
use crate::selection::folder_keys;
use crate::services::config::AppConfig;
pub use crate::services::s3::{target_label, target_text};
use crate::services::s3::{resolve_target, resolved_target, S3Target, TargetSpec, TargetWarning};
use crate::system::{path_from, path_of};
use crate::text::{owned, trim, trim_str};
use std::path::PathBuf;
use vstd::prelude::*;

verus! {

/// The active connection context and the mode shown in the status bar.
#[derive(Debug, Clone)]
pub struct SessionState {
    pub profile: String,
    pub region: String,
    pub bucket: String,
    pub path: String,
    pub endpoint_url: String,
    pub mode: String,
}

/// One row of the S3 browser.
#[derive(Debug, Clone)]
pub struct BrowserItem {
    pub kind: BrowserItemKind,
    pub is_dir: bool,
    pub key: String,
    pub name: String,
    pub size: Option<u64>,
    pub modified: String,
}

/// The kind of a browser row: the way up, a folder, or an object.
#[derive(Debug, Clone, Copy, PartialEq, Eq, Structural)]
pub enum BrowserItemKind {
    Parent,
    Dir,
    Obj,
}

/// The browser pane: rows, cursor row, selected keys and a warning line.
#[derive(Debug, Clone)]
pub struct BrowserState {
    pub items: Vec<BrowserItem>,
    pub cursor: usize,
    pub selected: KeySet,
    pub warning: Option<String>,
}

/// The configured post-process command and what its last run reported.
#[derive(Debug, Clone)]
pub struct ScriptState {
    pub command: String,
    pub last_result: String,
}

/// The fields of the connection settings dialog, in tab order.
#[derive(Debug, Clone, Copy, PartialEq, Eq, Structural)]
pub enum ConnectionField {
    Profile,
    Region,
    Bucket,
    Prefix,
    EndpointUrl,
}

/// Position of a field in tab order.
pub open spec fn field_index(f: ConnectionField) -> int {
    match f {
        ConnectionField::Profile => 0,
        ConnectionField::Region => 1,
        ConnectionField::Bucket => 2,
        ConnectionField::Prefix => 3,
        ConnectionField::EndpointUrl => 4,
    }
}

/// The field at position `i` of the tab order.
pub open spec fn field_at(i: int) -> ConnectionField {
    if i == 0 {
        ConnectionField::Profile
    } else if i == 1 {
        ConnectionField::Region
    } else if i == 2 {
        ConnectionField::Bucket
    } else if i == 3 {
        ConnectionField::Prefix
    } else {
        ConnectionField::EndpointUrl
    }
}

/// The caption of a field.
pub open spec fn field_label(f: ConnectionField) -> Seq<char> {
    match f {
        ConnectionField::Profile => "Profile (optional)"@,
        ConnectionField::Region => "Region"@,
        ConnectionField::Bucket => "Bucket"@,
        ConnectionField::Prefix => "Prefix"@,
        ConnectionField::EndpointUrl => "Endpoint URL (optional)"@,
    }
}

/// The field after `f`, wrapping around.
pub open spec fn field_after(f: ConnectionField) -> ConnectionField {
    field_at((field_index(f) + 1) % 5)
}

/// The field before `f`, wrapping around.
pub open spec fn field_before(f: ConnectionField) -> ConnectionField {
    field_at((field_index(f) + 4) % 5)
}

/// Moving back undoes moving forward and the other way round; five steps forward come
/// back to the start.
pub proof fn lemma_field_cycle(f: ConnectionField)
    ensures
        field_before(field_after(f)) == f,
        field_after(field_before(f)) == f,
        field_after(field_after(field_after(field_after(field_after(f))))) == f,
        f != field_after(f),
{
}

impl ConnectionField {
    /// The next field in tab order.
    pub fn next(self) -> (r: Self)
        ensures
            r == field_after(self),
    {
        match self {
            Self::Profile => Self::Region,
            Self::Region => Self::Bucket,
            Self::Bucket => Self::Prefix,
            Self::Prefix => Self::EndpointUrl,
            Self::EndpointUrl => Self::Profile,
        }
    }

    /// The previous field in tab order.
    pub fn previous(self) -> (r: Self)
        ensures
            r == field_before(self),
    {
        match self {
            Self::Profile => Self::EndpointUrl,
            Self::Region => Self::Profile,
            Self::Bucket => Self::Region,
            Self::Prefix => Self::Bucket,
            Self::EndpointUrl => Self::Prefix,
        }
    }

    /// The field's caption.
    pub fn label(self) -> (r: &'static str)
        ensures
            r@ == field_label(self),
    {
        match self {
            Self::Profile => "Profile (optional)",
            Self::Region => "Region",
            Self::Bucket => "Bucket",
            Self::Prefix => "Prefix",
            Self::EndpointUrl => "Endpoint URL (optional)",
        }
    }
}

/// The values being edited in the connection settings dialog.
#[derive(Debug, Clone)]
pub struct ConnectionDraft {
    pub profile: String,
    pub region: String,
    pub bucket: String,
    pub prefix: String,
    pub endpoint_url: String,
    pub active_field: ConnectionField,
    pub error: Option<String>,
}

/// The text of field `f` of a draft.
pub open spec fn draft_field(d: ConnectionDraft, f: ConnectionField) -> String {
    match f {
        ConnectionField::Profile => d.profile,
        ConnectionField::Region => d.region,
        ConnectionField::Bucket => d.bucket,
        ConnectionField::Prefix => d.prefix,
        ConnectionField::EndpointUrl => d.endpoint_url,
    }
}

/// Pane focus, active tab, open dialogs and the connection draft.
#[derive(Debug, Clone)]
pub struct UiState {
    pub focus: Focus,
    pub tab: WorkTab,
    pub show_help: bool,
    pub confirm_quit: bool,
    pub show_connection_settings: bool,
    pub connection_draft: ConnectionDraft,
}

/// The whole application state.
#[derive(Debug, Clone)]
pub struct App {
    pub running: bool,
    pub session: SessionState,
    pub browser: BrowserState,
    pub queue: QueueState,
    pub script: ScriptState,
    pub ui: UiState,
    pub logs: Vec<String>,
    pub max_retries: u8,
    pub download_concurrency: usize,
    pub download_root: PathBuf,
}

/// The text of every log line.
pub open spec fn log_view(app: App) -> Seq<Seq<char>> {
    string_views(app.logs@)
}

/// The message shown under the dialog when the profile hides the endpoint.
pub open spec fn modal_warning_text(w: Option<TargetWarning>) -> Option<Seq<char>> {
    match w {
        Some(TargetWarning::ProfileOverridesEndpoint) => Some(
            "Profile is set, endpoint-url will be ignored."@,
        ),
        None => None,
    }
}

fn demo_item(kind: BrowserItemKind, key: &str, size: Option<u64>, modified: &str) -> (r: BrowserItem)
    ensures
        r.kind == kind,
        r.is_dir == (kind != BrowserItemKind::Obj),
        r.key@ == key@,
        r.name@ == key@,
        r.size == size,
        r.modified@ == modified@,
{
    BrowserItem {
        kind,
        is_dir: kind != BrowserItemKind::Obj,
        key: owned(key),
        name: owned(key),
        size,
        modified: owned(modified),
    }
}

impl App {
    /// The start-up state: a sample listing, an empty queue, default session values and
    /// download settings from [`AppConfig`].
    pub fn new() -> (r: Self)
        ensures
            r.running,
            r.session.profile@ == ""@,
            r.session.region@ == "ap-northeast-1"@,
            r.session.bucket@ == "my-bucket"@,
            r.session.path@ == "/"@,
            r.session.endpoint_url@ == ""@,
            r.session.mode@ == "Browse"@,
            r.browser.items@.len() == 3,
            r.browser.items@[0].kind == BrowserItemKind::Dir && r.browser.items@[0].key@ == "logs/"@
                && r.browser.items@[0].size is None,
            r.browser.items@[1].kind == BrowserItemKind::Dir && r.browser.items@[1].key@ == "reports/"@
                && r.browser.items@[1].size is None,
            r.browser.items@[2].kind == BrowserItemKind::Obj && r.browser.items@[2].key@ == "README.txt"@
                && r.browser.items@[2].size == Some(2048u64)
                && r.browser.items@[2].modified@ == "2026-03-20 10:00"@,
            forall|i: int| 0 <= i < 3 ==> (#[trigger] r.browser.items@[i]).name@ == r.browser.items@[i].key@
                && r.browser.items@[i].is_dir == (r.browser.items@[i].kind != BrowserItemKind::Obj),
            r.browser.items@[0].modified@ == "-"@ && r.browser.items@[1].modified@ == "-"@,
            r.browser.cursor == 0,
            r.browser.selected@.len() == 0,
            r.browser.warning is None,
            r.queue.done_files == 0 && r.queue.total_files == 0,
            r.queue.done_bytes == 0 && r.queue.total_bytes == 0,
            r.queue.speed_bytes_per_sec == 0,
            r.queue.eta@ == "--:--"@,
            r.queue.summary@ == "No queue prepared. Use d (selected) or D (folder)."@,
            r.queue.started_at is None,
            r.queue.jobs@.len() == 0,
            r.script.command@ == "./post-process.sh"@,
            r.script.last_result@ == "idle"@,
            r.ui.focus == Focus::Browser,
            r.ui.tab == WorkTab::Selection,
            !r.ui.show_help && !r.ui.confirm_quit && !r.ui.show_connection_settings,
            r.ui.connection_draft.profile == r.session.profile,
            r.ui.connection_draft.region == r.session.region,
            r.ui.connection_draft.bucket == r.session.bucket,
            r.ui.connection_draft.prefix == r.session.path,
            r.ui.connection_draft.endpoint_url == r.session.endpoint_url,
            r.ui.connection_draft.active_field == ConnectionField::Profile,
            r.ui.connection_draft.error is None,
            log_view(r) == seq!["INFO app initialized"@],
            r.max_retries == 3,
            r.download_concurrency == 4,
            r.download_root == path_of("./downloads"@),
    {
        let mut items: Vec<BrowserItem> = Vec::new();
        items.push(demo_item(BrowserItemKind::Dir, "logs/", None, "-"));
        items.push(demo_item(BrowserItemKind::Dir, "reports/", None, "-"));
        items.push(demo_item(BrowserItemKind::Obj, "README.txt", Some(2_048), "2026-03-20 10:00"));
        let session = SessionState {
            profile: owned(""),
            region: owned("ap-northeast-1"),
            bucket: owned("my-bucket"),
            path: owned("/"),
            endpoint_url: owned(""),
            mode: owned("Browse"),
        };
        let draft = ConnectionDraft {
            profile: session.profile.clone(),
            region: session.region.clone(),
            bucket: session.bucket.clone(),
            prefix: session.path.clone(),
            endpoint_url: session.endpoint_url.clone(),
            active_field: ConnectionField::Profile,
            error: None,
        };
        let mut logs: Vec<String> = Vec::new();
        logs.push(owned("INFO app initialized"));
        let config = AppConfig::default();
        let concurrency = if config.concurrency > 1 {
            config.concurrency
        } else {
            1
        };
        App {
            running: true,
            session,
            browser: BrowserState { items, cursor: 0, selected: KeySet::new(), warning: None },
            queue: QueueState {
                done_files: 0,
                total_files: 0,
                done_bytes: 0,
                total_bytes: 0,
                speed_bytes_per_sec: 0,
                eta: owned("--:--"),
                summary: owned("No queue prepared. Use d (selected) or D (folder)."),
                started_at: None,
                jobs: Vec::new(),
            },
            script: ScriptState {
                command: owned("./post-process.sh"),
                last_result: owned("idle"),
            },
            ui: UiState {
                focus: Focus::Browser,
                tab: WorkTab::Selection,
                show_help: false,
                confirm_quit: false,
                show_connection_settings: false,
                connection_draft: draft,
            },
            logs,
            max_retries: config.max_retries,
            download_concurrency: concurrency,
            download_root: path_from(config.download_dir),
        }
    }

    /// How many keys are selected.
    pub fn selected_count(&self) -> (r: usize)
        ensures
            r == self.browser.selected@.len(),
    {
        self.browser.selected.len()
    }

    /// How many selected keys are folders (end with `/`).
    pub fn selected_prefix_count(&self) -> (r: usize)
        ensures
            r == folder_keys(self.browser.selected@).len(),
    {
        let plan = SelectionPlan::from_selected(&self.browser.selected);
        plan.selected_prefix_count
    }

    /// How many selected keys are objects (do not end with `/`).
    pub fn selected_object_count(&self) -> (r: usize)
        ensures
            r == crate::selection::object_keys(self.browser.selected@).len(),
    {
        let plan = SelectionPlan::from_selected(&self.browser.selected);
        plan.selected_object_count
    }

    /// The number of pending, running, done and failed jobs.
    pub fn queue_status_counts(&self) -> (r: (usize, usize, usize, usize))
        ensures
            r.0 == crate::queue::count_status(self.queue.jobs@, QueueJobStatus::Pending),
            r.1 == crate::queue::count_status(self.queue.jobs@, QueueJobStatus::Running),
            r.2 == crate::queue::count_status(self.queue.jobs@, QueueJobStatus::Done),
            r.3 == crate::queue::count_status(self.queue.jobs@, QueueJobStatus::Failed),
    {
        let pending = crate::queue::count_jobs_with(&self.queue.jobs, QueueJobStatus::Pending);
        let running = crate::queue::count_jobs_with(&self.queue.jobs, QueueJobStatus::Running);
        let done = crate::queue::count_jobs_with(&self.queue.jobs, QueueJobStatus::Done);
        let failed = crate::queue::count_jobs_with(&self.queue.jobs, QueueJobStatus::Failed);
        (pending, running, done, failed)
    }

    /// The profile as shown: `default-chain` when blank.
    pub fn display_profile(&self) -> (r: &str)
        ensures
            r@ == if trim(self.session.profile@).len() == 0 {
                "default-chain"@
            } else {
                self.session.profile@
            },
    {
        let t = trim_str(self.session.profile.as_str());
        if t.len() == 0 {
            "default-chain"
        } else {
            self.session.profile.as_str()
        }
    }

    /// The target requests currently go to, as shown.
    pub fn display_effective_target(&self) -> (r: String)
        ensures
            r@ == target_text(resolved_target(self.session.profile@, self.session.endpoint_url@).0),
    {
        let (target, _) = resolve_target(self.session.profile.as_str(), self.session.endpoint_url.as_str());
        target_label(&target)
    }

    /// The warning shown in the connection dialog for the values being edited.
    pub fn connection_modal_warning(&self) -> (r: Option<&'static str>)
        ensures
            match r {
                Some(s) => modal_warning_text(
                    resolved_target(self.ui.connection_draft.profile@, self.ui.connection_draft.endpoint_url@).1,
                ) == Some(s@),
                None => modal_warning_text(
                    resolved_target(self.ui.connection_draft.profile@, self.ui.connection_draft.endpoint_url@).1,
                ) is None,
            },
    {
        let (_, warning) = resolve_target(
            self.ui.connection_draft.profile.as_str(),
            self.ui.connection_draft.endpoint_url.as_str(),
        );
        match warning {
            Some(TargetWarning::ProfileOverridesEndpoint) => Some(
                "Profile is set, endpoint-url will be ignored.",
            ),
            None => None,
        }
    }
}

} // verus!
