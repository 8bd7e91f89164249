use std::path::PathBuf;

use s3_grabber::action::{Action, Focus, WorkTab};
use s3_grabber::app::{App, BrowserItemKind, ConnectionField, QueueJob, QueueJobStatus, SelectionPlan};
use s3_grabber::controller::{build_browser_items, DownloadOutcome, IoRequest};
use s3_grabber::event::{event_from_input, map_key_to_action, Event, Key, KeyPress};
use s3_grabber::keys::{sort_by_key, KeySet};
use s3_grabber::paths::{
    api_prefix_from_path, display_key, format_eta, local_destination_for_key, normalize_prefix,
    parent_prefix, sanitized_key,
};
use s3_grabber::queue::{merge_by_key, queue_total_fits, remaining_fits, transfer_rates};
use s3_grabber::screen::{
    browser_row, browser_rows, browser_title, browser_warning_line, connection_panel, details_panel,
    format_speed, header_line, help_lines, logs_panel, queue_panel, quit_lines, selection_panel,
    status_bar, tab_position, Tone,
};
use s3_grabber::services::s3::{
    s3_api_prefix, format_s3_error, listing_from_response, object_summary, resolve_target,
    target_label, validate_endpoint_url, S3ConnectParams, S3DownloadResult, S3ListResult,
    S3ObjectSummary, S3RawObject, S3Target, TargetWarning,
};
use s3_grabber::services::script::{ScriptMode, ScriptRunner};
use s3_grabber::text::{decimal_string, text_lines, trim_str};

fn summary(key: &str, size: u64, modified: &str) -> S3ObjectSummary {
    S3ObjectSummary {
        key: key.to_string(),
        size,
        modified: modified.to_string(),
    }
}

fn job(key: &str, size: u64, status: QueueJobStatus, attempts: u8) -> QueueJob {
    QueueJob {
        key: key.to_string(),
        local_path: PathBuf::from(key),
        size,
        status,
        attempts,
        error: None,
    }
}

fn params(prefix: &str) -> S3ConnectParams {
    S3ConnectParams {
        profile: String::new(),
        region: "us-east-1".to_string(),
        bucket: "b".to_string(),
        prefix: prefix.to_string(),
        endpoint_url: String::new(),
        max_keys: 200,
    }
}

fn ok_outcome(index: usize, key: &str, bytes: u64) -> DownloadOutcome {
    DownloadOutcome {
        index,
        key: key.to_string(),
        path: PathBuf::from(key),
        result: Ok(S3DownloadResult {
            bytes_written: bytes,
        }),
    }
}

fn err_outcome(index: usize, key: &str, err: &str) -> DownloadOutcome {
    DownloadOutcome {
        index,
        key: key.to_string(),
        path: PathBuf::from(key),
        result: Err(err.to_string()),
    }
}

fn chars(s: &str) -> Vec<char> {
    s.chars().collect()
}

#[test]
fn work_tabs_cycle_forward_and_back() {
    for tab in WorkTab::ALL {
        assert_eq!(tab.next().previous(), tab);
        assert_eq!(tab.previous().next(), tab);
        assert_eq!(tab.next().next().next().next(), tab);
        assert_ne!(tab.next(), tab);
    }
    assert_eq!(WorkTab::Selection.next(), WorkTab::Preview);
    assert_eq!(WorkTab::Logs.next(), WorkTab::Selection);
    assert_eq!(WorkTab::Queue.label(), "Queue");
    let labels: Vec<&str> = WorkTab::ALL.iter().map(|t| t.label()).collect();
    assert_eq!(labels, vec!["Selection", "Details", "Queue", "Logs"]);
    assert_eq!(tab_position(WorkTab::Logs), 3);
}

#[test]
fn connection_fields_cycle_forward_and_back() {
    let all = [
        ConnectionField::Profile,
        ConnectionField::Region,
        ConnectionField::Bucket,
        ConnectionField::Prefix,
        ConnectionField::EndpointUrl,
    ];
    for f in all {
        assert_eq!(f.next().previous(), f);
        assert_eq!(f.next().next().next().next().next(), f);
    }
    assert_eq!(ConnectionField::EndpointUrl.next(), ConnectionField::Profile);
    assert_eq!(ConnectionField::Profile.previous(), ConnectionField::EndpointUrl);
    assert_eq!(ConnectionField::EndpointUrl.label(), "Endpoint URL (optional)");
}

#[test]
fn script_mode_toggles_back_and_runner_keeps_its_settings() {
    assert_eq!(ScriptMode::PerFile.toggle(), ScriptMode::PostBatch);
    assert_eq!(ScriptMode::PerFile.toggle().toggle(), ScriptMode::PerFile);
    assert_eq!(ScriptMode::PostBatch.label(), "post-batch");
    let runner = ScriptRunner::new("./run.sh", ScriptMode::PostBatch);
    assert_eq!(runner.command, "./run.sh");
    assert_eq!(runner.mode, ScriptMode::PostBatch);
}

#[test]
fn normalize_prefix_adds_one_leading_slash() {
    assert_eq!(normalize_prefix(""), "/");
    assert_eq!(normalize_prefix("logs/"), "/logs/");
    assert_eq!(normalize_prefix("/logs/"), "/logs/");
    let once = normalize_prefix("a/b");
    assert_eq!(normalize_prefix(&once), once);
}

#[test]
fn api_prefix_strips_leading_slashes_and_adds_trailing_one() {
    assert_eq!(api_prefix_from_path("/"), None);
    assert_eq!(api_prefix_from_path("   "), None);
    assert_eq!(api_prefix_from_path("/logs/"), Some("logs/".to_string()));
    assert_eq!(api_prefix_from_path("  //logs/a "), Some("logs/a/".to_string()));
    assert_eq!(s3_api_prefix("/logs/a"), Some("logs/a/".to_string()));
    assert_eq!(s3_api_prefix("/"), None);
}

#[test]
fn display_key_strips_the_base_prefix_only_when_present() {
    assert_eq!(display_key("logs/a.txt", Some("logs/")), "a.txt");
    assert_eq!(display_key("other/a.txt", Some("logs/")), "other/a.txt");
    assert_eq!(display_key("x", None), "x");
}

#[test]
fn parent_prefix_walks_up_to_the_root() {
    assert_eq!(parent_prefix("/"), "/");
    assert_eq!(parent_prefix(""), "/");
    assert_eq!(parent_prefix("/logs/"), "/");
    assert_eq!(parent_prefix("/logs/archive/"), "/logs/");
    assert_eq!(parent_prefix("logs/a"), "/logs/");
    let mut p = "/a/b/c/".to_string();
    let mut steps = 0;
    while p != "/" {
        let next = parent_prefix(&p);
        assert!(next.len() < p.len());
        p = next;
        steps += 1;
    }
    assert_eq!(steps, 3);
}

#[test]
fn format_eta_edges() {
    assert_eq!(format_eta(0), "00:00");
    assert_eq!(format_eta(59), "00:59");
    assert_eq!(format_eta(3_600), "01:00:00");
    assert_eq!(format_eta(360_000), "100:00:00");
}

#[test]
fn sanitized_key_replaces_every_slash() {
    assert_eq!(sanitized_key("a/b/c", '\\'), "a\\b\\c");
    assert_eq!(sanitized_key("plain", '\\'), "plain");
}

#[test]
fn validate_endpoint_url_reports_each_problem() {
    assert_eq!(validate_endpoint_url(""), Ok(()));
    assert_eq!(validate_endpoint_url("   "), Ok(()));
    assert_eq!(validate_endpoint_url("  http://localhost:9000/path "), Ok(()));
    assert_eq!(validate_endpoint_url("https://s3.local"), Ok(()));
    assert_eq!(
        validate_endpoint_url("localhost:9000"),
        Err("endpoint-url must include scheme (http:// or https://)".to_string())
    );
    assert_eq!(
        validate_endpoint_url("ftp://host"),
        Err("endpoint-url scheme must be http or https".to_string())
    );
    assert_eq!(
        validate_endpoint_url("http:///bucket"),
        Err("endpoint-url host is missing".to_string())
    );
    assert_eq!(
        validate_endpoint_url("http://my host/"),
        Err("endpoint-url must not contain spaces".to_string())
    );
}

#[test]
fn resolve_target_prefers_profile_then_endpoint() {
    let (t, w) = resolve_target("  prof ", "http://x");
    assert_eq!(
        t,
        S3Target::Profile {
            profile: "prof".to_string()
        }
    );
    assert_eq!(w, Some(TargetWarning::ProfileOverridesEndpoint));
    let (t, w) = resolve_target("", " http://x ");
    assert_eq!(
        t,
        S3Target::Endpoint {
            endpoint_url: "http://x".to_string()
        }
    );
    assert_eq!(w, None);
    let (t, w) = resolve_target(" ", "");
    assert_eq!(t, S3Target::DefaultChain);
    assert_eq!(w, None);
    assert_eq!(target_label(&S3Target::DefaultChain), "default-chain");
    assert_eq!(
        target_label(&S3Target::Endpoint {
            endpoint_url: "http://x".to_string()
        }),
        "endpoint:http://x"
    );
}

#[test]
fn format_s3_error_lists_context_and_causes() {
    let msg = format_s3_error(
        "list_objects_v2",
        &params("/logs/"),
        &S3Target::DefaultChain,
        "boom",
        "Boom { .. }",
        &vec!["inner".to_string(), "root".to_string()],
    );
    assert_eq!(
        msg,
        "operation=list_objects_v2\ntarget=default-chain\nregion=us-east-1\nbucket=b\nprefix=/logs/\nendpoint_url=\nerror=boom\ndebug=Boom { .. }\ncause[1]=inner\ncause[2]=root"
    );
}

#[test]
fn object_summary_fills_missing_values() {
    let none = S3RawObject {
        key: None,
        size: Some(3),
        last_modified: None,
    };
    assert!(object_summary(&none).is_none());
    let negative = S3RawObject {
        key: Some("k".to_string()),
        size: Some(-5),
        last_modified: None,
    };
    let s = object_summary(&negative).unwrap();
    assert_eq!(s.key, "k");
    assert_eq!(s.size, 0);
    assert_eq!(s.modified, "-");
    let full = S3RawObject {
        key: Some("k".to_string()),
        size: Some(42),
        last_modified: Some("2026-01-01T00:00:00Z".to_string()),
    };
    let s = object_summary(&full).unwrap();
    assert_eq!(s.size, 42);
    assert_eq!(s.modified, "2026-01-01T00:00:00Z");
}

#[test]
fn listing_from_response_sorts_and_skips_missing() {
    let prefixes = vec![Some("b/".to_string()), None, Some("a/".to_string())];
    let contents = vec![
        S3RawObject {
            key: Some("z".to_string()),
            size: Some(1),
            last_modified: None,
        },
        S3RawObject {
            key: None,
            size: Some(2),
            last_modified: None,
        },
        S3RawObject {
            key: Some("a".to_string()),
            size: Some(3),
            last_modified: None,
        },
    ];
    let listing = listing_from_response(&prefixes, &contents);
    assert_eq!(listing.prefixes, vec!["a/", "b/"]);
    let keys: Vec<&str> = listing.objects.iter().map(|o| o.key.as_str()).collect();
    assert_eq!(keys, vec!["a", "z"]);
    assert_eq!(listing.objects[0].size, 3);
}

#[test]
fn text_helpers() {
    assert_eq!(text_lines("a\r\nb\n\nc"), vec!["a", "b", "", "c"]);
    assert_eq!(text_lines("x\n"), vec!["x"]);
    assert!(text_lines("").is_empty());
    assert_eq!(decimal_string(0), "0");
    assert_eq!(decimal_string(12_345), "12345");
    assert_eq!(trim_str("  a b \t"), chars("a b"));
}

#[test]
fn key_set_keeps_unique_sorted_keys() {
    let mut set = KeySet::from_keys(vec!["b".to_string(), "a".to_string(), "b".to_string()]);
    assert_eq!(set.keys(), &vec!["a".to_string(), "b".to_string()]);
    assert_eq!(set.len(), 2);
    set.insert("a".to_string());
    assert_eq!(set.len(), 2);
    set.insert("c".to_string());
    assert!(set.contains(&"c".to_string()));
    set.remove(&"a".to_string());
    assert!(!set.contains(&"a".to_string()));
    assert_eq!(set.keys(), &vec!["b".to_string(), "c".to_string()]);
    set.clear();
    assert!(set.is_empty());
}

#[test]
fn sort_by_key_keeps_equal_keys_in_order() {
    let sorted = sort_by_key(vec![
        summary("b", 1, "-"),
        summary("a", 2, "-"),
        summary("b", 3, "-"),
    ]);
    let seen: Vec<(&str, u64)> = sorted.iter().map(|o| (o.key.as_str(), o.size)).collect();
    assert_eq!(seen, vec![("a", 2), ("b", 1), ("b", 3)]);
}

#[test]
fn merge_by_key_takes_largest_size_and_first_known_time() {
    let merged = merge_by_key(&vec![
        summary("b", 1, "-"),
        summary("a", 10, "-"),
        summary("a", 20, "mtime"),
        summary("a", 5, "later"),
    ]);
    assert_eq!(merged.len(), 2);
    assert_eq!(merged[0].key, "a");
    assert_eq!(merged[0].size, 20);
    assert_eq!(merged[0].modified, "mtime");
    assert_eq!(merged[1].key, "b");
}

#[test]
fn totals_that_overflow_are_detected() {
    assert!(queue_total_fits(&vec![summary("a", u64::MAX, "-"), summary("a", 1, "-")]));
    assert!(!queue_total_fits(&vec![summary("a", u64::MAX, "-"), summary("b", 1, "-")]));
    assert!(remaining_fits(&vec![
        job("a", u64::MAX, QueueJobStatus::Pending, 0),
        job("b", 1, QueueJobStatus::Done, 1),
    ]));
    assert!(!remaining_fits(&vec![
        job("a", u64::MAX, QueueJobStatus::Pending, 0),
        job("b", 1, QueueJobStatus::Running, 1),
    ]));
}

#[test]
fn transfer_rates_exact_values() {
    assert_eq!(transfer_rates(1_000, 3_000, 2_000_000_000), (500, 6));
    assert_eq!(transfer_rates(3, 10, 1_000_000_000), (3, 4));
    assert_eq!(transfer_rates(10, 0, 1_000_000_000), (10, 0));
}

#[test]
fn transfer_metrics_from_elapsed_time() {
    let mut app = App::new();
    app.prepare_download_queue(vec![summary("a", 1_000, "-"), summary("b", 3_000, "-")]);
    app.queue.jobs[0].status = QueueJobStatus::Done;
    app.queue.done_bytes = 1_000;
    app.apply_transfer_metrics(2_000_000_000);
    assert_eq!(app.queue.speed_bytes_per_sec, 500);
    assert_eq!(app.queue.eta, "00:06");
    app.apply_transfer_metrics(0);
    assert_eq!(app.queue.speed_bytes_per_sec, 0);
    assert_eq!(app.queue.eta, "calculating");
}

#[test]
fn status_counts_add_up_to_the_queue_length() {
    let mut app = App::new();
    app.queue.jobs = vec![
        job("a", 1, QueueJobStatus::Pending, 0),
        job("b", 1, QueueJobStatus::Pending, 0),
        job("c", 1, QueueJobStatus::Done, 1),
    ];
    let (p, r, d, f) = app.queue_status_counts();
    assert_eq!((p, r, d, f), (2, 0, 1, 0));
    assert_eq!(p + r + d + f, app.queue.jobs.len());
}

#[test]
fn key_presses_map_to_actions() {
    let press = |key: Key| KeyPress {
        key,
        no_modifiers: true,
    };
    assert_eq!(map_key_to_action(press(Key::Up)), Action::MoveUp);
    assert_eq!(map_key_to_action(press(Key::Backspace)), Action::BackspaceKey);
    assert_eq!(map_key_to_action(press(Key::Tab)), Action::NextTab);
    assert_eq!(
        map_key_to_action(KeyPress {
            key: Key::Tab,
            no_modifiers: false
        }),
        Action::Tick
    );
    assert_eq!(map_key_to_action(press(Key::BackTab)), Action::PreviousTab);
    assert_eq!(map_key_to_action(press(Key::Char(' '))), Action::ToggleSelectCurrent);
    assert_eq!(map_key_to_action(press(Key::Char('q'))), Action::InputChar('q'));
    assert_eq!(map_key_to_action(press(Key::Other)), Action::Tick);
    assert_eq!(event_from_input(None), Event::Tick);
    assert_eq!(
        event_from_input(Some(press(Key::Esc))),
        Event::Action(Action::CancelDialog)
    );
}

#[test]
fn quit_needs_confirmation_while_downloads_remain() {
    let mut app = App::new();
    assert!(app.update(Action::InputChar('q')).is_none());
    assert!(!app.running);

    let mut app = App::new();
    app.prepare_download_queue(vec![summary("a", 1, "-")]);
    app.update(Action::InputChar('q'));
    assert!(app.running);
    assert!(app.ui.confirm_quit);
    app.update(Action::CancelDialog);
    assert!(!app.ui.confirm_quit);
    app.update(Action::QuitRequested);
    app.update(Action::InputChar('y'));
    assert!(!app.running);
}

#[test]
fn help_dialog_swallows_other_keys() {
    let mut app = App::new();
    app.update(Action::InputChar('h'));
    assert!(app.ui.show_help);
    app.update(Action::MoveDown);
    app.update(Action::InputChar('q'));
    assert_eq!(app.browser.cursor, 0);
    assert!(app.running);
    app.update(Action::CancelDialog);
    assert!(!app.ui.show_help);
    app.update(Action::InputChar('?'));
    assert!(app.ui.show_help);
    app.update(Action::InputChar('h'));
    assert!(!app.ui.show_help);
    assert!(app.browser.selected.is_empty());
}

#[test]
fn cursor_stays_on_the_rows() {
    let mut app = App::new();
    app.update(Action::MoveUp);
    assert_eq!(app.browser.cursor, 0);
    for _ in 0..5 {
        app.update(Action::MoveDown);
    }
    assert_eq!(app.browser.cursor, 2);
    app.update(Action::MoveUp);
    assert_eq!(app.browser.cursor, 1);
}

#[test]
fn toggling_twice_restores_the_selection_and_select_all_covers_rows() {
    let mut app = App::new();
    app.update(Action::ToggleSelectCurrent);
    assert!(app.browser.selected.contains(&"logs/".to_string()));
    app.update(Action::ToggleSelectCurrent);
    assert!(app.browser.selected.is_empty());
    app.update(Action::InputChar('a'));
    assert_eq!(app.browser.selected.len(), 3);
    assert_eq!(app.selected_prefix_count(), 2);
    assert_eq!(app.selected_object_count(), 1);
    app.update(Action::InputChar('x'));
    assert_eq!(app.selected_count(), 0);
}

#[test]
fn tabs_and_focus_follow_keys() {
    let mut app = App::new();
    app.update(Action::NextTab);
    assert_eq!(app.ui.tab, WorkTab::Preview);
    app.update(Action::InputChar('l'));
    assert_eq!(app.ui.tab, WorkTab::Logs);
    app.update(Action::PreviousTab);
    assert_eq!(app.ui.tab, WorkTab::Queue);
    app.update(Action::InputChar('f'));
    assert_eq!(app.ui.focus, Focus::WorkPane);
    assert_eq!(browser_title(app.ui.focus), "S3 Browser");
    assert_eq!(browser_title(Focus::Browser), "S3 Browser [focus]");
}

#[test]
fn connection_dialog_edits_the_active_field() {
    let mut app = App::new();
    app.update(Action::InputChar('c'));
    assert!(app.ui.show_connection_settings);
    app.update(Action::InputChar('p'));
    app.update(Action::InputChar('x'));
    app.update(Action::BackspaceKey);
    assert_eq!(app.ui.connection_draft.profile, "p");
    app.update(Action::NextTab);
    assert_eq!(app.ui.connection_draft.active_field, ConnectionField::Region);
    app.update(Action::MoveUp);
    assert_eq!(app.ui.connection_draft.active_field, ConnectionField::Profile);
    app.update(Action::CancelDialog);
    assert!(!app.ui.show_connection_settings);
    assert_eq!(app.session.profile, "");
}

#[test]
fn connection_apply_requires_a_bucket() {
    let mut app = App::new();
    app.update(Action::InputChar('c'));
    app.ui.connection_draft.bucket = "  ".to_string();
    assert!(app.update(Action::Enter).is_none());
    assert_eq!(
        app.ui.connection_draft.error.as_deref(),
        Some("Bucket is required")
    );
    assert!(app.ui.show_connection_settings);
}

#[test]
fn connection_apply_rejects_an_invalid_endpoint() {
    let mut app = App::new();
    app.update(Action::InputChar('c'));
    app.ui.connection_draft.endpoint_url = "localhost:9000".to_string();
    assert!(app.update(Action::Enter).is_none());
    let message =
        "Invalid endpoint-url: endpoint-url must include scheme (http:// or https://)";
    assert_eq!(app.ui.connection_draft.error.as_deref(), Some(message));
    assert_eq!(app.browser.warning.as_deref(), Some(message));
    assert_eq!(
        app.logs.last().unwrap(),
        "WARN connection rejected due to endpoint-url: endpoint-url must include scheme (http:// or https://)"
    );
    assert_eq!(app.session.endpoint_url, "");
}

#[test]
fn connection_apply_requests_a_listing_and_takes_the_result() {
    let mut app = App::new();
    app.update(Action::InputChar('c'));
    app.ui.connection_draft.bucket = " data ".to_string();
    app.ui.connection_draft.prefix = "logs/".to_string();
    let request = app.update(Action::Enter).expect("a listing is requested");
    let IoRequest::Connect {
        params,
        target,
        warning,
        target_changed,
    } = request
    else {
        panic!("expected a connect request");
    };
    assert_eq!(params.bucket, "data");
    assert_eq!(params.prefix, "/logs/");
    assert_eq!(params.max_keys, 200);
    assert_eq!(target, S3Target::DefaultChain);
    assert_eq!(warning, None);
    assert!(!target_changed);

    let listing = S3ListResult {
        prefixes: vec!["logs/archive/".to_string()],
        objects: vec![summary("logs/a.log", 5, "m")],
    };
    app.finish_connect(params, target, warning, target_changed, Ok(listing));
    assert_eq!(app.session.bucket, "data");
    assert_eq!(app.session.path, "/logs/");
    assert!(!app.ui.show_connection_settings);
    assert_eq!(app.browser.items.len(), 3);
    assert_eq!(app.browser.items[0].kind, BrowserItemKind::Parent);
    assert_eq!(
        app.logs.last().unwrap(),
        "INFO connection updated target=default-chain region=ap-northeast-1 bucket=data prefix=/logs/"
    );
}

#[test]
fn refused_connection_keeps_the_session() {
    let mut app = App::new();
    app.update(Action::InputChar('c'));
    app.ui.connection_draft.endpoint_url = "http://localhost:9000".to_string();
    let Some(IoRequest::Connect {
        params,
        target,
        warning,
        target_changed,
    }) = app.update(Action::Enter)
    else {
        panic!("expected a connect request");
    };
    assert!(target_changed);
    assert_eq!(params.prefix, "/");
    app.finish_connect(params, target, warning, target_changed, Err("refused\ndetail".to_string()));
    assert_eq!(app.session.endpoint_url, "");
    assert_eq!(app.session.bucket, "my-bucket");
    assert_eq!(
        app.ui.connection_draft.error.as_deref(),
        Some("Connection failed. See Logs tab for details.")
    );
    let tail: Vec<&str> = app.logs.iter().rev().take(3).map(|s| s.as_str()).collect();
    assert_eq!(tail, vec!["WARN detail", "WARN refused", "WARN connection failed"]);
}

#[test]
fn browser_rows_for_a_listing_under_a_prefix() {
    let listing = S3ListResult {
        prefixes: vec!["logs/archive/".to_string()],
        objects: vec![summary("logs/a.log", 5, "m")],
    };
    let items = build_browser_items(&"/logs/".to_string(), &listing);
    assert_eq!(items.len(), 3);
    assert_eq!(items[0].kind, BrowserItemKind::Parent);
    assert_eq!(items[0].key, "/");
    assert_eq!(items[0].name, "[..]");
    assert_eq!(items[1].kind, BrowserItemKind::Dir);
    assert_eq!(items[1].name, "archive/");
    assert_eq!(items[2].kind, BrowserItemKind::Obj);
    assert_eq!(items[2].name, "a.log");
    assert_eq!(items[2].size, Some(5));
    assert_eq!(items[2].modified, "m");
    let root = build_browser_items(&"/".to_string(), &listing);
    assert_eq!(root.len(), 2);
    assert_eq!(root[0].name, "logs/archive/");
}

#[test]
fn enter_opens_folders_and_objects() {
    let mut app = App::new();
    let Some(IoRequest::Navigate { params, reason }) = app.update(Action::Enter) else {
        panic!("expected a navigation request");
    };
    assert_eq!(params.prefix, "/logs/");
    assert_eq!(reason, "open-dir");
    let listing = S3ListResult {
        prefixes: vec![],
        objects: vec![summary("logs/a.log", 5, "m")],
    };
    app.finish_navigation(params, reason, Ok(listing));
    assert_eq!(app.session.path, "/logs/");
    assert_eq!(app.browser.items.len(), 2);
    assert_eq!(
        app.logs.last().unwrap(),
        "INFO navigated reason=open-dir prefix=/logs/ target=default-chain"
    );

    let mut app = App::new();
    app.browser.cursor = 2;
    assert!(app.update(Action::Enter).is_none());
    assert_eq!(app.ui.tab, WorkTab::Preview);
    assert_eq!(app.logs.last().unwrap(), "INFO open object preview key=README.txt");
}

#[test]
fn going_up_at_the_root_only_logs() {
    let mut app = App::new();
    assert!(app.update(Action::BackspaceKey).is_none());
    assert_eq!(app.logs.last().unwrap(), "INFO already at root prefix");
}

#[test]
fn failed_refresh_warns_line_by_line() {
    let mut app = App::new();
    let Some(IoRequest::Refresh { params }) = app.update(Action::InputChar('r')) else {
        panic!("expected a refresh request");
    };
    assert_eq!(params.prefix, "/");
    app.finish_refresh(Err("a\nb".to_string()));
    assert_eq!(
        app.browser.warning.as_deref(),
        Some("S3 refresh failed. See Logs tab for details.")
    );
    let tail: Vec<&str> = app.logs.iter().rev().take(3).map(|s| s.as_str()).collect();
    assert_eq!(tail, vec!["WARN b", "WARN a", "WARN S3 refresh failed"]);
}

#[test]
fn folder_download_queues_everything_listed() {
    let mut app = App::new();
    let Some(IoRequest::ListFolder { params }) = app.update(Action::InputChar('D')) else {
        panic!("expected a folder listing request");
    };
    assert_eq!(params.max_keys, 1000);
    let objects = vec![summary("x", 1, "-"), summary("y", 2, "-")];
    assert!(queue_total_fits(&objects));
    app.finish_queue_folder(Ok(objects));
    assert_eq!(app.queue.total_files, 2);
    assert_eq!(app.queue.total_bytes, 3);
    assert_eq!(
        app.queue.summary,
        "Plan: full folder prefix / => 2 queued object(s)"
    );
    assert_eq!(
        app.logs.last().unwrap(),
        "INFO queued folder prefix / with 2 object(s)"
    );
}

#[test]
fn selecting_a_folder_expands_it_before_queueing() {
    let mut app = App::new();
    app.update(Action::ToggleSelectCurrent);
    app.browser.cursor = 2;
    app.update(Action::ToggleSelectCurrent);
    assert!(app.update_fits_check(Action::InputChar('d')));
    let Some(IoRequest::ExpandSelection {
        params,
        prefixes,
        next,
        listed,
    }) = app.update(Action::InputChar('d'))
    else {
        panic!("expected a folder expansion request");
    };
    assert_eq!(params.prefix, "/logs/");
    assert_eq!(prefixes, vec!["logs/"]);
    assert_eq!(next, 0);
    assert!(listed.is_empty());
    let found = vec![summary("logs/a.log", 7, "t")];
    assert!(app.selection_total_fits(&found));
    let follow = app.continue_selection(prefixes, next, listed, Ok(found));
    assert!(follow.is_none());
    let keys: Vec<&str> = app.queue.jobs.iter().map(|j| j.key.as_str()).collect();
    assert_eq!(keys, vec!["README.txt", "logs/a.log"]);
    assert_eq!(app.queue.total_bytes, 2_048 + 7);
}

#[test]
fn downloads_retry_then_fail_permanently() {
    let mut app = App::new();
    app.prepare_download_queue(vec![summary("a", 10, "-"), summary("b", 20, "-")]);
    for j in &app.queue.jobs {
        assert_eq!(j.status, QueueJobStatus::Pending);
        assert_eq!(j.attempts, 0);
    }
    assert!(app.update_fits_check(Action::Tick));
    let Some(IoRequest::Download { tasks, .. }) = app.update(Action::Tick) else {
        panic!("expected downloads");
    };
    assert_eq!(tasks.len(), 2);
    assert_eq!(app.queue.jobs[0].status, QueueJobStatus::Running);
    assert_eq!(app.queue.jobs[1].attempts, 1);
    assert!(app.logs.iter().any(|l| l == "INFO downloading key=b attempt=1/3"));

    let outcomes = vec![ok_outcome(0, "a", 10), err_outcome(1, "b", "boom")];
    assert!(app.outcomes_fit_check(&outcomes));
    app.finish_downloads(outcomes);
    assert_eq!(app.queue.jobs[0].status, QueueJobStatus::Done);
    assert_eq!(app.queue.jobs[1].status, QueueJobStatus::Pending);
    assert_eq!(app.queue.jobs[1].error.as_deref(), Some("boom"));
    assert_eq!(app.queue.done_files, 1);
    assert_eq!(app.queue.done_bytes, 10);
    assert!(app
        .logs
        .iter()
        .any(|l| l == "WARN download failed key=b attempt=1/3 retrying"));
    assert!(app
        .logs
        .iter()
        .any(|l| l.starts_with("INFO download complete key=a bytes=10 path=")));

    for attempt in 2..=4u8 {
        let Some(IoRequest::Download { tasks, .. }) = app.update(Action::Tick) else {
            panic!("expected a retry");
        };
        assert_eq!(tasks.len(), 1);
        assert_eq!(tasks[0].index, 1);
        assert_eq!(app.queue.jobs[1].attempts, attempt);
        app.finish_downloads(vec![err_outcome(1, "b", "boom")]);
    }
    assert_eq!(app.queue.jobs[1].status, QueueJobStatus::Failed);
    assert_eq!(app.queue.done_files, 2);
    assert_eq!(app.session.mode, "Browse");
    assert_eq!(app.queue.eta, "00:00");
    assert_eq!(app.logs.last().unwrap(), "INFO download queue completed");
    assert!(app
        .logs
        .iter()
        .any(|l| l == "WARN download failed permanently key=b attempts=4"));
    assert!(app.update(Action::Tick).is_none());
}

#[test]
fn a_tick_starts_at_most_the_free_slots() {
    let mut app = App::new();
    let objects: Vec<S3ObjectSummary> = (0..6).map(|i| summary(&format!("k{i}"), 1, "-")).collect();
    app.prepare_download_queue(objects);
    let Some(IoRequest::Download { tasks, .. }) = app.update(Action::Tick) else {
        panic!("expected downloads");
    };
    assert_eq!(tasks.len(), app.download_concurrency);
    let running = app
        .queue
        .jobs
        .iter()
        .filter(|j| j.status == QueueJobStatus::Running)
        .count();
    assert_eq!(running, 4);
    assert!(app.update(Action::Tick).is_none());
}

#[test]
fn outcomes_naming_unknown_jobs_do_not_fit() {
    let mut app = App::new();
    app.prepare_download_queue(vec![summary("a", 10, "-")]);
    assert!(!app.outcomes_fit_check(&vec![ok_outcome(5, "a", 1)]));
    assert!(app.outcomes_fit_check(&vec![]));
}

#[test]
fn plan_covers_every_selected_key() {
    let selected = KeySet::from_keys(vec![
        "a/".to_string(),
        "a/b/".to_string(),
        "a/b/c.txt".to_string(),
        "z.txt".to_string(),
    ]);
    let plan = SelectionPlan::from_selected(&selected);
    assert_eq!(plan.effective_prefixes, vec!["a/"]);
    assert_eq!(plan.effective_object_keys, vec!["z.txt"]);
    for key in selected.keys() {
        let covered = plan.effective_object_keys.contains(key)
            || plan.effective_prefixes.iter().any(|p| key.starts_with(p.as_str()));
        assert!(covered, "{key} is covered");
    }
}

#[test]
fn screen_header_and_browser_rows() {
    let mut app = App::new();
    assert_eq!(
        header_line(&app),
        "Profile: default-chain  Region: ap-northeast-1  Bucket: my-bucket  Path: /  Target: default-chain  Mode: Browse  Focus: browser"
    );
    assert_eq!(
        browser_row(&app, 2),
        "[ ] OBJ README.txt                     2048 B 2026-03-20 10:00"
    );
    app.update(Action::ToggleSelectCurrent);
    let rows = browser_rows(&app);
    assert_eq!(rows.len(), 3);
    assert_eq!(rows[0], "[x] DIR logs/                               - -");
    assert!(browser_warning_line(&app).is_none());
    app.browser.warning = Some("oops".to_string());
    assert_eq!(browser_warning_line(&app).as_deref(), Some("Warning: oops"));
    let listing = S3ListResult {
        prefixes: vec![],
        objects: vec![],
    };
    app.browser.items = build_browser_items(&"/x/".to_string(), &listing);
    assert_eq!(
        browser_row(&app, 0),
        "    UP  [..]                                - -"
    );
}

#[test]
fn screen_work_pane_panels() {
    let mut app = App::new();
    assert_eq!(
        selection_panel(&app),
        vec![
            "Selected items: 0",
            "",
            "No selection yet.",
            "Use Space to add/remove current item.",
            "Use a to select all, x to clear."
        ]
    );
    app.update(Action::ToggleSelectCurrent);
    app.browser.cursor = 2;
    app.update(Action::ToggleSelectCurrent);
    assert_eq!(
        selection_panel(&app),
        vec!["Selected items: 2", "", "- README.txt", "- logs/"]
    );

    let details = details_panel(&app);
    assert_eq!(details.len(), 7);
    assert_eq!(details[0], "Key: README.txt");
    assert_eq!(details[2], "Size: 2048 bytes");
    assert!(details[4].starts_with("Download Path: "));
    assert!(details[4].ends_with("README.txt"));
    app.browser.cursor = 0;
    assert_eq!(
        details_panel(&app),
        vec!["Directory: logs/", "Use d or D to queue downloads."]
    );
    app.browser.cursor = 9;
    assert_eq!(details_panel(&app), vec!["No item selected."]);

    app.prepare_download_queue(vec![summary("a/file.txt", 10, "-"), summary("b/file.txt", 20, "-")]);
    assert_eq!(
        queue_panel(&app),
        vec![
            "Files: 0/2",
            "Bytes: 0/30",
            "Speed: 0.0 MB/s",
            "ETA: calculating",
            "",
            "PENDING  a: 0  a/file.txt",
            "PENDING  a: 0  b/file.txt"
        ]
    );

    assert_eq!(logs_panel(&app), vec!["INFO app initialized"]);
    app.logs.push("second".to_string());
    assert_eq!(logs_panel(&app), vec!["second", "INFO app initialized"]);
    app.logs.clear();
    assert_eq!(logs_panel(&app), vec!["No logs yet."]);
    for i in 0..20 {
        app.logs.push(format!("line {i}"));
    }
    let shown = logs_panel(&app);
    assert_eq!(shown.len(), 12);
    assert_eq!(shown[0], "line 19");
    assert_eq!(shown[11], "line 8");
}

#[test]
fn screen_dialogs_and_status_bar() {
    let mut app = App::new();
    app.update(Action::InputChar('c'));
    let lines = connection_panel(&app);
    assert_eq!(lines.len(), 9);
    assert_eq!(lines[4].text, "> Profile (optional): <empty>");
    assert_eq!(lines[4].tone, Tone::Highlight);
    assert_eq!(lines[5].text, "  Region            : ap-northeast-1");
    assert_eq!(lines[5].tone, Tone::Normal);
    app.ui.connection_draft.profile = "dev".to_string();
    app.ui.connection_draft.endpoint_url = "http://x".to_string();
    app.ui.connection_draft.error = Some("bad".to_string());
    let lines = connection_panel(&app);
    assert_eq!(lines.len(), 13);
    assert_eq!(
        lines[10].text,
        "Warning: Profile is set, endpoint-url will be ignored."
    );
    assert_eq!(lines[10].tone, Tone::Warning);
    assert_eq!(lines[12].text, "Error: bad");
    assert_eq!(lines[12].tone, Tone::Error);

    assert_eq!(help_lines().len(), 5);
    assert_eq!(quit_lines()[1], "Press y to confirm, Esc to cancel.");

    let bar = status_bar(&app);
    assert_eq!(bar.len(), 3);
    assert_eq!(bar[1], "Progress: 0/0 files  0/0 bytes  0.0MB/s  ETA --:--");
    assert_eq!(
        bar[2],
        "Profile: default-chain  Region: ap-northeast-1  Bucket: my-bucket  Target: default-chain  Script: ./post-process.sh  Last: idle"
    );
}

#[test]
fn speed_is_shown_in_tenths_of_mebibytes() {
    assert_eq!(format_speed(0), "0.0");
    assert_eq!(format_speed(1_048_576), "1.0");
    assert_eq!(format_speed(1_572_864), "1.5");
    assert_eq!(format_speed(157_286), "0.1");
    assert_eq!(format_speed(10 * 1_048_576 + 943_718), "10.9");
}

#[test]
fn target_precedence_and_modal_warning() {
    let mut app = App::new();
    app.session.profile = "dev".to_string();
    app.session.endpoint_url = "http://x".to_string();
    assert_eq!(app.display_effective_target(), "aws-profile:dev");
    assert_eq!(app.display_profile(), "dev");
    app.ui.connection_draft.profile = " dev ".to_string();
    app.ui.connection_draft.endpoint_url = "http://x".to_string();
    assert_eq!(
        app.connection_modal_warning(),
        Some("Profile is set, endpoint-url will be ignored.")
    );
    app.session.profile = "  ".to_string();
    assert_eq!(app.display_effective_target(), "endpoint:http://x");
    assert_eq!(app.display_profile(), "default-chain");
}

#[test]
fn local_destination_joins_the_key_under_the_root() {
    let root = PathBuf::from("downloads");
    let dest = local_destination_for_key(&root, "a/b.txt");
    assert_ne!(dest, root);
    assert!(dest.starts_with(&root));
    let expected = format!("a{}b.txt", std::path::MAIN_SEPARATOR);
    assert_eq!(dest, root.join(expected));
}

#[test]
fn done_counter_matches_finished_jobs_across_ticks() {
    let mut app = App::new();
    app.prepare_download_queue(vec![summary("a", 1, "-"), summary("b", 2, "-"), summary("c", 4, "-")]);
    let finished = |app: &App| {
        app.queue
            .jobs
            .iter()
            .filter(|j| matches!(j.status, QueueJobStatus::Done | QueueJobStatus::Failed))
            .count() as u64
    };
    let Some(IoRequest::Download { tasks, .. }) = app.update(Action::Tick) else {
        panic!("expected downloads");
    };
    assert_eq!(app.queue.done_files, finished(&app));
    let mut indices: Vec<usize> = tasks.iter().map(|t| t.index).collect();
    indices.dedup();
    assert_eq!(indices.len(), 3);
    app.finish_downloads(vec![
        ok_outcome(0, "a", 1),
        err_outcome(1, "b", "x"),
        ok_outcome(2, "c", 4),
    ]);
    assert_eq!(app.queue.done_files, 2);
    assert_eq!(app.queue.done_files, finished(&app));
    assert_eq!(app.queue.done_bytes, 5);
    assert!(app.queue.done_files <= app.queue.total_files);
}

#[test]
fn script_runner_keeps_the_command_text() {
    let r = ScriptRunner::new("./post-process.sh", ScriptMode::PostBatch);
    assert_eq!(r.command, "./post-process.sh");
    assert_eq!(r.mode, ScriptMode::PostBatch);
}

#[test]
fn download_root_and_shown_paths() {
    let mut app = App::new();
    assert_eq!(app.download_root, PathBuf::from("./downloads"));
    app.browser.cursor = 2;
    let details = details_panel(&app);
    let expected = format!(
        "Download Path: {}",
        app.download_root.join("README.txt").display()
    );
    assert_eq!(details[4], expected);
    app.prepare_download_queue(vec![summary("a/b.txt", 3, "-")]);
    let Some(IoRequest::Download { tasks, .. }) = app.update(Action::Tick) else {
        panic!("expected downloads");
    };
    let path = tasks[0].path.clone();
    app.finish_downloads(vec![ok_outcome(0, "a/b.txt", 3)]);
    let line = format!("INFO download complete key=a/b.txt bytes=3 path={}", PathBuf::from("a/b.txt").display());
    assert!(app.logs.iter().any(|l| *l == line));
    assert_eq!(
        path,
        app.download_root
            .join(format!("a{}b.txt", std::path::MAIN_SEPARATOR))
    );
}

#[test]
fn state_values_can_be_cloned() {
    let mut app = App::new();
    app.update(Action::InputChar('a'));
    let copy = app.clone();
    assert_eq!(copy.browser.selected.keys(), app.browser.selected.keys());
    assert_eq!(copy.session.bucket, "my-bucket");
    assert_eq!(copy.download_root, app.download_root);
    let set = KeySet::from_keys(vec!["b".to_string(), "a".to_string()]);
    assert_eq!(set.clone().keys(), &vec!["a".to_string(), "b".to_string()]);
}
