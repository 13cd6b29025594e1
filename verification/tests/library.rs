use respkit_tui::app::{
    lookup_count, App, DetailTab, CheckStatus, Effect, KeyCode, KeyEvent, KeyModifiers, LedgerProbe, Modal, PendingRequest,
    ResponseOutcome, Screen, StartupField,
};
use respkit_tui::command::{shell_quote, BackendCommand};
use respkit_tui::config::AppConfig;
use respkit_tui::grouping::{sample_group_rows, source_prefix, GroupDimension, GroupFilter};
use respkit_tui::hints::{current_key_hint, screen_label, status_icon};
use respkit_tui::protocol::{
    format_rpc_error, ActionDescriptor, HealthStatus, LedgerSummary, LedgerTasks, ResponseId,
    RowView, RowsListResult, RpcCall, RpcErrorPayload, RpcResponseEnvelope, RpcResponseError,
    ValidationResult,
};
use respkit_tui::queue::{queue_window, trimmed_option, QueuePreset};
use respkit_tui::text::{i64_to_decimal, trim_str, u64_to_decimal};

fn key(code: KeyCode) -> KeyEvent {
    KeyEvent { code, modifiers: KeyModifiers::Plain }
}

fn ch(c: char) -> KeyEvent {
    key(KeyCode::Char(c))
}

fn row(item_id: &str, machine: &str, human: &str) -> RowView {
    let mut r = RowView::new("task-a", item_id, machine, human);
    r.item_locator = Some(format!("alpha/{item_id}.txt"));
    r.rendered_summary = format!("Summary for {item_id}");
    r
}

fn sends(effects: &[Effect]) -> Vec<(String, &'static str)> {
    effects
        .iter()
        .filter_map(|e| match e {
            Effect::Send { id, call } => Some((id.clone(), call.method())),
            _ => None,
        })
        .collect()
}

fn connected_app() -> App {
    let mut app = App::new(AppConfig::default_for_environment(false));
    app.startup.ledger_path = " /tmp/l.sqlite ".to_string();
    app.remember_connection();
    let _ = app.attach_backend("bash -lc x".to_string(), &LedgerProbe::RegularFile);
    app
}

#[test]
fn trimming_follows_unicode_whitespace() {
    assert_eq!(trim_str("  a b\t\n"), "a b");
    assert_eq!(trim_str("\u{3000}x\u{2028}"), "x");
    assert_eq!(trim_str(" \t "), "");
    assert_eq!(trimmed_option("  "), None);
    assert_eq!(trimmed_option(" t1 "), Some("t1".to_string()));
}

#[test]
fn decimal_rendering() {
    assert_eq!(u64_to_decimal(0), "0");
    assert_eq!(u64_to_decimal(1234567890), "1234567890");
    assert_eq!(i64_to_decimal(-32602), "-32602");
    assert_eq!(i64_to_decimal(i64::MIN), "-9223372036854775808");
}

#[test]
fn shell_quoting() {
    assert_eq!(shell_quote(""), "''");
    assert_eq!(shell_quote("a b"), "\"a b\"");
    assert_eq!(shell_quote("a\"b"), "\"a\\\"b\"");
}

#[test]
fn render_fills_placeholders_and_adds_flags() {
    let command = BackendCommand::new("svc --ledger {ledger} --task {task}");
    assert_eq!(command.render("/x y", None), "svc --ledger \"/x y\" --task '' --stdio");
    let plain = BackendCommand::new("svc --stdio");
    assert_eq!(plain.render("/l", Some("t")), "svc --stdio --ledger \"/l\"");
    assert_eq!(plain.template(), "svc --stdio");
}

#[test]
fn normalize_drops_blank_and_repeated_ledgers() {
    let mut config = AppConfig::default();
    config.recent_ledgers = vec!["a".into(), " ".into(), "a".into(), "b".into(), "".into()];
    config.normalize();
    assert_eq!(config.recent_ledgers, vec!["a".to_string(), "b".to_string()]);
    config.normalize();
    assert_eq!(config.recent_ledgers, vec!["a".to_string(), "b".to_string()]);
}

#[test]
fn recording_a_blank_ledger_changes_nothing() {
    let mut config = AppConfig::default();
    config.record_recent_ledger("  x.sqlite ");
    config.record_recent_ledger("   ");
    assert_eq!(config.recent_ledgers, vec!["x.sqlite".to_string()]);
    assert_eq!(config.default_ledger_path.as_deref(), Some("x.sqlite"));
}

#[test]
fn default_commands_for_the_environment() {
    let with_sdk = AppConfig::default_for_environment(true);
    assert_eq!(
        with_sdk.backend_command.as_deref(),
        Some("PYTHONPATH=/home/emmy/git/respkit python -m respkit.service.backend --ledger {ledger} --stdio")
    );
    let without = AppConfig::default_for_environment(false);
    assert_eq!(without.backend_command.as_deref(), Some("respkit-ledger-service --ledger {ledger} --stdio"));
    let mut loaded = AppConfig::default();
    loaded.recent_ledgers = vec!["a".into(), "a".into()];
    let prepared = loaded.prepare_loaded(false);
    assert_eq!(prepared.recent_ledgers, vec!["a".to_string()]);
    assert_eq!(prepared.backend_command.as_deref(), Some("respkit-ledger-service --ledger {ledger} --stdio"));
}

#[test]
fn preset_cycle_round_trips() {
    for preset in QueuePreset::ALL {
        assert_eq!(preset.cycle(1).cycle(-1), preset);
        assert_eq!(preset.cycle(7), preset);
    }
    assert_eq!(QueuePreset::ApplyReady.cycle(1), QueuePreset::All);
    assert_eq!(QueuePreset::All.cycle(-1), QueuePreset::ApplyReady);
    assert_eq!(QueuePreset::Group.cycle(1), QueuePreset::All);
    assert_eq!(QueuePreset::Group.cycle(-1), QueuePreset::ApplyReady);
    assert_eq!(QueuePreset::Group.label(), "group drill");
}

#[test]
fn startup_fields_cycle() {
    let f = StartupField::BackendCommand;
    assert_eq!(f.next(), StartupField::LedgerPath);
    assert_eq!(f.next().next().next(), f);
    assert_eq!(f.previous(), StartupField::TaskName);
    assert_eq!(f.next().previous(), f);
}

#[test]
fn source_prefixes() {
    let mut r = RowView::new("t", "task:1", "m", "h");
    assert_eq!(source_prefix(&r), "task");
    r.item_locator = Some(" /  :x/y".to_string());
    assert_eq!(source_prefix(&r), "x");
    r.item_locator = Some("".to_string());
    assert_eq!(source_prefix(&r), "unknown");
}

#[test]
fn group_entries_are_ordered_by_count_then_label() {
    let mut app = App::new(AppConfig::default());
    let mut a = row("a", "m", "needs_review");
    a.risk_flags = vec!["big".into(), "odd".into()];
    let mut b = row("b", "m", "approved");
    b.risk_flags = vec!["odd".into()];
    let c = row("c", "m", "approved");
    app.all_rows = vec![a, b, c];
    app.group_dimension = GroupDimension::RiskFlag;
    let entries: Vec<(String, usize)> = app.group_entries().into_iter().map(|e| (e.label, e.count)).collect();
    assert_eq!(entries, vec![("odd".to_string(), 2), ("big".to_string(), 1), ("none".to_string(), 1)]);
    app.group_dimension = GroupDimension::HumanStatus;
    let entries: Vec<(String, usize)> = app.group_entries().into_iter().map(|e| (e.label, e.count)).collect();
    assert_eq!(entries, vec![("approved".to_string(), 2), ("needs_review".to_string(), 1)]);
    let dashboard = app.dashboard_groups();
    assert_eq!(dashboard.len(), 5);
    assert_eq!(dashboard[2].0, "risk");
    assert_eq!(dashboard[3].1[0].label, "alpha");
}

#[test]
fn drilling_into_none_group_selects_unflagged_rows() {
    let mut flagged = row("a", "m", "h");
    flagged.risk_flags = vec!["x".into()];
    let plain = row("b", "m", "h");
    let filter = GroupFilter { dimension: GroupDimension::RiskFlag, value: "none".into() };
    assert!(!filter.matches(&flagged));
    assert!(filter.matches(&plain));
}

#[test]
fn queue_filter_is_case_insensitive() {
    let mut app = App::new(AppConfig::default());
    app.all_rows = vec![row("a", "not_run", "h"), row("b", "not_run", "h")];
    app.queue_preset = QueuePreset::All;
    app.queue_filter = "SUMMARY FOR B".to_string();
    let visible = app.visible_rows();
    assert_eq!(visible.len(), 1);
    assert_eq!(visible[0].item_id, "b");
}

#[test]
fn unresolved_preset_hides_applied_rows() {
    let mut app = App::new(AppConfig::default());
    app.all_rows = vec![row("a", "applied", "h"), row("b", "superseded", "h"), row("c", "not_run", "h")];
    assert_eq!(app.visible_rows().len(), 1);
    app.queue_selected = 5;
    app.clamp_queue_selection();
    assert_eq!(app.queue_selected, 0);
    assert_eq!(app.selected_row().map(|r| r.item_id.as_str()), Some("c"));
}

#[test]
fn startup_form_editing_and_launch() {
    let mut app = App::new(AppConfig::default());
    app.handle_key(key(KeyCode::Tab)).unwrap();
    assert_eq!(app.startup.active_field, StartupField::LedgerPath);
    for c in " /l.db ".chars() {
        app.handle_key(ch(c)).unwrap();
    }
    app.handle_key(key(KeyCode::Backspace)).unwrap();
    assert_eq!(app.startup.ledger_path, " /l.db");
    let effects = app.handle_key(key(KeyCode::Enter)).unwrap();
    match &effects[0] {
        Effect::Launch { command, ledger_path, task_name } => {
            assert_eq!(command.template(), "");
            assert_eq!(ledger_path, "/l.db");
            assert_eq!(task_name, &None);
        }
        other => panic!("unexpected effect {other:?}"),
    }
    app.handle_key(ch('q')).unwrap();
    assert!(!app.running);
}

#[test]
fn attaching_requests_health_info_tasks_and_data() {
    let app = connected_app();
    assert!(app.connected);
    assert_eq!(app.screen, Screen::Dashboard);
    assert_eq!(app.config.recent_ledgers, vec!["/tmp/l.sqlite".to_string()]);
    assert_eq!(app.notifications[0], "backend connected");
    assert_eq!(app.pending.len(), 5);
    assert_eq!(app.status_line(), "task: all tasks | connected via bash -lc x | 5 pending");
    let mut app2 = App::new(AppConfig::default());
    let effects = app2.attach_backend("c".to_string(), &LedgerProbe::NotRegularFile);
    assert_eq!(
        sends(&effects),
        vec![
            ("1".to_string(), "ledger.health"),
            ("2".to_string(), "ledger.info"),
            ("3".to_string(), "ledger.tasks"),
            ("4".to_string(), "ledger.summary"),
            ("5".to_string(), "rows.list"),
        ]
    );
    assert_eq!(app2.validation_checks.len(), 10);
    assert_eq!(app2.validation_checks[0].status, CheckStatus::Warn);
    assert_eq!(app2.validation_checks[0].detail, " exists but is not a regular file");
}

#[test]
fn replies_are_matched_to_pending_requests() {
    let mut app = connected_app();
    let envelope = RpcResponseEnvelope {
        jsonrpc: "2.0".to_string(),
        id: ResponseId::Number("1".to_string()),
        result: Some("{\"status\":\"ok\"}".to_string()),
        error: None,
    };
    let task = app.handle_response(envelope).expect("request 1 is pending");
    assert!(matches!(task.request, PendingRequest::Health));
    assert_eq!(task.result, Ok("{\"status\":\"ok\"}".to_string()));
    assert_eq!(app.pending.len(), 4);
    let again = RpcResponseEnvelope {
        jsonrpc: "2.0".to_string(),
        id: ResponseId::Text("1".to_string()),
        result: None,
        error: None,
    };
    assert!(app.handle_response(again).is_none());
    let effects = app.apply_response(
        ResponseOutcome::Health(Ok(HealthStatus { status: "ok".into(), ledger_path: "/tmp/l.sqlite".into() })),
        &LedgerProbe::RegularFile,
    );
    assert!(effects.is_empty());
    assert_eq!(app.validation_checks[1].status, CheckStatus::Pass);
    assert_eq!(app.validation_checks[1].detail, "/tmp/l.sqlite");
}

#[test]
fn failed_replies_are_reported() {
    let mut app = connected_app();
    let envelope = RpcResponseEnvelope {
        jsonrpc: "2.0".to_string(),
        id: ResponseId::Text("2".to_string()),
        result: None,
        error: Some(RpcErrorPayload { code: -32602, message: "bad params".into(), data: None }),
    };
    let task = app.handle_response(envelope).unwrap();
    assert_eq!(task.result, Err("rpc -32602: bad params".to_string()));
    app.apply_response(ResponseOutcome::Info(Err(task.result.unwrap_err())), &LedgerProbe::RegularFile);
    assert_eq!(app.notifications[0], "request failed: rpc -32602: bad params");
}

#[test]
fn envelope_errors() {
    let wrong = RpcResponseEnvelope { jsonrpc: "1.0".into(), id: ResponseId::Null, result: None, error: None };
    assert_eq!(wrong.id_string(), "null");
    let err = wrong.into_result().unwrap_err();
    assert_eq!(format_rpc_error(&err), "unexpected jsonrpc version: 1.0");
    let missing = RpcResponseEnvelope { jsonrpc: "2.0".into(), id: ResponseId::Other("[1]".into()), result: None, error: None };
    assert_eq!(missing.id_string(), "[1]");
    assert_eq!(missing.into_result().unwrap_err().to_message(), "missing result payload");
    let service = RpcResponseError::Service(RpcErrorPayload { code: 7, message: "m".into(), data: None });
    assert_eq!(service.to_message(), "rpc error 7: m");
    assert_eq!(RpcResponseError::Deserialize("eof".into()).to_message(), "failed to deserialize rpc result: eof");
    assert_eq!(RpcCall::Shutdown.method(), "system.shutdown");
}

#[test]
fn rows_reply_replaces_rows_and_keeps_selection_in_range() {
    let mut app = connected_app();
    app.queue_selected = 9;
    app.apply_response(
        ResponseOutcome::Rows(Ok(RowsListResult { rows: vec![row("a", "not_run", "h"), row("b", "not_run", "h")], count: 2 })),
        &LedgerProbe::RegularFile,
    );
    assert_eq!(app.all_rows.len(), 2);
    assert_eq!(app.queue_selected, 1);
}

#[test]
fn single_task_is_selected_and_refreshed() {
    let mut app = connected_app();
    let effects = app.apply_response(
        ResponseOutcome::Tasks(Ok(LedgerTasks {
            task_names: vec!["only".into()],
            rows_by_task: vec![],
            registered_adapters: vec!["a1".into(), "a2".into()],
        })),
        &LedgerProbe::RegularFile,
    );
    assert_eq!(app.current_task.as_deref(), Some("only"));
    assert_eq!(
        sends(&effects).iter().map(|(_, m)| *m).collect::<Vec<_>>(),
        vec!["ledger.summary", "rows.list", "actions.list"]
    );
    assert_eq!(app.validation_checks[4].detail, "a1, a2");
    assert_eq!(app.validation_checks[3].detail, "only");
    assert_eq!(app.validation_checks[3].status, CheckStatus::Pass);
}

#[test]
fn counts_snapshot_lists_preferred_then_other_counts() {
    let mut app = App::new(AppConfig::default());
    app.summary = LedgerSummary {
        counts: vec![("applied".into(), 2), ("custom".into(), 5), ("total".into(), 9)],
        by_task: vec![],
    };
    let snapshot = app.counts_snapshot();
    assert_eq!(snapshot.len(), 12);
    assert_eq!(snapshot[0], ("total".to_string(), 9));
    assert_eq!(snapshot[1], ("unresolved".to_string(), 0));
    assert_eq!(snapshot[9], ("applied".to_string(), 2));
    assert_eq!(snapshot[11], ("custom".to_string(), 5));
}

#[test]
fn approve_with_edit_requires_json() {
    let mut app = connected_app();
    app.all_rows = vec![row("a", "not_run", "h")];
    app.screen = Screen::Queue;
    app.handle_key(key(KeyCode::Enter)).unwrap();
    assert_eq!(app.screen, Screen::Detail);
    app.handle_key(ch('e')).unwrap();
    app.handle_key(key(KeyCode::Backspace)).unwrap();
    let err = app.handle_key(key(KeyCode::Enter)).unwrap_err();
    assert_eq!(err, "approve-with-edit input must be valid JSON");
    assert!(app.modal.is_none());
    app.handle_key(ch('e')).unwrap();
    let effects = app.handle_key(key(KeyCode::Enter)).unwrap();
    assert_eq!(sends(&effects)[0].1, "rows.validate");
}

#[test]
fn validation_reply_asks_for_confirmation() {
    let mut app = connected_app();
    app.apply_response(
        ResponseOutcome::ValidateForDecision {
            task_name: "t".into(),
            item_id: "i".into(),
            action: "approve_with_edit".into(),
            edits: Some("{}".into()),
            result: Ok(ValidationResult { valid: false, errors: vec!["e1".into(), "e2".into()], approved_output: None }),
        },
        &LedgerProbe::RegularFile,
    );
    match &app.modal {
        Some(Modal::Info(info)) => assert_eq!(info.body, "e1\ne2"),
        other => panic!("unexpected modal {other:?}"),
    }
    app.apply_response(
        ResponseOutcome::ValidateForDecision {
            task_name: "t".into(),
            item_id: "i".into(),
            action: "approve_with_edit".into(),
            edits: Some("{}".into()),
            result: Ok(ValidationResult { valid: true, errors: vec![], approved_output: None }),
        },
        &LedgerProbe::RegularFile,
    );
    match &app.modal {
        Some(Modal::Confirm(c)) => assert_eq!(
            c.body,
            "Validation passed for t:i.\n\nDerived approved output:\nno approved output preview returned"
        ),
        other => panic!("unexpected modal {other:?}"),
    }
    let effects = app.handle_key(ch('y')).unwrap();
    assert_eq!(sends(&effects)[0].1, "rows.decide");
}

#[test]
fn bulk_actions_need_a_task_and_no_edits() {
    let mut app = connected_app();
    app.screen = Screen::Bulk;
    app.handle_key(key(KeyCode::Enter)).unwrap();
    match &app.modal {
        Some(Modal::Info(info)) => assert_eq!(info.title, "Task Required"),
        other => panic!("unexpected modal {other:?}"),
    }
    app.modal = None;
    app.current_task = Some("t".into());
    app.bulk_actions = vec![ActionDescriptor { name: "fix".into(), description: String::new(), requires_edits: true, builtin: false }];
    app.handle_key(key(KeyCode::Enter)).unwrap();
    match &app.modal {
        Some(Modal::Info(info)) => assert_eq!(info.title, "Bulk Edits Unsupported"),
        other => panic!("unexpected modal {other:?}"),
    }
    app.modal = None;
    app.bulk_actions[0].requires_edits = false;
    app.all_rows = vec![row("a", "not_run", "h")];
    app.handle_key(key(KeyCode::Enter)).unwrap();
    match &app.modal {
        Some(Modal::Confirm(c)) => assert_eq!(c.body, "Invoke 'fix' on 1 rows in the current queue scope?"),
        other => panic!("unexpected modal {other:?}"),
    }
    let effects = app.handle_key(key(KeyCode::Enter)).unwrap();
    assert_eq!(sends(&effects)[0].1, "actions.invoke");
}

#[test]
fn export_prompt_confirms_and_sends() {
    let mut app = connected_app();
    app.screen = Screen::Dashboard;
    app.handle_key(ch('x')).unwrap();
    for _ in 0.."respkit-snapshot.md".len() {
        app.handle_key(key(KeyCode::Backspace)).unwrap();
    }
    for c in "out.csv".chars() {
        app.handle_key(ch(c)).unwrap();
    }
    app.handle_key(key(KeyCode::Enter)).unwrap();
    match &app.modal {
        Some(Modal::Confirm(c)) => assert_eq!(c.body, "Export 0 rows to out.csv?"),
        other => panic!("unexpected modal {other:?}"),
    }
    let effects = app.handle_key(key(KeyCode::Enter)).unwrap();
    match &effects[0] {
        Effect::Send { call: RpcCall::Export { format, output, .. }, .. } => {
            assert_eq!(format, "csv");
            assert_eq!(output, "out.csv");
        }
        other => panic!("unexpected effect {other:?}"),
    }
}

#[test]
fn help_and_quit() {
    let mut app = connected_app();
    app.screen = Screen::Queue;
    app.handle_key(ch('?')).unwrap();
    assert_eq!(app.screen, Screen::Help);
    app.handle_key(key(KeyCode::Esc)).unwrap();
    assert_eq!(app.screen, Screen::Queue);
    let effects = app.handle_key(ch('q')).unwrap();
    assert!(!app.running);
    assert_eq!(sends(&effects)[0].1, "system.shutdown");
    let id = sends(&effects)[0].0.clone();
    app.shutdown_request_failed(&id, "broken pipe");
    assert_eq!(app.notifications[0], "backend shutdown request failed: broken pipe");
}

#[test]
fn backend_exit_returns_to_startup() {
    let mut app = connected_app();
    app.handle_backend_log("hello");
    assert_eq!(app.notifications[0], "backend: hello");
    app.handle_backend_exit(Some(3));
    assert_eq!(app.notifications[0], "backend exited (3)");
    assert_eq!(app.screen, Screen::Startup);
    assert!(!app.connected);
    assert!(app.pending.is_empty());
    app.handle_backend_exit(None);
    assert_eq!(app.notifications[0], "backend exited (signal)");
}

#[test]
fn task_cycle_goes_through_all_tasks() {
    let mut app = connected_app();
    app.screen = Screen::Dashboard;
    app.tasks.task_names = vec!["t1".into(), "t2".into()];
    app.handle_key(ch('t')).unwrap();
    assert_eq!(app.current_task.as_deref(), Some("t1"));
    app.handle_key(ch('t')).unwrap();
    assert_eq!(app.current_task.as_deref(), Some("t2"));
    let effects = app.handle_key(ch('t')).unwrap();
    assert_eq!(app.current_task, None);
    assert_eq!(app.startup.task_name, "");
    assert_eq!(sends(&effects).len(), 2);
}

#[test]
fn group_screen_drills_into_selected_group() {
    let mut app = App::new(AppConfig::default());
    app.screen = Screen::Groups;
    app.all_rows = vec![row("a", "m1", "h"), row("b", "m2", "h"), row("c", "m2", "h")];
    app.handle_key(ch('2')).unwrap();
    app.handle_key(key(KeyCode::Enter)).unwrap();
    assert_eq!(app.screen, Screen::Queue);
    assert_eq!(app.queue_preset, QueuePreset::Group);
    assert_eq!(app.visible_rows().len(), 2);
    app.screen = Screen::Groups;
    app.handle_key(ch('c')).unwrap();
    assert!(app.group_drill.is_none());
}

#[test]
fn hints_and_labels() {
    assert_eq!(status_icon(CheckStatus::Fail), "!!");
    assert_eq!(screen_label(Screen::Bulk), "bulk");
    assert_eq!(
        current_key_hint(Screen::Queue),
        "preset unresolved | j/k move | [ ] preset | / filter | Enter detail | x export"
    );
    assert_eq!(GroupDimension::SourcePrefix.label(), "source");
}

#[test]
fn queue_window_follows_the_selection() {
    assert_eq!(queue_window(0, 3), (0, 3));
    assert_eq!(queue_window(5, 40), (0, 16));
    assert_eq!(queue_window(20, 40), (12, 28));
    assert_eq!(queue_window(38, 40), (30, 40));
    assert_eq!(queue_window(0, 0), (0, 0));
}

#[test]
fn group_samples_take_the_first_matching_rows() {
    let rows: Vec<RowView> = (0..12)
        .map(|i| row(&format!("r{i}"), "m", if i % 3 == 0 { "approved" } else { "pending" }))
        .collect();
    let filter = GroupFilter { dimension: GroupDimension::HumanStatus, value: "pending".into() };
    let sample: Vec<&str> = sample_group_rows(&filter, &rows, 5).iter().map(|r| r.item_id.as_str()).collect();
    assert_eq!(sample, vec!["r1", "r2", "r4", "r5", "r7"]);
    let approved = GroupFilter { dimension: GroupDimension::HumanStatus, value: "approved".into() };
    let sample: Vec<&str> = sample_group_rows(&approved, &rows, 8).iter().map(|r| r.item_id.as_str()).collect();
    assert_eq!(sample, vec!["r0", "r3", "r6", "r9"]);
}

#[test]
fn counts_are_looked_up_by_first_label() {
    let counts = vec![("applied".to_string(), 2), ("apply_ready".to_string(), 4), ("applied".to_string(), 7)];
    assert_eq!(lookup_count(&counts, "applied"), 2);
    assert_eq!(lookup_count(&counts, "apply_ready"), 4);
    assert_eq!(lookup_count(&counts, "missing"), 0);
}

#[test]
fn sending_keeps_earlier_pending_requests() {
    let mut app = connected_app();
    let before: Vec<String> = app.pending.ids();
    assert_eq!(before, vec!["1", "2", "3", "4", "5"]);
    let effects = app.handle_key(ch('r')).expect("refresh is accepted");
    let after: Vec<String> = app.pending.ids();
    assert_eq!(after, vec!["1", "2", "3", "4", "5", "6", "7"]);
    assert_eq!(sends(&effects), vec![("6".to_string(), "ledger.summary"), ("7".to_string(), "rows.list")]);
    assert_eq!(app.next_request_id, 8);
}

#[test]
fn edit_submission_follows_the_json_verdict() {
    let mut app = connected_app();
    let pending_before = app.pending.len();
    let err = app
        .submit_approve_edit("task-a".into(), "a".into(), "{oops".into(), false)
        .unwrap_err();
    assert_eq!(err, "approve-with-edit input must be valid JSON");
    assert_eq!(app.pending.len(), pending_before);
    let effects = app
        .submit_approve_edit("task-a".into(), "a".into(), "{\"x\":1}".into(), true)
        .unwrap();
    assert_eq!(sends(&effects), vec![("6".to_string(), "rows.validate")]);
    match &effects[0] {
        Effect::Send { call: RpcCall::Validate { edits, derive_output, .. }, .. } => {
            assert_eq!(edits, "{\"x\":1}");
            assert!(*derive_output);
        }
        other => panic!("unexpected effect {other:?}"),
    }
    assert!(matches!(
        app.pending.lookup("6"),
        Some(PendingRequest::ValidateForDecision { edits: Some(_), .. })
    ));
}

#[test]
fn refresh_asks_for_summary_rows_and_task_actions() {
    let mut idle = App::new(AppConfig::default());
    assert!(idle.refresh_data().is_empty());
    let mut app = connected_app();
    app.current_task = Some("task-a".to_string());
    let effects = app.refresh_data();
    assert_eq!(
        sends(&effects),
        vec![
            ("6".to_string(), "ledger.summary"),
            ("7".to_string(), "rows.list"),
            ("8".to_string(), "actions.list"),
        ]
    );
    assert!(matches!(
        &effects[1],
        Effect::Send { call: RpcCall::RowsList { task_name: Some(t), include_superseded: true, include_approved: true, with_view: true }, .. } if t == "task-a"
    ));
}

#[test]
fn queue_preset_admits_rows_by_status() {
    let mut app = App::new(AppConfig::default());
    app.queue_preset = QueuePreset::ApplyReady;
    assert!(app.matches_queue_preset(&row("a", "apply_ready", "h")));
    assert!(!app.matches_queue_preset(&row("b", "applied", "h")));
    app.queue_preset = QueuePreset::All;
    assert!(app.matches_queue_preset(&row("c", "applied", "h")));
}

#[test]
fn detail_keys_pick_panels_and_reject() {
    let mut app = connected_app();
    app.all_rows = vec![row("a", "not_run", "h")];
    app.screen = Screen::Queue;
    app.handle_key(key(KeyCode::Enter)).unwrap();
    assert_eq!(app.screen, Screen::Detail);
    app.handle_key(ch('p')).unwrap();
    assert_eq!(app.screen, Screen::Detail);
    assert_eq!(app.detail.tab, DetailTab::Preview);
    app.handle_key(ch('h')).unwrap();
    assert_eq!(app.detail.tab, DetailTab::History);
    app.handle_key(ch('x')).unwrap();
    match &app.modal {
        Some(Modal::Confirm(c)) => assert_eq!(c.title, "Confirm reject"),
        other => panic!("unexpected modal {other:?}"),
    }
    let mut dash = App::new(AppConfig::default());
    dash.screen = Screen::Dashboard;
    dash.handle_key(ch('p')).unwrap();
    assert_eq!(dash.screen, Screen::Apply);
}

#[test]
fn stdio_flag_follows_the_template() {
    let plain = BackendCommand::new("a");
    assert_eq!(plain.render("--stdio", None), "a --ledger \"--stdio\" --stdio");
    let with_flag = BackendCommand::new("svc --stdio --ledger {ledger}");
    assert_eq!(with_flag.render("/l", None), "svc --stdio --ledger \"/l\"");
}

#[test]
fn placeholders_are_filled_in_one_pass() {
    let command = BackendCommand::new("x {ledger} {task}");
    assert_eq!(command.render("{task}", Some("t")), "x \"{task}\" \"t\" --stdio");
}

#[test]
fn quoting_escapes_shell_specials() {
    assert_eq!(shell_quote("$HOME`id`\\x\""), "\"\\$HOME\\`id\\`\\\\x\\\"\"");
    assert_eq!(shell_quote("plain path"), "\"plain path\"");
}

#[test]
fn drilled_rows_number_the_group_count() {
    let mut app = App::new(AppConfig::default());
    let mut a = row("a", "m", "h");
    a.risk_flags = vec!["big".into(), "odd".into()];
    let mut b = row("b", "m", "h");
    b.risk_flags = vec!["odd".into()];
    let c = row("c", "m", "h");
    app.all_rows = vec![a, b, c];
    app.group_dimension = GroupDimension::RiskFlag;
    for entry in app.group_entries() {
        let filter = GroupFilter { dimension: GroupDimension::RiskFlag, value: entry.label.clone() };
        assert_eq!(sample_group_rows(&filter, &app.all_rows, 100).len(), entry.count);
    }
}

#[test]
fn empty_filter_shows_every_row_in_scope() {
    let mut app = App::new(AppConfig::default());
    app.all_rows = vec![row("a", "not_run", "h"), row("b", "applied", "h"), row("c", "provider_error", "h")];
    app.queue_preset = QueuePreset::All;
    assert_eq!(app.visible_rows().len(), 3);
}

#[test]
fn pending_table_keeps_one_entry_per_id() {
    let mut app = connected_app();
    assert_eq!(app.pending.len(), 5);
    assert!(matches!(app.pending.lookup("1"), Some(PendingRequest::Health)));
    app.pending.insert("1".to_string(), PendingRequest::Export);
    assert_eq!(app.pending.len(), 5);
    assert_eq!(app.pending.ids(), vec!["2", "3", "4", "5", "1"]);
    assert!(matches!(app.pending.take("1"), Some(PendingRequest::Export)));
    assert_eq!(app.pending.len(), 4);
    assert!(app.pending.take("1").is_none());
    assert_eq!(app.pending.len(), 4);
}

#[test]
fn notifications_keep_the_newest_eight() {
    let mut app = App::new(AppConfig::default());
    for i in 0..10 {
        app.push_notification(format!("n{i}"));
    }
    assert_eq!(app.notifications.len(), 8);
    assert_eq!(app.notifications[0], "n9");
    assert_eq!(app.notifications[7], "n2");
}
