use respkit_tui::app::App;
use respkit_tui::command::BackendCommand;
use respkit_tui::config::AppConfig;
use respkit_tui::grouping::{GroupDimension, GroupFilter};
use respkit_tui::protocol::{
    RpcErrorPayload, RpcResponseEnvelope, RpcResponseError, ResponseId, ShutdownResult,
};
use respkit_tui::queue::{export_format_from_path, QueuePreset};
use respkit_tui::protocol::RowView;

fn sample_row(item_id: &str, machine_status: &str, human_status: &str) -> RowView {
    let mut row = RowView::new("task-a", item_id, machine_status, human_status);
    row.item_locator = Some(format!("alpha/{item_id}.txt"));
    row.rendered_summary = format!("summary for {item_id}");
    row
}

/// Builds the library's envelope from a JSON response line.
fn envelope_from_json(line: &str) -> RpcResponseEnvelope {
    let value: serde_json::Value = serde_json::from_str(line).expect("response envelope should parse");
    let id = match value.get("id") {
        Some(serde_json::Value::String(s)) => ResponseId::Text(s.clone()),
        Some(serde_json::Value::Number(n)) => ResponseId::Number(n.to_string()),
        Some(serde_json::Value::Null) | None => ResponseId::Null,
        Some(other) => ResponseId::Other(other.to_string()),
    };
    let error = value.get("error").map(|e| RpcErrorPayload {
        code: e["code"].as_i64().unwrap_or_default(),
        message: e["message"].as_str().unwrap_or_default().to_string(),
        data: e.get("data").map(|d| d.to_string()),
    });
    RpcResponseEnvelope {
        jsonrpc: value["jsonrpc"].as_str().unwrap_or_default().to_string(),
        id,
        result: value.get("result").map(|r| r.to_string()),
        error,
    }
}

#[test]
fn queue_presets_filter_rows() {
    let mut app = App::new(AppConfig::default());
    app.all_rows = vec![
        sample_row("a", "not_run", "needs_review"),
        sample_row("b", "apply_ready", "approved"),
        sample_row("c", "provider_error", "needs_review"),
    ];
    app.queue_preset = QueuePreset::ApplyReady;
    assert_eq!(app.visible_rows().len(), 1);
    app.queue_preset = QueuePreset::ProviderError;
    assert_eq!(app.visible_rows()[0].item_id, "c");
}

#[test]
fn group_drill_matches_selected_dimension() {
    let mut app = App::new(AppConfig::default());
    let mut row = sample_row("a", "not_run", "needs_review");
    row.categories = vec!["adapter:fast-lane".to_string()];
    app.all_rows = vec![row];
    app.group_drill = Some(GroupFilter {
        dimension: GroupDimension::Category,
        value: "adapter:fast-lane".to_string(),
    });
    app.queue_preset = QueuePreset::Group;
    assert_eq!(app.visible_rows().len(), 1);
}

#[test]
fn export_format_is_inferred_from_extension() {
    assert_eq!(export_format_from_path("report.md"), "markdown");
    assert_eq!(export_format_from_path("report.csv"), "csv");
    assert_eq!(export_format_from_path("report.jsonl"), "jsonl");
}

#[test]
fn renders_command_with_defaults() {
    let command = BackendCommand::new("respkit-ledger-service");
    let rendered = command.render("/tmp/test ledger.sqlite", Some("demo"));
    assert!(rendered.contains("--ledger \"/tmp/test ledger.sqlite\""));
    assert!(rendered.contains("--stdio"));
}

#[test]
fn supports_placeholders_without_duplicate_flags() {
    let command = BackendCommand::new("python -m demo --ledger {ledger} --task {task} --stdio");
    let rendered = command.render("/tmp/demo.sqlite", Some("sample-task"));
    assert_eq!(rendered.matches("--ledger").count(), 1);
    assert!(rendered.contains("--task \"sample-task\""));
}

#[test]
fn parses_success_payloads() {
    let envelope = envelope_from_json(r#"{"jsonrpc":"2.0","id":"7","result":{"status":"ok"}}"#);
    let text = envelope.into_result().expect("success result should decode");
    let value: serde_json::Value = serde_json::from_str(&text).expect("success result should decode");
    let payload = ShutdownResult {
        status: value["status"].as_str().unwrap_or_default().to_string(),
        message: value["message"].as_str().map(|s| s.to_string()),
    };
    assert_eq!(payload.status, "ok");
}

#[test]
fn surfaces_service_errors() {
    let envelope = envelope_from_json(
        r#"{"jsonrpc":"2.0","id":"8","error":{"code":-32602,"message":"bad params"}}"#,
    );
    let err = envelope.into_result().expect_err("error payload should surface");
    match err {
        RpcResponseError::Service(payload) => assert_eq!(payload.code, -32602),
        other => panic!("unexpected error: {}", other.to_message()),
    }
}

#[test]
fn recent_ledgers_are_deduplicated_and_bounded() {
    let mut config = AppConfig::default();
    for ledger in [
        "a.sqlite", "b.sqlite", "a.sqlite", "c.sqlite", "d.sqlite", "e.sqlite", "f.sqlite",
        "g.sqlite", "h.sqlite", "i.sqlite",
    ] {
        config.record_recent_ledger(ledger);
    }
    assert_eq!(config.recent_ledgers[0], "i.sqlite");
    assert_eq!(config.recent_ledgers.len(), 8);
    assert_eq!(
        config
            .recent_ledgers
            .iter()
            .filter(|item| item.as_str() == "a.sqlite")
            .count(),
        1
    );
}
