use handterm::host_commands::{
    host_list_windows_response, host_ls_response, into_ipc_action, parse_host_control_request,
    target_window_from_args, HostControlRequest,
};
use handterm::input::KeyEventKind;
use handterm::ipc::{IpcAction, JsonValue, Request};

fn req(cmd: &str, args: JsonValue) -> Request {
    Request {
        cmd: cmd.to_string(),
        args,
    }
}

fn object(entries: Vec<(&str, JsonValue)>) -> JsonValue {
    JsonValue::Object(
        entries
            .into_iter()
            .map(|(k, v)| (k.to_string(), v))
            .collect(),
    )
}

fn text(s: &str) -> JsonValue {
    JsonValue::Str(s.to_string())
}

#[test]
fn parses_open_window_sizes() {
    let parsed = parse_host_control_request(&req(
        "open-window",
        object(vec![("cols", JsonValue::UInt(90)), ("rows", JsonValue::UInt(30))]),
    ))
    .expect("open-window should parse")
    .expect("open-window should produce control request");

    match parsed {
        HostControlRequest::OpenWindow { cols, rows } => {
            assert_eq!(cols, Some(90));
            assert_eq!(rows, Some(30));
        }
        other => panic!("expected open-window request, got {other:?}"),
    }
}

#[test]
fn focus_window_requires_window_id() {
    let response = parse_host_control_request(&req("focus-window", object(vec![])))
        .expect_err("missing window_id should error");
    assert_eq!(
        response.error.as_deref(),
        Some("missing 'window_id' argument")
    );
}

#[test]
fn parses_synthetic_key_event() {
    let parsed = parse_host_control_request(&req(
        "send-key-event",
        object(vec![
            ("window_id", JsonValue::UInt(7)),
            ("kind", text("repeat")),
            ("key", text("A")),
            ("text", text("a")),
            ("ctrl", JsonValue::Bool(true)),
        ]),
    ))
    .expect("synthetic key event should parse")
    .expect("synthetic key event should produce control request");

    match parsed {
        HostControlRequest::SyntheticKeyEvent { window, event } => {
            assert_eq!(window, Some(7));
            assert_eq!(event.kind, KeyEventKind::Repeat);
            assert_eq!(event.key, "A");
            assert_eq!(event.text.as_deref(), Some("a"));
            assert!(event.ctrl);
            assert!(!event.alt);
        }
        other => panic!("expected synthetic key request, got {other:?}"),
    }
}

#[test]
fn host_ls_lists_host_specific_commands_when_requested() {
    let response = host_ls_response(true);
    let commands = response
        .data
        .as_ref()
        .and_then(|data| data.get("commands"))
        .and_then(|value| value.as_array())
        .expect("commands array should exist");

    assert!(commands
        .iter()
        .any(|value| value.as_str() == Some("open-window")));
    assert!(commands
        .iter()
        .any(|value| value.as_str() == Some("focus-window")));
    assert!(commands
        .iter()
        .any(|value| value.as_str() == Some("list-windows")));
}

#[test]
fn window_ls_leaves_out_host_commands() {
    let response = host_ls_response(false);
    let commands = response
        .data
        .as_ref()
        .and_then(|data| data.get("commands"))
        .and_then(|value| value.as_array())
        .expect("commands array should exist");
    assert_eq!(commands.len(), 10);
    assert_eq!(commands[0].as_str(), Some("get-text"));
    assert!(!commands
        .iter()
        .any(|value| value.as_str() == Some("open-window")));
}

#[test]
fn open_window_ignores_sizes_that_do_not_fit() {
    let parsed = parse_host_control_request(&req(
        "open-window",
        object(vec![("cols", JsonValue::UInt(70000)), ("rows", text("30"))]),
    ))
    .unwrap()
    .unwrap();
    assert_eq!(
        parsed,
        HostControlRequest::OpenWindow {
            cols: None,
            rows: None
        }
    );
}

#[test]
fn unknown_commands_are_not_host_requests() {
    assert!(matches!(
        parse_host_control_request(&req("get-text", JsonValue::Null)),
        Ok(None)
    ));
    assert!(matches!(
        parse_host_control_request(&req("list-windows", JsonValue::Null)),
        Ok(Some(HostControlRequest::ListWindows))
    ));
}

#[test]
fn synthetic_key_event_errors_name_the_argument() {
    let no_object = parse_host_control_request(&req("send-key-event", JsonValue::Null))
        .expect_err("non-object arguments should error");
    assert_eq!(
        no_object.error.as_deref(),
        Some("missing JSON object arguments")
    );
    assert!(!no_object.ok);

    let bad_kind = parse_host_control_request(&req(
        "send-key-event",
        object(vec![("kind", text("hold")), ("key", text("A"))]),
    ))
    .expect_err("unknown kind should error");
    assert_eq!(bad_kind.error.as_deref(), Some("invalid 'kind' argument"));

    let no_key = parse_host_control_request(&req("send-key-event", object(vec![])))
        .expect_err("missing key should error");
    assert_eq!(no_key.error.as_deref(), Some("missing 'key' argument"));
}

#[test]
fn synthetic_key_event_defaults_and_super_spellings() {
    let parsed = parse_host_control_request(&req(
        "send-key-event",
        object(vec![
            ("key", text("Enter")),
            ("kind", JsonValue::UInt(3)),
            ("super_key", JsonValue::Bool(true)),
        ]),
    ))
    .unwrap()
    .unwrap();
    match parsed {
        HostControlRequest::SyntheticKeyEvent { window, event } => {
            assert_eq!(window, None);
            assert_eq!(event.kind, KeyEventKind::Press);
            assert_eq!(event.text, None);
            assert!(event.super_key);
            assert!(!event.shift);
        }
        other => panic!("expected synthetic key request, got {other:?}"),
    }
}

#[test]
fn ime_commit_needs_non_empty_text() {
    let empty = parse_host_control_request(&req(
        "send-ime-commit",
        object(vec![("text", text(""))]),
    ))
    .expect_err("empty text should error");
    assert_eq!(empty.error.as_deref(), Some("missing 'text' argument"));

    let parsed = parse_host_control_request(&req(
        "send-ime-commit",
        object(vec![("text", text("日本")), ("window_id", JsonValue::UInt(2))]),
    ))
    .unwrap()
    .unwrap();
    assert_eq!(
        parsed,
        HostControlRequest::SyntheticImeCommit {
            window: Some(2),
            text: "日本".to_string()
        }
    );
}

#[test]
fn target_window_reads_only_unsigned_ids() {
    assert_eq!(
        target_window_from_args(&req("x", object(vec![("window_id", JsonValue::UInt(5))]))),
        Some(5)
    );
    assert_eq!(
        target_window_from_args(&req("x", object(vec![("window_id", JsonValue::NegInt(-5))]))),
        None
    );
    assert_eq!(target_window_from_args(&req("x", JsonValue::Null)), None);
}

#[test]
fn list_windows_response_reports_ids_count_and_focus() {
    let response = host_list_windows_response(vec![3, 9], Some(9));
    assert!(response.ok);
    let data = response.data.as_ref().unwrap();
    assert_eq!(data.get("count").and_then(|v| v.as_u64()), Some(2));
    assert_eq!(data.get("focused").and_then(|v| v.as_u64()), Some(9));
    let windows = data.get("windows").and_then(|v| v.as_array()).unwrap();
    assert_eq!(windows, &vec![JsonValue::UInt(3), JsonValue::UInt(9)]);

    let none_focused = host_list_windows_response(vec![], None);
    assert_eq!(
        none_focused.data.as_ref().unwrap().get("focused"),
        Some(&JsonValue::Null)
    );
}

#[test]
fn host_requests_become_actions_with_an_empty_ok() {
    let (response, action) = into_ipc_action(HostControlRequest::FocusWindow { window_id: 4 });
    assert!(response.ok && response.data.is_none() && response.error.is_none());
    assert_eq!(action, IpcAction::FocusWindow(4));
    let (_, action) = into_ipc_action(HostControlRequest::ListWindows);
    assert_eq!(action, IpcAction::NoOp);
}
