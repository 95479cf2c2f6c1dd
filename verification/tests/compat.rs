//! The compatibility layer.

use serde_json::Value;

use dap_mux::compat::{
    annotate_stale_variable_error, is_known_reverse_request, pick_reverse_request_target,
    rewrite_stale_variable_error, should_filter_event,
};
use dap_mux::json::{json_from_value, value_from_json, Json};

fn value(text: &str) -> Value {
    serde_json::from_str(text).unwrap()
}

fn json(text: &str) -> Json {
    json_from_value(value(text))
}

#[test]
fn filters_debugpy_events() {
    assert!(should_filter_event(&json(
        r#"{"type": "event", "event": "debugpySockets"}"#
    )));
    assert!(should_filter_event(&json(
        r#"{"type": "event", "event": "debugpyAttach"}"#
    )));
    assert!(should_filter_event(&json(
        r#"{"type": "event", "event": "startDebugging"}"#
    )));
    assert!(!should_filter_event(&json(
        r#"{"type": "event", "event": "stopped"}"#
    )));
}

#[test]
fn recognizes_reverse_requests() {
    assert!(is_known_reverse_request(&json(
        r#"{"type": "request", "command": "runInTerminal"}"#
    )));
    assert!(!is_known_reverse_request(&json(
        r#"{"type": "request", "command": "initialize"}"#
    )));
    assert!(!is_known_reverse_request(&json(
        r#"{"type": "response", "command": "runInTerminal"}"#
    )));
}

#[test]
fn prefers_opted_in_client() {
    let clients = vec![
        ("c1".to_string(), json("{}")),
        (
            "c2".to_string(),
            json(r#"{"supportsRunInTerminalRequest": true}"#),
        ),
    ];
    let message = json(r#"{"type": "request", "command": "runInTerminal"}"#);
    assert_eq!(pick_reverse_request_target(&clients, &message), Some("c2"));
}

#[test]
fn falls_back_to_first_client() {
    let clients = vec![
        ("c1".to_string(), json("{}")),
        ("c2".to_string(), json("{}")),
    ];
    let message = json(r#"{"type": "request", "command": "runInTerminal"}"#);
    assert_eq!(pick_reverse_request_target(&clients, &message), Some("c1"));
}

#[test]
fn no_target_when_no_clients() {
    let clients: Vec<(String, Json)> = vec![];
    let message = json(r#"{"type": "request", "command": "runInTerminal"}"#);
    assert_eq!(pick_reverse_request_target(&clients, &message), None);
}

#[test]
fn opting_in_counts_for_run_in_terminal_only() {
    let clients = vec![
        ("c1".to_string(), json("{}")),
        (
            "c2".to_string(),
            json(r#"{"supportsRunInTerminalRequest": true}"#),
        ),
    ];
    let message = json(r#"{"type": "request", "command": "startDebugging"}"#);
    assert_eq!(pick_reverse_request_target(&clients, &message), Some("c1"));
}

#[test]
fn rewrites_stale_variable_error() {
    let message = json(
        r#"{"type": "response", "success": false, "command": "variables",
            "message": "Variable not found"}"#,
    );
    let out = rewrite_stale_variable_error(message);
    let m = out.get_str("message").unwrap();
    assert!(m.contains("invalidated when execution resumes"));
}

#[test]
fn leaves_unrelated_error_alone() {
    let message = value(
        r#"{"type": "response", "success": false, "command": "variables",
            "message": "Internal error"}"#,
    );
    let out = rewrite_stale_variable_error(json_from_value(message.clone()));
    assert_eq!(value_from_json(&out), message);
}

#[test]
fn leaves_successful_response_alone() {
    let message = value(r#"{"type": "response", "success": true, "command": "variables"}"#);
    let out = rewrite_stale_variable_error(json_from_value(message.clone()));
    assert_eq!(value_from_json(&out), message);
}

#[test]
fn the_note_is_appended_whatever_the_case() {
    let message = json(
        r#"{"type": "response", "command": "evaluate", "message": "INVALID reference"}"#,
    );
    let out = rewrite_stale_variable_error(message);
    assert_eq!(
        out.get_str("message"),
        Some("INVALID reference (variable references are invalidated when execution resumes)")
    );
    assert_eq!(out.get_str("command"), Some("evaluate"));
}

#[test]
fn only_variable_requests_get_the_note() {
    let message = value(
        r#"{"type": "response", "success": false, "command": "next", "message": "not found"}"#,
    );
    let out = rewrite_stale_variable_error(json_from_value(message.clone()));
    assert_eq!(value_from_json(&out), message);
}

#[test]
fn the_lowered_text_decides() {
    let message = json(
        r#"{"type": "response", "success": false, "command": "scopes", "message": "gone"}"#,
    );
    let out = annotate_stale_variable_error(message.clone(), "frame not found");
    assert_eq!(
        out.get_str("message"),
        Some("gone (variable references are invalidated when execution resumes)")
    );
    let out = annotate_stale_variable_error(message.clone(), "frame gone");
    assert_eq!(value_from_json(&out), value_from_json(&message));
}
