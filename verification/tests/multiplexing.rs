//! Whole sessions, driven without connections: a canned adapter answers every
//! request that reaches it, and what each client receives is recorded.

use serde_json::Value;

use dap_mux::json::{json_from_value, value_from_json};
use dap_mux::mux::{Action, RequestRoute};
use dap_mux::{Multiplexer, SessionPhase};

fn value(text: &str) -> Value {
    serde_json::from_str(text).unwrap()
}

/// A multiplexer, the messages each side has received, and what was closed.
struct Harness {
    mux: Multiplexer,
    capabilities: Value,
    /// Answer requests as they arrive.
    answering: bool,
    to_adapter: Vec<Value>,
    to_clients: Vec<(String, Value)>,
    closed: Vec<String>,
    adapter_closed: bool,
    shutdowns: usize,
    client_seqs: Vec<(String, i64)>,
}

impl Harness {
    fn over(mut mux: Multiplexer, capability: Option<&str>) -> Harness {
        mux.connect_upstream();
        let mut capabilities = value(
            r#"{"supportsConfigurationDoneRequest": true, "supportsEvaluateForHovers": true,
                "supportsSetVariable": true}"#,
        );
        if let Some(capability) = capability {
            capabilities[capability] = Value::Bool(true);
        }
        Harness {
            mux,
            capabilities,
            answering: true,
            to_adapter: Vec::new(),
            to_clients: Vec::new(),
            closed: Vec::new(),
            adapter_closed: false,
            shutdowns: 0,
            client_seqs: Vec::new(),
        }
    }

    fn start() -> Harness {
        Harness::over(Multiplexer::new(), None)
    }

    fn start_with(capability: &str) -> Harness {
        Harness::over(Multiplexer::new(), Some(capability))
    }

    fn client(&mut self) -> String {
        assert!(self.mux.has_room());
        let id = self.mux.register_client();
        self.client_seqs.push((id.clone(), 1));
        id
    }

    /// Send a request, returning the `seq` used.
    fn send(&mut self, client: &str, command: &str, arguments: Option<&str>) -> i64 {
        let entry = self
            .client_seqs
            .iter_mut()
            .find(|(id, _)| id == client)
            .unwrap();
        let seq: i64 = entry.1;
        entry.1 += 1;
        let mut message = value(r#"{"type": "request"}"#);
        message["seq"] = Value::from(seq);
        message["command"] = Value::from(command);
        if let Some(arguments) = arguments {
            message["arguments"] = value(arguments);
        }
        self.send_raw(client, message);
        seq
    }

    fn send_raw(&mut self, client: &str, message: Value) {
        let actions = self
            .mux
            .handle_client_message(client, json_from_value(message));
        self.perform(actions);
    }

    fn from_adapter(&mut self, message: Value) {
        let actions = self.mux.handle_upstream_message(json_from_value(message));
        self.perform(actions);
    }

    fn send_event(&mut self, event: &str, body: Option<&str>) {
        let mut message = value(r#"{"seq": 0, "type": "event"}"#);
        message["event"] = Value::from(event);
        if let Some(body) = body {
            message["body"] = value(body);
        }
        self.from_adapter(message);
    }

    fn send_reverse_request(&mut self, command: &str, arguments: &str) {
        let mut message = value(r#"{"seq": 0, "type": "request"}"#);
        message["command"] = Value::from(command);
        message["arguments"] = value(arguments);
        self.from_adapter(message);
    }

    fn drop_client(&mut self, client: &str) {
        let actions = self.mux.handle_client_disconnect(client);
        self.perform(actions);
    }

    fn perform(&mut self, actions: Vec<Action>) {
        let mut answers = Vec::new();
        for action in actions {
            match action {
                Action::ToClient(id, message) => {
                    assert!(!self.closed.contains(&id), "{id} is closed");
                    self.to_clients.push((id, value_from_json(&message)));
                }
                Action::ToAdapter(message) => {
                    let message = value_from_json(&message);
                    if self.answering && message["type"] == "request" {
                        answers.push(self.canned_response(&message));
                    }
                    self.to_adapter.push(message);
                }
                Action::CloseClient(id) => self.closed.push(id),
                Action::CloseAdapter => self.adapter_closed = true,
                Action::SignalShutdown => self.shutdowns += 1,
            }
        }
        for answer in answers {
            self.from_adapter(answer);
        }
    }

    fn canned_response(&self, request: &Value) -> Value {
        let mut response = value(r#"{"seq": 1, "type": "response", "success": true}"#);
        response["request_seq"] = request["seq"].clone();
        response["command"] = request["command"].clone();
        match request["command"].as_str().unwrap_or("") {
            "initialize" => response["body"] = self.capabilities.clone(),
            "threads" => {
                response["body"] = value(r#"{"threads": [{"id": 1, "name": "MainThread"}]}"#)
            }
            "variables" => {
                response["success"] = Value::Bool(false);
                response["message"] = Value::from("Variable reference not found");
            }
            _ => {}
        }
        response
    }

    fn received(&self, client: &str) -> Vec<Value> {
        self.to_clients
            .iter()
            .filter(|(id, _)| id == client)
            .map(|(_, message)| message.clone())
            .collect()
    }

    fn last_of(&self, client: &str, kind: &str, key: &str, name: &str) -> Option<Value> {
        self.received(client)
            .into_iter()
            .filter(|m| m["type"] == kind && m[key] == name)
            .last()
    }

    fn response(&self, client: &str, command: &str) -> Value {
        self.last_of(client, "response", "command", command)
            .unwrap_or_else(|| panic!("no response to {command}"))
    }

    fn event(&self, client: &str, event: &str) -> Value {
        self.last_of(client, "event", "event", event)
            .unwrap_or_else(|| panic!("no event {event}"))
    }

    fn request(&self, client: &str, command: &str) -> Value {
        self.last_of(client, "request", "command", command)
            .unwrap_or_else(|| panic!("no request {command}"))
    }

    fn count_command(&self, command: &str) -> usize {
        self.to_adapter
            .iter()
            .filter(|m| m["command"] == command)
            .count()
    }
}

const HELIX: Option<&str> = Some(r#"{"clientID": "helix", "adapterID": "debugpy"}"#);
const REPL: Option<&str> = Some(r#"{"clientID": "repl", "adapterID": "debugpy"}"#);
const C1: Option<&str> = Some(r#"{"clientID": "c1", "adapterID": "debugpy"}"#);
const C2: Option<&str> = Some(r#"{"clientID": "c2", "adapterID": "debugpy"}"#);

#[test]
fn phase_ordering() {
    assert!(SessionPhase::PreInit < SessionPhase::Initializing);
    assert!(SessionPhase::Initializing < SessionPhase::Initialized);
    assert!(SessionPhase::Initialized < SessionPhase::Configured);
}

// ---------------------------------------------------------------------------
// Request forwarding with sequence rewriting
// ---------------------------------------------------------------------------

#[test]
fn client_request_forwarded_with_rewritten_seq() {
    let mut h = Harness::start();
    let client = h.client();
    h.send(
        &client,
        "initialize",
        Some(r#"{"clientID": "test", "adapterID": "debugpy"}"#),
    );
    h.response(&client, "initialize");
    h.send(&client, "configurationDone", Some("{}"));
    h.response(&client, "configurationDone");

    // The adapter sees proxy-allocated monotonic seqs 1, 2 — not the client's.
    let seqs: Vec<i64> = h
        .to_adapter
        .iter()
        .map(|m| m["seq"].as_i64().unwrap())
        .collect();
    assert_eq!(seqs, vec![1, 2]);
}

#[test]
fn response_restores_client_seq() {
    let mut h = Harness::start();
    let client = h.client();
    let seq: i64 = h.send(&client, "threads", None);
    let response = h.response(&client, "threads");
    assert_eq!(response["request_seq"].as_i64(), Some(seq));
    assert_eq!(response["success"], Value::Bool(true));
    assert_eq!(response["body"]["threads"][0]["name"], "MainThread");
}

#[test]
fn non_request_from_client_is_dropped() {
    let mut h = Harness::start();
    let client = h.client();
    // Send a bare event — must not reach the adapter.
    h.send_raw(
        &client,
        value(r#"{"seq": 99, "type": "event", "event": "noise"}"#),
    );
    // A following real request still works, proving the mux survived.
    h.send(&client, "threads", None);
    h.response(&client, "threads");
    assert!(h.to_adapter.iter().all(|m| m["type"] == "request"));
}

#[test]
fn a_request_without_a_number_is_dropped() {
    let mut h = Harness::start();
    let client = h.client();
    let message = value(r#"{"type": "request", "command": "threads"}"#);
    assert_eq!(
        h.mux.request_route(&json_from_value(message.clone())),
        RequestRoute::Drop
    );
    h.send_raw(&client, message);
    assert!(h.to_adapter.is_empty());
    assert!(h.to_clients.is_empty());
}

// ---------------------------------------------------------------------------
// Response routing to originating client
// ---------------------------------------------------------------------------

#[test]
fn responses_routed_to_correct_client() {
    let mut h = Harness::start();
    let client1 = h.client();
    let client2 = h.client();
    h.answering = false;
    let seq1: i64 = h.send(&client1, "threads", None);
    let seq2: i64 = h.send(&client2, "stackTrace", Some(r#"{"threadId": 1}"#));
    let answers: Vec<Value> = h.to_adapter.iter().map(|m| h.canned_response(m)).collect();
    // The answers may come back in any order.
    for answer in answers.into_iter().rev() {
        h.from_adapter(answer);
    }
    let response1 = h.response(&client1, "threads");
    let response2 = h.response(&client2, "stackTrace");
    assert_eq!(response1["request_seq"].as_i64(), Some(seq1));
    assert_eq!(response2["request_seq"].as_i64(), Some(seq2));
    // No cross-contamination.
    assert_eq!(h.received(&client1).len(), 1);
    assert_eq!(h.received(&client2).len(), 1);
}

#[test]
fn response_for_departed_client_is_dropped() {
    let mut h = Harness::start();
    let client1 = h.client();
    let client2 = h.client();
    // client2 issues a request, then disconnects before the response is routed.
    h.answering = false;
    h.send(&client2, "threads", None);
    let answer = h.canned_response(&h.to_adapter[0]);
    h.drop_client(&client2);
    h.from_adapter(answer);
    assert!(h.to_clients.is_empty());
    // The session keeps working for client1 — no panic, no error.
    h.answering = true;
    h.send(&client1, "threads", None);
    let response = h.response(&client1, "threads");
    assert_eq!(response["success"], Value::Bool(true));
}

#[test]
fn a_second_response_is_dropped() {
    let mut h = Harness::start();
    let client = h.client();
    h.send(&client, "threads", None);
    let answer = h.canned_response(&h.to_adapter[0]);
    h.from_adapter(answer);
    assert_eq!(h.received(&client).len(), 1);
    h.from_adapter(value(r#"{"type": "response", "command": "threads"}"#));
    assert_eq!(h.received(&client).len(), 1);
}

#[test]
fn an_outstanding_request_outlives_everybody_else() {
    let mut h = Harness::start();
    let client1 = h.client();
    let client2 = h.client();
    h.answering = false;
    let seq: i64 = h.send(&client1, "evaluate", Some(r#"{"expression": "x"}"#));
    let answer = h.canned_response(&h.to_adapter[0]);
    h.send(&client2, "threads", None);
    h.send_event("continued", None);
    h.send(&client2, "disconnect", None);
    h.drop_client(&client2);
    h.from_adapter(answer);
    let response = h.response(&client1, "evaluate");
    assert_eq!(response["request_seq"].as_i64(), Some(seq));
    assert_eq!(h.mux.snapshot().clients[0].pending_requests, 0);
}

#[test]
fn numbers_keep_growing_across_clients() {
    let mut h = Harness::start();
    for _ in 0..3 {
        let client = h.client();
        h.send(&client, "threads", None);
        h.send(&client, "disconnect", None);
    }
    let seqs: Vec<i64> = h
        .to_adapter
        .iter()
        .map(|m| m["seq"].as_i64().unwrap())
        .collect();
    assert_eq!(seqs, vec![1, 2, 3]);
}

// ---------------------------------------------------------------------------
// Event broadcast
// ---------------------------------------------------------------------------

#[test]
fn event_delivered_to_all_clients() {
    let mut h = Harness::start();
    let client1 = h.client();
    let client2 = h.client();
    h.send_event("stopped", Some(r#"{"reason": "breakpoint", "threadId": 1}"#));
    let event1 = h.event(&client1, "stopped");
    let event2 = h.event(&client2, "stopped");
    assert_eq!(event1["body"]["reason"], "breakpoint");
    assert_eq!(event2["body"]["reason"], "breakpoint");
    assert_eq!(h.to_clients.len(), 2);
}

// ---------------------------------------------------------------------------
// Single initialize with cached capabilities
// ---------------------------------------------------------------------------

#[test]
fn late_initialize_answered_from_cache() {
    let mut h = Harness::start();
    let client1 = h.client();
    h.send(&client1, "initialize", HELIX);
    let response1 = h.response(&client1, "initialize");
    let upstream_count: usize = h.to_adapter.len();

    let client2 = h.client();
    let seq: i64 = h.send(&client2, "initialize", REPL);
    let response2 = h.response(&client2, "initialize");
    assert_eq!(response2["success"], Value::Bool(true));
    assert_eq!(response2["body"], response1["body"]);
    assert_eq!(response2["request_seq"].as_i64(), Some(seq));
    // The adapter did NOT receive a second initialize.
    assert_eq!(h.to_adapter.len(), upstream_count);
    assert_eq!(h.count_command("initialize"), 1);
}

#[test]
fn concurrent_initialize_buffered_and_both_succeed() {
    let mut h = Harness::start();
    let client1 = h.client();
    let client2 = h.client();
    // Both race to send initialize before the adapter responds.
    h.answering = false;
    h.send(&client1, "initialize", HELIX);
    h.send(
        &client2,
        "initialize",
        Some(r#"{"clientID": "ipython", "adapterID": "debugpy"}"#),
    );
    assert!(h.to_clients.is_empty());
    assert_eq!(h.mux.snapshot().phase, SessionPhase::Initializing);
    let answer = h.canned_response(&h.to_adapter[0]);
    h.from_adapter(answer);

    let response1 = h.response(&client1, "initialize");
    let response2 = h.response(&client2, "initialize");
    assert_eq!(response1["success"], Value::Bool(true));
    assert_eq!(response2["success"], Value::Bool(true));
    assert_eq!(response1["body"], response2["body"]);
    assert!(h.mux.snapshot().clients.iter().all(|c| c.initialized));
    // Exactly one initialize reached the adapter.
    assert_eq!(h.count_command("initialize"), 1);
}

#[test]
fn a_rejected_initialize_fails_the_waiting_clients() {
    let mut h = Harness::start();
    let client1 = h.client();
    let client2 = h.client();
    h.answering = false;
    h.send(&client1, "initialize", HELIX);
    let seq: i64 = h.send(&client2, "initialize", REPL);
    let mut answer = h.canned_response(&h.to_adapter[0]);
    answer["success"] = Value::Bool(false);
    answer["message"] = Value::from("no such adapter");
    h.from_adapter(answer);

    let response2 = h.response(&client2, "initialize");
    assert_eq!(
        response2,
        value(&format!(
            r#"{{"seq": 0, "type": "response", "request_seq": {seq}, "success": false,
                "command": "initialize", "message": "no such adapter"}}"#
        ))
    );
    assert_eq!(
        h.response(&client1, "initialize")["success"],
        Value::Bool(false)
    );
    assert!(h.mux.snapshot().clients.iter().all(|c| !c.initialized));
    // A later client may try again.
    assert_eq!(h.mux.snapshot().phase, SessionPhase::PreInit);
    h.answering = true;
    h.send(&client2, "initialize", REPL);
    assert_eq!(
        h.response(&client2, "initialize")["success"],
        Value::Bool(true)
    );
    assert_eq!(h.count_command("initialize"), 2);
}

// ---------------------------------------------------------------------------
// Late-join state replay
// ---------------------------------------------------------------------------

#[test]
fn late_joiner_receives_initialized_and_current_stop() {
    let mut h = Harness::start();
    let client1 = h.client();
    h.send(&client1, "initialize", HELIX);
    h.response(&client1, "initialize");
    h.send_event("initialized", None);
    h.event(&client1, "initialized");
    h.send_event("stopped", Some(r#"{"reason": "breakpoint", "threadId": 1}"#));
    h.event(&client1, "stopped");

    // Late joiner: cached initialize, then replayed initialized + stopped.
    let client2 = h.client();
    h.send(&client2, "initialize", REPL);
    let received = h.received(&client2);
    assert_eq!(received.len(), 3);
    assert_eq!(received[0]["command"], "initialize");
    assert_eq!(received[1]["event"], "initialized");
    assert_eq!(received[2]["event"], "stopped");
    assert_eq!(received[2]["body"]["reason"], "breakpoint");
}

#[test]
fn stopped_state_cleared_on_continued() {
    let mut h = Harness::start();
    let client1 = h.client();
    h.send(&client1, "initialize", HELIX);
    h.send_event("stopped", Some(r#"{"reason": "breakpoint", "threadId": 1}"#));
    h.event(&client1, "stopped");
    h.send_event("continued", Some(r#"{"threadId": 1}"#));
    h.event(&client1, "continued");

    let client2 = h.client();
    h.send(&client2, "initialize", REPL);
    h.response(&client2, "initialize");
    assert!(!h.received(&client2).iter().any(|m| m["event"] == "stopped"));
}

#[test]
fn most_recent_stop_is_replayed() {
    let mut h = Harness::start();
    let client1 = h.client();
    h.send(&client1, "initialize", HELIX);
    h.send_event("stopped", Some(r#"{"reason": "breakpoint", "threadId": 1}"#));
    h.send_event("continued", Some(r#"{"threadId": 1}"#));
    h.send_event("stopped", Some(r#"{"reason": "step", "threadId": 2}"#));

    let client2 = h.client();
    h.send(&client2, "initialize", REPL);
    let stopped = h.event(&client2, "stopped");
    assert_eq!(stopped["body"]["reason"], "step");
    assert_eq!(stopped["body"]["threadId"], 2);
}

// ---------------------------------------------------------------------------
// Session-lifecycle command interception
// ---------------------------------------------------------------------------

#[test]
fn disconnect_and_terminate_are_intercepted() {
    for command in ["disconnect", "terminate"] {
        let mut h = Harness::start();
        let client = h.client();
        h.send(&client, command, Some("{}"));
        let response = h.response(&client, command);
        assert_eq!(
            response["success"],
            Value::Bool(true),
            "{command} should succeed synthetically"
        );
        assert_eq!(
            h.count_command(command),
            0,
            "{command} must not reach the adapter"
        );
    }
}

#[test]
fn terminate_emits_terminated_event_to_requester() {
    let mut h = Harness::start();
    let client = h.client();
    h.send(&client, "terminate", Some("{}"));
    let response = h.response(&client, "terminate");
    assert_eq!(response["success"], Value::Bool(true));
    let event = h.event(&client, "terminated");
    assert_eq!(event["event"], "terminated");
    assert_eq!(h.count_command("terminate"), 0);
}

#[test]
fn terminate_forwarded_when_sole_client_and_capable() {
    // The only client, no operator, adapter supports terminate: the mux stops
    // the shared debuggee for real by forwarding the request upstream.
    let mut h = Harness::start_with("supportsTerminateRequest");
    let client = h.client();
    h.send(&client, "initialize", C1);
    h.send(&client, "terminate", Some("{}"));
    let response = h.response(&client, "terminate");
    assert_eq!(response["success"], Value::Bool(true));
    assert_eq!(h.count_command("terminate"), 1);
}

#[test]
fn terminate_absorbed_with_other_clients_present() {
    let mut h = Harness::start_with("supportsTerminateRequest");
    let client1 = h.client();
    h.send(&client1, "initialize", C1);
    let client2 = h.client();
    h.send(&client1, "terminate", Some("{}"));
    let response = h.response(&client1, "terminate");
    assert_eq!(response["success"], Value::Bool(true));
    let event = h.event(&client1, "terminated");
    assert_eq!(event["event"], "terminated");
    assert_eq!(h.count_command("terminate"), 0);
    assert!(h.received(&client2).is_empty());
    assert_eq!(h.mux.client_count(), 2);
}

#[test]
fn terminate_absorbed_under_operator_even_when_sole_client() {
    // The operator (TUI) owns the debuggee, so a lone client's terminate
    // detaches the client without stopping the shared session.
    let mut h = Harness::over(
        Multiplexer::new_operator_owned(),
        Some("supportsTerminateRequest"),
    );
    let client = h.client();
    h.send(&client, "initialize", C1);
    h.send(&client, "terminate", Some("{}"));
    let response = h.response(&client, "terminate");
    assert_eq!(response["success"], Value::Bool(true));
    let event = h.event(&client, "terminated");
    assert_eq!(event["event"], "terminated");
    assert_eq!(h.count_command("terminate"), 0);
}

#[test]
fn restart_forwarded_when_adapter_supports_it() {
    let mut h = Harness::start_with("supportsRestartRequest");
    let client = h.client();
    h.send(&client, "initialize", C1);
    h.send_event("stopped", None);
    h.send(&client, "restart", Some("{}"));
    let response = h.response(&client, "restart");
    assert_eq!(response["success"], Value::Bool(true));
    // A restart-capable adapter actually receives the restart request.
    assert_eq!(h.count_command("restart"), 1);
    // A client joining mid-restart is not replayed the old stop.
    let late = h.client();
    h.send(&late, "initialize", C2);
    assert_eq!(h.received(&late).len(), 1);
}

#[test]
fn restart_rejected_when_adapter_lacks_support() {
    let mut h = Harness::start();
    let client = h.client();
    h.send(&client, "initialize", C1);
    h.send(&client, "restart", Some("{}"));
    let response = h.response(&client, "restart");
    assert_eq!(response["success"], Value::Bool(false));
    assert!(response["message"]
        .as_str()
        .unwrap_or("")
        .contains("supportsRestartRequest"));
    // And it must not reach the adapter.
    assert_eq!(h.count_command("restart"), 0);
}

#[test]
fn session_survives_disconnect_request() {
    let mut h = Harness::start();
    let client1 = h.client();
    h.send(&client1, "disconnect", Some("{}"));
    h.response(&client1, "disconnect");

    let client2 = h.client();
    h.send(&client2, "threads", None);
    let response = h.response(&client2, "threads");
    assert_eq!(response["success"], Value::Bool(true));
}

#[test]
fn disconnect_request_removes_the_client() {
    let mut h = Harness::start();
    let client = h.client();
    h.send(&client, "disconnect", Some("{}"));
    h.response(&client, "disconnect");
    assert_eq!(
        h.mux.client_count(),
        0,
        "the client is dropped from the session after it disconnects"
    );
    assert_eq!(h.closed, vec![client]);
}

#[test]
fn late_attach_and_configuration_done_absorbed() {
    let mut h = Harness::start();
    let client1 = h.client();
    // Drive client1 through full configuration.
    h.send(&client1, "initialize", C1);
    h.send(&client1, "attach", Some("{}"));
    h.response(&client1, "attach");
    h.send(&client1, "configurationDone", Some("{}"));
    h.response(&client1, "configurationDone");
    let attach_count: usize = h.count_command("attach");
    let done_count: usize = h.count_command("configurationDone");

    // Late joiner's attach/configurationDone are intercepted.
    let client2 = h.client();
    h.send(&client2, "initialize", C2);
    h.response(&client2, "initialize");
    h.send(&client2, "attach", Some("{}"));
    let attach_resp = h.response(&client2, "attach");
    h.send(&client2, "configurationDone", Some("{}"));
    let done_resp = h.response(&client2, "configurationDone");
    assert_eq!(attach_resp["success"], Value::Bool(true));
    assert_eq!(done_resp["success"], Value::Bool(true));
    assert_eq!(h.count_command("attach"), attach_count);
    assert_eq!(h.count_command("configurationDone"), done_count);

    // And the late joiner can still issue normal requests.
    h.send(&client2, "threads", None);
    let response = h.response(&client2, "threads");
    assert_eq!(response["success"], Value::Bool(true));
}

#[test]
fn first_attach_is_forwarded() {
    let mut h = Harness::start();
    let client = h.client();
    h.send(&client, "initialize", C1);
    h.send(&client, "attach", Some("{}"));
    let response = h.response(&client, "attach");
    assert_eq!(response["success"], Value::Bool(true));
    assert_eq!(h.count_command("attach"), 1);
}

// ---------------------------------------------------------------------------
// Reverse-request routing
// ---------------------------------------------------------------------------

#[test]
fn run_in_terminal_routed_to_opted_in_client() {
    let mut h = Harness::start();
    let client1 = h.client();
    let client2 = h.client();
    // client1 does not opt in. client2 declares support.
    h.send(&client1, "initialize", C1);
    h.send(
        &client2,
        "initialize",
        Some(r#"{"clientID": "c2", "supportsRunInTerminalRequest": true}"#),
    );
    h.send_reverse_request("runInTerminal", r#"{"args": ["echo", "hi"]}"#);
    let request = h.request(&client2, "runInTerminal");
    assert_eq!(request["command"], "runInTerminal");
    assert!(!h
        .received(&client1)
        .iter()
        .any(|m| m["command"] == "runInTerminal"));
}

#[test]
fn reverse_request_response_forwarded_to_adapter() {
    let mut h = Harness::start();
    let client = h.client();
    h.send(
        &client,
        "initialize",
        Some(r#"{"clientID": "c1", "supportsRunInTerminalRequest": true}"#),
    );
    // The adapter assigns seq 0 to its reverse request.
    h.send_reverse_request("runInTerminal", r#"{"args": ["echo", "hi"]}"#);
    let request = h.request(&client, "runInTerminal");

    // The client replies; the mux must forward that response back upstream,
    // restoring the adapter's original seq (0) into request_seq.
    let proxy_seq: i64 = request["seq"].as_i64().expect("reverse request has a seq");
    let mut answer = value(
        r#"{"seq": 500, "type": "response", "success": true, "command": "runInTerminal",
            "body": {"processId": 4242}}"#,
    );
    answer["request_seq"] = Value::from(proxy_seq);
    h.send_raw(&client, answer.clone());
    let forwarded = h.to_adapter.last().unwrap().clone();
    assert_eq!(forwarded["type"], "response");
    assert_eq!(forwarded["command"], "runInTerminal");
    assert_eq!(forwarded["request_seq"].as_i64(), Some(0));
    assert_eq!(forwarded["body"]["processId"], 4242);
    // A second answer is ignored.
    let sent: usize = h.to_adapter.len();
    h.send_raw(&client, answer);
    assert_eq!(h.to_adapter.len(), sent);
}

#[test]
fn reverse_request_falls_back_to_first_client() {
    let mut h = Harness::start();
    let client1 = h.client();
    let client2 = h.client();
    h.send(&client1, "initialize", C1);
    h.send(&client2, "initialize", C2);
    h.send_reverse_request("runInTerminal", r#"{"args": ["echo", "hi"]}"#);
    let request = h.request(&client1, "runInTerminal");
    assert_eq!(request["command"], "runInTerminal");
}

#[test]
fn a_reverse_request_nobody_can_take_is_failed() {
    let mut h = Harness::start();
    h.client();
    let request = value(r#"{"seq": 8, "type": "request", "command": "runInTerminal"}"#);
    h.from_adapter(request);
    assert_eq!(
        h.to_adapter,
        vec![value(
            r#"{"seq": 0, "type": "response", "request_seq": 8, "success": false,
                "command": "runInTerminal",
                "message": "dap-mux: no client available to handle reverse request"}"#
        )]
    );
    assert!(h.to_clients.is_empty());
}

#[test]
fn a_departing_client_fails_what_it_owes() {
    let mut h = Harness::start();
    let client = h.client();
    h.send(&client, "initialize", C1);
    h.from_adapter(value(
        r#"{"seq": 31, "type": "request", "command": "startDebugging"}"#,
    ));
    assert_eq!(h.request(&client, "startDebugging")["seq"], 1);
    h.drop_client(&client);
    assert_eq!(
        h.to_adapter.last().unwrap(),
        &value(
            r#"{"seq": 0, "type": "response", "request_seq": 31, "success": false,
                "command": "startDebugging",
                "message": "dap-mux: client handling reverse request disconnected before responding"}"#
        )
    );
    assert_eq!(h.closed, vec![client]);
    // Another reverse request finds nobody.
    h.from_adapter(value(
        r#"{"seq": 32, "type": "request", "command": "startDebugging"}"#,
    ));
    assert_eq!(h.to_adapter.last().unwrap()["request_seq"], 32);
}

#[test]
fn a_reverse_request_to_a_client_that_never_connected_is_failed() {
    let mut h = Harness::start();
    h.answering = false;
    h.client_seqs.push(("ghost".to_string(), 1));
    h.send("ghost", "initialize", C1);
    h.from_adapter(value(
        r#"{"seq": 5, "type": "request", "command": "runInTerminal"}"#,
    ));
    let failed = h.to_adapter.last().unwrap();
    assert_eq!(failed["request_seq"], 5);
    assert_eq!(
        failed["message"],
        "dap-mux: target client for reverse request is gone"
    );
}

// ---------------------------------------------------------------------------
// Adapter-quirk event filtering & stale-variable rewrite
// ---------------------------------------------------------------------------

#[test]
fn debugpy_custom_events_are_not_forwarded() {
    let mut h = Harness::start();
    let client = h.client();
    h.send_event("debugpySockets", Some(r#"{"sockets": []}"#));
    h.send_event("debugpyAttach", Some("{}"));
    // A normal event after them proves the stream is intact and ordered.
    h.send_event("stopped", Some(r#"{"reason": "breakpoint"}"#));
    h.event(&client, "stopped");
    assert_eq!(h.received(&client).len(), 1);
}

#[test]
fn stale_variable_error_is_clarified() {
    let mut h = Harness::start();
    let client = h.client();
    h.send(&client, "variables", Some(r#"{"variablesReference": 999}"#));
    let response = h.response(&client, "variables");
    assert_eq!(response["success"], Value::Bool(false));
    assert_eq!(
        response["message"],
        "Variable reference not found \
         (variable references are invalidated when execution resumes)"
    );
}

#[test]
fn route_response_takes_a_response_as_it_is() {
    let mut h = Harness::start();
    let client = h.client();
    h.answering = false;
    let seq: i64 = h.send(&client, "variables", None);
    let answer = h.canned_response(&h.to_adapter[0]);
    let actions = h.mux.route_response(json_from_value(answer));
    h.perform(actions);
    let response = h.response(&client, "variables");
    assert_eq!(response["message"], "Variable reference not found");
    assert_eq!(response["request_seq"].as_i64(), Some(seq));
}

#[test]
fn unexpected_adapter_messages_are_ignored() {
    let mut h = Harness::start();
    h.client();
    h.from_adapter(value(
        r#"{"seq": 1, "type": "request", "command": "launchRocket"}"#,
    ));
    h.from_adapter(value("[1, 2]"));
    assert!(h.to_adapter.is_empty());
    assert!(h.to_clients.is_empty());
}

// ---------------------------------------------------------------------------
// Client disconnect cleanup
// ---------------------------------------------------------------------------

#[test]
fn disconnect_cleans_up_and_others_unaffected() {
    let mut h = Harness::start();
    let client1 = h.client();
    let client2 = h.client();
    // client2 has an outstanding request, then disconnects.
    h.answering = false;
    h.send(
        &client2,
        "evaluate",
        Some(r#"{"expression": "x", "context": "repl"}"#),
    );
    h.drop_client(&client2);

    // client1 keeps working. Events still flow.
    h.answering = true;
    h.send(&client1, "threads", None);
    let response = h.response(&client1, "threads");
    assert_eq!(response["success"], Value::Bool(true));
    h.send_event("continued", Some(r#"{"threadId": 1}"#));
    let event = h.event(&client1, "continued");
    assert_eq!(event["body"]["threadId"], 1);
    assert_eq!(h.mux.client_count(), 1);
}

#[test]
fn a_client_id_is_never_reused() {
    let mut h = Harness::start();
    let first = h.client();
    assert_eq!(first, "client-1");
    h.drop_client(&first);
    assert_eq!(h.client(), "client-2");
    // A drop that was already handled changes nothing.
    h.drop_client(&first);
    assert_eq!(h.closed, vec![first]);
    assert_eq!(h.mux.client_count(), 1);
}

// ---------------------------------------------------------------------------
// The end of a session
// ---------------------------------------------------------------------------

#[test]
fn debuggee_termination_is_not_a_session_end() {
    let mut h = Harness::start();
    let client = h.client();
    h.send(&client, "initialize", Some(r#"{"clientID": "c"}"#));
    // The adapter (still connected) reports the debuggee terminated.
    h.send_event("terminated", None);
    h.event(&client, "terminated");
    // The session must not end.
    assert_eq!(h.shutdowns, 0);
    assert!(!h.adapter_closed);
    assert!(h.mux.snapshot().upstream_connected);
    // And the session still routes requests.
    h.send(&client, "threads", None);
    let response = h.response(&client, "threads");
    assert_eq!(response["success"], Value::Bool(true));
}

#[test]
fn upstream_disconnect_notifies_clients_and_shuts_down() {
    let mut h = Harness::start();
    let client1 = h.client();
    let client2 = h.client();
    let actions = h.mux.handle_upstream_disconnect();
    h.perform(actions);
    assert_eq!(h.shutdowns, 1);
    assert!(h.adapter_closed);
    assert!(!h.mux.snapshot().upstream_connected);
    for client in [&client1, &client2] {
        let received = h.received(client);
        assert_eq!(received.len(), 2);
        assert_eq!(
            received[0],
            value(
                r#"{"seq": 0, "type": "event", "event": "output", "body": {
                    "category": "console",
                    "output": "dap-mux: debug adapter connection lost; shutting down\n"}}"#
            )
        );
        assert_eq!(
            received[1],
            value(r#"{"seq": 0, "type": "event", "event": "terminated"}"#)
        );
    }
    // Any further client request has nowhere to go.
    h.send(&client1, "threads", None);
    assert!(h.to_adapter.is_empty());
}

#[test]
fn ending_the_session_closes_everything() {
    let mut h = Harness::start();
    let client1 = h.client();
    let client2 = h.client();
    let actions = h.mux.end_session();
    h.perform(actions);
    assert_eq!(h.closed, vec![client1, client2]);
    assert!(h.adapter_closed);
    assert_eq!(h.shutdowns, 0);
    assert_eq!(h.mux.client_count(), 0);
    assert!(!h.mux.snapshot().upstream_connected);
}

// ---------------------------------------------------------------------------
// The operator's view
// ---------------------------------------------------------------------------

#[test]
fn snapshot_reflects_connected_clients() {
    let mut h = Harness::start();
    // client-1 completes initialize. client-2 connects but does not.
    let client1 = h.client();
    h.send(&client1, "initialize", Some(r#"{"clientID": "c1"}"#));
    let client2 = h.client();
    h.answering = false;
    h.send(&client2, "threads", None);

    let snap = h.mux.snapshot();
    assert_eq!(snap.clients.len(), 2);
    assert_eq!(snap.phase, SessionPhase::Initialized);
    let client1_info = snap
        .clients
        .iter()
        .find(|c| c.id == "client-1")
        .expect("client-1 in snapshot");
    assert!(client1_info.initialized, "client-1 completed initialize");
    assert_eq!(client1_info.pending_requests, 0);
    let client2_info = snap
        .clients
        .iter()
        .find(|c| c.id == "client-2")
        .expect("client-2 in snapshot");
    assert!(
        !client2_info.initialized,
        "client-2 has not completed initialize"
    );
    assert_eq!(client2_info.pending_requests, 1);
}

#[test]
fn snapshot_surfaces_client_name() {
    let mut h = Harness::start();
    let named = h.client();
    h.send(
        &named,
        "initialize",
        Some(r#"{"clientID": "helix-id", "clientName": "Helix"}"#),
    );
    let id_only = h.client();
    h.send(&id_only, "initialize", Some(r#"{"clientID": "vscode"}"#));

    let snap = h.mux.snapshot();
    let named = snap.clients.iter().find(|c| c.id == "client-1").unwrap();
    assert_eq!(named.name.as_deref(), Some("Helix"), "clientName preferred");
    let id_only = snap.clients.iter().find(|c| c.id == "client-2").unwrap();
    assert_eq!(
        id_only.name.as_deref(),
        Some("vscode"),
        "clientID used when clientName is absent"
    );
}

#[test]
fn snapshot_has_no_name_before_initialize() {
    let mut h = Harness::start();
    h.client();
    let snap = h.mux.snapshot();
    assert_eq!(snap.clients[0].name, None);
}

// ---------------------------------------------------------------------------
// Whole runs
// ---------------------------------------------------------------------------

#[test]
fn initialize_goes_up_once_however_many_ask() {
    let mut h = Harness::start();
    h.answering = false;
    let clients: Vec<String> = (0..3).map(|_| h.client()).collect();
    for client in &clients {
        h.send(client, "initialize", C1);
    }
    assert_eq!(h.count_command("initialize"), 1);
    assert!(h.to_clients.is_empty());
    let answer = h.canned_response(&h.to_adapter[0]);
    h.from_adapter(answer);
    let late = h.client();
    h.send(&late, "initialize", C2);
    assert_eq!(h.count_command("initialize"), 1);
    for client in clients.iter().chain([&late]) {
        assert_eq!(h.received(client).len(), 1);
    }
}

#[test]
fn each_event_is_delivered_once_and_in_order() {
    let mut h = Harness::start();
    let client1 = h.client();
    let client2 = h.client();
    let events = ["output", "debugpySockets", "stopped", "output", "thread", "continued"];
    for (i, event) in events.iter().enumerate() {
        h.send_event(event, Some(&format!(r#"{{"n": {i}}}"#)));
    }
    for client in [&client1, &client2] {
        let got: Vec<i64> = h
            .received(client)
            .iter()
            .map(|m| m["body"]["n"].as_i64().unwrap())
            .collect();
        assert_eq!(got, vec![0, 2, 3, 4, 5]);
    }
    assert_eq!(h.mux.snapshot().phase, SessionPhase::PreInit);
    assert!(h.mux.snapshot().upstream_connected);
}

#[test]
fn the_latest_stop_is_replayed_whatever_else_is_said() {
    let mut h = Harness::start();
    let first = h.client();
    h.send(&first, "initialize", C1);
    h.send_event("stopped", Some(r#"{"n": 1}"#));
    h.send_event("stopped", Some(r#"{"n": 2}"#));
    h.send_event("output", None);
    h.send(&first, "threads", None);
    let second = h.client();
    h.send(&second, "initialize", C2);
    assert_eq!(h.event(&second, "stopped")["body"]["n"], 2);
    h.send_event("terminated", None);
    let third = h.client();
    h.send(&third, "initialize", C2);
    assert!(h.last_of(&third, "event", "event", "stopped").is_none());
}

#[test]
fn a_reverse_request_stays_owed_until_it_is_answered() {
    let mut h = Harness::start();
    let client = h.client();
    let other = h.client();
    h.send(&client, "initialize", C1);
    let mut message = value(r#"{"type": "request", "command": "runInTerminal"}"#);
    message["seq"] = Value::from(41);
    h.from_adapter(message);
    let asked = h.request(&client, "runInTerminal");
    h.send_event("stopped", None);
    h.send(&other, "threads", None);
    h.send_raw(
        &other,
        value(r#"{"seq": 5, "type": "response", "request_seq": 999, "success": true}"#),
    );
    h.drop_client(&other);
    let before: usize = h.to_adapter.len();
    let mut answer = value(r#"{"seq": 9, "type": "response", "success": true}"#);
    answer["request_seq"] = asked["seq"].clone();
    h.send_raw(&client, answer.clone());
    assert_eq!(h.to_adapter.len(), before + 1);
    assert_eq!(h.to_adapter[before]["request_seq"], 41);
    h.send_event("continued", None);
    h.send_raw(&client, answer);
    assert_eq!(h.to_adapter.len(), before + 1);
}

#[test]
fn a_second_departure_is_silent() {
    let mut h = Harness::start();
    let client = h.client();
    h.send(&client, "initialize", C1);
    h.send_reverse_request("runInTerminal", "{}");
    h.send_reverse_request("startDebugging", "{}");
    let before: usize = h.to_adapter.len();
    h.drop_client(&client);
    assert_eq!(h.to_adapter.len(), before + 2);
    assert_eq!(h.closed, vec![client.clone()]);
    h.send_event("output", None);
    h.drop_client(&client);
    assert_eq!(h.to_adapter.len(), before + 2);
    assert_eq!(h.closed, vec![client]);
}

#[test]
fn ids_are_handed_out_in_order_and_never_again() {
    let mut h = Harness::start();
    let first = h.client();
    let second = h.client();
    assert_eq!((first.as_str(), second.as_str()), ("client-1", "client-2"));
    h.answering = false;
    h.send(&second, "threads", None);
    h.drop_client(&second);
    let third = h.client();
    assert_eq!(third, "client-3");
    let listed: Vec<(String, usize)> = h
        .mux
        .snapshot()
        .clients
        .into_iter()
        .map(|c| (c.id, c.pending_requests))
        .collect();
    assert_eq!(listed, vec![(first, 0), (third, 0)]);
}

#[test]
fn nothing_outlives_its_client() {
    let mut h = Harness::start();
    let client = h.client();
    h.answering = false;
    h.send(&client, "initialize", C1);
    h.send(&client, "threads", None);
    h.drop_client(&client);
    // A reverse request finds nobody: the arguments have gone with the client.
    h.send_reverse_request("runInTerminal", "{}");
    assert_eq!(
        h.to_adapter.last().unwrap()["message"],
        "dap-mux: no client available to handle reverse request"
    );
    let newcomer = h.client();
    assert_eq!(h.mux.snapshot().clients[0].pending_requests, 0);
    assert!(h.received(&newcomer).is_empty());
}

#[test]
fn only_a_rejection_lets_initialize_go_up_again() {
    let mut h = Harness::start();
    h.answering = false;
    let client = h.client();
    h.send(&client, "initialize", C1);
    let mut rejection = h.canned_response(&h.to_adapter[0]);
    rejection["success"] = Value::Bool(false);
    h.from_adapter(rejection);
    h.send(&client, "initialize", C1);
    assert_eq!(h.count_command("initialize"), 2);
}

#[test]
fn a_dropped_request_does_not_move_the_session_on() {
    let mut h = Harness::start_with("supportsRestartRequest");
    let client = h.client();
    h.send_raw(
        &client,
        value(r#"{"type": "request", "command": "initialize", "arguments": {"clientID": "x"}}"#),
    );
    assert_eq!(h.mux.snapshot().phase, SessionPhase::PreInit);
    assert!(h.to_adapter.is_empty());
    // What it says of its sender is on record.
    assert_eq!(h.mux.snapshot().clients[0].name.as_deref(), Some("x"));
    // So the next `initialize` is forwarded and answered.
    h.send(&client, "initialize", C1);
    assert_eq!(h.response(&client, "initialize")["success"], true);
    h.send_raw(
        &client,
        value(r#"{"type": "request", "command": "configurationDone"}"#),
    );
    assert_eq!(h.mux.snapshot().phase, SessionPhase::Initialized);
    h.send_event("stopped", None);
    h.send_raw(&client, value(r#"{"type": "request", "command": "restart"}"#));
    assert_eq!(h.count_command("restart"), 0);
    let late = h.client();
    h.send(&late, "initialize", C2);
    h.event(&late, "stopped");
}

#[test]
fn a_broadcast_reaches_every_client() {
    let mut h = Harness::start();
    let client1 = h.client();
    let client2 = h.client();
    let event = value(r#"{"type": "event", "event": "stopped", "body": {"n": 1}}"#);
    let actions = h.mux.broadcast_event(json_from_value(event.clone()));
    h.perform(actions);
    assert_eq!(h.received(&client1), vec![event.clone()]);
    assert_eq!(h.received(&client2), vec![event]);
}

#[test]
fn an_answer_is_handled_once() {
    let mut h = Harness::start();
    let client = h.client();
    h.send(&client, "initialize", C1);
    h.send_reverse_request("runInTerminal", "{}");
    let asked = h.request(&client, "runInTerminal");
    let mut answer = value(r#"{"type": "response", "success": true}"#);
    let mut actions: Vec<Action> = Vec::new();
    assert!(!h
        .mux
        .forward_reverse_response(json_from_value(answer.clone()), &mut actions));
    answer["request_seq"] = asked["seq"].clone();
    assert!(h
        .mux
        .forward_reverse_response(json_from_value(answer.clone()), &mut actions));
    assert!(!h
        .mux
        .forward_reverse_response(json_from_value(answer), &mut actions));
    assert_eq!(actions.len(), 1);
    h.perform(actions);
    assert_eq!(h.to_adapter.last().unwrap()["request_seq"], 0);
}

#[test]
fn cleaning_up_counts_and_fails_what_a_client_leaves() {
    let mut h = Harness::start();
    let client = h.client();
    h.send(&client, "initialize", C1);
    h.answering = false;
    h.send(&client, "threads", None);
    h.send(&client, "stackTrace", None);
    let before: usize = h.to_adapter.len();
    for seq in [7, 3] {
        let mut message = value(r#"{"type": "request", "command": "runInTerminal"}"#);
        message["seq"] = Value::from(seq);
        h.from_adapter(message);
    }
    let mut actions: Vec<Action> = Vec::new();
    assert_eq!(h.mux.cleanup_client_state(&client, &mut actions), 2);
    assert_eq!(h.mux.cleanup_client_state(&client, &mut actions), 0);
    h.perform(actions);
    let failed: Vec<i64> = h.to_adapter[before..]
        .iter()
        .map(|m| m["request_seq"].as_i64().unwrap())
        .collect();
    // The oldest first.
    assert_eq!(failed, vec![7, 3]);
    assert!(h.to_adapter[before..].iter().all(|m| m["success"] == false));
}
