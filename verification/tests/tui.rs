//! The operator interface.

use std::path::PathBuf;

use dap_mux::cli::{Cli, ResolvedConfig};
use dap_mux::level::{Level, LevelFilter};
use dap_mux::mux::{ClientInfo, MuxSnapshot};
use dap_mux::tui::app::{
    client_label, client_status, initial_display_level, is_adapter_line, level_color, level_label,
    phase_label, ui_plan, upstream_status, App, AppAction, Key, Observation, Tone, UiPlan,
    Upstream,
};
use dap_mux::tui::log_buffer::{LineVisitor, LogBuffer, LogBufferLayer, LogLine};
use dap_mux::tui::screen::{client_lines, session_summary, Span};
use dap_mux::upstream::UpstreamTransport;
use dap_mux::SessionPhase;

fn line(level: Level, target: &str, text: &str) -> LogLine {
    LogLine {
        level,
        target: target.into(),
        text: text.into(),
    }
}

fn texts(buffer: &LogBuffer) -> Vec<String> {
    buffer.lines().into_iter().map(|line| line.text).collect()
}

// ---------------------------------------------------------------------------
// The log buffer
// ---------------------------------------------------------------------------

#[test]
fn retains_most_recent_within_capacity() {
    let mut buffer = LogBuffer::new(3);
    for i in 0..5 {
        buffer.push(LogLine {
            level: Level::Info,
            target: "test".into(),
            text: format!("line {i}"),
        });
    }
    assert_eq!(texts(&buffer), vec!["line 2", "line 3", "line 4"]);
}

#[test]
fn empty_buffer_reports_empty() {
    let mut buffer = LogBuffer::new(10);
    assert!(buffer.is_empty());
    buffer.push(LogLine {
        level: Level::Info,
        target: "test".into(),
        text: "x".into(),
    });
    assert!(!buffer.is_empty());
}

#[test]
fn a_buffer_without_room_stays_empty() {
    let mut buffer = LogBuffer::new(0);
    buffer.push(line(Level::Info, "test", "x"));
    buffer.push(line(Level::Info, "test", "y"));
    assert!(buffer.is_empty());
    assert_eq!(buffer.len(), 0);
}

#[test]
fn layer_captures_events_into_buffer() {
    let mut layer = LogBufferLayer::new(LogBuffer::new(10));
    let mut visitor = LineVisitor::default();
    visitor.record_debug("message", "pane line");
    visitor.record_str("client_id", "client-1");
    layer.on_event(Level::Info, "test", visitor);

    let lines = layer.buffer().lines();
    assert_eq!(lines.len(), 1);
    assert_eq!(lines[0].level, Level::Info);
    assert!(lines[0].text.contains("pane line"), "message captured");
    assert!(
        lines[0].text.contains("client_id=client-1"),
        "fields captured"
    );
    assert_eq!(lines[0].text, "pane line client_id=client-1");
    assert_eq!(lines[0].target, "test");
}

#[test]
fn fields_may_precede_the_message() {
    let mut layer = LogBufferLayer::new(LogBuffer::new(1));
    let mut visitor = LineVisitor::default();
    visitor.record_debug("port", "7000");
    visitor.record_str("message", "listening");
    visitor.record_str("host", "here");
    layer.on_event(Level::Warn, "test", visitor);
    assert_eq!(texts(layer.buffer()), vec!["listening port=7000 host=here"]);
}

// ---------------------------------------------------------------------------
// Keys and ticks
// ---------------------------------------------------------------------------

fn interactive() -> App {
    App::new(5555, Upstream::Interactive, Level::Info)
}

fn configured() -> App {
    App::new(
        5555,
        Upstream::Configured {
            transport: UpstreamTransport::tcp("127.0.0.1".to_string(), 5678),
            label: "5678".to_string(),
        },
        Level::Info,
    )
}

fn type_text(app: &mut App, text: &str) {
    for c in text.chars() {
        assert!(matches!(
            app.on_key(Key::Char(c), false),
            AppAction::Nothing
        ));
    }
}

fn connected_to(action: AppAction) -> (String, u16) {
    match action {
        AppAction::Connect(UpstreamTransport::Tcp(tcp)) => (tcp.host, tcp.port),
        other => panic!("unexpected {other:?}"),
    }
}

#[test]
fn a_configured_upstream_connects_on_entry() {
    let mut app = configured();
    assert_eq!(app.status(), "Connecting to 5678…");
    assert_eq!(connected_to(app.start()), ("127.0.0.1".to_string(), 5678));
    assert_eq!(
        app.status(),
        "Connecting to 5678… (retrying until the adapter is ready)"
    );
    assert!(app.has_session());
    assert!(!app.shows_session());
}

#[test]
fn an_interactive_upstream_waits_for_an_address() {
    let mut app = interactive();
    assert!(matches!(app.start(), AppAction::Nothing));
    assert_eq!(
        app.status(),
        "Enter an upstream address (PORT or HOST:PORT) and press Enter."
    );
    assert!(matches!(app.on_key(Key::Enter, false), AppAction::Nothing));
    assert_eq!(app.status(), "Enter an address first (PORT or HOST:PORT).");
    type_text(&mut app, " localhost:99x");
    assert!(matches!(app.on_key(Key::Enter, false), AppAction::Nothing));
    assert_eq!(
        app.status(),
        "invalid port in attach address: \"localhost:99x\""
    );
    app.on_key(Key::Backspace, false);
    type_text(&mut app, "7 ");
    assert_eq!(
        connected_to(app.on_key(Key::Enter, false)),
        ("localhost".to_string(), 997)
    );
    assert_eq!(
        app.status(),
        "Connecting to localhost:997… (retrying until the adapter is ready)"
    );
}

#[test]
fn the_address_is_shown_as_it_is_typed() {
    let mut app = interactive();
    type_text(&mut app, "12");
    assert_eq!(app.address_field(), ("  address: ", "12\u{2588}".to_string()));
    app.on_key(Key::Enter, false);
    assert_eq!(app.address_field(), ("  address: ", "12".to_string()));
    let mut app = configured();
    app.on_key(Key::Char('x'), false);
    app.on_key(Key::Backspace, false);
    assert_eq!(app.address_field(), ("  upstream: ", "5678".to_string()));
}

#[test]
fn the_connect_attempt_is_followed() {
    let mut app = configured();
    app.start();
    assert!(matches!(
        app.on_tick(Observation::StillConnecting),
        AppAction::Nothing
    ));
    assert!(matches!(
        app.on_tick(Observation::Connected),
        AppAction::AcceptClients
    ));
    assert!(app.shows_session());
    assert_eq!(
        app.status(),
        "Connected to 5678. Clients may connect on 127.0.0.1:5555."
    );
    assert!(matches!(
        app.on_tick(Observation::Upstream(true)),
        AppAction::Nothing
    ));
    assert!(matches!(
        app.on_tick(Observation::Upstream(false)),
        AppAction::EndSession
    ));
    assert_eq!(
        app.status(),
        "Session with 5678 ended (adapter connection lost). \
         Press Enter to connect again, Esc to quit."
    );
    assert!(!app.has_session());
    assert_eq!(
        connected_to(app.on_key(Key::Enter, false)),
        ("127.0.0.1".to_string(), 5678)
    );
}

#[test]
fn a_failed_connect_attempt_is_reported() {
    let mut app = configured();
    app.start();
    app.on_tick(Observation::ConnectFailed("refused".to_string()));
    assert_eq!(app.status(), "Connect to 5678 failed: refused");
    assert!(!app.has_session());
    app.start();
    app.on_tick(Observation::ConnectAborted);
    assert_eq!(app.status(), "Connect to 5678 aborted.");
    assert!(!app.has_session());
    // Nothing to observe while idle.
    assert!(matches!(
        app.on_tick(Observation::Connected),
        AppAction::Nothing
    ));
    assert!(!app.has_session());
}

#[test]
fn quitting() {
    let mut app = interactive();
    type_text(&mut app, "q");
    assert!(!app.should_quit());
    app.on_key(Key::Char('c'), true);
    assert!(app.should_quit());

    let mut app = configured();
    app.start();
    app.on_key(Key::Char('x'), false);
    assert!(!app.should_quit());
    app.on_key(Key::Char('q'), false);
    assert!(app.should_quit());

    let mut app = interactive();
    app.on_key(Key::Esc, false);
    assert!(app.should_quit());

    let mut app = interactive();
    app.quit();
    assert!(app.should_quit());
}

#[test]
fn verbosity_saturates() {
    let mut app = configured();
    app.start();
    app.on_key(Key::Char('+'), false);
    assert_eq!(app.display_level(), Level::Debug);
    app.on_key(Key::Char('+'), false);
    assert_eq!(app.display_level(), Level::Debug);
    for expected in [Level::Info, Level::Warn, Level::Error, Level::Error] {
        app.on_key(Key::Char('-'), false);
        assert_eq!(app.display_level(), expected);
    }
    app.adjust_verbosity(i32::MAX);
    assert_eq!(app.display_level(), Level::Debug);
    app.adjust_verbosity(i32::MIN);
    assert_eq!(app.display_level(), Level::Error);
    // On the connect screen the keys are text.
    let mut app = interactive();
    app.on_key(Key::Char('+'), false);
    assert_eq!(app.display_level(), Level::Info);
}

#[test]
fn the_pane_starts_at_the_configured_level() {
    assert_eq!(
        initial_display_level(LevelFilter::UpTo(Level::Warn)),
        Level::Warn
    );
    assert_eq!(
        initial_display_level(LevelFilter::UpTo(Level::Trace)),
        Level::Debug
    );
    assert_eq!(initial_display_level(LevelFilter::Off), Level::Error);
}

// ---------------------------------------------------------------------------
// What is shown
// ---------------------------------------------------------------------------

#[test]
fn the_header_and_help_follow_the_state() {
    let mut app = configured();
    assert_eq!(
        app.header(SessionPhase::PreInit),
        ("idle — not connected".to_string(), Tone::Gray)
    );
    assert_eq!(app.help(), "Enter connect · Esc/Ctrl-C quit");
    app.start();
    assert_eq!(
        app.header(SessionPhase::PreInit),
        ("connecting to 5678…".to_string(), Tone::Yellow)
    );
    assert_eq!(app.help(), "connecting… · Esc/q/Ctrl-C quit");
    app.on_tick(Observation::Connected);
    assert_eq!(
        app.header(SessionPhase::Configured),
        ("connected to 5678 — configured".to_string(), Tone::Green)
    );
    assert_eq!(
        app.help(),
        "session live · +/- log level · Esc/q/Ctrl-C quit"
    );
    assert_eq!(
        interactive().help(),
        "type address · Enter connect · Esc/Ctrl-C quit"
    );
    assert_eq!(app.port(), 5555);
}

#[test]
fn labels() {
    assert_eq!(phase_label(SessionPhase::PreInit), "pre-init");
    assert_eq!(phase_label(SessionPhase::Initializing), "initializing");
    assert_eq!(phase_label(SessionPhase::Initialized), "initialized");
    assert_eq!(level_label(Level::Info), "INFO  ");
    assert_eq!(level_label(Level::Error), "ERROR ");
    assert_eq!(level_color(Level::Warn), Tone::Yellow);
    assert_eq!(upstream_status(true), ("connected", Tone::Green));
    assert_eq!(upstream_status(false), ("lost", Tone::Red));
    assert!(is_adapter_line(&line(Level::Info, "adapter", "")));
    assert!(!is_adapter_line(&line(Level::Info, "dap_mux::mux", "")));
}

#[test]
fn clients_are_shown_by_name() {
    let mut info = ClientInfo {
        id: "client-1".to_string(),
        name: None,
        initialized: false,
        pending_requests: 0,
    };
    assert_eq!(client_label(&info), " client-1       ");
    assert_eq!(client_status(&info), ("connecting", Tone::Yellow));
    info.name = Some("A rather long name".to_string());
    info.initialized = true;
    assert_eq!(client_label(&info), " A rather long name ");
    assert_eq!(client_status(&info), ("initialized", Tone::Green));
}

#[test]
fn the_pane_shows_the_latest_lines_that_are_not_too_verbose() {
    let lines = vec![
        line(Level::Info, "a", "1"),
        line(Level::Debug, "a", "2"),
        line(Level::Error, "a", "3"),
        line(Level::Warn, "a", "4"),
    ];
    let app = interactive();
    let shown = |height: u16| -> Vec<String> {
        app.visible_logs(&lines, height)
            .into_iter()
            .map(|l| l.text)
            .collect()
    };
    assert_eq!(shown(9), vec!["1", "3", "4"]);
    assert_eq!(shown(4), vec!["3", "4"]);
    assert_eq!(shown(2), Vec::<String>::new());
    assert_eq!(shown(0), Vec::<String>::new());
}

fn config(cli: Cli) -> ResolvedConfig {
    cli.resolve().unwrap()
}

#[test]
fn the_upstream_comes_from_the_config() {
    let label = |upstream: Upstream| match upstream {
        Upstream::Configured { label, .. } => label,
        Upstream::Interactive => "?".to_string(),
    };
    let local = Cli {
        ui: true,
        attach: Some("5678".to_string()),
        ..Cli::default()
    };
    assert_eq!(label(Upstream::from_config(&config(local))), "5678");
    let remote = Cli {
        ui: true,
        attach: Some("host:5678".to_string()),
        ..Cli::default()
    };
    assert_eq!(label(Upstream::from_config(&config(remote))), "host:5678");
    let spawned = Cli {
        ui: true,
        adapter: Some("lldb-dap -v".to_string()),
        adapter_log: Some(PathBuf::from("a.log")),
        ..Cli::default()
    };
    match Upstream::from_config(&config(spawned)) {
        Upstream::Configured {
            transport: UpstreamTransport::Stdio(stdio),
            label,
        } => {
            assert_eq!(label, "lldb-dap");
            assert_eq!(stdio.args, vec!["-v".to_string()]);
            assert_eq!(stdio.adapter_log, Some(PathBuf::from("a.log")));
        }
        other => panic!("unexpected {other:?}"),
    }
    let none = Cli {
        ui: true,
        ..Cli::default()
    };
    assert!(matches!(
        Upstream::from_config(&config(none)),
        Upstream::Interactive
    ));
}

#[test]
fn the_interface_is_set_up_from_the_config() {
    let cli = Cli {
        ui: true,
        mux_port: Some(7000),
        log_level: "trace".to_string(),
        ..Cli::default()
    };
    assert_eq!(
        ui_plan(&config(cli)),
        UiPlan {
            listen_port: 7000,
            display_level: Level::Debug,
            capture: LevelFilter::UpTo(Level::Debug),
            retained_lines: 1000,
        }
    );
}

// ---------------------------------------------------------------------------
// The screen
// ---------------------------------------------------------------------------

fn plain(text: &str) -> Span {
    Span {
        text: text.to_string(),
        tone: None,
        bold: false,
    }
}

fn toned(text: &str, tone: Tone) -> Span {
    Span {
        text: text.to_string(),
        tone: Some(tone),
        bold: false,
    }
}

fn bold(text: &str, tone: Option<Tone>) -> Span {
    Span {
        text: text.to_string(),
        tone,
        bold: true,
    }
}

#[test]
fn the_session_is_summed_up() {
    let mut snapshot = MuxSnapshot {
        phase: SessionPhase::Initialized,
        upstream_connected: true,
        clients: vec![],
    };
    assert_eq!(
        session_summary(&snapshot),
        vec![
            plain(" upstream: "),
            toned("connected", Tone::Green),
            plain("   phase: "),
            toned("initialized", Tone::Cyan),
            plain("   clients: 0"),
        ]
    );
    assert_eq!(
        client_lines(&snapshot),
        vec![vec![toned(" (no clients connected)", Tone::DarkGray)]]
    );
    snapshot.clients.push(ClientInfo {
        id: "client-1".to_string(),
        name: Some("Helix".to_string()),
        initialized: true,
        pending_requests: 12,
    });
    assert_eq!(
        client_lines(&snapshot.clone()),
        vec![vec![
            plain(" Helix          "),
            toned("initialized", Tone::Green),
            plain("   pending: 12"),
        ]]
    );
}

#[test]
fn the_frame_of_the_screen() {
    let app = interactive();
    assert_eq!(app.header_title(), " listening on 127.0.0.1:5555 ");
    assert_eq!(app.logs_title(), " logs [INFO]  +/- verbosity ");
    assert_eq!(
        app.header_line(SessionPhase::PreInit),
        vec![
            bold("dap-mux operator", None),
            plain("  "),
            toned("idle — not connected", Tone::Gray),
        ]
    );
    assert_eq!(
        app.connect_lines(),
        vec![
            vec![],
            vec![toned("  address: ", Tone::Cyan), plain("\u{2588}")],
            vec![],
            vec![toned(
                "  Enter an upstream address (PORT or HOST:PORT) and press Enter.",
                Tone::Yellow
            )],
        ]
    );
    assert_eq!(
        app.help_line(),
        vec![toned(
            " type address · Enter connect · Esc/Ctrl-C quit",
            Tone::DarkGray
        )]
    );
}

#[test]
fn adapter_lines_are_tagged() {
    let lines = vec![
        line(Level::Warn, "dap_mux::mux", "careful"),
        line(Level::Info, "adapter", "hello"),
    ];
    assert_eq!(
        interactive().log_lines(&lines, 9),
        vec![
            vec![toned("WARN  ", Tone::Yellow), plain("careful")],
            vec![
                toned("INFO  ", Tone::White),
                bold("adapter ", Some(Tone::Magenta)),
                toned("hello", Tone::Magenta),
            ],
        ]
    );
    assert_eq!(
        interactive().log_lines(&lines, 3),
        vec![vec![
            toned("INFO  ", Tone::White),
            bold("adapter ", Some(Tone::Magenta)),
            toned("hello", Tone::Magenta),
        ]]
    );
}

#[test]
fn only_the_oldest_line_is_dropped_and_only_when_full() {
    let mut buffer = LogBuffer::new(2);
    buffer.push(line(Level::Info, "test", "a"));
    assert_eq!(texts(&buffer), vec!["a"]);
    buffer.push(line(Level::Info, "test", "b"));
    assert_eq!(texts(&buffer), vec!["a", "b"]);
    buffer.push(line(Level::Info, "test", "c"));
    assert_eq!(texts(&buffer), vec!["b", "c"]);
    assert_eq!(buffer.len(), 2);
}
