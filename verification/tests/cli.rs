//! Command-line invocations.

use std::path::PathBuf;

use dap_mux::cli::{
    build_transport, level_named, logging_plan, parse_attach, parse_log_level, serving_plan,
    session_result, sink_takes, startup_banner, Cli, ConfigError, Downstream, LoggingPlan,
    ServingPlan, SessionEnd, UpstreamChoice,
};
use dap_mux::level::{Level, LevelFilter};
use dap_mux::upstream::UpstreamTransport;

fn attached(address: &str) -> Cli {
    Cli {
        attach: Some(address.to_string()),
        ..Cli::default()
    }
}

fn spawning(command: &str) -> Cli {
    Cli {
        adapter: Some(command.to_string()),
        ..Cli::default()
    }
}

#[test]
fn parse_attach_port_only() {
    assert_eq!(
        parse_attach("5678").unwrap(),
        ("127.0.0.1".to_string(), 5678)
    );
}

#[test]
fn parse_attach_host_and_port() {
    assert_eq!(
        parse_attach("192.168.1.1:5678").unwrap(),
        ("192.168.1.1".to_string(), 5678)
    );
}

#[test]
fn parse_attach_localhost() {
    assert_eq!(
        parse_attach("localhost:9999").unwrap(),
        ("localhost".to_string(), 9999)
    );
}

#[test]
fn parse_attach_bad_port() {
    assert!(parse_attach("notaport").is_err());
}

#[test]
fn parse_attach_edges() {
    assert_eq!(parse_attach(":1").unwrap(), (String::new(), 1));
    assert_eq!(parse_attach("a:b:65535").unwrap(), ("a:b".to_string(), 65535));
    for bad in ["", ":", "host:", "host:65536", "host: 1", "1:"] {
        match parse_attach(bad).unwrap_err() {
            ConfigError::InvalidPort(value) => assert_eq!(value, bad),
            other => panic!("unexpected {other:?}"),
        }
    }
    assert_eq!(
        parse_attach("x:y").unwrap_err().message(),
        "invalid port in attach address: \"x:y\""
    );
}

#[test]
fn log_level_valid_and_case_insensitive() {
    assert_eq!(
        parse_log_level("debug").unwrap(),
        LevelFilter::UpTo(Level::Debug)
    );
    assert_eq!(
        parse_log_level("WARNING").unwrap(),
        LevelFilter::UpTo(Level::Warn)
    );
    assert_eq!(
        parse_log_level("CRITICAL").unwrap(),
        LevelFilter::UpTo(Level::Error)
    );
}

#[test]
fn log_level_invalid_mentions_value() {
    let err = parse_log_level("VERBOS").unwrap_err();
    assert!(err.message().contains("VERBOS"));
}

#[test]
fn every_level_name_is_known() {
    assert_eq!(level_named("TRACE"), Some(LevelFilter::UpTo(Level::Trace)));
    assert_eq!(level_named("DEBUG"), Some(LevelFilter::UpTo(Level::Debug)));
    assert_eq!(level_named("INFO"), Some(LevelFilter::UpTo(Level::Info)));
    assert_eq!(level_named("SUCCESS"), Some(LevelFilter::UpTo(Level::Info)));
    assert_eq!(level_named("WARN"), Some(LevelFilter::UpTo(Level::Warn)));
    assert_eq!(level_named("ERROR"), Some(LevelFilter::UpTo(Level::Error)));
    assert_eq!(level_named("info"), None);
}

#[test]
fn no_upstream_is_a_usage_error() {
    // The default TCP host still needs an upstream named on the line.
    let err = Cli::default().resolve().unwrap_err();
    assert!(matches!(err, ConfigError::MissingUpstream));
}

#[test]
fn default_is_a_tcp_host() {
    // No `--stdio`: a standalone TCP host on an OS-assigned port.
    let config = attached("5678").resolve().unwrap();
    assert_eq!(
        config.downstream,
        Downstream {
            stdio: false,
            tcp: Some(0)
        }
    );
    assert!(!config.ui);
    assert_eq!(
        config.upstream,
        UpstreamChoice::Attach("127.0.0.1".to_string(), 5678)
    );
}

#[test]
fn stdio_flag_serves_the_launcher() {
    // `--stdio` alone is the plain stdio adapter: no TCP listener.
    let cli = Cli {
        stdio: true,
        ..spawning("lldb-dap")
    };
    let config = cli.resolve().unwrap();
    assert_eq!(
        config.downstream,
        Downstream {
            stdio: true,
            tcp: None
        }
    );
}

#[test]
fn stdio_with_mux_port_serves_both_channels() {
    let cli = Cli {
        stdio: true,
        mux_port: Some(7000),
        ..spawning("lldb-dap")
    };
    let config = cli.resolve().unwrap();
    assert_eq!(
        config.downstream,
        Downstream {
            stdio: true,
            tcp: Some(7000)
        }
    );
}

#[test]
fn mux_port_sets_the_host_listener() {
    let cli = Cli {
        mux_port: Some(7000),
        ..attached("5678")
    };
    let config = cli.resolve().unwrap();
    assert_eq!(
        config.downstream,
        Downstream {
            stdio: false,
            tcp: Some(7000)
        }
    );
}

#[test]
fn adapter_command_is_split_shell_style() {
    // One `--adapter` string carries the command and its own flags.
    let config = spawning("lldb-dap --option-a --option-b").resolve().unwrap();
    assert_eq!(
        config.upstream,
        UpstreamChoice::Spawn {
            command: "lldb-dap".to_string(),
            args: vec!["--option-a".to_string(), "--option-b".to_string()],
        }
    );
}

#[test]
fn adapter_command_respects_quoting() {
    // A quoted argument with spaces survives the split as one word.
    let config = spawning("py -m debugpy --log 'a b'").resolve().unwrap();
    assert_eq!(
        config.upstream,
        UpstreamChoice::Spawn {
            command: "py".to_string(),
            args: vec![
                "-m".to_string(),
                "debugpy".to_string(),
                "--log".to_string(),
                "a b".to_string(),
            ],
        }
    );
}

#[test]
fn unparseable_adapter_command_is_rejected() {
    // An unbalanced quote has no shell-word reading.
    let err = spawning("lldb-dap 'unterminated").resolve().unwrap_err();
    assert!(matches!(err, ConfigError::BadAdapterCommand(_)));
    assert_eq!(
        err.message(),
        "--adapter value \"lldb-dap 'unterminated\" is not a valid command line"
    );
}

#[test]
fn an_empty_adapter_command_is_rejected() {
    let err = spawning("   ").resolve().unwrap_err();
    assert!(matches!(err, ConfigError::BadAdapterCommand(_)));
}

#[test]
fn trailing_command_is_the_shell_side_spawn_signal() {
    // `-- cmd args` is the shell-tokenized alternative to --adapter.
    let cli = Cli {
        adapter_argv: vec![
            "lldb-dap".to_string(),
            "--option-a".to_string(),
            "--option-b".to_string(),
        ],
        ..Cli::default()
    };
    let config = cli.resolve().unwrap();
    assert_eq!(
        config.upstream,
        UpstreamChoice::Spawn {
            command: "lldb-dap".to_string(),
            args: vec!["--option-a".to_string(), "--option-b".to_string()],
        }
    );
}

#[test]
fn adapter_flag_and_trailing_form_conflict() {
    // The two spawn spellings name the same upstream; only one is allowed.
    let cli = Cli {
        adapter_argv: vec!["lldb-dap".to_string()],
        ..spawning("lldb-dap")
    };
    let err = cli.resolve().unwrap_err();
    assert!(matches!(err, ConfigError::UpstreamConflict));
}

#[test]
fn attach_and_spawn_conflict() {
    let cli = Cli {
        attach: Some("5678".to_string()),
        ..spawning("lldb-dap")
    };
    let err = cli.resolve().unwrap_err();
    assert!(matches!(err, ConfigError::UpstreamConflict));
}

#[test]
fn adapter_log_recorded() {
    let cli = Cli {
        adapter_log: Some(PathBuf::from("/tmp/a.log")),
        ..spawning("lldb-dap")
    };
    let config = cli.resolve().unwrap();
    assert_eq!(config.adapter_log, Some(PathBuf::from("/tmp/a.log")));
}

#[test]
fn ui_is_a_tcp_host_without_a_stdio_client() {
    let cli = Cli {
        ui: true,
        ..attached("5678")
    };
    let config = cli.resolve().unwrap();
    assert!(config.ui);
    assert_eq!(
        config.downstream,
        Downstream {
            stdio: false,
            tcp: Some(0)
        }
    );
    assert_eq!(
        config.upstream,
        UpstreamChoice::Attach("127.0.0.1".to_string(), 5678)
    );
}

#[test]
fn ui_without_an_upstream_is_interactive() {
    let cli = Cli {
        ui: true,
        ..Cli::default()
    };
    let config = cli.resolve().expect("--ui without an upstream is allowed");
    assert!(config.ui);
    assert_eq!(config.upstream, UpstreamChoice::Interactive);
}

#[test]
fn spawn_under_ui_is_allowed() {
    // Spawn a stdio-only adapter upstream while serving clients over TCP and
    // watching in the TUI — the axes are independent.
    let cli = Cli {
        ui: true,
        ..spawning("lldb-dap")
    };
    let config = cli.resolve().unwrap();
    assert!(config.ui);
    assert!(!config.downstream.stdio);
    assert_eq!(
        config.upstream,
        UpstreamChoice::Spawn {
            command: "lldb-dap".to_string(),
            args: vec![],
        }
    );
}

#[test]
fn stdio_and_ui_conflict() {
    // The TUI and a stdio DAP client both claim stdout.
    let cli = Cli {
        stdio: true,
        ui: true,
        ..attached("5678")
    };
    let err = cli.resolve().unwrap_err();
    assert!(matches!(err, ConfigError::StdioWithUi));
}

#[test]
fn a_bad_attach_address_and_a_bad_level_are_reported() {
    let err = attached("nowhere").resolve().unwrap_err();
    assert!(matches!(err, ConfigError::InvalidPort(_)));
    let cli = Cli {
        log_level: "loud".to_string(),
        ..attached("5678")
    };
    let err = cli.resolve().unwrap_err();
    assert!(matches!(err, ConfigError::InvalidLogLevel(_)));
    assert_eq!(
        err.message(),
        "\"loud\" is not a valid log level. Choose from: \
         TRACE, DEBUG, INFO, SUCCESS, WARNING, ERROR, CRITICAL"
    );
}

#[test]
fn usage_errors_explain_themselves() {
    assert_eq!(
        ConfigError::MissingUpstream.message(),
        "an upstream is required: one of --attach <[host:]port>, --adapter <command>, \
         or a trailing `-- <command>`. See --help."
    );
    assert_eq!(
        ConfigError::UpstreamConflict.message(),
        "more than one upstream was given: use exactly one of --attach <[host:]port>, \
         --adapter <command>, or a trailing `-- <command>`. See --help."
    );
    assert_eq!(
        ConfigError::StdioWithUi.message(),
        "--stdio cannot combine with --ui: the operator TUI renders to the terminal, \
         which the stdio DAP channel would corrupt. See --help."
    );
}

#[test]
fn given_words_and_level_decide() {
    let cli = spawning("ignored");
    let words = vec!["lldb-dap".to_string(), "-v".to_string()];
    let config = cli
        .resolve_from(Some(words), Some(LevelFilter::UpTo(Level::Trace)))
        .unwrap();
    assert_eq!(config.level, LevelFilter::UpTo(Level::Trace));
    assert_eq!(
        config.clone().upstream,
        UpstreamChoice::Spawn {
            command: "lldb-dap".to_string(),
            args: vec!["-v".to_string()],
        }
    );
    let err = cli.resolve_from(None, None).unwrap_err();
    assert!(matches!(err, ConfigError::BadAdapterCommand(_)));
}

#[test]
fn the_transport_follows_the_choice() {
    let config = attached("example:5678").resolve().unwrap();
    match build_transport(&config) {
        UpstreamTransport::Tcp(tcp) => {
            assert_eq!(tcp.host, "example");
            assert_eq!(tcp.port, 5678);
        }
        other => panic!("unexpected {other:?}"),
    }
    let cli = Cli {
        adapter_log: Some(PathBuf::from("a.log")),
        ..spawning("lldb-dap --port 0")
    };
    match build_transport(&cli.resolve().unwrap()) {
        UpstreamTransport::Stdio(stdio) => {
            assert_eq!(stdio.command, "lldb-dap");
            assert_eq!(stdio.args, vec!["--port".to_string(), "0".to_string()]);
            assert_eq!(stdio.adapter_log, Some(PathBuf::from("a.log")));
        }
        other => panic!("unexpected {other:?}"),
    }
}

#[test]
fn sinks_follow_the_mode() {
    let cli = Cli {
        echo_adapter_stderr: true,
        ..spawning("lldb-dap")
    };
    assert_eq!(
        logging_plan(&cli.resolve().unwrap()),
        LoggingPlan {
            stderr: true,
            pane: false,
            adapter_in_file: true,
            adapter_in_stderr: true,
        }
    );
    let cli = Cli {
        stdio: true,
        adapter_log: Some(PathBuf::from("a.log")),
        ..cli
    };
    assert_eq!(
        logging_plan(&cli.resolve().unwrap()),
        LoggingPlan {
            stderr: true,
            pane: false,
            adapter_in_file: false,
            adapter_in_stderr: false,
        }
    );
    let cli = Cli {
        stdio: false,
        ui: true,
        ..cli
    };
    assert_eq!(
        logging_plan(&cli.resolve().unwrap()),
        LoggingPlan {
            stderr: false,
            pane: true,
            adapter_in_file: false,
            adapter_in_stderr: false,
        }
    );
}

#[test]
fn a_sink_filters_by_level_and_target() {
    let info = LevelFilter::UpTo(Level::Info);
    assert!(sink_takes("dap_mux", Level::Info, info, false));
    assert!(sink_takes("dap_mux", Level::Error, info, false));
    assert!(!sink_takes("dap_mux", Level::Debug, info, true));
    assert!(!sink_takes("adapter", Level::Error, info, false));
    assert!(sink_takes("adapter", Level::Error, info, true));
    assert!(!sink_takes("dap_mux", Level::Error, LevelFilter::Off, true));
}

#[test]
fn serving_follows_the_channels() {
    let host = attached("5678").resolve().unwrap();
    assert_eq!(
        serving_plan(&host),
        ServingPlan {
            listen: Some(0),
            banner: true,
            stdio_client: false,
            interruptible: true,
        }
    );
    let both = Cli {
        stdio: true,
        mux_port: Some(7000),
        ..attached("5678")
    };
    assert_eq!(
        serving_plan(&both.resolve().unwrap()),
        ServingPlan {
            listen: Some(7000),
            banner: false,
            stdio_client: true,
            interruptible: false,
        }
    );
    assert_eq!(
        startup_banner(5555),
        "● dap-mux listening on 127.0.0.1:5555 — Ctrl-C to stop"
    );
}

#[test]
fn only_a_lost_upstream_is_a_failure() {
    assert_eq!(
        session_result(SessionEnd::UpstreamLost),
        Err("debug adapter connection lost; shutting down".to_string())
    );
    assert_eq!(session_result(SessionEnd::StdinClosed), Ok(()));
    assert_eq!(session_result(SessionEnd::Interrupted), Ok(()));
}
