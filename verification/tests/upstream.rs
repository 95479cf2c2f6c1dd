//! Reaching the adapter.

use std::path::PathBuf;

use dap_mux::upstream::{stderr_line, stderr_text, Duration, Retry, StdioUpstream};
use dap_mux::{TcpUpstream, UpstreamTransport};

#[test]
fn tcp_retries_for_ten_seconds_by_default() {
    let tcp = TcpUpstream::new("127.0.0.1".to_string(), 5678);
    assert_eq!(tcp.retry_timeout, Duration::from_secs(10));
    assert_eq!(tcp.retry_interval, Duration::from_millis(100));
    assert_eq!(
        tcp.after_failure(true, Duration::from_millis(9_999)),
        Retry::After(Duration::from_millis(100))
    );
    assert_eq!(
        tcp.after_failure(true, Duration::from_secs(10)),
        Retry::TimedOut
    );
    assert_eq!(
        tcp.after_failure(false, Duration::from_millis(0)),
        Retry::Fail
    );
}

#[test]
fn attach_times_out_when_adapter_never_appears() {
    let tcp = TcpUpstream {
        host: "127.0.0.1".to_string(),
        port: 1,
        retry_timeout: Duration::from_millis(250),
        retry_interval: Duration::from_millis(25),
    };
    let copy = tcp.clone();
    assert_eq!(
        copy.after_failure(true, Duration::from_millis(249)),
        Retry::After(Duration::from_millis(25))
    );
    assert_eq!(
        copy.after_failure(true, Duration::from_millis(250)),
        Retry::TimedOut
    );
}

#[test]
fn transports_carry_what_they_are_given() {
    match UpstreamTransport::tcp("host".to_string(), 9).clone() {
        UpstreamTransport::Tcp(tcp) => {
            assert_eq!(tcp.host, "host");
            assert_eq!(tcp.port, 9);
        }
        other => panic!("unexpected {other:?}"),
    }
    let stdio = StdioUpstream::new(
        "cmd".to_string(),
        vec!["a".to_string()],
        Some(PathBuf::from("log")),
    );
    assert_eq!(stdio.clone().args, vec!["a".to_string()]);
    match UpstreamTransport::stdio("cmd".to_string(), vec![], None) {
        UpstreamTransport::Stdio(stdio) => {
            assert_eq!(stdio.command, "cmd");
            assert_eq!(stdio.adapter_log, None);
        }
        other => panic!("unexpected {other:?}"),
    }
}

#[test]
fn stderr_lines_lose_their_line_end() {
    assert_eq!(stderr_line(b"hello\r\n"), Some("hello".to_string()));
    assert_eq!(stderr_line(b"  x "), Some("  x ".to_string()));
    assert_eq!(stderr_line(b"\r\n"), None);
    assert_eq!(stderr_line(b""), None);
    assert_eq!(
        stderr_line(b"bad \xff byte\n"),
        Some("bad \u{fffd} byte".to_string())
    );
    assert_eq!(stderr_text("a\nb\n\r\n"), Some("a\nb".to_string()));
}

#[test]
fn spans_are_held_to_the_nanosecond() {
    assert_eq!(Duration::from_secs(u64::MAX).nanos, u64::MAX as u128 * 1_000_000_000);
    assert_eq!(Duration::from_millis(3).nanos, 3_000_000);
    let mut tcp = TcpUpstream::new("127.0.0.1".to_string(), 5678);
    tcp.retry_timeout = Duration::from_nanos(1_500);
    tcp.retry_interval = Duration::from_nanos(700);
    assert_eq!(
        tcp.after_failure(true, Duration::from_nanos(1_499)),
        Retry::After(Duration::from_nanos(700))
    );
    assert_eq!(
        tcp.after_failure(true, Duration::from_nanos(1_500)),
        Retry::TimedOut
    );
}

#[test]
fn stderr_text_is_decoded() {
    assert_eq!(
        stderr_line("größe 世\n".as_bytes()),
        Some("größe 世".to_string())
    );
}
