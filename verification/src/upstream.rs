//! How the upstream debug adapter is reached.

use std::path::PathBuf;

use vstd::prelude::*;
use vstd::string::*;
use vstd::utf8::*;

use crate::text::{lemma_line_end, trim_line_end, without_line_end};

verus! {

/// `std::path::PathBuf`: a path, carried through unopened.
#[verifier::external_type_specification]
#[verifier::external_body]
pub struct ExPathBuf(std::path::PathBuf);

/// `PathBuf::clone`: the clone is the same path.
pub assume_specification[ <std::path::PathBuf as Clone>::clone ](path: &std::path::PathBuf) -> (res:
    std::path::PathBuf)
    ensures
        res == *path,
;

/// The same optional path.
pub(crate) fn clone_path(path: &Option<PathBuf>) -> (res: Option<PathBuf>)
    ensures
        res == *path,
{
    match path {
        Some(path) => Some(path.clone()),
        None => None,
    }
}

/// The texts in a sequence of strings.
pub open spec fn strings_view(strings: Seq<String>) -> Seq<Seq<char>> {
    strings.map_values(|string: String| string@)
}

/// The same strings.
pub(crate) fn clone_strings(strings: &Vec<String>) -> (res: Vec<String>)
    ensures
        strings_view(res@) == strings_view(strings@),
{
    let mut res: Vec<String> = Vec::new();
    let mut i: usize = 0;
    while i < strings.len()
        invariant
            i <= strings@.len(),
            res@.len() == i,
            forall|j: int| 0 <= j < i ==> (#[trigger] res@[j])@ == strings@[j]@,
        decreases strings@.len() - i,
    {
        res.push(strings[i].clone());
        i += 1;
    }
    assert(strings_view(res@) =~= strings_view(strings@));
    res
}

/// How many nanoseconds are in a second.
pub const NANOS_PER_SEC: u128 = 1_000_000_000;

/// How many nanoseconds are in a millisecond.
pub const NANOS_PER_MILLI: u128 = 1_000_000;

/// A span of time, in nanoseconds.
#[derive(Debug, Clone, Copy, PartialEq, Eq, Structural)]
pub struct Duration {
    pub nanos: u128,
}

impl Duration {
    /// A span of whole seconds.
    pub fn from_secs(secs: u64) -> (res: Duration)
        ensures
            res.nanos == secs * NANOS_PER_SEC,
    {
        Duration { nanos: secs as u128 * NANOS_PER_SEC }
    }

    /// A span of whole nanoseconds.
    pub fn from_nanos(nanos: u128) -> (res: Duration)
        ensures
            res.nanos == nanos,
    {
        Duration { nanos }
    }

    /// A span of whole milliseconds.
    pub fn from_millis(millis: u64) -> (res: Duration)
        ensures
            res.nanos == millis * NANOS_PER_MILLI,
    {
        Duration { nanos: millis as u128 * NANOS_PER_MILLI }
    }
}

/// How to reach the upstream debug adapter.
#[derive(Debug)]
pub enum UpstreamTransport {
    /// Connect to an already-running adapter over TCP.
    Tcp(TcpUpstream),
    /// Spawn the adapter as a child process and speak DAP over its stdin/stdout.
    Stdio(StdioUpstream),
}

/// What an [`UpstreamTransport`] says.
pub enum TransportView {
    Tcp { host: Seq<char>, port: u16, retry_timeout: Duration, retry_interval: Duration },
    Stdio { command: Seq<char>, args: Seq<Seq<char>>, adapter_log: Option<PathBuf> },
}

impl View for UpstreamTransport {
    type V = TransportView;

    open spec fn view(&self) -> TransportView {
        match *self {
            UpstreamTransport::Tcp(tcp) => tcp@,
            UpstreamTransport::Stdio(stdio) => stdio@,
        }
    }
}

/// Attaching to an adapter with the default retry settings.
pub open spec fn tcp_view(host: Seq<char>, port: u16) -> TransportView {
    TransportView::Tcp {
        host,
        port,
        retry_timeout: Duration { nanos: 10_000_000_000 },
        retry_interval: Duration { nanos: 100_000_000 },
    }
}

impl UpstreamTransport {
    /// Construct a TCP transport with default retry settings.
    pub fn tcp(host: String, port: u16) -> (res: Self)
        ensures
            res@ == tcp_view(host@, port),
            res is Tcp,
    {
        UpstreamTransport::Tcp(TcpUpstream::new(host, port))
    }

    /// Construct a stdio transport that spawns `command` with `args`. When
    /// `adapter_log` is set, the adapter's stderr is also written there verbatim.
    pub fn stdio(command: String, args: Vec<String>, adapter_log: Option<PathBuf>) -> (res: Self)
        ensures
            res@ == (TransportView::Stdio {
                command: command@,
                args: strings_view(args@),
                adapter_log,
            }),
            res is Stdio,
    {
        UpstreamTransport::Stdio(StdioUpstream::new(command, args, adapter_log))
    }
}

impl Clone for UpstreamTransport {
    fn clone(&self) -> (res: Self)
        ensures
            res@ == self@,
    {
        match self {
            UpstreamTransport::Tcp(tcp) => UpstreamTransport::Tcp(tcp.clone()),
            UpstreamTransport::Stdio(stdio) => UpstreamTransport::Stdio(stdio.clone()),
        }
    }
}

/// TCP transport to a listening DAP adapter.
#[derive(Debug)]
pub struct TcpUpstream {
    pub host: String,
    pub port: u16,
    pub retry_timeout: Duration,
    pub retry_interval: Duration,
}

impl View for TcpUpstream {
    type V = TransportView;

    open spec fn view(&self) -> TransportView {
        TransportView::Tcp {
            host: self.host@,
            port: self.port,
            retry_timeout: self.retry_timeout,
            retry_interval: self.retry_interval,
        }
    }
}

/// What to do after a failed attempt to connect.
#[derive(Debug, Clone, Copy, PartialEq, Eq, Structural)]
pub enum Retry {
    /// Wait this long, then try again.
    After(Duration),
    /// The time to keep trying is over.
    TimedOut,
    /// Waiting cannot help: report the failure.
    Fail,
}

impl TcpUpstream {
    /// Default policy: retry connection-refused for up to 10s, polling 100ms.
    pub fn new(host: String, port: u16) -> (res: Self)
        ensures
            res@ == tcp_view(host@, port),
    {
        TcpUpstream {
            host,
            port,
            retry_timeout: Duration::from_secs(10),
            retry_interval: Duration::from_millis(100),
        }
    }

    /// What to do after an attempt failed, `elapsed` after the first one began:
    /// retry on connection-refused until the timeout.
    ///
    /// Retrying (rather than probing first) avoids making adapters like
    /// debugpy observe a spurious connect/disconnect that can make them exit
    /// early.
    pub fn after_failure(&self, refused: bool, elapsed: Duration) -> (res: Retry)
        ensures
            res == (if !refused {
                Retry::Fail
            } else if elapsed.nanos >= self.retry_timeout.nanos {
                Retry::TimedOut
            } else {
                Retry::After(self.retry_interval)
            }),
    {
        if !refused {
            Retry::Fail
        } else if elapsed.nanos >= self.retry_timeout.nanos {
            Retry::TimedOut
        } else {
            Retry::After(self.retry_interval)
        }
    }
}

impl Clone for TcpUpstream {
    fn clone(&self) -> (res: Self)
        ensures
            res@ == self@,
    {
        TcpUpstream {
            host: self.host.clone(),
            port: self.port,
            retry_timeout: self.retry_timeout,
            retry_interval: self.retry_interval,
        }
    }
}

/// Stdio transport: spawn the adapter and speak DAP over its stdin/stdout.
///
/// This is the native channel for adapters that have no TCP listener — the mux
/// can only pipe into a process it launched, so spawning and stdio are bound
/// together (a spawned adapter is reached over its pipes, never a socket).
#[derive(Debug)]
pub struct StdioUpstream {
    pub command: String,
    pub args: Vec<String>,
    /// Destination for the adapter's raw, verbatim stderr, if any.
    pub adapter_log: Option<PathBuf>,
}

impl View for StdioUpstream {
    type V = TransportView;

    open spec fn view(&self) -> TransportView {
        TransportView::Stdio {
            command: self.command@,
            args: strings_view(self.args@),
            adapter_log: self.adapter_log,
        }
    }
}

impl StdioUpstream {
    pub fn new(command: String, args: Vec<String>, adapter_log: Option<PathBuf>) -> (res: Self)
        ensures
            res.command@ == command@,
            res.args@ == args@,
            res.adapter_log == adapter_log,
    {
        StdioUpstream { command, args, adapter_log }
    }
}

impl Clone for StdioUpstream {
    fn clone(&self) -> (res: Self)
        ensures
            res@ == self@,
    {
        StdioUpstream {
            command: self.command.clone(),
            args: clone_strings(&self.args),
            adapter_log: clone_path(&self.adapter_log),
        }
    }
}

// ---------------------------------------------------------------------------
// The adapter's stderr
// ---------------------------------------------------------------------------

/// The text that `String::from_utf8_lossy` reads from bytes.
pub uninterp spec fn lossy_text(data: Seq<u8>) -> Seq<char>;

/// Calls `String::from_utf8_lossy`. Its result is named by [`lossy_text`]: a
/// function of the bytes alone. Bytes that are UTF-8 give the text that they
/// encode; what stands for bytes that are not is left unsaid.
#[verifier::external_body]
fn from_utf8_lossy(data: &[u8]) -> (res: String)
    ensures
        res@ == lossy_text(data@),
        valid_utf8(data@) ==> res@ == decode_utf8(data@),
{
    String::from_utf8_lossy(data).into_owned()
}

/// What is logged of a line of the adapter's stderr: the line without its line
/// end, or nothing where nothing else is on it.
pub open spec fn logged_text(text: Seq<char>) -> Option<Seq<char>> {
    let line = without_line_end(text);
    if line.len() > 0 {
        Some(line)
    } else {
        None
    }
}

/// What to log of a line of the adapter's stderr.
pub fn stderr_text(text: &str) -> (res: Option<String>)
    ensures
        res is Some <==> logged_text(text@) is Some,
        res matches Some(line) ==> logged_text(text@) == Some(line@),
{
    let line = trim_line_end(text);
    if line.is_empty() {
        None
    } else {
        Some(line.to_owned())
    }
}

/// What to log of a line of the adapter's stderr, given its raw bytes.
pub fn stderr_line(data: &[u8]) -> (res: Option<String>)
    ensures
        res is Some <==> logged_text(lossy_text(data@)) is Some,
        res matches Some(line) ==> logged_text(lossy_text(data@)) == Some(line@),
        valid_utf8(data@) ==> lossy_text(data@) == decode_utf8(data@),
{
    let text = from_utf8_lossy(data);
    stderr_text(text.as_str())
}

// ---------------------------------------------------------------------------
// Laws
// ---------------------------------------------------------------------------

/// A line of the adapter's stderr is logged without the carriage returns and
/// line feeds at its end, and exactly as it is otherwise; where it is nothing
/// else, nothing is logged.
pub proof fn lemma_stderr_is_logged(text: Seq<char>)
    ensures
        logged_text(text) is None <==> forall|i: int|
            0 <= i < text.len() ==> #[trigger] text[i] == '\r' || text[i] == '\n',
        logged_text(text) matches Some(line) ==> {
            &&& 0 < line.len() <= text.len()
            &&& line == text.take(line.len() as int)
            &&& line.last() != '\r' && line.last() != '\n'
            &&& forall|i: int|
                line.len() <= i < text.len() ==> #[trigger] text[i] == '\r' || text[i] == '\n'
        },
{
    let line = without_line_end(text);
    lemma_line_end(text);
    if line.len() > 0 {
        let last = line.len() - 1;
        assert(text[last] == line.last());
    }
}

/// Attaching tries for ten seconds, ten times a second, at the address that it
/// is given.
pub proof fn lemma_attach_is_patient(host: Seq<char>, port: u16)
    ensures
        tcp_view(host, port) matches TransportView::Tcp {
            host: at,
            port: on,
            retry_timeout,
            retry_interval,
        } && at == host && on == port && retry_timeout.nanos == 10 * NANOS_PER_SEC
            && retry_interval.nanos * 10 == NANOS_PER_SEC && NANOS_PER_SEC == 1_000_000_000
            && NANOS_PER_MILLI * 1000 == NANOS_PER_SEC,
{
}

/// The texts of strings are theirs, in order.
pub proof fn lemma_strings_view(strings: Seq<String>)
    ensures
        strings_view(strings).len() == strings.len(),
        forall|i: int| 0 <= i < strings.len() ==> #[trigger] strings_view(strings)[i] == strings[i]@,
{
}

/// After a refused attempt there is another one, after the interval, as long as
/// the time to keep trying is not over, and none from then on; after any other
/// failure there is none.
pub proof fn lemma_retrying(
    upstream: &TcpUpstream,
    refused: bool,
    elapsed: Duration,
    next: Retry,
)
    requires
        call_ensures(TcpUpstream::after_failure, (upstream, refused, elapsed), next),
    ensures
        next == Retry::After(upstream.retry_interval) <==> refused && elapsed.nanos
            < upstream.retry_timeout.nanos,
        next == Retry::TimedOut <==> refused && upstream.retry_timeout.nanos <= elapsed.nanos,
        next == Retry::Fail <==> !refused,
{
}

} // verus!
