//! Command-line interface for `dap-mux`: what an invocation means.

use std::path::PathBuf;

use vstd::prelude::*;
use vstd::string::*;
use vstd::utf8::*;

use crate::level::{Level, LevelFilter};
use crate::text::{
    ascii_uppercased, chars_of, decimal, decimal_string, is_digit, lemma_decimal_reads_back,
    lemma_unsigned_reading_of_decimal, parse_unsigned, quote, quoted, to_uppercase,
    unsigned_reading, uppercased,
};
use crate::upstream::{
    clone_path, clone_strings, strings_view, tcp_view, Duration, TransportView, UpstreamTransport,
};

verus! {

/// DAP multiplexer — one debug adapter, many clients.
///
/// There are two ways the mux talks to the adapter.
/// 1. stdio. In this case, the mux needs to spawn the adapter.
/// 2. TCP. This uses --attach and connects to a running process.
///
/// There are then two ways for the IDE to drive the mux.
/// 1. stdio. The IDE spawns the mux.
/// 2. TCP. The IDE connects to a running mux session.
///
/// You have the option of running TCP mode "headless" or with a TUI.
#[derive(Debug)]
pub struct Cli {
    /// Attach to an already-running debug adapter ([host:]port).
    ///
    /// Mutually exclusive with `--adapter`. Exactly one upstream is supported.
    pub attach: Option<String>,
    /// Serve one client over the mux's own stdin/stdout (the channel an editor
    /// that spawned the mux drives), in addition to any TCP listener.
    pub stdio: bool,
    /// Run the operator TUI — the display option of the TCP host.
    pub ui: bool,
    /// Port for the TCP client listener (0 = OS-assigned).
    pub mux_port: Option<u16>,
    /// Log level (TRACE, DEBUG, INFO, WARNING, ERROR).
    pub log_level: String,
    /// Also write the mux's logs to this file.
    pub log_file: Option<PathBuf>,
    /// Write the spawned adapter's stderr to this file, raw and verbatim.
    pub adapter_log: Option<PathBuf>,
    /// For a TCP host (no `--stdio`), also echo the spawned adapter's stderr to
    /// the terminal.
    pub echo_adapter_stderr: bool,
    /// The debug adapter to spawn, as a single command line.
    pub adapter: Option<String>,
    /// The debug adapter to spawn, given after `--` as a normal argv.
    pub adapter_argv: Vec<String>,
}

impl Default for Cli {
    /// An invocation without arguments.
    fn default() -> (res: Cli)
        ensures
            res.attach is None,
            !res.stdio,
            !res.ui,
            res.mux_port is None,
            res.log_level@ == "INFO"@,
            res.log_file is None,
            res.adapter_log is None,
            !res.echo_adapter_stderr,
            res.adapter is None,
            res.adapter_argv@.len() == 0,
    {
        Cli {
            attach: None,
            stdio: false,
            ui: false,
            mux_port: None,
            log_level: "INFO".to_owned(),
            log_file: None,
            adapter_log: None,
            echo_adapter_stderr: false,
            adapter: None,
            adapter_argv: Vec::new(),
        }
    }
}

/// A usage error in the command-line invocation.
///
/// These are reported to the user and are distinct from runtime failures.
#[derive(Debug)]
pub enum ConfigError {
    /// No upstream was named.
    MissingUpstream,
    /// More than one upstream was named.
    UpstreamConflict,
    /// The `--adapter` value has no shell-word reading.
    BadAdapterCommand(String),
    /// Both the stdio client and the TUI were asked for.
    StdioWithUi,
    /// The attach address has no valid port.
    InvalidPort(String),
    /// The log level is not one of the accepted set.
    InvalidLogLevel(String),
}

/// What a [`ConfigError`] says.
pub enum ConfigFault {
    MissingUpstream,
    UpstreamConflict,
    BadAdapterCommand(Seq<char>),
    StdioWithUi,
    InvalidPort(Seq<char>),
    InvalidLogLevel(Seq<char>),
}

impl View for ConfigError {
    type V = ConfigFault;

    open spec fn view(&self) -> ConfigFault {
        match *self {
            ConfigError::MissingUpstream => ConfigFault::MissingUpstream,
            ConfigError::UpstreamConflict => ConfigFault::UpstreamConflict,
            ConfigError::BadAdapterCommand(line) => ConfigFault::BadAdapterCommand(line@),
            ConfigError::StdioWithUi => ConfigFault::StdioWithUi,
            ConfigError::InvalidPort(value) => ConfigFault::InvalidPort(value@),
            ConfigError::InvalidLogLevel(level) => ConfigFault::InvalidLogLevel(level@),
        }
    }
}

impl ConfigFault {
    /// What the user is told, given the offending value in quotes.
    pub open spec fn text(self, value: Seq<char>) -> Seq<char> {
        match self {
            ConfigFault::MissingUpstream =>
                "an upstream is required: one of --attach <[host:]port>, --adapter <command>, or a trailing `-- <command>`. See --help."@,
            ConfigFault::UpstreamConflict =>
                "more than one upstream was given: use exactly one of --attach <[host:]port>, --adapter <command>, or a trailing `-- <command>`. See --help."@,
            ConfigFault::BadAdapterCommand(_) => "--adapter value "@ + value
                + " is not a valid command line"@,
            ConfigFault::StdioWithUi =>
                "--stdio cannot combine with --ui: the operator TUI renders to the terminal, which the stdio DAP channel would corrupt. See --help."@,
            ConfigFault::InvalidPort(_) => "invalid port in attach address: "@ + value,
            ConfigFault::InvalidLogLevel(_) => value
                + " is not a valid log level. Choose from: TRACE, DEBUG, INFO, SUCCESS, WARNING, ERROR, CRITICAL"@,
        }
    }

    /// The value that is at fault; nothing where none is.
    pub open spec fn value(self) -> Seq<char> {
        match self {
            ConfigFault::BadAdapterCommand(line) => line,
            ConfigFault::InvalidPort(value) => value,
            ConfigFault::InvalidLogLevel(level) => level,
            _ => ""@,
        }
    }
}

impl ConfigError {
    /// What the user is told, given the offending value in quotes.
    pub fn message_quoting(&self, value: &str) -> (res: String)
        ensures
            res@ == self@.text(value@),
    {
        match self {
            ConfigError::MissingUpstream =>
                "an upstream is required: one of --attach <[host:]port>, --adapter <command>, or a trailing `-- <command>`. See --help.".to_owned(),
            ConfigError::UpstreamConflict =>
                "more than one upstream was given: use exactly one of --attach <[host:]port>, --adapter <command>, or a trailing `-- <command>`. See --help.".to_owned(),
            ConfigError::BadAdapterCommand(_) => {
                let mut res = "--adapter value ".to_owned();
                res.append(value);
                res.append(" is not a valid command line");
                res
            },
            ConfigError::StdioWithUi =>
                "--stdio cannot combine with --ui: the operator TUI renders to the terminal, which the stdio DAP channel would corrupt. See --help.".to_owned(),
            ConfigError::InvalidPort(_) => {
                let mut res = "invalid port in attach address: ".to_owned();
                res.append(value);
                res
            },
            ConfigError::InvalidLogLevel(_) => {
                let mut res = value.to_owned();
                res.append(
                    " is not a valid log level. Choose from: TRACE, DEBUG, INFO, SUCCESS, WARNING, ERROR, CRITICAL",
                );
                res
            },
        }
    }

    /// What the user is told.
    pub fn message(&self) -> (res: String)
        ensures
            res@ == self@.text(quoted(self@.value())),
    {
        let value = match self {
            ConfigError::BadAdapterCommand(line) => quote(line.as_str()),
            ConfigError::InvalidPort(value) => quote(value.as_str()),
            ConfigError::InvalidLogLevel(level) => quote(level.as_str()),
            _ => quote(""),
        };
        self.message_quoting(value.as_str())
    }
}

/// How to reach the upstream debug adapter, resolved from the CLI.
#[derive(Debug, PartialEq, Eq)]
pub enum UpstreamChoice {
    /// Attach to an already-running adapter over TCP.
    Attach(String, u16),
    /// Spawn the adapter and speak DAP over its stdin/stdout.
    Spawn { command: String, args: Vec<String> },
    /// No upstream named on the command line: entered interactively in the TUI.
    /// Only reachable under `--ui`; every other mode requires a named one.
    Interactive,
}

/// What an [`UpstreamChoice`] says.
#[verifier::ext_equal]
pub enum ChoiceView {
    Attach(Seq<char>, u16),
    Spawn { command: Seq<char>, args: Seq<Seq<char>> },
    Interactive,
}

impl View for UpstreamChoice {
    type V = ChoiceView;

    open spec fn view(&self) -> ChoiceView {
        match *self {
            UpstreamChoice::Attach(host, port) => ChoiceView::Attach(host@, port),
            UpstreamChoice::Spawn { command, args } => ChoiceView::Spawn {
                command: command@,
                args: strings_view(args@),
            },
            UpstreamChoice::Interactive => ChoiceView::Interactive,
        }
    }
}

impl Clone for UpstreamChoice {
    fn clone(&self) -> (res: Self)
        ensures
            res@ == self@,
    {
        match self {
            UpstreamChoice::Attach(host, port) => UpstreamChoice::Attach(host.clone(), *port),
            UpstreamChoice::Spawn { command, args } => UpstreamChoice::Spawn {
                command: command.clone(),
                args: clone_strings(args),
            },
            UpstreamChoice::Interactive => UpstreamChoice::Interactive,
        }
    }
}

/// How the mux serves downstream clients, resolved from the CLI. The two
/// channels are independent and at least one is always enabled — a stdio client
/// over the mux's own pipes, a TCP listener, or both.
#[derive(Debug, Clone, Copy, PartialEq, Eq, Structural)]
pub struct Downstream {
    /// Serve one client over the mux's own stdin/stdout (`--stdio`).
    pub stdio: bool,
    /// Listen for clients over TCP on this port (0 = OS-assigned), or `None`
    /// for no listener. Always `Some` unless [`stdio`](Self::stdio) is the only
    /// channel.
    pub tcp: Option<u16>,
}

/// A validated invocation, ready to run.
#[derive(Debug)]
pub struct ResolvedConfig {
    /// How to reach the upstream adapter.
    pub upstream: UpstreamChoice,
    /// Which downstream client channels to serve.
    pub downstream: Downstream,
    /// Whether to run the operator TUI. Only set for a TCP host without a stdio
    /// client (the TUI owns the terminal).
    pub ui: bool,
    pub level: LevelFilter,
    pub log_file: Option<PathBuf>,
    /// Raw, verbatim destination for the spawned adapter's stderr.
    pub adapter_log: Option<PathBuf>,
    /// Whether to echo the adapter's stderr to the terminal (TCP host only).
    pub echo_adapter_stderr: bool,
}

impl Clone for ResolvedConfig {
    fn clone(&self) -> (res: Self)
        ensures
            res.upstream@ == self.upstream@,
            res.downstream == self.downstream,
            res.ui == self.ui,
            res.level == self.level,
            res.log_file == self.log_file,
            res.adapter_log == self.adapter_log,
            res.echo_adapter_stderr == self.echo_adapter_stderr,
    {
        ResolvedConfig {
            upstream: self.upstream.clone(),
            downstream: self.downstream,
            ui: self.ui,
            level: self.level,
            log_file: clone_path(&self.log_file),
            adapter_log: clone_path(&self.adapter_log),
            echo_adapter_stderr: self.echo_adapter_stderr,
        }
    }
}

// ---------------------------------------------------------------------------
// Attach addresses
// ---------------------------------------------------------------------------

/// The position of the last colon in `text`.
pub open spec fn last_colon(text: Seq<char>) -> Option<nat>
    decreases text.len(),
{
    if text.len() == 0 {
        None
    } else if text.last() == ':' {
        Some((text.len() - 1) as nat)
    } else {
        last_colon(text.drop_last())
    }
}

/// How an attach address reads: what stands before its last colon is the host,
/// and what follows the port; without a colon the host is `127.0.0.1`.
pub open spec fn attach_reading(value: Seq<char>) -> Result<(Seq<char>, u16), ConfigFault> {
    let (host, port) = match last_colon(value) {
        Some(at) => (value.take(at as int), value.skip(at as int + 1)),
        None => ("127.0.0.1"@, value),
    };
    match unsigned_reading(port, u16::MAX as nat) {
        Ok(n) => Ok((host, n as u16)),
        Err(_) => Err(ConfigFault::InvalidPort(value)),
    }
}

/// The position of the last colon in `chars`.
fn find_last_colon(chars: &Vec<char>) -> (res: Option<usize>)
    ensures
        res is Some <==> last_colon(chars@) is Some,
        res matches Some(at) ==> at < chars@.len() && last_colon(chars@) == Some(at as nat),
{
    let mut end: usize = chars.len();
    assert(chars@.take(end as int) =~= chars@);
    while end > 0
        invariant
            end <= chars@.len(),
            last_colon(chars@) == last_colon(chars@.take(end as int)),
        decreases end,
    {
        if chars[end - 1] == ':' {
            return Some(end - 1);
        }
        assert(chars@.take(end as int).drop_last() =~= chars@.take(end - 1));
        end -= 1;
    }
    None
}

/// Parse an attach address like `5678` or `host:5678` into `(host, port)`,
/// defaulting the host to `127.0.0.1` when only a port is given.
pub fn parse_attach(value: &str) -> (res: Result<(String, u16), ConfigError>)
    ensures
        res is Ok <==> attach_reading(value@) is Ok,
        res matches Ok((host, port)) ==> attach_reading(value@) == Ok::<
            (Seq<char>, u16),
            ConfigFault,
        >((host@, port)),
        res matches Err(e) ==> attach_reading(value@) == Err::<(Seq<char>, u16), ConfigFault>(e@),
{
    // Splitting on the last colon assumes an IPv4 host or hostname; a bare IPv6
    // literal like `::1` would mis-split. Debug adapters listen on a local
    // loopback port, so IPv6 attach targets are out of scope.
    let chars = chars_of(value);
    let (host, port_str) = match find_last_colon(&chars) {
        Some(at) => {
            let host = value.substring_char(0, at).to_owned();
            let port = value.substring_char(at + 1, chars.len());
            assert(host@ =~= value@.take(at as int));
            assert(port@ =~= value@.skip(at + 1));
            (host, port)
        },
        None => ("127.0.0.1".to_owned(), value),
    };
    match parse_unsigned(port_str, u16::MAX as u64) {
        Ok(port) => Ok((host, port as u16)),
        Err(_) => Err(ConfigError::InvalidPort(value.to_owned())),
    }
}

// ---------------------------------------------------------------------------
// Log levels and sinks
// ---------------------------------------------------------------------------

/// The level that an upper-case name stands for.
pub open spec fn level_called(name: Seq<char>) -> Option<LevelFilter> {
    if name == "TRACE"@ {
        Some(LevelFilter::UpTo(Level::Trace))
    } else if name == "DEBUG"@ {
        Some(LevelFilter::UpTo(Level::Debug))
    } else if name == "INFO"@ || name == "SUCCESS"@ {
        Some(LevelFilter::UpTo(Level::Info))
    } else if name == "WARNING"@ || name == "WARN"@ {
        Some(LevelFilter::UpTo(Level::Warn))
    } else if name == "ERROR"@ || name == "CRITICAL"@ {
        Some(LevelFilter::UpTo(Level::Error))
    } else {
        None
    }
}

/// The level that an upper-case name stands for.
pub fn level_named(name: &str) -> (res: Option<LevelFilter>)
    ensures
        res == level_called(name@),
{
    if name.eq("TRACE") {
        Some(LevelFilter::UpTo(Level::Trace))
    } else if name.eq("DEBUG") {
        Some(LevelFilter::UpTo(Level::Debug))
    } else if name.eq("INFO") || name.eq("SUCCESS") {
        Some(LevelFilter::UpTo(Level::Info))
    } else if name.eq("WARNING") || name.eq("WARN") {
        Some(LevelFilter::UpTo(Level::Warn))
    } else if name.eq("ERROR") || name.eq("CRITICAL") {
        Some(LevelFilter::UpTo(Level::Error))
    } else {
        None
    }
}

/// Validate the log level case-insensitively against the accepted set and map
/// it to a tracing level.
pub fn parse_log_level(level: &str) -> (res: Result<LevelFilter, ConfigError>)
    ensures
        match level_called(uppercased(level@)) {
            Some(filter) => res matches Ok(found) && found == filter,
            None => res matches Err(e) && e@ == ConfigFault::InvalidLogLevel(level@),
        },
        is_ascii_chars(level@) ==> uppercased(level@) == ascii_uppercased(level@),
{
    match level_named(to_uppercase(level).as_str()) {
        Some(filter) => Ok(filter),
        None => Err(ConfigError::InvalidLogLevel(level.to_owned())),
    }
}

/// Which sinks log what. Up to three independent sinks:
///
/// - **stderr**: on in the headless/stdio frontends, off under `--ui` (it would
///   corrupt the rendered interface).
/// - **file**: present whenever `--log-file` is given, in any mode.
/// - **pane**: the TUI's ring buffer; only under `--ui`.
///
/// The adapter's stderr folds into the file only when no dedicated
/// `--adapter-log` is set, and reaches the terminal only when explicitly
/// echoed.
#[derive(Debug, Clone, Copy, PartialEq, Eq, Structural)]
pub struct LoggingPlan {
    pub stderr: bool,
    pub pane: bool,
    pub adapter_in_file: bool,
    pub adapter_in_stderr: bool,
}

/// Plan the logging sinks for a validated invocation.
pub fn logging_plan(config: &ResolvedConfig) -> (plan: LoggingPlan)
    ensures
        plan.stderr == !config.ui,
        plan.pane == config.ui,
        plan.adapter_in_file == (config.adapter_log is None),
        plan.adapter_in_stderr == (!config.ui && !config.downstream.stdio
            && config.echo_adapter_stderr),
{
    LoggingPlan {
        stderr: !config.ui,
        pane: config.ui,
        adapter_in_file: config.adapter_log.is_none(),
        // Echoing the adapter's stderr to the terminal is a TCP-host courtesy; a
        // stdio client shares this process, so its launcher would see the noise.
        adapter_in_stderr: !config.ui && !config.downstream.stdio && config.echo_adapter_stderr,
    }
}

/// Whether a sink that logs up to `filter`, and the adapter's stderr if
/// `with_adapter`, takes a line of `level` on `target`.
///
/// The spawned adapter's stderr arrives on the `adapter` target.
pub fn sink_takes(target: &str, level: Level, filter: LevelFilter, with_adapter: bool) -> (res:
    bool)
    ensures
        res == ((target@ == "adapter"@ ==> with_adapter) && filter.lets_through(level)),
{
    if target.eq("adapter") && !with_adapter {
        return false;
    }
    filter.admits(level)
}

// ---------------------------------------------------------------------------
// Resolving an invocation
// ---------------------------------------------------------------------------

/// The words of a command line as `shlex::split` reads it, if it can.
pub uninterp spec fn shell_words(line: Seq<char>) -> Option<Seq<Seq<char>>>;

/// Calls `shlex::split`. Its result is named by [`shell_words`]: a function of
/// the line alone.
#[verifier::external_body]
fn split_shell_words(line: &str) -> (res: Option<Vec<String>>)
    ensures
        res is Some <==> shell_words(line@) is Some,
        res matches Some(words) ==> shell_words(line@) == Some(strings_view(words@)),
{
    shlex::split(line)
}

/// The words in an optional command.
pub open spec fn optional_words(words: Option<Vec<String>>) -> Option<Seq<Seq<char>>> {
    match words {
        Some(words) => Some(strings_view(words@)),
        None => None,
    }
}

impl Cli {
    /// The channels that an invocation serves clients on. The TCP listener
    /// binds for any host (the default and `--ui`) and whenever a port is
    /// requested.
    pub open spec fn channels(self) -> Downstream {
        Downstream {
            stdio: self.stdio,
            tcp: match self.mux_port {
                Some(port) => Some(port),
                None => if self.ui || !self.stdio {
                    Some(0u16)
                } else {
                    None
                },
            },
        }
    }

    /// The words of the adapter command that an invocation names, if it names
    /// one, given how its `--adapter` value splits into words.
    pub open spec fn spawn_words(self, words: Option<Seq<Seq<char>>>) -> Result<
        Option<Seq<Seq<char>>>,
        ConfigFault,
    > {
        match self.adapter {
            Some(line) => if self.adapter_argv@.len() > 0 {
                Err(ConfigFault::UpstreamConflict)
            } else {
                match words {
                    Some(words) => if words.len() > 0 {
                        Ok(Some(words))
                    } else {
                        Err(ConfigFault::BadAdapterCommand(line@))
                    },
                    None => Err(ConfigFault::BadAdapterCommand(line@)),
                }
            },
            None => if self.adapter_argv@.len() > 0 {
                Ok(Some(strings_view(self.adapter_argv@)))
            } else {
                Ok(None)
            },
        }
    }

    /// The upstream that an invocation names, given how its `--adapter` value
    /// splits into words.
    pub open spec fn upstream_reading(self, words: Option<Seq<Seq<char>>>) -> Result<
        ChoiceView,
        ConfigFault,
    > {
        match self.spawn_words(words) {
            Err(fault) => Err(fault),
            Ok(Some(command)) => if self.attach is Some {
                Err(ConfigFault::UpstreamConflict)
            } else {
                Ok(ChoiceView::Spawn { command: command[0], args: command.skip(1) })
            },
            Ok(None) => match self.attach {
                Some(address) => match attach_reading(address@) {
                    Ok((host, port)) => Ok(ChoiceView::Attach(host, port)),
                    Err(fault) => Err(fault),
                },
                None => if self.ui {
                    Ok(ChoiceView::Interactive)
                } else {
                    Err(ConfigFault::MissingUpstream)
                },
            },
        }
    }

    /// What is wrong with an invocation, if anything, given how its `--adapter`
    /// value splits into words and its log level reads.
    pub open spec fn fault(
        self,
        words: Option<Seq<Seq<char>>>,
        level: Option<LevelFilter>,
    ) -> Option<ConfigFault> {
        if self.stdio && self.ui {
            Some(ConfigFault::StdioWithUi)
        } else {
            match self.upstream_reading(words) {
                Err(fault) => Some(fault),
                Ok(_) => match level {
                    Some(_) => None,
                    None => Some(ConfigFault::InvalidLogLevel(self.log_level@)),
                },
            }
        }
    }

    /// Whether `config` is what an invocation without fault asks for.
    pub open spec fn asks_for(
        self,
        words: Option<Seq<Seq<char>>>,
        level: Option<LevelFilter>,
        config: ResolvedConfig,
    ) -> bool {
        &&& self.upstream_reading(words) == Ok::<ChoiceView, ConfigFault>(config.upstream@)
        &&& config.downstream == self.channels()
        &&& config.ui == self.ui
        &&& level == Some(config.level)
        &&& config.log_file == self.log_file
        &&& config.adapter_log == self.adapter_log
        &&& config.echo_adapter_stderr == self.echo_adapter_stderr
    }

    /// The upstream that an invocation names, given how its `--adapter` value
    /// splits into words.
    fn choose_upstream(&self, words: Option<Vec<String>>) -> (res: Result<
        UpstreamChoice,
        ConfigError,
    >)
        ensures
            match self.upstream_reading(optional_words(words)) {
                Ok(choice) => res matches Ok(found) && found@ == choice,
                Err(fault) => res matches Err(e) && e@ == fault,
            },
    {
        // A spawned adapter can be named two ways: `--adapter` as one string (a
        // launcher that passes a single argument splits it shell-style here), or
        // a trailing `-- <cmd...>` the shell already tokenized. At most one.
        let spawn_command = match &self.adapter {
            Some(line) => {
                if self.adapter_argv.len() > 0 {
                    return Err(ConfigError::UpstreamConflict);
                }
                match words {
                    Some(words) => {
                        if words.len() == 0 {
                            return Err(ConfigError::BadAdapterCommand(line.clone()));
                        }
                        Some(words)
                    },
                    None => return Err(ConfigError::BadAdapterCommand(line.clone())),
                }
            },
            None => if self.adapter_argv.len() > 0 {
                Some(clone_strings(&self.adapter_argv))
            } else {
                None
            },
        };
        assert(self.spawn_words(optional_words(words)) == Ok::<
            Option<Seq<Seq<char>>>,
            ConfigFault,
        >(optional_words(spawn_command)));
        match spawn_command {
            Some(words) => {
                if self.attach.is_some() {
                    return Err(ConfigError::UpstreamConflict);
                }
                let ghost all = strings_view(words@);
                let mut args = words;
                let command = args.remove(0);
                assert(strings_view(args@) =~= all.skip(1));
                assert(command@ == all[0]);
                Ok(UpstreamChoice::Spawn { command, args })
            },
            None => match &self.attach {
                Some(addr) => match parse_attach(addr.as_str()) {
                    Ok((host, port)) => Ok(UpstreamChoice::Attach(host, port)),
                    Err(e) => Err(e),
                },
                None => if self.ui {
                    // Only the TUI can prompt for an upstream at runtime; every other
                    // mode needs one named on the command line.
                    Ok(UpstreamChoice::Interactive)
                } else {
                    Err(ConfigError::MissingUpstream)
                },
            },
        }
    }

    /// Validate the invocation, given how its `--adapter` value splits into
    /// words and its log level reads.
    pub fn resolve_from(&self, words: Option<Vec<String>>, level: Option<LevelFilter>) -> (res:
        Result<ResolvedConfig, ConfigError>)
        ensures
            match self.fault(optional_words(words), level) {
                None => res matches Ok(config) && self.asks_for(
                    optional_words(words),
                    level,
                    config,
                ),
                Some(fault) => res matches Err(e) && e@ == fault,
            },
    {
        if self.stdio && self.ui {
            return Err(ConfigError::StdioWithUi);
        }
        // The TCP listener binds for any host (the default and `--ui`) and
        // whenever a port is requested; under `--stdio` alone there is no
        // listener unless `--mux-port` asks for one.

        let tcp: Option<u16> = match self.mux_port {
            Some(port) => Some(port),
            None => if self.ui || !self.stdio {
                Some(0)
            } else {
                None
            },
        };
        let downstream = Downstream { stdio: self.stdio, tcp };
        let upstream = match self.choose_upstream(words) {
            Ok(upstream) => upstream,
            Err(e) => return Err(e),
        };
        let level = match level {
            Some(level) => level,
            None => return Err(ConfigError::InvalidLogLevel(self.log_level.clone())),
        };
        Ok(
            ResolvedConfig {
                upstream,
                downstream,
                ui: self.ui,
                level,
                log_file: clone_path(&self.log_file),
                adapter_log: clone_path(&self.adapter_log),
                echo_adapter_stderr: self.echo_adapter_stderr,
            },
        )
    }

    /// How the `--adapter` value splits into words; nothing without one.
    pub open spec fn adapter_words(self) -> Option<Seq<Seq<char>>> {
        match self.adapter {
            Some(line) => shell_words(line@),
            None => None,
        }
    }

    /// Validate the invocation, returning a runnable config.
    ///
    /// Errors here are usage errors. The upstream axis (`--attach` vs a trailing
    /// `-- command`) and the downstream channels (stdio client and/or a TCP
    /// listener) are independent. The mux is a TCP host by default; `--stdio`
    /// adds the stdio client, and only `--ui` (which renders to the terminal)
    /// rules the stdio client out.
    pub fn resolve(&self) -> (res: Result<ResolvedConfig, ConfigError>)
        ensures
            ({
                let words = self.adapter_words();
                let level = level_called(uppercased(self.log_level@));
                match self.fault(words, level) {
                    None => res matches Ok(config) && self.asks_for(words, level, config),
                    Some(fault) => res matches Err(e) && e@ == fault,
                }
            }),
            is_ascii_chars(self.log_level@) ==> uppercased(self.log_level@) == ascii_uppercased(
                self.log_level@,
            ),
    {
        let words = match &self.adapter {
            Some(line) => split_shell_words(line.as_str()),
            None => None,
        };
        let level = level_named(to_uppercase(self.log_level.as_str()).as_str());
        self.resolve_from(words, level)
    }
}

/// The transport that a choice stands for.
pub open spec fn transport_for(
    choice: ChoiceView,
    adapter_log: Option<PathBuf>,
) -> Option<TransportView> {
    match choice {
        ChoiceView::Attach(host, port) => Some(tcp_view(host, port)),
        ChoiceView::Spawn { command, args } => Some(
            TransportView::Stdio { command, args, adapter_log },
        ),
        ChoiceView::Interactive => None,
    }
}

/// Build the upstream transport for a resolved upstream choice. An interactive
/// one is only valid under `--ui`, where the operator names the upstream.
pub fn build_transport(config: &ResolvedConfig) -> (res: UpstreamTransport)
    requires
        !(config.upstream is Interactive),
    ensures
        Some(res@) == transport_for(config.upstream@, config.adapter_log),
{
    match &config.upstream {
        UpstreamChoice::Attach(host, port) => UpstreamTransport::tcp(host.clone(), *port),
        UpstreamChoice::Spawn { command, args } => UpstreamTransport::stdio(
            command.clone(),
            clone_strings(args),
            clone_path(&config.adapter_log),
        ),
        UpstreamChoice::Interactive => vstd::pervasive::unreached(),
    }
}

// ---------------------------------------------------------------------------
// Serving without the TUI
// ---------------------------------------------------------------------------

/// How to serve the session over the chosen downstream channels — a stdio
/// client, a TCP listener, or both.
///
/// stdout is the DAP wire whenever a stdio client is served, so the startup
/// banner prints only for a pure TCP host.
#[derive(Debug, Clone, Copy, PartialEq, Eq, Structural)]
pub struct ServingPlan {
    /// The port to listen for TCP clients on (0 = OS-assigned), if at all.
    pub listen: Option<u16>,
    /// Whether to print the startup banner once the listener is bound.
    pub banner: bool,
    /// Whether to serve a client over stdin/stdout; its end ends the session.
    pub stdio_client: bool,
    /// Whether an interrupt ends the session.
    pub interruptible: bool,
}

/// Plan how to serve the session.
pub fn serving_plan(config: &ResolvedConfig) -> (plan: ServingPlan)
    ensures
        plan.listen == config.downstream.tcp,
        plan.banner == (config.downstream.tcp is Some && !config.downstream.stdio),
        plan.stdio_client == config.downstream.stdio,
        plan.interruptible == !config.downstream.stdio,
{
    ServingPlan {
        listen: config.downstream.tcp,
        banner: config.downstream.tcp.is_some() && !config.downstream.stdio,
        stdio_client: config.downstream.stdio,
        interruptible: !config.downstream.stdio,
    }
}

/// The startup banner, for a host that listens on `port`.
pub fn startup_banner(port: u16) -> (res: String)
    ensures
        res@ == "● dap-mux listening on 127.0.0.1:"@ + decimal(port as nat) + " — Ctrl-C to stop"@,
{
    let mut res = "● dap-mux listening on 127.0.0.1:".to_owned();
    res.append(decimal_string(port as u64).as_str());
    res.append(" — Ctrl-C to stop");
    res
}

/// Why a session ended.
#[derive(Debug, Clone, Copy, PartialEq, Eq, Structural)]
pub enum SessionEnd {
    /// The upstream adapter connection was lost.
    UpstreamLost,
    /// The stdio client's stdin reached its end.
    StdinClosed,
    /// The operator interrupted.
    Interrupted,
}

/// Whether a session ended well: only a lost upstream is a failure.
pub fn session_result(end: SessionEnd) -> (res: Result<(), String>)
    ensures
        match end {
            SessionEnd::UpstreamLost => res matches Err(reason) && reason@
                == "debug adapter connection lost; shutting down"@,
            SessionEnd::StdinClosed => res is Ok,
            SessionEnd::Interrupted => res is Ok,
        },
{
    match end {
        SessionEnd::UpstreamLost => Err("debug adapter connection lost; shutting down".to_owned()),
        SessionEnd::StdinClosed => Ok(()),
        SessionEnd::Interrupted => Ok(()),
    }
}

// ---------------------------------------------------------------------------
// Laws
// ---------------------------------------------------------------------------

/// A runnable config always serves clients: over stdio, over TCP, or both. It
/// has no listener only where stdio is the only channel asked for, and the TUI
/// always has one, and the terminal to itself.
pub proof fn lemma_some_channel_is_served(
    cli: Cli,
    words: Option<Seq<Seq<char>>>,
    level: Option<LevelFilter>,
    config: ResolvedConfig,
)
    requires
        cli.fault(words, level) is None,
        cli.asks_for(words, level, config),
    ensures
        config.downstream.stdio || config.downstream.tcp is Some,
        config.downstream.tcp is None <==> cli.stdio && cli.mux_port is None,
        config.ui ==> !config.downstream.stdio && config.downstream.tcp is Some,
{
}

/// A runnable config has exactly one upstream named on the command line; only
/// the TUI may have none, and then it asks for one.
pub proof fn lemma_exactly_one_upstream(
    cli: Cli,
    words: Option<Seq<Seq<char>>>,
    level: Option<LevelFilter>,
    config: ResolvedConfig,
)
    requires
        cli.fault(words, level) is None,
        cli.asks_for(words, level, config),
    ensures
        ({
            let attach = cli.attach is Some;
            let adapter = cli.adapter is Some;
            let argv = cli.adapter_argv@.len() > 0;
            &&& !(attach && adapter) && !(attach && argv) && !(adapter && argv)
            &&& config.upstream@ is Attach <==> attach
            &&& config.upstream@ is Spawn <==> adapter || argv
            &&& config.upstream@ is Interactive <==> !attach && !adapter && !argv
            &&& config.upstream@ is Interactive ==> config.ui
        }),
{
}

/// A host and a port, joined by a colon, read back as that host and port; a
/// port alone reads as that port on `127.0.0.1`.
pub proof fn lemma_attach_reads_back(host: Seq<char>, port: u16)
    ensures
        attach_reading(host + seq![':'] + decimal(port as nat)) == Ok::<
            (Seq<char>, u16),
            ConfigFault,
        >((host, port)),
        attach_reading(decimal(port as nat)) == Ok::<(Seq<char>, u16), ConfigFault>(
            ("127.0.0.1"@, port),
        ),
{
    let digits = decimal(port as nat);
    lemma_decimal_reads_back(port as nat);
    lemma_unsigned_reading_of_decimal(port as nat, u16::MAX as nat);
    assert(!digits.contains(':')) by {
        if digits.contains(':') {
            let i = choose|i: int| 0 <= i < digits.len() && digits[i] == ':';
            assert(is_digit(digits[i]));
        }
    }
    lemma_attach_is_split(host, digits);
}

/// What has no colon does not move the last colon.
proof fn lemma_last_colon(head: Seq<char>, tail: Seq<char>)
    requires
        !tail.contains(':'),
    ensures
        last_colon(head + tail) == last_colon(head),
    decreases tail.len(),
{
    if tail.len() > 0 {
        let rest = tail.drop_last();
        assert(!rest.contains(':')) by {
            if rest.contains(':') {
                let i = choose|i: int| 0 <= i < rest.len() && rest[i] == ':';
                assert(tail[i] == ':');
            }
        }
        lemma_last_colon(head, rest);
        assert((head + tail).drop_last() =~= head + rest);
        assert((head + tail).last() == tail.last());
        assert(tail.contains(tail.last()));
    } else {
        assert(head + tail =~= head);
    }
}

/// An attach address is split at its last colon: what follows is the port, in
/// digits, and what stands before is the host, whatever that is. Without a colon
/// all of it is the port, on `127.0.0.1`. A port that is no number, or above
/// 65535, is reported with the whole address.
pub proof fn lemma_attach_is_split(host: Seq<char>, port: Seq<char>)
    requires
        !port.contains(':'),
    ensures
        ({
            let address = host + seq![':'] + port;
            match unsigned_reading(port, 65535) {
                Ok(n) => {
                    &&& attach_reading(address) == Ok::<(Seq<char>, u16), ConfigFault>(
                        (host, n as u16),
                    )
                    &&& attach_reading(port) == Ok::<(Seq<char>, u16), ConfigFault>(
                        ("127.0.0.1"@, n as u16),
                    )
                },
                Err(_) => {
                    &&& attach_reading(address) == Err::<(Seq<char>, u16), ConfigFault>(
                        ConfigFault::InvalidPort(address),
                    )
                    &&& attach_reading(port) == Err::<(Seq<char>, u16), ConfigFault>(
                        ConfigFault::InvalidPort(port),
                    )
                },
            }
        }),
{
    let address = host + seq![':'] + port;
    lemma_last_colon(host + seq![':'], port);
    assert((host + seq![':']).last() == ':');
    assert(address.take(host.len() as int) =~= host);
    assert(address.skip(host.len() as int + 1) =~= port);
    lemma_last_colon(Seq::empty(), port);
    assert(Seq::<char>::empty() + port =~= port);
}

/// The names of log levels, and what each stands for; nothing else is one.
pub proof fn lemma_level_names_read(name: Seq<char>)
    ensures
        level_called("TRACE"@) == Some(LevelFilter::UpTo(Level::Trace)),
        level_called("DEBUG"@) == Some(LevelFilter::UpTo(Level::Debug)),
        level_called("INFO"@) == Some(LevelFilter::UpTo(Level::Info)),
        level_called("SUCCESS"@) == Some(LevelFilter::UpTo(Level::Info)),
        level_called("WARNING"@) == Some(LevelFilter::UpTo(Level::Warn)),
        level_called("WARN"@) == Some(LevelFilter::UpTo(Level::Warn)),
        level_called("ERROR"@) == Some(LevelFilter::UpTo(Level::Error)),
        level_called("CRITICAL"@) == Some(LevelFilter::UpTo(Level::Error)),
        level_called(name) is Some <==> {
            ||| name == "TRACE"@
            ||| name == "DEBUG"@
            ||| name == "INFO"@
            ||| name == "SUCCESS"@
            ||| name == "WARNING"@
            ||| name == "WARN"@
            ||| name == "ERROR"@
            ||| name == "CRITICAL"@
        },
{
    reveal_strlit("TRACE");
    reveal_strlit("DEBUG");
    reveal_strlit("INFO");
    reveal_strlit("SUCCESS");
    reveal_strlit("WARNING");
    reveal_strlit("WARN");
    reveal_strlit("ERROR");
    reveal_strlit("CRITICAL");
    assert("TRACE"@.len() == 5 && "DEBUG"@.len() == 5 && "ERROR"@.len() == 5);
    assert("INFO"@.len() == 4 && "WARN"@.len() == 4 && "CRITICAL"@.len() == 8);
    assert("SUCCESS"@.len() == 7 && "WARNING"@.len() == 7);
    assert("TRACE"@[0] == 'T' && "DEBUG"@[0] == 'D' && "ERROR"@[0] == 'E');
    assert("INFO"@[0] == 'I' && "WARN"@[0] == 'W');
    assert("SUCCESS"@[0] == 'S' && "WARNING"@[0] == 'W');
}

/// The name of a level reads as a filter that goes up to that level.
pub proof fn lemma_level_name_reads_back(level: Level)
    ensures
        level_called(level.name()) == Some(LevelFilter::UpTo(level)),
{
    lemma_level_names_read(level.name());
}

/// Which faults an invocation is reported for: the stdio client together with
/// the TUI before anything else, then what is wrong with the upstream, then the
/// log level; and none where none of these holds.
pub proof fn lemma_faults(cli: Cli, words: Option<Seq<Seq<char>>>, level: Option<LevelFilter>)
    ensures
        ({
            let fault = cli.fault(words, level);
            let terminal_free = !(cli.stdio && cli.ui);
            let argv = cli.adapter_argv@.len() > 0;
            let unreadable = words is None || words->0.len() == 0;
            &&& cli.stdio && cli.ui ==> fault == Some(ConfigFault::StdioWithUi)
            &&& terminal_free && cli.adapter is Some && argv ==> fault == Some(
                ConfigFault::UpstreamConflict,
            )
            &&& terminal_free && cli.adapter is Some && !argv && unreadable ==> fault == Some(
                ConfigFault::BadAdapterCommand(cli.adapter->0@),
            )
            &&& terminal_free && cli.adapter is Some && !argv && !unreadable && cli.attach is Some
                ==> fault == Some(ConfigFault::UpstreamConflict)
            &&& terminal_free && cli.adapter is None && argv && cli.attach is Some ==> fault
                == Some(ConfigFault::UpstreamConflict)
            &&& terminal_free && cli.adapter is None && !argv && cli.attach is Some
                && attach_reading(cli.attach->0@) is Err ==> fault == Some(
                ConfigFault::InvalidPort(cli.attach->0@),
            )
            &&& terminal_free && cli.adapter is None && !argv && cli.attach is None && !cli.ui
                ==> fault == Some(ConfigFault::MissingUpstream)
            &&& terminal_free && ({
                ||| cli.adapter is Some && !argv && !unreadable && cli.attach is None
                ||| cli.adapter is None && argv && cli.attach is None
                ||| cli.adapter is None && !argv && cli.attach is Some && attach_reading(
                    cli.attach->0@,
                ) is Ok
                ||| cli.adapter is None && !argv && cli.attach is None && cli.ui
            }) ==> fault == (match level {
                None => Some(ConfigFault::InvalidLogLevel(cli.log_level@)),
                Some(_) => None,
            })
        }),
{
}

/// What a runnable config holds: the upstream that was named, a command as its
/// first word and the rest of its words; the port asked for, or one of the
/// system's choice for every host, or none under stdio alone; and everything
/// else as it was given.
pub proof fn lemma_config_holds_what_was_asked(
    cli: Cli,
    words: Option<Seq<Seq<char>>>,
    level: Option<LevelFilter>,
    config: ResolvedConfig,
    i: int,
)
    requires
        cli.fault(words, level) is None,
        cli.asks_for(words, level, config),
    ensures
        cli.attach matches Some(address) ==> (config.upstream@ matches ChoiceView::Attach(
            host,
            port,
        ) && attach_reading(address@) == Ok::<(Seq<char>, u16), ConfigFault>((host, port))),
        cli.adapter is Some ==> (config.upstream@ matches ChoiceView::Spawn { command, args }
            && words == Some(seq![command] + args)),
        cli.adapter_argv@.len() > 0 ==> (config.upstream@ matches ChoiceView::Spawn {
            command,
            args,
        } && command == cli.adapter_argv@[0]@ && args.len() + 1 == cli.adapter_argv@.len() && (0
            <= i < args.len() ==> args[i] == cli.adapter_argv@[i + 1]@)),
        cli.attach is None && cli.adapter is None && cli.adapter_argv@.len() == 0
            ==> config.upstream@ is Interactive,
        config.downstream.stdio == cli.stdio,
        cli.mux_port is Some ==> config.downstream.tcp == cli.mux_port,
        cli.mux_port is None && !cli.stdio ==> config.downstream.tcp == Some(0u16),
        cli.mux_port is None && cli.stdio ==> config.downstream.tcp is None,
        config.ui == cli.ui,
        level == Some(config.level),
        config.log_file == cli.log_file,
        config.adapter_log == cli.adapter_log,
        config.echo_adapter_stderr == cli.echo_adapter_stderr,
{
    if cli.adapter is Some {
        let all = words->0;
        assert(seq![all[0]] + all.skip(1) =~= all);
    }
}

/// Every invocation without fault has a config that it asks for in full: two
/// that it asks for do not differ in anything.
pub proof fn lemma_config_is_determined(
    cli: Cli,
    words: Option<Seq<Seq<char>>>,
    level: Option<LevelFilter>,
    one: ResolvedConfig,
    other: ResolvedConfig,
)
    requires
        cli.asks_for(words, level, one),
        cli.asks_for(words, level, other),
    ensures
        one.upstream@ == other.upstream@,
        one.downstream == other.downstream,
        one.ui == other.ui,
        one.level == other.level,
        one.log_file == other.log_file,
        one.adapter_log == other.adapter_log,
        one.echo_adapter_stderr == other.echo_adapter_stderr,
{
}

/// An adapter is attached to at its address, for ten seconds and ten times a
/// second, or spawned by its command with its arguments and its stderr log; an
/// upstream still to be named has no transport.
pub proof fn lemma_transports(
    host: Seq<char>,
    port: u16,
    command: Seq<char>,
    args: Seq<Seq<char>>,
    adapter_log: Option<PathBuf>,
)
    ensures
        transport_for(ChoiceView::Attach(host, port), adapter_log) == Some(
            TransportView::Tcp {
                host,
                port,
                retry_timeout: Duration { nanos: 10_000_000_000 },
                retry_interval: Duration { nanos: 100_000_000 },
            },
        ),
        transport_for(ChoiceView::Spawn { command, args }, adapter_log) == Some(
            TransportView::Stdio { command, args, adapter_log },
        ),
        transport_for(ChoiceView::Interactive, adapter_log) is None,
{
}

/// The `--adapter` value is split as a shell would, and nothing else is.
pub proof fn lemma_adapter_words(cli: Cli)
    ensures
        cli.adapter matches Some(line) ==> cli.adapter_words() == shell_words(line@),
        cli.adapter is None ==> cli.adapter_words() is None,
{
}

/// What the user is told of each fault, and which value it is told with.
pub proof fn lemma_faults_are_told(given: Seq<char>, shown: Seq<char>)
    ensures
        ConfigFault::MissingUpstream.text(shown)
            == "an upstream is required: one of --attach <[host:]port>, --adapter <command>, or a trailing `-- <command>`. See --help."@,
        ConfigFault::UpstreamConflict.text(shown)
            == "more than one upstream was given: use exactly one of --attach <[host:]port>, --adapter <command>, or a trailing `-- <command>`. See --help."@,
        ConfigFault::StdioWithUi.text(shown)
            == "--stdio cannot combine with --ui: the operator TUI renders to the terminal, which the stdio DAP channel would corrupt. See --help."@,
        ConfigFault::BadAdapterCommand(given).text(shown) == "--adapter value "@ + shown
            + " is not a valid command line"@,
        ConfigFault::InvalidPort(given).text(shown) == "invalid port in attach address: "@ + shown,
        ConfigFault::InvalidLogLevel(given).text(shown) == shown
            + " is not a valid log level. Choose from: TRACE, DEBUG, INFO, SUCCESS, WARNING, ERROR, CRITICAL"@,
        ConfigFault::BadAdapterCommand(given).value() == given,
        ConfigFault::InvalidPort(given).value() == given,
        ConfigFault::InvalidLogLevel(given).value() == given,
{
}

/// Logs go to stderr or to the pane, never to both: to the pane exactly under
/// the TUI. The adapter's stderr is in the log file exactly if it has no file of
/// its own, and on the terminal only where that was asked for and neither the
/// TUI nor a stdio client is there to be disturbed.
pub proof fn lemma_logging(config: &ResolvedConfig, plan: LoggingPlan)
    requires
        call_ensures(logging_plan, (config,), plan),
    ensures
        plan.pane <==> config.ui,
        plan.stderr <==> !plan.pane,
        plan.adapter_in_file <==> config.adapter_log is None,
        plan.adapter_in_stderr <==> config.echo_adapter_stderr && !config.ui
            && !config.downstream.stdio,
{
}

/// A sink takes every line up to its level, but what the adapter wrote only if it
/// logs that too.
pub proof fn lemma_sinks(
    target: &str,
    level: Level,
    filter: LevelFilter,
    with_adapter: bool,
    taken: bool,
)
    requires
        call_ensures(sink_takes, (target, level, filter, with_adapter), taken),
    ensures
        target@ == "adapter"@ && !with_adapter ==> !taken,
        target@ != "adapter"@ || with_adapter ==> taken == filter.lets_through(level),
{
}

/// A host listens where it is to, and prints its banner only where stdout is not
/// the wire of a stdio client; that client's end ends the session, and without it
/// an interrupt does.
pub proof fn lemma_serving(config: &ResolvedConfig, plan: ServingPlan)
    requires
        call_ensures(serving_plan, (config,), plan),
    ensures
        plan.listen == config.downstream.tcp,
        plan.stdio_client <==> config.downstream.stdio,
        plan.banner <==> plan.listen is Some && !plan.stdio_client,
        plan.interruptible <==> !plan.stdio_client,
{
}

/// A session fails exactly if the adapter was lost, and says so.
pub proof fn lemma_session_results(end: SessionEnd, res: Result<(), String>)
    requires
        call_ensures(session_result, (end,), res),
    ensures
        res is Err <==> end is UpstreamLost,
        res matches Err(reason) ==> reason@ == "debug adapter connection lost; shutting down"@,
{
}

/// The banner says where the host listens, and how to stop it.
pub proof fn lemma_banner(port: u16, banner: String)
    requires
        call_ensures(startup_banner, (port,), banner),
    ensures
        banner@ == "● dap-mux listening on 127.0.0.1:"@ + decimal(port as nat)
            + " — Ctrl-C to stop"@,
{
}

} // verus!
