//! The interactive operator application: the connect → session → connect loop
//! and the live session/client view.
//!
//! The [`App`] decides; it owns no connection and no terminal. Keys and what is
//! observed of the connection go in, and it says what to do and what to show.

use vstd::prelude::*;
use vstd::string::*;

use crate::cli::{
    attach_reading, lemma_attach_reads_back, parse_attach, transport_for, ChoiceView, ConfigFault,
    ResolvedConfig, UpstreamChoice,
};
use crate::level::{Level, LevelFilter};
use crate::mux::{ClientInfo, SessionPhase};
use crate::text::{
    chars_of, decimal, decimal_string, is_white_code, leading_spaces, lemma_decimal_is_plain,
    lemma_decimal_reads_back, quoted, trim, trimmed,
};
use crate::tui::log_buffer::{lines_view, most_recent, LineView, LogLine};
use crate::upstream::{
    clone_path, clone_strings, tcp_view, Duration, TransportView, UpstreamTransport,
};

verus! {

/// `String::push`: appends one character.
pub assume_specification[ std::string::String::push ](
    s: &mut std::string::String,
    c: char,
)
    ensures
        final(s)@ == old(s)@.push(c),
;

/// `String::pop`: removes the last character and returns it; nothing happens to
/// an empty string.
pub assume_specification[ std::string::String::pop ](s: &mut std::string::String) -> (res: Option<
    char,
>)
    ensures
        old(s)@.len() == 0 ==> res is None && final(s)@ == old(s)@,
        old(s)@.len() > 0 ==> res == Some(old(s)@.last()) && final(s)@ == old(s)@.drop_last(),
;

/// The concatenation of five texts.
fn joined(a: &str, b: &str, c: &str, d: &str, e: &str) -> (res: String)
    ensures
        res@ == a@ + b@ + c@ + d@ + e@,
{
    let mut res = a.to_owned();
    res.append(b);
    res.append(c);
    res.append(d);
    res.append(e);
    res
}

// ---------------------------------------------------------------------------
// State
// ---------------------------------------------------------------------------

/// What the operator is currently doing.
#[derive(Debug)]
enum AppState {
    /// Editing an address, not connected.
    Idle,
    /// A connect attempt is in flight (a not-yet-ready adapter is retried).
    Connecting { target: String },
    /// A live session: clients are accepted until it ends.
    Connected { target: String },
}

/// What the operator is currently doing, and with what target.
#[verifier::ext_equal]
pub enum StateView {
    Idle,
    Connecting(Seq<char>),
    Connected(Seq<char>),
}

impl View for AppState {
    type V = StateView;

    closed spec fn view(&self) -> StateView {
        match *self {
            AppState::Idle => StateView::Idle,
            AppState::Connecting { target } => StateView::Connecting(target@),
            AppState::Connected { target } => StateView::Connected(target@),
        }
    }
}

/// Where the operator interface draws its upstream from.
#[derive(Debug)]
pub enum Upstream {
    /// A target named on the command line — an attach address or a spawn
    /// command. The interface connects to it on entry and reconnects to the
    /// same target after a session ends.
    Configured { transport: UpstreamTransport, label: String },
    /// No upstream was named: the operator types an attach address on the
    /// connect screen.
    Interactive,
}

/// What an [`Upstream`] says.
pub enum SourceView {
    Configured { transport: TransportView, label: Seq<char> },
    Interactive,
}

impl View for Upstream {
    type V = SourceView;

    open spec fn view(&self) -> SourceView {
        match *self {
            Upstream::Configured { transport, label } => SourceView::Configured {
                transport: transport@,
                label: label@,
            },
            Upstream::Interactive => SourceView::Interactive,
        }
    }
}

/// A key press, as far as the interface knows keys.
#[derive(Debug, Clone, Copy, PartialEq, Eq, Structural)]
pub enum Key {
    Char(char),
    Enter,
    Esc,
    Backspace,
    Other,
}

/// What is observed of the connection on a tick.
#[derive(Debug)]
pub enum Observation {
    /// The connect attempt is still under way.
    StillConnecting,
    /// The connect attempt succeeded.
    Connected,
    /// The connect attempt failed; holds the reason.
    ConnectFailed(String),
    /// The connect attempt was given up.
    ConnectAborted,
    /// Whether the session's adapter is connected.
    Upstream(bool),
}

/// Something for the owner of the connections to do.
#[derive(Debug)]
pub enum AppAction {
    /// Nothing.
    Nothing,
    /// Start connecting; the operator owns the debuggee, so a client's
    /// terminate detaches only that client rather than stopping the shared
    /// session.
    Connect(UpstreamTransport),
    /// Start accepting clients into the session.
    AcceptClients,
    /// Stop accepting clients and end the session.
    EndSession,
}

/// What an [`AppAction`] asks for.
pub enum AppActionView {
    Nothing,
    Connect(TransportView),
    AcceptClients,
    EndSession,
}

impl View for AppAction {
    type V = AppActionView;

    open spec fn view(&self) -> AppActionView {
        match *self {
            AppAction::Nothing => AppActionView::Nothing,
            AppAction::Connect(transport) => AppActionView::Connect(transport@),
            AppAction::AcceptClients => AppActionView::AcceptClients,
            AppAction::EndSession => AppActionView::EndSession,
        }
    }
}

/// The operator interface state.
#[derive(Debug)]
pub struct App {
    /// The port that clients connect on.
    port: u16,
    /// The pane shows lines at this level or more severe; adjustable at runtime.
    display_level: Level,
    state: AppState,
    /// The upstream this interface drives.
    upstream: Upstream,
    /// Address-entry buffer on the connect screen (interactive upstream only).
    input: String,
    /// One-line feedback (connecting, connect failure, session ended, …).
    status: String,
    should_quit: bool,
}

/// What an [`App`] holds.
pub struct AppView {
    pub port: u16,
    pub display_level: Level,
    pub state: StateView,
    pub upstream: SourceView,
    pub input: Seq<char>,
    pub status: Seq<char>,
    pub should_quit: bool,
}

impl View for App {
    type V = AppView;

    closed spec fn view(&self) -> AppView {
        AppView {
            port: self.port,
            display_level: self.display_level,
            state: self.state@,
            upstream: self.upstream@,
            input: self.input@,
            status: self.status@,
            should_quit: self.should_quit,
        }
    }
}

// ---------------------------------------------------------------------------
// What happens
// ---------------------------------------------------------------------------

/// The level next to `level` by `step`, within those that the pane captures.
pub open spec fn stepped(level: Level, step: int) -> Level {
    let rank = level.rank() + step;
    if level == Level::Trace {
        level
    } else if rank <= 1 {
        Level::Error
    } else if rank == 2 {
        Level::Warn
    } else if rank == 3 {
        Level::Info
    } else {
        Level::Debug
    }
}

impl AppView {
    /// The interface before anything has happened.
    pub open spec fn fresh(port: u16, upstream: SourceView, display_level: Level) -> AppView {
        AppView {
            port,
            display_level,
            state: StateView::Idle,
            upstream,
            input: match upstream {
                SourceView::Configured { label, .. } => label,
                SourceView::Interactive => Seq::empty(),
            },
            status: match upstream {
                SourceView::Configured { label, .. } => "Connecting to "@ + label + "…"@,
                SourceView::Interactive =>
                    "Enter an upstream address (PORT or HOST:PORT) and press Enter."@,
            },
            should_quit: false,
        }
    }

    /// A connect attempt starts.
    pub open spec fn connecting(self, target: Seq<char>) -> AppView {
        AppView {
            state: StateView::Connecting(target),
            status: "Connecting to "@ + target + "… (retrying until the adapter is ready)"@,
            ..self
        }
    }

    /// The operator asks to connect: to the configured target, or to the
    /// address typed.
    pub open spec fn submitted(self) -> (AppView, AppActionView) {
        match self.upstream {
            SourceView::Configured { transport, label } => (
                self.connecting(label),
                AppActionView::Connect(transport),
            ),
            SourceView::Interactive => {
                let entry = trimmed(self.input);
                if entry.len() == 0 {
                    (
                        AppView { status: "Enter an address first (PORT or HOST:PORT)."@, ..self },
                        AppActionView::Nothing,
                    )
                } else {
                    match attach_reading(entry) {
                        Ok((host, port)) => (
                            self.connecting(host + ":"@ + decimal(port as nat)),
                            AppActionView::Connect(tcp_view(host, port)),
                        ),
                        Err(fault) => (
                            AppView { status: fault.text(quoted(fault.value())), ..self },
                            AppActionView::Nothing,
                        ),
                    }
                }
            },
        }
    }

    /// The interface starts: a configured upstream is connected straight away.
    pub open spec fn started(self) -> (AppView, AppActionView) {
        match self.upstream {
            SourceView::Configured { .. } => self.submitted(),
            SourceView::Interactive => (self, AppActionView::Nothing),
        }
    }

    /// The operator presses a key.
    pub open spec fn pressed(self, key: Key, control: bool) -> (AppView, AppActionView) {
        let quitting = (AppView { should_quit: true, ..self }, AppActionView::Nothing);
        let ignored = (self, AppActionView::Nothing);
        let interactive = self.upstream is Interactive;
        if control && key == Key::Char('c') {
            quitting
        } else if self.state is Idle {
            match key {
                Key::Esc => quitting,
                Key::Enter => self.submitted(),
                Key::Backspace => if interactive && self.input.len() > 0 {
                    (AppView { input: self.input.drop_last(), ..self }, AppActionView::Nothing)
                } else {
                    ignored
                },
                Key::Char(c) => if interactive {
                    (AppView { input: self.input.push(c), ..self }, AppActionView::Nothing)
                } else {
                    ignored
                },
                Key::Other => ignored,
            }
        } else if key == Key::Esc || key == Key::Char('q') {
            quitting
        } else if key == Key::Char('+') {
            (
                AppView { display_level: stepped(self.display_level, 1), ..self },
                AppActionView::Nothing,
            )
        } else if key == Key::Char('-') {
            (
                AppView { display_level: stepped(self.display_level, -1), ..self },
                AppActionView::Nothing,
            )
        } else {
            ignored
        }
    }

    /// Something is observed of the connection.
    pub open spec fn observed(self, observation: Observation) -> (AppView, AppActionView) {
        match (self.state, observation) {
            (StateView::Connecting(target), Observation::Connected) => (
                AppView {
                    state: StateView::Connected(target),
                    status: "Connected to "@ + target + ". Clients may connect on 127.0.0.1:"@
                        + decimal(self.port as nat) + "."@,
                    ..self
                },
                AppActionView::AcceptClients,
            ),
            (StateView::Connecting(target), Observation::ConnectFailed(reason)) => (
                AppView {
                    state: StateView::Idle,
                    status: "Connect to "@ + target + " failed: "@ + reason@,
                    ..self
                },
                AppActionView::Nothing,
            ),
            (StateView::Connecting(target), Observation::ConnectAborted) => (
                AppView {
                    state: StateView::Idle,
                    status: "Connect to "@ + target + " aborted."@,
                    ..self
                },
                AppActionView::Nothing,
            ),
            (StateView::Connected(target), Observation::Upstream(false)) => (
                AppView {
                    state: StateView::Idle,
                    status: "Session with "@ + target
                        + " ended (adapter connection lost). Press Enter to connect again, Esc to quit."@,
                    ..self
                },
                AppActionView::EndSession,
            ),
            _ => (self, AppActionView::Nothing),
        }
    }
}

impl App {
    /// Build the app for the given `upstream`. A configured upstream auto-
    /// connects when the app [starts](Self::start); an interactive one waits on
    /// the connect screen for the operator to enter an address.
    pub fn new(port: u16, upstream: Upstream, display_level: Level) -> (res: Self)
        ensures
            res@ == AppView::fresh(port, upstream@, display_level),
    {
        let (input, status) = match &upstream {
            Upstream::Configured { label, .. } => {
                let status = joined("Connecting to ", label.as_str(), "…", "", "");
                proof {
                    reveal_strlit("");
                    assert(status@ =~= "Connecting to "@ + label@ + "…"@);
                }
                (label.clone(), status)
            },
            Upstream::Interactive => (
                String::new(),
                "Enter an upstream address (PORT or HOST:PORT) and press Enter.".to_owned(),
            ),
        };
        App {
            port,
            display_level,
            state: AppState::Idle,
            upstream,
            input,
            status,
            should_quit: false,
        }
    }

    /// A command-line upstream connects straight away; an interactive one
    /// waits for the operator to submit an address from the connect screen.
    pub fn start(&mut self) -> (action: AppAction)
        ensures
            (final(self)@, action@) == old(self)@.started(),
    {
        match &self.upstream {
            Upstream::Configured { .. } => self.submit_connect(),
            Upstream::Interactive => AppAction::Nothing,
        }
    }

    /// Whether the operator has asked to quit.
    pub fn should_quit(&self) -> (res: bool)
        ensures
            res == self@.should_quit,
    {
        self.should_quit
    }

    /// Quit: the input has ended.
    pub fn quit(&mut self)
        ensures
            final(self)@ == (AppView { should_quit: true, ..old(self)@ }),
    {
        self.should_quit = true;
    }

    /// Whether there is a session, or one in the making, to end on quitting.
    pub fn has_session(&self) -> (res: bool)
        ensures
            res == !(self@.state is Idle),
    {
        match &self.state {
            AppState::Idle => false,
            AppState::Connecting { .. } => true,
            AppState::Connected { .. } => true,
        }
    }

    /// Advance a connect attempt, or detect the end of a session.
    pub fn on_tick(&mut self, observation: Observation) -> (action: AppAction)
        ensures
            (final(self)@, action@) == old(self)@.observed(observation),
    {
        let port = decimal_string(self.port as u64);
        let (status, connected, action) = match (&self.state, &observation) {
            (AppState::Connecting { target }, Observation::Connected) => {
                // Connected: start accepting clients into this session.
                let status = joined(
                    "Connected to ",
                    target.as_str(),
                    ". Clients may connect on 127.0.0.1:",
                    port.as_str(),
                    ".",
                );
                (status, Some(target.clone()), AppAction::AcceptClients)
            },
            (AppState::Connecting { target }, Observation::ConnectFailed(reason)) => {
                let status = joined(
                    "Connect to ",
                    target.as_str(),
                    " failed: ",
                    reason.as_str(),
                    "",
                );
                proof {
                    reveal_strlit("");
                    assert(status@ =~= "Connect to "@ + target@ + " failed: "@ + reason@);
                }
                (status, None, AppAction::Nothing)
            },
            (AppState::Connecting { target }, Observation::ConnectAborted) => {
                let status = joined("Connect to ", target.as_str(), " aborted.", "", "");
                proof {
                    reveal_strlit("");
                    assert(status@ =~= "Connect to "@ + target@ + " aborted."@);
                }
                (status, None, AppAction::Nothing)
            },
            (AppState::Connected { target }, Observation::Upstream(false)) => {
                // A session ends when the upstream adapter connection is lost:
                // loop back to the connect screen (the process lives on).
                let status = joined(
                    "Session with ",
                    target.as_str(),
                    " ended (adapter connection lost). Press Enter to connect again, Esc to quit.",
                    "",
                    "",
                );
                proof {
                    reveal_strlit("");
                    assert(status@ =~= "Session with "@ + target@
                        + " ended (adapter connection lost). Press Enter to connect again, Esc to quit."@);
                }
                (status, None, AppAction::EndSession)
            },
            _ => return AppAction::Nothing,
        };
        self.status = status;
        self.state = match connected {
            Some(target) => AppState::Connected { target },
            None => AppState::Idle,
        };
        action
    }

    /// Take a key press.
    pub fn on_key(&mut self, key: Key, control: bool) -> (action: AppAction)
        ensures
            (final(self)@, action@) == old(self)@.pressed(key, control),
    {
        // Ctrl-C always quits, in any state.
        if control && key == Key::Char('c') {
            self.should_quit = true;
            return AppAction::Nothing;
        }
        let interactive = match &self.upstream {
            Upstream::Interactive => true,
            Upstream::Configured { .. } => false,
        };
        if !self.has_session() {
            match key {
                Key::Esc => {
                    self.should_quit = true;
                },
                Key::Enter => {
                    return self.submit_connect();
                },
                // Address entry is for the interactive upstream only; a
                // configured target has no editable field.
                Key::Backspace => if interactive {
                    let _ = self.input.pop();
                },
                Key::Char(c) => if interactive {
                    self.input.push(c);
                },
                Key::Other => {},
            }
            return AppAction::Nothing;
        }
        // While connecting or connected the address field is inert, so these
        // keys are free for control: quit, and adjust the log pane verbosity
        // (`+`/`-` would collide with hostname entry on the connect screen).

        match key {
            Key::Esc => {
                self.should_quit = true;
            },
            Key::Char('q') => {
                self.should_quit = true;
            },
            Key::Char('+') => {
                self.adjust_verbosity(1);
            },
            Key::Char('-') => {
                self.adjust_verbosity(-1);
            },
            _ => {},
        }
        AppAction::Nothing
    }

    /// Step the pane's display level toward more (`+1`) or less (`-1`) verbose,
    /// saturating at the ends of what the pane captures.
    pub fn adjust_verbosity(&mut self, step: i32)
        ensures
            final(self)@ == (AppView {
                display_level: stepped(old(self)@.display_level, step as int),
                ..old(self)@
            }),
    {
        let current: i64 = match self.display_level {
            Level::Error => 1,
            Level::Warn => 2,
            Level::Info => 3,
            Level::Debug => 4,
            Level::Trace => return,
        };
        let next: i64 = current + step as i64;
        self.display_level = if next <= 1 {
            Level::Error
        } else if next == 2 {
            Level::Warn
        } else if next == 3 {
            Level::Info
        } else {
            Level::Debug
        };
    }

    /// Begin connecting: reconnect to the configured target, or parse and
    /// connect to the address the operator typed on the connect screen.
    fn submit_connect(&mut self) -> (action: AppAction)
        ensures
            (final(self)@, action@) == old(self)@.submitted(),
    {
        let (transport, target) = match &self.upstream {
            Upstream::Configured { transport, label } => (transport.clone(), label.clone()),
            Upstream::Interactive => {
                let entry = trim(self.input.as_str()).to_owned();
                if entry.as_str().is_empty() {
                    self.status = "Enter an address first (PORT or HOST:PORT).".to_owned();
                    return AppAction::Nothing;
                }
                match parse_attach(entry.as_str()) {
                    Ok((host, port)) => {
                        let mut target = host.clone();
                        target.append(":");
                        target.append(decimal_string(port as u64).as_str());
                        (UpstreamTransport::tcp(host, port), target)
                    },
                    Err(err) => {
                        self.status = err.message();
                        return AppAction::Nothing;
                    },
                }
            },
        };
        self.start_connect(transport, target)
    }

    /// Ask for a connect attempt against `transport` and enter the connecting
    /// state. A not-yet-ready adapter is retried; the tick loop observes the
    /// outcome.
    fn start_connect(&mut self, transport: UpstreamTransport, target: String) -> (action: AppAction)
        ensures
            final(self)@ == old(self)@.connecting(target@),
            action@ == AppActionView::Connect(transport@),
    {
        let status = joined(
            "Connecting to ",
            target.as_str(),
            "… (retrying until the adapter is ready)",
            "",
            "",
        );
        proof {
            reveal_strlit("");
            assert(status@ =~= "Connecting to "@ + target@
                + "… (retrying until the adapter is ready)"@);
        }
        self.status = status;
        self.state = AppState::Connecting { target };
        AppAction::Connect(transport)
    }
}

// ---------------------------------------------------------------------------
// What is shown
// ---------------------------------------------------------------------------

/// A colour of the interface.
#[derive(Debug, Clone, Copy, PartialEq, Eq, Structural)]
pub enum Tone {
    Red,
    Yellow,
    Green,
    Cyan,
    Magenta,
    White,
    Gray,
    DarkGray,
}

/// The name of a session phase.
pub open spec fn phase_name(phase: SessionPhase) -> Seq<char> {
    match phase {
        SessionPhase::PreInit => "pre-init"@,
        SessionPhase::Initializing => "initializing"@,
        SessionPhase::Initialized => "initialized"@,
        SessionPhase::Configured => "configured"@,
    }
}

/// The name of a session phase.
pub fn phase_label(phase: SessionPhase) -> (res: &'static str)
    ensures
        res@ == phase_name(phase),
{
    match phase {
        SessionPhase::PreInit => "pre-init",
        SessionPhase::Initializing => "initializing",
        SessionPhase::Initialized => "initialized",
        SessionPhase::Configured => "configured",
    }
}

/// The colour of a log level.
pub open spec fn level_tone(level: Level) -> Tone {
    match level {
        Level::Error => Tone::Red,
        Level::Warn => Tone::Yellow,
        Level::Info => Tone::White,
        Level::Debug => Tone::DarkGray,
        Level::Trace => Tone::DarkGray,
    }
}

/// The colour of a log level.
pub fn level_color(level: Level) -> (res: Tone)
    ensures
        res == level_tone(level),
{
    match level {
        Level::Error => Tone::Red,
        Level::Warn => Tone::Yellow,
        Level::Info => Tone::White,
        Level::Debug => Tone::DarkGray,
        Level::Trace => Tone::DarkGray,
    }
}

/// The pane's starting display level, from the configured log level. The pane
/// captures at `DEBUG`, so a more verbose configured level (`TRACE`) starts
/// clamped to `DEBUG`; `OFF` starts showing only errors.
pub open spec fn starting_level(configured: LevelFilter) -> Level {
    match configured {
        LevelFilter::Off => Level::Error,
        LevelFilter::UpTo(level) => if level == Level::Trace {
            Level::Debug
        } else {
            level
        },
    }
}

/// The pane's starting display level, from the configured log level.
pub fn initial_display_level(configured: LevelFilter) -> (res: Level)
    ensures
        res == starting_level(configured),
{
    match configured {
        LevelFilter::Off => Level::Error,
        LevelFilter::UpTo(Level::Trace) => Level::Debug,
        LevelFilter::UpTo(level) => level,
    }
}

/// What the interface draws its upstream from: what was named on the command
/// line, shown by its address (a local one by its port alone) or its command.
pub open spec fn source_for(
    choice: ChoiceView,
    adapter_log: Option<std::path::PathBuf>,
) -> SourceView {
    match (choice, transport_for(choice, adapter_log)) {
        (ChoiceView::Attach(host, port), Some(transport)) => SourceView::Configured {
            transport,
            label: if host == "127.0.0.1"@ {
                decimal(port as nat)
            } else {
                host + ":"@ + decimal(port as nat)
            },
        },
        (ChoiceView::Spawn { command, .. }, Some(transport)) => SourceView::Configured {
            transport,
            label: command,
        },
        _ => SourceView::Interactive,
    }
}

impl Upstream {
    /// A command-line upstream — attach or spawn — is connected automatically;
    /// only when none was named does the interface prompt for an attach address.
    pub fn from_config(config: &ResolvedConfig) -> (res: Upstream)
        ensures
            res@ == source_for(config.upstream@, config.adapter_log),
    {
        match &config.upstream {
            UpstreamChoice::Attach(host, port) => {
                let digits = decimal_string(*port as u64);
                let label = if host.as_str().eq("127.0.0.1") {
                    digits
                } else {
                    let mut label = host.clone();
                    label.append(":");
                    label.append(digits.as_str());
                    label
                };
                Upstream::Configured {
                    transport: UpstreamTransport::tcp(host.clone(), *port),
                    label,
                }
            },
            UpstreamChoice::Spawn { command, args } => Upstream::Configured {
                transport: UpstreamTransport::stdio(
                    command.clone(),
                    clone_strings(args),
                    clone_path(&config.adapter_log),
                ),
                label: command.clone(),
            },
            UpstreamChoice::Interactive => Upstream::Interactive,
        }
    }
}

/// How to set the interface up.
#[derive(Debug, Clone, Copy, PartialEq, Eq, Structural)]
pub struct UiPlan {
    /// The port to listen for clients on (0 = OS-assigned).
    pub listen_port: u16,
    /// The level that the pane starts at.
    pub display_level: Level,
    /// What the pane captures, regardless of the configured level (which still
    /// governs the file sink), so the operator can raise verbosity at runtime
    /// without a restart.
    pub capture: LevelFilter,
    /// How many lines the pane retains.
    pub retained_lines: usize,
}

/// Plan how to set the interface up for a validated invocation.
pub fn ui_plan(config: &ResolvedConfig) -> (plan: UiPlan)
    ensures
        plan.listen_port == (match config.downstream.tcp {
            Some(port) => port,
            None => 0,
        }),
        plan.display_level == starting_level(config.level),
        plan.capture == LevelFilter::UpTo(Level::Debug),
        plan.retained_lines == 1000,
{
    UiPlan {
        // `--ui` always resolves to a TCP host, so the listener port is present.
        listen_port: match config.downstream.tcp {
            Some(port) => port,
            None => 0,
        },
        display_level: initial_display_level(config.level),
        capture: LevelFilter::UpTo(Level::Debug),
        retained_lines: 1000,
    }
}

/// `text`, followed by as many spaces as it takes to fill `width` characters.
pub open spec fn padded(text: Seq<char>, width: nat) -> Seq<char>
    decreases width - text.len(),
{
    if text.len() >= width {
        text
    } else {
        padded(text.push(' '), width)
    }
}

/// Follow `text` with as many spaces as it takes to fill `width` characters.
fn pad(text: &str, width: usize) -> (res: String)
    ensures
        res@ == padded(text@, width as nat),
{
    let mut res = text.to_owned();
    let mut length: usize = chars_of(text).len();
    while length < width
        invariant
            length == res@.len(),
            padded(res@, width as nat) == padded(text@, width as nat),
        decreases width - length,
    {
        res.push(' ');
        length += 1;
    }
    res
}

/// How a client is shown: by the name it gave, or else by its id.
pub open spec fn client_text(info: ClientInfo) -> Seq<char> {
    " "@ + padded(
        match info.name {
            Some(name) => name@,
            None => info.id@,
        },
        14,
    ) + " "@
}

/// How a client is shown: by the name it gave, or else by its id.
pub fn client_label(info: &ClientInfo) -> (res: String)
    ensures
        res@ == client_text(*info),
{
    let name = match &info.name {
        Some(name) => pad(name.as_str(), 14),
        None => pad(info.id.as_str(), 14),
    };
    let mut res = " ".to_owned();
    res.append(name.as_str());
    res.append(" ");
    res
}

/// Whether a client has initialized, and the colour to say so in.
pub fn client_status(info: &ClientInfo) -> (res: (&'static str, Tone))
    ensures
        res.0@ == (if info.initialized {
            "initialized"@
        } else {
            "connecting"@
        }),
        res.1 == (if info.initialized {
            Tone::Green
        } else {
            Tone::Yellow
        }),
{
    if info.initialized {
        ("initialized", Tone::Green)
    } else {
        ("connecting", Tone::Yellow)
    }
}

/// Whether the adapter is connected, and the colour to say so in.
pub fn upstream_status(connected: bool) -> (res: (&'static str, Tone))
    ensures
        res.0@ == (if connected {
            "connected"@
        } else {
            "lost"@
        }),
        res.1 == (if connected {
            Tone::Green
        } else {
            Tone::Red
        }),
{
    if connected {
        ("connected", Tone::Green)
    } else {
        ("lost", Tone::Red)
    }
}

/// The level of a log line as it is shown.
pub fn level_label(level: Level) -> (res: String)
    ensures
        res@ == padded(level.name(), 5) + " "@,
{
    let mut res = pad(level.as_str(), 5);
    res.append(" ");
    res
}

/// Whether a log line is the adapter's output, not one of the mux's own logs.
pub fn is_adapter_line(line: &LogLine) -> (res: bool)
    ensures
        res == (line.target@ == "adapter"@),
{
    line.target.as_str().eq("adapter")
}

/// Picks the lines that are at most as verbose as `limit`.
pub open spec fn shown_at(limit: Level) -> spec_fn(LineView) -> bool {
    |line: LineView| line.level.rank() <= limit.rank()
}

impl AppView {
    /// The session's state in words, and the colour to say so in.
    pub open spec fn header(self, phase: SessionPhase) -> (Seq<char>, Tone) {
        match self.state {
            StateView::Idle => ("idle — not connected"@, Tone::Gray),
            StateView::Connecting(target) => ("connecting to "@ + target + "…"@, Tone::Yellow),
            StateView::Connected(target) => (
                "connected to "@ + target + " — "@ + phase_name(phase),
                Tone::Green,
            ),
        }
    }

    /// The help line.
    pub open spec fn help(self) -> Seq<char> {
        match self.state {
            StateView::Idle => if self.upstream is Interactive {
                "type address · Enter connect · Esc/Ctrl-C quit"@
            } else {
                "Enter connect · Esc/Ctrl-C quit"@
            },
            StateView::Connecting(_) => "connecting… · Esc/q/Ctrl-C quit"@,
            StateView::Connected(_) => "session live · +/- log level · Esc/q/Ctrl-C quit"@,
        }
    }

    /// The address field: a fixed target, or the address typed, with a cursor
    /// mark while it can be edited.
    pub open spec fn address_field(self) -> (Seq<char>, Seq<char>) {
        if self.upstream is Interactive {
            (
                "  address: "@,
                if self.state is Idle {
                    self.input + "\u{2588}"@
                } else {
                    self.input
                },
            )
        } else {
            ("  upstream: "@, self.input)
        }
    }

    /// The log lines shown on `rows` rows: the most recent of those that are
    /// not too verbose.
    pub open spec fn visible(self, lines: Seq<LineView>, rows: nat) -> Seq<LineView> {
        most_recent(lines.filter(shown_at(self.display_level)), rows)
    }
}

impl App {
    /// Whether the session view is shown; otherwise the connect screen is.
    pub fn shows_session(&self) -> (res: bool)
        ensures
            res == (self@.state is Connected),
    {
        match &self.state {
            AppState::Connected { .. } => true,
            _ => false,
        }
    }

    /// The port that clients connect on.
    pub fn port(&self) -> (res: u16)
        ensures
            res == self@.port,
    {
        self.port
    }

    /// The pane shows lines at this level or more severe.
    pub fn display_level(&self) -> (res: Level)
        ensures
            res == self@.display_level,
    {
        self.display_level
    }

    /// One-line feedback.
    pub fn status(&self) -> (res: &str)
        ensures
            res@ == self@.status,
    {
        self.status.as_str()
    }

    /// The session's state in words, and the colour to say so in.
    pub fn header(&self, phase: SessionPhase) -> (res: (String, Tone))
        ensures
            (res.0@, res.1) == self@.header(phase),
    {
        match &self.state {
            AppState::Idle => ("idle — not connected".to_owned(), Tone::Gray),
            AppState::Connecting { target } => {
                let mut label = "connecting to ".to_owned();
                label.append(target.as_str());
                label.append("…");
                (label, Tone::Yellow)
            },
            AppState::Connected { target } => {
                let mut label = "connected to ".to_owned();
                label.append(target.as_str());
                label.append(" — ");
                label.append(phase_label(phase));
                (label, Tone::Green)
            },
        }
    }

    /// The help line.
    pub fn help(&self) -> (res: &'static str)
        ensures
            res@ == self@.help(),
    {
        match (&self.state, &self.upstream) {
            (AppState::Idle, Upstream::Interactive) =>
                "type address · Enter connect · Esc/Ctrl-C quit",
            (AppState::Idle, Upstream::Configured { .. }) => "Enter connect · Esc/Ctrl-C quit",
            (AppState::Connecting { .. }, _) => "connecting… · Esc/q/Ctrl-C quit",
            (AppState::Connected { .. }, _) => "session live · +/- log level · Esc/q/Ctrl-C quit",
        }
    }

    /// The label of the address field, and what is in it.
    pub fn address_field(&self) -> (res: (&'static str, String))
        ensures
            (res.0@, res.1@) == self@.address_field(),
    {
        match &self.upstream {
            Upstream::Interactive => {
                let mut input = self.input.clone();
                if !self.has_session() {
                    // A simple cursor marker; raw mode hides the real cursor.
                    input.append("\u{2588}");
                }
                ("  address: ", input)
            },
            Upstream::Configured { .. } => ("  upstream: ", self.input.clone()),
        }
    }

    /// The log lines to show on a pane of `height` rows, of which its borders
    /// take two.
    pub fn visible_logs(&self, lines: &Vec<LogLine>, height: u16) -> (res: Vec<LogLine>)
        ensures
            lines_view(res@) == self@.visible(
                lines_view(lines@),
                if height >= 2 {
                    (height - 2) as nat
                } else {
                    0
                },
            ),
    {
        let rows: usize = if height >= 2 {
            (height - 2) as usize
        } else {
            0
        };
        let ghost views = lines_view(lines@);
        let ghost keep = shown_at(self.display_level);
        let mut shown: Vec<LogLine> = Vec::new();
        let mut i: usize = 0;
        proof {
            reveal(Seq::filter);
            assert(views.take(0) =~= Seq::empty());
            assert(lines_view(shown@) =~= views.take(0).filter(keep));
        }
        while i < lines.len()
            invariant
                i <= lines@.len(),
                views == lines_view(lines@),
                keep == shown_at(self.display_level),
                lines_view(shown@) == views.take(i as int).filter(keep),
            decreases lines@.len() - i,
        {
            let ghost before = shown@;
            proof {
                reveal(Seq::filter);
                assert(views[i as int] == lines@[i as int]@);
                assert(views.take(i + 1).drop_last() =~= views.take(i as int));
            }
            if lines[i].level.within(self.display_level) {
                shown.push(lines[i].clone());
                assert(lines_view(shown@) =~= lines_view(before).push(views[i as int]));
            }
            i += 1;
        }
        assert(views.take(views.len() as int) =~= views);
        let start: usize = if shown.len() > rows {
            shown.len() - rows
        } else {
            0
        };
        let mut res: Vec<LogLine> = Vec::new();
        let mut k: usize = start;
        while k < shown.len()
            invariant
                start <= k <= shown@.len(),
                res@.len() == k - start,
                forall|j: int| 0 <= j < res@.len() ==> (#[trigger] res@[j])@ == shown@[start + j]@,
            decreases shown@.len() - k,
        {
            res.push(shown[k].clone());
            k += 1;
        }
        assert(lines_view(res@) =~= most_recent(lines_view(shown@), rows as nat));
        res
    }
}

// ---------------------------------------------------------------------------
// Laws
// ---------------------------------------------------------------------------

/// Stepping the verbosity stays within what the pane captures, moves by the
/// step where there is room for it, and never moves the wrong way.
pub proof fn lemma_verbosity_saturates(level: Level, step: int)
    requires
        level != Level::Trace,
    ensures
        1 <= stepped(level, step).rank() <= 4,
        1 <= level.rank() + step <= 4 ==> stepped(level, step).rank() == level.rank() + step,
        step >= 0 ==> stepped(level, step).rank() >= level.rank(),
        step <= 0 ==> stepped(level, step).rank() <= level.rank(),
{
}

/// The pane captures every level that the operator can bring it to show.
pub proof fn lemma_pane_captures_what_it_shows(configured: LevelFilter, step: int)
    ensures
        LevelFilter::UpTo(Level::Debug).lets_through(starting_level(configured)),
        LevelFilter::UpTo(Level::Debug).lets_through(stepped(starting_level(configured), step)),
{
}

/// Ctrl-C quits whatever the operator is doing.
pub proof fn lemma_control_c_always_quits(view: AppView)
    ensures
        view.pressed(Key::Char('c'), true).0.should_quit,
{
}

/// Connecting, losing the adapter and connecting again is a loop: after a lost
/// session the interface is idle, and Enter connects to the configured target
/// once more.
pub proof fn lemma_lost_session_can_be_resumed(view: AppView, target: Seq<char>)
    requires
        view.state == StateView::Connected(target),
        view.upstream is Configured,
    ensures
        ({
            let (idle, action) = view.observed(Observation::Upstream(false));
            let (again, request) = idle.pressed(Key::Enter, false);
            &&& action == AppActionView::EndSession
            &&& idle.state is Idle
            &&& !idle.should_quit || view.should_quit
            &&& again.state == StateView::Connecting(view.upstream->label)
            &&& request == AppActionView::Connect(view.upstream->transport)
        }),
{
}

/// Typing a character and deleting it again leaves the address as it was.
pub proof fn lemma_backspace_undoes_typing(view: AppView, c: char)
    requires
        view.state is Idle,
        view.upstream is Interactive,
    ensures
        view.pressed(Key::Char(c), false).0.pressed(Key::Backspace, false).0.input == view.input,
{
    assert(view.input.push(c).drop_last() =~= view.input);
}

/// Esc asks to quit in every state of the interface, and so does `q` while
/// connecting or connected; Ctrl-C always does. Asking to quit changes nothing
/// else. No other key asks to quit, and no key takes it back.
pub proof fn lemma_quitting(view: AppView, key: Key, control: bool)
    ensures
        ({
            let asked = (AppView { should_quit: true, ..view }, AppActionView::Nothing);
            &&& view.pressed(Key::Esc, control) == asked
            &&& !(view.state is Idle) ==> view.pressed(Key::Char('q'), control) == asked
            &&& view.pressed(Key::Char('c'), true) == asked
        }),
        view.should_quit ==> view.pressed(key, control).0.should_quit,
        !view.should_quit && view.pressed(key, control).0.should_quit ==> {
            ||| key == Key::Esc
            ||| key == Key::Char('q') && !(view.state is Idle)
            ||| key == Key::Char('c') && control
        },
{
}

/// On the connect screen of an interactive upstream a character is added to the
/// end of the address and Backspace takes the last one off; nothing else
/// changes. A configured target cannot be edited, and there is nothing to take
/// off an empty address.
pub proof fn lemma_typing(view: AppView, c: char, control: bool)
    requires
        view.state is Idle,
    ensures
        ({
            let same = (view, AppActionView::Nothing);
            let interactive = view.upstream is Interactive;
            let typed = view.pressed(Key::Char(c), control);
            let erased = view.pressed(Key::Backspace, control);
            &&& interactive && !(control && c == 'c') ==> typed == (
                AppView { input: view.input + seq![c], ..view },
                AppActionView::Nothing,
            )
            &&& !interactive && !(control && c == 'c') ==> typed == same
            &&& interactive && view.input.len() > 0 ==> erased == (
                AppView { input: view.input.take(view.input.len() - 1), ..view },
                AppActionView::Nothing,
            )
            &&& !interactive || view.input.len() == 0 ==> erased == same
            &&& view.pressed(Key::Other, control) == same
        }),
{
    assert(view.input.push(c) =~= view.input + seq![c]);
    if view.input.len() > 0 {
        assert(view.input.drop_last() =~= view.input.take(view.input.len() - 1));
    }
}

/// While connecting or connected, `+` shows the next more verbose level and `-`
/// the next less verbose one, up to what the pane captures; every key that does
/// not ask to quit is ignored otherwise.
pub proof fn lemma_session_keys(view: AppView, key: Key, control: bool)
    requires
        !(view.state is Idle),
    ensures
        view.pressed(Key::Char('+'), control) == (
            AppView {
                display_level: match view.display_level {
                    Level::Error => Level::Warn,
                    Level::Warn => Level::Info,
                    Level::Info => Level::Debug,
                    Level::Debug => Level::Debug,
                    Level::Trace => Level::Trace,
                },
                ..view
            },
            AppActionView::Nothing,
        ),
        view.pressed(Key::Char('-'), control) == (
            AppView {
                display_level: match view.display_level {
                    Level::Error => Level::Error,
                    Level::Warn => Level::Error,
                    Level::Info => Level::Warn,
                    Level::Debug => Level::Info,
                    Level::Trace => Level::Trace,
                },
                ..view
            },
            AppActionView::Nothing,
        ),
        key != Key::Esc && key != Key::Char('q') && key != Key::Char('+') && key != Key::Char('-')
            && !(control && key == Key::Char('c')) ==> view.pressed(key, control) == (
            view,
            AppActionView::Nothing,
        ),
{
}

/// A step past either end of what the pane captures ends there.
pub proof fn lemma_verbosity_ends(level: Level, step: int)
    ensures
        level != Level::Trace && step >= 3 ==> stepped(level, step) == Level::Debug,
        level != Level::Trace && step <= -3 ==> stepped(level, step) == Level::Error,
        level != Level::Trace && step == 0 ==> stepped(level, step) == level,
        stepped(Level::Trace, step) == Level::Trace,
        stepped(Level::Error, 1) == Level::Warn,
        stepped(Level::Error, 2) == Level::Info,
        stepped(Level::Warn, 1) == Level::Info,
        stepped(Level::Warn, 2) == Level::Debug,
        stepped(Level::Info, 1) == Level::Debug,
        stepped(Level::Info, 2) == Level::Debug,
        stepped(Level::Debug, 1) == Level::Debug,
        stepped(Level::Debug, -1) == Level::Info,
        stepped(Level::Debug, -2) == Level::Warn,
        stepped(Level::Info, -1) == Level::Warn,
        stepped(Level::Info, -2) == Level::Error,
        stepped(Level::Warn, -1) == Level::Error,
        stepped(Level::Warn, -2) == Level::Error,
        stepped(Level::Error, -1) == Level::Error,
{
}

/// What starting to connect to `target` makes of the interface.
pub open spec fn dialling(view: AppView, target: Seq<char>) -> AppView {
    AppView {
        port: view.port,
        display_level: view.display_level,
        state: StateView::Connecting(target),
        upstream: view.upstream,
        input: view.input,
        status: "Connecting to "@ + target + "… (retrying until the adapter is ready)"@,
        should_quit: view.should_quit,
    }
}

/// A configured target is connected to as soon as the interface starts, and
/// again whenever Enter is pressed while idle; an interactive interface starts
/// by waiting. Enter does nothing while connecting or connected.
pub proof fn lemma_configured_target_is_connected_to(
    view: AppView,
    transport: TransportView,
    label: Seq<char>,
    control: bool,
)
    ensures
        view.upstream == (SourceView::Configured { transport, label }) ==> {
            let asked = (dialling(view, label), AppActionView::Connect(transport));
            &&& view.started() == asked
            &&& view.state is Idle ==> view.pressed(Key::Enter, control) == asked
        },
        view.upstream is Interactive ==> view.started() == (view, AppActionView::Nothing),
        !(view.state is Idle) ==> view.pressed(Key::Enter, control) == (
            view,
            AppActionView::Nothing,
        ),
{
}

/// Enter on the connect screen of an interactive upstream connects to the
/// address typed, whatever white space is around it, for ten seconds, ten times
/// a second; an address that is empty, or that has no valid port, is reported
/// and nothing else happens.
pub proof fn lemma_typed_address_is_connected_to(
    view: AppView,
    host: Seq<char>,
    port: u16,
    control: bool,
)
    requires
        view.state is Idle,
        view.upstream is Interactive,
    ensures
        ({
            let entry = trimmed(view.input);
            let (after, action) = view.pressed(Key::Enter, control);
            &&& entry.len() == 0 ==> after == (AppView {
                status: "Enter an address first (PORT or HOST:PORT)."@,
                ..view
            }) && action is Nothing
            &&& entry.len() > 0 && attach_reading(entry) == Ok::<
                (Seq<char>, u16),
                ConfigFault,
            >((host, port)) ==> after == dialling(view, host + ":"@ + decimal(port as nat))
                && action == AppActionView::Connect(
                TransportView::Tcp {
                    host,
                    port,
                    retry_timeout: Duration { nanos: 10_000_000_000 },
                    retry_interval: Duration { nanos: 100_000_000 },
                },
            )
            &&& entry.len() > 0 && attach_reading(entry) is Err ==> after == (AppView {
                status: "invalid port in attach address: "@ + quoted(entry),
                ..view
            }) && action is Nothing
        }),
{
}

/// A host and a port, typed with a colon between them, are what Enter connects
/// to; the target is shown as it was typed.
pub proof fn lemma_host_and_port_typed(view: AppView, host: Seq<char>, port: u16)
    requires
        view.state is Idle,
        view.upstream is Interactive,
        host.len() > 0,
        !is_white_code(host[0] as int),
        view.input == host + ":"@ + decimal(port as nat),
    ensures
        ({
            let (after, action) = view.pressed(Key::Enter, false);
            &&& after == dialling(view, view.input)
            &&& action matches AppActionView::Connect(
                TransportView::Tcp { host: at, port: on, .. },
            ) && at == host && on == port
        }),
{
    let digits = decimal(port as nat);
    let typed = view.input;
    reveal_strlit(":");
    assert(":"@ =~= seq![':']);
    lemma_decimal_is_plain(port as nat);
    lemma_decimal_reads_back(port as nat);
    lemma_attach_reads_back(host, port);
    assert(typed[0] == host[0]);
    assert(typed.last() == digits.last());
    assert('0' <= digits[digits.len() - 1] <= '9');
    assert(leading_spaces(typed) == 0);
    assert(typed.skip(0) =~= typed);
    assert(trimmed(typed) == typed);
}

/// What is observed of the connection has an effect only where it belongs: a
/// connect attempt that succeeds opens the session and has clients accepted,
/// one that fails or is given up leads back to the connect screen, and a lost
/// adapter ends the session. Each is told the operator; the port, the level,
/// the upstream, the address and the wish to quit stay as they are.
pub proof fn lemma_observations(
    view: AppView,
    observation: Observation,
    target: Seq<char>,
    reason: String,
)
    ensures
        view.state == StateView::Connecting(target) ==> {
            &&& view.observed(Observation::Connected) == (
                AppView {
                    state: StateView::Connected(target),
                    status: "Connected to "@ + target + ". Clients may connect on 127.0.0.1:"@
                        + decimal(view.port as nat) + "."@,
                    ..view
                },
                AppActionView::AcceptClients,
            )
            &&& view.observed(Observation::ConnectFailed(reason)) == (
                AppView {
                    state: StateView::Idle,
                    status: "Connect to "@ + target + " failed: "@ + reason@,
                    ..view
                },
                AppActionView::Nothing,
            )
            &&& view.observed(Observation::ConnectAborted) == (
                AppView {
                    state: StateView::Idle,
                    status: "Connect to "@ + target + " aborted."@,
                    ..view
                },
                AppActionView::Nothing,
            )
        },
        view.state == StateView::Connected(target) ==> view.observed(Observation::Upstream(false))
            == (
            AppView {
                state: StateView::Idle,
                status: "Session with "@ + target
                    + " ended (adapter connection lost). Press Enter to connect again, Esc to quit."@,
                ..view
            },
            AppActionView::EndSession,
        ),
        ({
            ||| view.state is Idle
            ||| view.state is Connecting && (observation is StillConnecting
                || observation is Upstream)
            ||| view.state is Connected && observation != Observation::Upstream(false)
        }) ==> view.observed(observation) == (view, AppActionView::Nothing),
{
}

/// The interface starts idle, with the wish to quit not uttered: on the
/// configured target, or on an empty address.
pub proof fn lemma_interface_starts_idle(
    port: u16,
    display_level: Level,
    transport: TransportView,
    label: Seq<char>,
)
    ensures
        AppView::fresh(port, SourceView::Configured { transport, label }, display_level) == (
        AppView {
            port,
            display_level,
            state: StateView::Idle,
            upstream: SourceView::Configured { transport, label },
            input: label,
            status: "Connecting to "@ + label + "…"@,
            should_quit: false,
        }),
        AppView::fresh(port, SourceView::Interactive, display_level) == (AppView {
            port,
            display_level,
            state: StateView::Idle,
            upstream: SourceView::Interactive,
            input: Seq::empty(),
            status: "Enter an upstream address (PORT or HOST:PORT) and press Enter."@,
            should_quit: false,
        }),
{
}

/// The pane starts at the configured level, at `DEBUG` where `TRACE` was asked
/// for, and at errors alone where nothing was.
pub proof fn lemma_starting_levels()
    ensures
        starting_level(LevelFilter::Off) == Level::Error,
        starting_level(LevelFilter::UpTo(Level::Error)) == Level::Error,
        starting_level(LevelFilter::UpTo(Level::Warn)) == Level::Warn,
        starting_level(LevelFilter::UpTo(Level::Info)) == Level::Info,
        starting_level(LevelFilter::UpTo(Level::Debug)) == Level::Debug,
        starting_level(LevelFilter::UpTo(Level::Trace)) == Level::Debug,
{
}

/// How phases and levels are shown.
pub proof fn lemma_names_and_colours()
    ensures
        phase_name(SessionPhase::PreInit) == "pre-init"@,
        phase_name(SessionPhase::Initializing) == "initializing"@,
        phase_name(SessionPhase::Initialized) == "initialized"@,
        phase_name(SessionPhase::Configured) == "configured"@,
        level_tone(Level::Error) == Tone::Red,
        level_tone(Level::Warn) == Tone::Yellow,
        level_tone(Level::Info) == Tone::White,
        level_tone(Level::Debug) == Tone::DarkGray,
        level_tone(Level::Trace) == Tone::DarkGray,
{
}

/// Where the interface draws its upstream from: the address or the command
/// named, shown by the port alone where the host is this one, by host and port
/// otherwise, and by the command; without either it asks.
pub proof fn lemma_sources(
    host: Seq<char>,
    port: u16,
    command: Seq<char>,
    args: Seq<Seq<char>>,
    adapter_log: Option<std::path::PathBuf>,
)
    ensures
        source_for(ChoiceView::Attach(host, port), adapter_log) == (SourceView::Configured {
            transport: TransportView::Tcp {
                host,
                port,
                retry_timeout: Duration { nanos: 10_000_000_000 },
                retry_interval: Duration { nanos: 100_000_000 },
            },
            label: if host == "127.0.0.1"@ {
                decimal(port as nat)
            } else {
                host + ":"@ + decimal(port as nat)
            },
        }),
        source_for(ChoiceView::Spawn { command, args }, adapter_log) == (SourceView::Configured {
            transport: TransportView::Stdio { command, args, adapter_log },
            label: command,
        }),
        source_for(ChoiceView::Interactive, adapter_log) is Interactive,
{
}

/// Padding keeps the text and follows it with spaces alone, as many as it takes
/// to fill the width and no more.
pub proof fn lemma_padding(text: Seq<char>, width: nat)
    ensures
        padded(text, width).len() == (if text.len() >= width {
            text.len()
        } else {
            width
        }),
        padded(text, width).take(text.len() as int) == text,
        forall|i: int|
            text.len() <= i < padded(text, width).len() ==> #[trigger] padded(text, width)[i]
                == ' ',
    decreases width - text.len(),
{
    if text.len() < width {
        let more = text.push(' ');
        lemma_padding(more, width);
        let full = padded(text, width);
        assert(full == padded(more, width));
        assert forall|i: int| 0 <= i < more.len() implies #[trigger] full[i] == more[i] by {
            assert(full.take(more.len() as int)[i] == full[i]);
        }
        assert(full.take(text.len() as int) =~= text);
        assert(full[text.len() as int] == ' ');
    } else {
        assert(text.take(text.len() as int) =~= text);
    }
}

/// A client is shown by the name it gave, and by its id only where it gave
/// none, in a field of fourteen characters with a space on either side.
pub proof fn lemma_clients_are_shown_by_name(info: ClientInfo)
    ensures
        ({
            let shown = match info.name {
                Some(name) => name@,
                None => info.id@,
            };
            let text = client_text(info);
            let width = if shown.len() > 14 {
                shown.len()
            } else {
                14
            };
            &&& text.len() == width + 2
            &&& text[0] == ' '
            &&& text.subrange(1, 1 + shown.len() as int) == shown
            &&& forall|i: int| 1 + shown.len() <= i < text.len() ==> #[trigger] text[i] == ' '
        }),
{
    let shown = match info.name {
        Some(name) => name@,
        None => info.id@,
    };
    let text = client_text(info);
    let field = padded(shown, 14);
    reveal_strlit(" ");
    lemma_padding(shown, 14);
    assert(text =~= seq![' '] + field + seq![' ']);
    assert(text.subrange(1, 1 + shown.len() as int) =~= field.take(shown.len() as int));
    assert forall|i: int| 1 + shown.len() <= i < text.len() implies #[trigger] text[i] == ' ' by {
        if i <= field.len() {
            assert(text[i] == field[i - 1]);
        }
    }
}

/// Whether a line of `level` is shown where the pane shows up to `limit`: one
/// that is as severe, or more.
pub open spec fn is_severe_enough(level: Level, limit: Level) -> bool {
    match limit {
        Level::Error => level is Error,
        Level::Warn => level is Error || level is Warn,
        Level::Info => level is Error || level is Warn || level is Info,
        Level::Debug => !(level is Trace),
        Level::Trace => true,
    }
}

/// The pane shows lines that are as severe as the level it is set to, or more,
/// in the order they came; where they are too many for the rows, the first of
/// them are left out and no others.
pub proof fn lemma_pane_shows_the_latest(view: AppView, lines: Seq<LineView>, rows: nat)
    ensures
        ({
            let kept = lines.filter(
                |line: LineView| is_severe_enough(line.level, view.display_level),
            );
            view.visible(lines, rows) == kept.skip(
                if kept.len() > rows {
                    kept.len() - rows
                } else {
                    0
                },
            )
        }),
{
    let pred = |line: LineView| is_severe_enough(line.level, view.display_level);
    assert(pred =~= shown_at(view.display_level));
    let kept = lines.filter(pred);
    assert(kept.skip(0) =~= kept);
}

/// The header says in words what the operator is doing, in a colour of its own.
pub proof fn lemma_header_says(view: AppView, phase: SessionPhase, target: Seq<char>)
    ensures
        view.state is Idle ==> view.header(phase) == ("idle — not connected"@, Tone::Gray),
        view.state == StateView::Connecting(target) ==> view.header(phase) == (
            "connecting to "@ + target + "…"@,
            Tone::Yellow,
        ),
        view.state == StateView::Connected(target) ==> view.header(phase) == (
            "connected to "@ + target + " — "@ + (match phase {
                SessionPhase::PreInit => "pre-init"@,
                SessionPhase::Initializing => "initializing"@,
                SessionPhase::Initialized => "initialized"@,
                SessionPhase::Configured => "configured"@,
            }),
            Tone::Green,
        ),
{
}

/// The help line names the keys that work in the state it is shown in.
pub proof fn lemma_help_says(view: AppView)
    ensures
        view.state is Idle && view.upstream is Interactive ==> view.help()
            == "type address · Enter connect · Esc/Ctrl-C quit"@,
        view.state is Idle && view.upstream is Configured ==> view.help()
            == "Enter connect · Esc/Ctrl-C quit"@,
        view.state is Connecting ==> view.help() == "connecting… · Esc/q/Ctrl-C quit"@,
        view.state is Connected ==> view.help()
            == "session live · +/- log level · Esc/q/Ctrl-C quit"@,
{
}

/// The address field shows what is in it, with a cursor mark after it exactly
/// while it can be edited.
pub proof fn lemma_address_field_shows(view: AppView)
    ensures
        view.upstream is Configured ==> view.address_field() == ("  upstream: "@, view.input),
        view.upstream is Interactive && view.state is Idle ==> view.address_field() == (
            "  address: "@,
            view.input + "\u{2588}"@,
        ),
        view.upstream is Interactive && !(view.state is Idle) ==> view.address_field() == (
            "  address: "@,
            view.input,
        ),
{
}

/// Whether a client has initialized is said in words and in a colour.
pub proof fn lemma_client_status_says(info: &ClientInfo, shown: (&'static str, Tone))
    requires
        call_ensures(client_status, (info,), shown),
    ensures
        info.initialized ==> shown.0@ == "initialized"@ && shown.1 == Tone::Green,
        !info.initialized ==> shown.0@ == "connecting"@ && shown.1 == Tone::Yellow,
{
}

/// Whether the adapter is connected is said in words and in a colour.
pub proof fn lemma_upstream_status_says(connected: bool, shown: (&'static str, Tone))
    requires
        call_ensures(upstream_status, (connected,), shown),
    ensures
        connected ==> shown.0@ == "connected"@ && shown.1 == Tone::Green,
        !connected ==> shown.0@ == "lost"@ && shown.1 == Tone::Red,
{
}

/// The interface listens on the port asked for, captures everything but traces,
/// retains a thousand lines, and starts at a level that it captures.
pub proof fn lemma_interface_plan(config: &ResolvedConfig, plan: UiPlan)
    requires
        call_ensures(ui_plan, (config,), plan),
    ensures
        config.downstream.tcp matches Some(port) ==> plan.listen_port == port,
        config.downstream.tcp is None ==> plan.listen_port == 0,
        plan.capture == LevelFilter::UpTo(Level::Debug),
        plan.capture.lets_through(plan.display_level),
        config.level == LevelFilter::UpTo(plan.display_level) || config.level is Off
            && plan.display_level == Level::Error || config.level == LevelFilter::UpTo(Level::Trace)
            && plan.display_level == Level::Debug,
        plan.retained_lines == 1000,
{
}

} // verus!
