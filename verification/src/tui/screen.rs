//! What the interface shows, line by line.
//!
//! A line is a sequence of [`Span`]s: texts with a colour and a weight. Where
//! the lines go on the terminal is left to the owner of the terminal.

use vstd::prelude::*;
use vstd::string::*;

use crate::level::Level;
use crate::mux::{ClientInfo, MuxSnapshot, SessionPhase};
use crate::text::{decimal, decimal_string};
use crate::tui::app::{
    client_label, client_status, client_text, is_adapter_line, level_color, level_label,
    level_tone, padded, phase_label, phase_name, upstream_status, App, AppView, Tone,
};
use crate::tui::log_buffer::{lines_view, LineView, LogLine};

verus! {

/// A text with a colour and a weight.
#[derive(Debug, PartialEq, Eq)]
pub struct Span {
    pub text: String,
    pub tone: Option<Tone>,
    pub bold: bool,
}

/// What a [`Span`] shows.
#[verifier::ext_equal]
pub struct SpanView {
    pub text: Seq<char>,
    pub tone: Option<Tone>,
    pub bold: bool,
}

impl View for Span {
    type V = SpanView;

    open spec fn view(&self) -> SpanView {
        SpanView { text: self.text@, tone: self.tone, bold: self.bold }
    }
}

/// What a line shows.
pub open spec fn spans_view(spans: Seq<Span>) -> Seq<SpanView> {
    spans.map_values(|span: Span| span@)
}

/// What a sequence of lines shows.
pub open spec fn rows_view(rows: Seq<Vec<Span>>) -> Seq<Seq<SpanView>> {
    rows.map_values(|row: Vec<Span>| spans_view(row@))
}

/// A text without a colour.
pub open spec fn plain(text: Seq<char>) -> SpanView {
    SpanView { text, tone: None, bold: false }
}

/// A text in a colour.
pub open spec fn toned(text: Seq<char>, tone: Tone) -> SpanView {
    SpanView { text, tone: Some(tone), bold: false }
}

fn add_span(spans: &mut Vec<Span>, text: String, tone: Option<Tone>, bold: bool)
    ensures
        spans_view(final(spans)@) == spans_view(old(spans)@).push(
            SpanView { text: text@, tone, bold },
        ),
{
    spans.push(Span { text, tone, bold });
    assert(spans_view(spans@) =~= spans_view(old(spans)@).push(
        SpanView { text: text@, tone, bold },
    ));
}

fn add_row(rows: &mut Vec<Vec<Span>>, row: Vec<Span>)
    ensures
        rows_view(final(rows)@) == rows_view(old(rows)@).push(spans_view(row@)),
{
    rows.push(row);
    assert(rows_view(rows@) =~= rows_view(old(rows)@).push(spans_view(row@)));
}

// ---------------------------------------------------------------------------
// The session
// ---------------------------------------------------------------------------

/// The line that sums up a session.
pub open spec fn summary_view(connected: bool, phase: SessionPhase, clients: nat) -> Seq<
    SpanView,
> {
    seq![
        plain(" upstream: "@),
        if connected {
            toned("connected"@, Tone::Green)
        } else {
            toned("lost"@, Tone::Red)
        },
        plain("   phase: "@),
        toned(phase_name(phase), Tone::Cyan),
        plain("   clients: "@ + decimal(clients)),
    ]
}

/// The line that sums up a session.
pub fn session_summary(snapshot: &MuxSnapshot) -> (res: Vec<Span>)
    ensures
        spans_view(res@) == summary_view(
            snapshot.upstream_connected,
            snapshot.phase,
            snapshot.clients@.len(),
        ),
{
    let mut res: Vec<Span> = Vec::new();
    let (upstream, tone) = upstream_status(snapshot.upstream_connected);
    let mut clients = "   clients: ".to_owned();
    clients.append(decimal_string(snapshot.clients.len() as u64).as_str());
    add_span(&mut res, " upstream: ".to_owned(), None, false);
    add_span(&mut res, upstream.to_owned(), Some(tone), false);
    add_span(&mut res, "   phase: ".to_owned(), None, false);
    add_span(&mut res, phase_label(snapshot.phase).to_owned(), Some(Tone::Cyan), false);
    add_span(&mut res, clients, None, false);
    assert(spans_view(res@) =~= summary_view(
        snapshot.upstream_connected,
        snapshot.phase,
        snapshot.clients@.len(),
    ));
    res
}

/// The line that shows a client.
pub open spec fn client_row(info: ClientInfo) -> Seq<SpanView> {
    seq![
        plain(client_text(info)),
        if info.initialized {
            toned("initialized"@, Tone::Green)
        } else {
            toned("connecting"@, Tone::Yellow)
        },
        plain("   pending: "@ + decimal(info.pending_requests as nat)),
    ]
}

/// The lines that show the clients, in connection order.
pub open spec fn client_rows(clients: Seq<ClientInfo>) -> Seq<Seq<SpanView>> {
    if clients.len() == 0 {
        seq![seq![toned(" (no clients connected)"@, Tone::DarkGray)]]
    } else {
        clients.map_values(|info: ClientInfo| client_row(info))
    }
}

/// The lines that show the clients, in connection order.
pub fn client_lines(snapshot: &MuxSnapshot) -> (res: Vec<Vec<Span>>)
    ensures
        rows_view(res@) == client_rows(snapshot.clients@),
{
    let mut res: Vec<Vec<Span>> = Vec::new();
    if snapshot.clients.len() == 0 {
        let mut row: Vec<Span> = Vec::new();
        add_span(&mut row, " (no clients connected)".to_owned(), Some(Tone::DarkGray), false);
        assert(spans_view(row@) =~= seq![toned(" (no clients connected)"@, Tone::DarkGray)]);
        add_row(&mut res, row);
        assert(rows_view(res@) =~= client_rows(snapshot.clients@));
        return res;
    }
    let mut i: usize = 0;
    while i < snapshot.clients.len()
        invariant
            i <= snapshot.clients@.len(),
            rows_view(res@) == snapshot.clients@.take(i as int).map_values(
                |info: ClientInfo| client_row(info),
            ),
        decreases snapshot.clients@.len() - i,
    {
        let info = &snapshot.clients[i];
        let (status, tone) = client_status(info);
        let mut pending = "   pending: ".to_owned();
        pending.append(decimal_string(info.pending_requests as u64).as_str());
        let mut row: Vec<Span> = Vec::new();
        add_span(&mut row, client_label(info), None, false);
        add_span(&mut row, status.to_owned(), Some(tone), false);
        add_span(&mut row, pending, None, false);
        assert(spans_view(row@) =~= client_row(*info));
        add_row(&mut res, row);
        assert(rows_view(res@) =~= snapshot.clients@.take(i + 1).map_values(
            |info: ClientInfo| client_row(info),
        ));
        i += 1;
    }
    assert(snapshot.clients@.take(snapshot.clients@.len() as int) =~= snapshot.clients@);
    res
}

// ---------------------------------------------------------------------------
// The log pane
// ---------------------------------------------------------------------------

/// The line that shows a log line. Adapter stderr is tagged so it reads as the
/// adapter's output, not the mux's own logs.
pub open spec fn log_row(line: LineView) -> Seq<SpanView> {
    let level = toned(padded(line.level.name(), 5) + " "@, level_tone(line.level));
    if line.target == "adapter"@ {
        seq![
            level,
            SpanView { text: "adapter "@, tone: Some(Tone::Magenta), bold: true },
            toned(line.text, Tone::Magenta),
        ]
    } else {
        seq![level, plain(line.text)]
    }
}

/// The line that shows a log line.
fn log_line(line: &LogLine) -> (row: Vec<Span>)
    ensures
        spans_view(row@) == log_row(line@),
{
    let mut row: Vec<Span> = Vec::new();
    add_span(&mut row, level_label(line.level), Some(level_color(line.level)), false);
    if is_adapter_line(line) {
        add_span(&mut row, "adapter ".to_owned(), Some(Tone::Magenta), true);
        add_span(&mut row, line.text.clone(), Some(Tone::Magenta), false);
    } else {
        add_span(&mut row, line.text.clone(), None, false);
    }
    assert(spans_view(row@) =~= log_row(line@));
    row
}

impl AppView {
    /// The header line.
    pub open spec fn header_row(self, phase: SessionPhase) -> Seq<SpanView> {
        seq![
            SpanView { text: "dap-mux operator"@, tone: None, bold: true },
            plain("  "@),
            toned(self.header(phase).0, self.header(phase).1),
        ]
    }

    /// The connect screen: the address field and the feedback, each after an
    /// empty line.
    pub open spec fn connect_rows(self) -> Seq<Seq<SpanView>> {
        seq![
            Seq::empty(),
            seq![toned(self.address_field().0, Tone::Cyan), plain(self.address_field().1)],
            Seq::empty(),
            seq![toned("  "@ + self.status, Tone::Yellow)],
        ]
    }

    /// The log pane on `rows` rows.
    pub open spec fn log_rows(self, lines: Seq<LineView>, rows: nat) -> Seq<Seq<SpanView>> {
        self.visible(lines, rows).map_values(|line: LineView| log_row(line))
    }
}

impl App {
    /// The title of the header: where clients connect.
    pub fn header_title(&self) -> (res: String)
        ensures
            res@ == " listening on 127.0.0.1:"@ + decimal(self@.port as nat) + " "@,
    {
        let mut res = " listening on 127.0.0.1:".to_owned();
        res.append(decimal_string(self.port() as u64).as_str());
        res.append(" ");
        res
    }

    /// The header line, for a session in `phase`.
    pub fn header_line(&self, phase: SessionPhase) -> (res: Vec<Span>)
        ensures
            spans_view(res@) == self@.header_row(phase),
    {
        let mut res: Vec<Span> = Vec::new();
        let (label, tone) = self.header(phase);
        add_span(&mut res, "dap-mux operator".to_owned(), None, true);
        add_span(&mut res, "  ".to_owned(), None, false);
        add_span(&mut res, label, Some(tone), false);
        assert(spans_view(res@) =~= self@.header_row(phase));
        res
    }

    /// The connect screen.
    pub fn connect_lines(&self) -> (res: Vec<Vec<Span>>)
        ensures
            rows_view(res@) == self@.connect_rows(),
    {
        let (label, input) = self.address_field();
        let mut address: Vec<Span> = Vec::new();
        add_span(&mut address, label.to_owned(), Some(Tone::Cyan), false);
        add_span(&mut address, input, None, false);
        let mut status = "  ".to_owned();
        status.append(self.status());
        let mut feedback: Vec<Span> = Vec::new();
        add_span(&mut feedback, status, Some(Tone::Yellow), false);
        let first: Vec<Span> = Vec::new();
        let second: Vec<Span> = Vec::new();
        proof {
            assert(spans_view(first@) =~= Seq::empty());
            assert(spans_view(second@) =~= Seq::empty());
            assert(spans_view(address@) =~= self@.connect_rows()[1]);
            assert(spans_view(feedback@) =~= self@.connect_rows()[3]);
        }
        let mut res: Vec<Vec<Span>> = Vec::new();
        add_row(&mut res, first);
        add_row(&mut res, address);
        add_row(&mut res, second);
        add_row(&mut res, feedback);
        assert(rows_view(res@) =~= self@.connect_rows());
        res
    }

    /// The title of the log pane: the level that it shows.
    pub fn logs_title(&self) -> (res: String)
        ensures
            res@ == " logs ["@ + self@.display_level.name() + "]  +/- verbosity "@,
    {
        let mut res = " logs [".to_owned();
        res.append(self.display_level().as_str());
        res.append("]  +/- verbosity ");
        res
    }

    /// The log pane, `height` rows high, of which its borders take two.
    pub fn log_lines(&self, lines: &Vec<LogLine>, height: u16) -> (res: Vec<Vec<Span>>)
        ensures
            rows_view(res@) == self@.log_rows(
                lines_view(lines@),
                if height >= 2 {
                    (height - 2) as nat
                } else {
                    0
                },
            ),
    {
        let visible = self.visible_logs(lines, height);
        let ghost views = lines_view(visible@);
        let mut res: Vec<Vec<Span>> = Vec::new();
        let mut i: usize = 0;
        while i < visible.len()
            invariant
                i <= visible@.len(),
                views == lines_view(visible@),
                rows_view(res@) == views.take(i as int).map_values(|line: LineView| log_row(line)),
            decreases visible@.len() - i,
        {
            assert(views[i as int] == visible@[i as int]@);
            add_row(&mut res, log_line(&visible[i]));
            assert(rows_view(res@) =~= views.take(i + 1).map_values(
                |line: LineView| log_row(line),
            ));
            i += 1;
        }
        assert(views.take(views.len() as int) =~= views);
        res
    }

    /// The help line.
    pub fn help_line(&self) -> (res: Vec<Span>)
        ensures
            spans_view(res@) == seq![toned(" "@ + self@.help(), Tone::DarkGray)],
    {
        let mut text = " ".to_owned();
        text.append(self.help());
        let mut res: Vec<Span> = Vec::new();
        add_span(&mut res, text, Some(Tone::DarkGray), false);
        assert(spans_view(res@) =~= seq![toned(" "@ + self@.help(), Tone::DarkGray)]);
        res
    }
}

// ---------------------------------------------------------------------------
// Laws
// ---------------------------------------------------------------------------

/// The line that sums up a session says whether the adapter is connected, in
/// green, or lost, in red, what phase the session is in, and how many clients
/// there are.
pub proof fn lemma_summary_says(connected: bool, phase: SessionPhase, clients: nat)
    ensures
        ({
            let row = summary_view(connected, phase, clients);
            &&& row.len() == 5
            &&& row[0] == (SpanView { text: " upstream: "@, tone: None, bold: false })
            &&& connected ==> row[1] == (SpanView {
                text: "connected"@,
                tone: Some(Tone::Green),
                bold: false,
            })
            &&& !connected ==> row[1] == (SpanView {
                text: "lost"@,
                tone: Some(Tone::Red),
                bold: false,
            })
            &&& row[2] == (SpanView { text: "   phase: "@, tone: None, bold: false })
            &&& row[3] == (SpanView {
                text: match phase {
                    SessionPhase::PreInit => "pre-init"@,
                    SessionPhase::Initializing => "initializing"@,
                    SessionPhase::Initialized => "initialized"@,
                    SessionPhase::Configured => "configured"@,
                },
                tone: Some(Tone::Cyan),
                bold: false,
            })
            &&& row[4] == (SpanView {
                text: "   clients: "@ + decimal(clients),
                tone: None,
                bold: false,
            })
        }),
{
}

/// Every client has a line of its own, in connection order, which says whether
/// it has initialized and how many of its requests are pending; without clients
/// there is one line that says so.
pub proof fn lemma_clients_shown(clients: Seq<ClientInfo>, i: int)
    ensures
        clients.len() == 0 ==> client_rows(clients) == seq![
            seq![
                SpanView {
                    text: " (no clients connected)"@,
                    tone: Some(Tone::DarkGray),
                    bold: false,
                },
            ],
        ],
        clients.len() > 0 ==> client_rows(clients).len() == clients.len(),
        0 <= i < clients.len() ==> {
            let row = client_rows(clients)[i];
            &&& row.len() == 3
            &&& row[0] == (SpanView { text: client_text(clients[i]), tone: None, bold: false })
            &&& clients[i].initialized ==> row[1] == (SpanView {
                text: "initialized"@,
                tone: Some(Tone::Green),
                bold: false,
            })
            &&& !clients[i].initialized ==> row[1] == (SpanView {
                text: "connecting"@,
                tone: Some(Tone::Yellow),
                bold: false,
            })
            &&& row[2] == (SpanView {
                text: "   pending: "@ + decimal(clients[i].pending_requests as nat),
                tone: None,
                bold: false,
            })
        },
{
}

/// Every line of the pane shows one log line, in order: its level in five
/// characters and the colour of the level, and its text. What the adapter wrote
/// is marked as the adapter's, and nothing else is.
pub proof fn lemma_log_lines_shown(view: AppView, lines: Seq<LineView>, rows: nat, i: int)
    ensures
        view.log_rows(lines, rows).len() == view.visible(lines, rows).len(),
        0 <= i < view.visible(lines, rows).len() ==> {
            let line = view.visible(lines, rows)[i];
            let row = view.log_rows(lines, rows)[i];
            let level = SpanView {
                text: padded(line.level.name(), 5) + " "@,
                tone: Some(
                    match line.level {
                        Level::Error => Tone::Red,
                        Level::Warn => Tone::Yellow,
                        Level::Info => Tone::White,
                        Level::Debug => Tone::DarkGray,
                        Level::Trace => Tone::DarkGray,
                    },
                ),
                bold: false,
            };
            &&& line.target == "adapter"@ ==> row == seq![
                level,
                SpanView { text: "adapter "@, tone: Some(Tone::Magenta), bold: true },
                SpanView { text: line.text, tone: Some(Tone::Magenta), bold: false },
            ]
            &&& line.target != "adapter"@ ==> row == seq![
                level,
                SpanView { text: line.text, tone: None, bold: false },
            ]
        },
{
}

/// The header line is the name of the program and what the operator is doing.
pub proof fn lemma_header_line_shows(view: AppView, phase: SessionPhase)
    ensures
        view.header_row(phase) == seq![
            SpanView { text: "dap-mux operator"@, tone: None, bold: true },
            SpanView { text: "  "@, tone: None, bold: false },
            SpanView {
                text: view.header(phase).0,
                tone: Some(view.header(phase).1),
                bold: false,
            },
        ],
{
}

/// The connect screen shows the address field and, below it, the feedback.
pub proof fn lemma_connect_screen_shows(view: AppView)
    ensures
        view.connect_rows() == seq![
            Seq::<SpanView>::empty(),
            seq![
                SpanView { text: view.address_field().0, tone: Some(Tone::Cyan), bold: false },
                SpanView { text: view.address_field().1, tone: None, bold: false },
            ],
            Seq::<SpanView>::empty(),
            seq![SpanView { text: "  "@ + view.status, tone: Some(Tone::Yellow), bold: false }],
        ],
{
}

/// Two views of a client that say the same look the same.
pub proof fn lemma_same_clients_look_the_same(one: ClientInfo, other: ClientInfo)
    requires
        one.says_same(other),
    ensures
        client_row(one) == client_row(other),
{
}

/// The titles say where clients connect and which level the pane shows.
pub proof fn lemma_titles(app: &App, header: String, logs: String)
    requires
        call_ensures(App::header_title, (app,), header),
        call_ensures(App::logs_title, (app,), logs),
    ensures
        header@ == " listening on 127.0.0.1:"@ + decimal(app@.port as nat) + " "@,
        logs@ == " logs ["@ + app@.display_level.name() + "]  +/- verbosity "@,
{
}

/// The help line is the help in a dark colour, after a space.
pub proof fn lemma_help_line_shows(app: &App, line: Vec<Span>)
    requires
        call_ensures(App::help_line, (app,), line),
    ensures
        spans_view(line@) == seq![
            SpanView { text: " "@ + app@.help(), tone: Some(Tone::DarkGray), bold: false },
        ],
{
}

} // verus!
