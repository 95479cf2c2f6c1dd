//! The DAP multiplexer: one upstream adapter, many downstream clients.
//!
//! Requests from clients are forwarded upstream with rewritten sequence
//! numbers. Responses are routed back to the originating client. Events are
//! broadcast to all connected clients. The mux owns the shared session
//! lifetime and replays state to late joiners.
//!
//! The [`Multiplexer`] decides; it owns no connection. Each input returns the
//! [`Action`]s that the owner of the connections is to perform, in order.

use std::collections::HashMap;

use vstd::prelude::*;
use vstd::std_specs::hash::*;
use vstd::string::*;
use vstd::utf8::*;

use crate::compat::{
    clients_view, error_text, is_known_reverse_request, is_reverse_request,
    pick_reverse_request_target, rewrite_stale_variable_error, should_filter_event,
};
use crate::json::{integer, integer_field, Json, JsonView};
use crate::laws::{
    lemma_adapter_message_keeps_order, lemma_adapter_response_keeps_order, lemma_answer_keeps_order,
    lemma_cleanup_keeps_order, lemma_client_message_keeps_order, lemma_commands_differ,
    lemma_leaving_keeps_order,
    lemma_new_client_is_fresh,
};
use crate::model::{
    acknowledgement, asks, client_name, command_or_unknown, display_name, event, farewells,
    from_others, initialize_refusal, loss_notice, other_than, own_seq, refusal, response,
    restart_refusal, reverse_failure, waits, was_named,
    ActionView, ClientView, Input, MuxView, ReverseView,
};
use crate::owned::{lemma_in_order, lists, numbers_in_order, numbers_of, Owned};
use crate::owners::{
    lemma_new_client_is_idle, lemma_owners_are_present, lemma_owners_were_present,
};
use crate::protocol::{has_kind, is_event, is_request, is_response, DapMessage};
use crate::seq::SeqMap;
use crate::text::{ascii_lowercased, decimal_string, lowercased};

verus! {

broadcast use {group_hash_axioms, vstd::set::group_set_axioms};

/// Linear phases of a DAP session, in order of progression.
#[derive(Debug, Clone, Copy, PartialEq, Eq, PartialOrd, Ord, Structural)]
pub enum SessionPhase {
    /// Nothing initialized yet.
    PreInit,
    /// First `initialize` forwarded, awaiting the adapter's response.
    Initializing,
    /// Adapter responded; capabilities cached.
    Initialized,
    /// First `configurationDone` forwarded; session running.
    Configured,
}

/// What becomes of a client's request.
#[derive(Debug, Clone, Copy, PartialEq, Eq, Structural)]
pub enum RequestRoute {
    /// An `initialize` answered from the cached capabilities.
    Replay,
    /// An `initialize` held back until the first one is answered.
    Buffer,
    /// Answered with success without troubling the adapter.
    Acknowledge,
    /// A `terminate` that only detaches its sender.
    Detach,
    /// A `disconnect`: the sender leaves.
    Leave,
    /// A `restart` that the adapter cannot do.
    Refuse,
    /// Forwarded to the adapter; holds the client's own number for it.
    Forward(i64),
    /// Not answerable, and not forwarded: it carries no number.
    Drop,
}

/// Something for the owner of the connections to do.
#[derive(Debug)]
pub enum Action {
    /// Queue a message for a client.
    ToClient(String, DapMessage),
    /// Queue a message for the adapter.
    ToAdapter(DapMessage),
    /// Close a client's connection once its queue has drained.
    CloseClient(String),
    /// Close the adapter's queue.
    CloseAdapter,
    /// The session can no longer continue.
    SignalShutdown,
}

impl View for Action {
    type V = ActionView;

    open spec fn view(&self) -> ActionView {
        match *self {
            Action::ToClient(id, message) => ActionView::ToClient(id@, message@),
            Action::ToAdapter(message) => ActionView::ToAdapter(message@),
            Action::CloseClient(id) => ActionView::CloseClient(id@),
            Action::CloseAdapter => ActionView::CloseAdapter,
            Action::SignalShutdown => ActionView::SignalShutdown,
        }
    }
}

/// A sequence of actions as mathematical values.
pub open spec fn actions_view(actions: Seq<Action>) -> Seq<ActionView> {
    actions.map_values(|action: Action| action@)
}

/// Add an action at the end.
fn ask_for(actions: &mut Vec<Action>, action: Action)
    ensures
        actions_view(final(actions)@) == actions_view(old(actions)@).push(action@),
{
    actions.push(action);
    assert(actions_view(actions@) =~= actions_view(old(actions)@).push(action@));
}

/// The text in an optional string.
pub open spec fn text_view(text: Option<String>) -> Option<Seq<char>> {
    match text {
        Some(text) => Some(text@),
        None => None,
    }
}

/// The document in an optional message.
pub open spec fn message_view(message: Option<Json>) -> Option<JsonView> {
    match message {
        Some(message) => Some(message@),
        None => None,
    }
}

/// A connected downstream client.
struct ClientConnection {
    id: String,
    /// Whether this client has completed `initialize` (received its response or
    /// the replayed cached capabilities). Surfaced in the operator view.
    initialized: bool,
    /// The client's self-reported identity from the `initialize` request
    /// (`clientName`, falling back to `clientID`), once it has sent one.
    /// `None` until then, when the operator view falls back to its id.
    display_name: Option<String>,
}

impl View for ClientConnection {
    type V = ClientView;

    closed spec fn view(&self) -> ClientView {
        ClientView {
            id: self.id@,
            initialized: self.initialized,
            display_name: text_view(self.display_name),
        }
    }
}

/// A reverse request forwarded to a client, awaiting that client's response.
struct PendingReverseRequest {
    /// The adapter's original `seq`, restored when the response is forwarded up.
    adapter_seq: i64,
    /// The client the request was routed to, so it can be failed back to the
    /// adapter if that client disconnects before responding.
    client_id: String,
    /// The DAP `command`, needed to synthesize a failure response upstream.
    command: String,
}

impl View for PendingReverseRequest {
    type V = ReverseView;

    closed spec fn view(&self) -> ReverseView {
        ReverseView {
            adapter_seq: self.adapter_seq,
            client_id: self.client_id@,
            command: self.command@,
        }
    }
}

/// A point-in-time view of one client for the operator interface.
#[derive(Debug)]
pub struct ClientInfo {
    pub id: String,
    /// The client's self-reported name (DAP `clientName`/`clientID`), or `None`
    /// until it has sent `initialize`.
    pub name: Option<String>,
    pub initialized: bool,
    pub pending_requests: usize,
}

impl ClientInfo {
    /// Whether two views of a client say the same.
    pub open spec fn says_same(self, other: ClientInfo) -> bool {
        &&& self.id@ == other.id@
        &&& text_view(self.name) == text_view(other.name)
        &&& self.initialized == other.initialized
        &&& self.pending_requests == other.pending_requests
    }
}

/// The same optional string.
fn clone_text(text: &Option<String>) -> (res: Option<String>)
    ensures
        text_view(res) == text_view(*text),
{
    match text {
        Some(text) => Some(text.clone()),
        None => None,
    }
}

impl Clone for ClientInfo {
    fn clone(&self) -> (res: Self)
        ensures
            res.says_same(*self),
    {
        ClientInfo {
            id: self.id.clone(),
            name: clone_text(&self.name),
            initialized: self.initialized,
            pending_requests: self.pending_requests,
        }
    }
}

/// A point-in-time view of the session for the operator interface.
#[derive(Debug)]
pub struct MuxSnapshot {
    pub phase: SessionPhase,
    pub upstream_connected: bool,
    pub clients: Vec<ClientInfo>,
}

impl Clone for MuxSnapshot {
    fn clone(&self) -> (res: Self)
        ensures
            res.phase == self.phase,
            res.upstream_connected == self.upstream_connected,
            res.clients@.len() == self.clients@.len(),
            forall|i: int|
                0 <= i < res.clients@.len() ==> (#[trigger] res.clients@[i]).says_same(
                    self.clients@[i],
                ),
    {
        let mut clients: Vec<ClientInfo> = Vec::new();
        let mut i: usize = 0;
        while i < self.clients.len()
            invariant
                i <= self.clients@.len(),
                clients@.len() == i,
                forall|j: int|
                    0 <= j < i ==> (#[trigger] clients@[j]).says_same(self.clients@[j]),
            decreases self.clients@.len() - i,
        {
            clients.push(self.clients[i].clone());
            i += 1;
        }
        MuxSnapshot { phase: self.phase, upstream_connected: self.upstream_connected, clients }
    }
}

/// DAP multiplexer.
pub struct Multiplexer {
    seq_map: SeqMap,
    /// Connected clients, in connection order.
    clients: Vec<ClientConnection>,
    /// Cached `initialize` arguments per client, in initialize order.
    client_init_args: Vec<(String, Json)>,
    client_counter: u64,
    phase: SessionPhase,
    pending_initialize: Vec<(String, DapMessage)>,
    cached_capabilities: Option<Json>,
    initialized_event: Option<DapMessage>,
    last_stopped_event: Option<DapMessage>,
    upstream_connected: bool,
    /// Reverse requests forwarded to a client, awaiting the client's response,
    /// in the order they were forwarded. The client sees the number here; its
    /// response is rewritten back to the adapter's before forwarding up. The
    /// owning client and command are kept so the request can be failed back to
    /// the adapter if that client disconnects before answering.
    reverse_requests: HashMap<i64, PendingReverseRequest>,
    next_reverse_seq: i64,
    /// Whether a separate operator (the TUI) owns the debuggee's lifetime
    /// rather than a client. When true, a client's `terminate` only detaches
    /// that client — the shared debuggee is the operator's to end.
    operator_owned: bool,
}

spec fn connections_view(clients: Seq<ClientConnection>) -> Seq<ClientView> {
    clients.map_values(|client: ClientConnection| client@)
}

spec fn reverse_view(requests: Map<i64, PendingReverseRequest>) -> Map<i64, ReverseView> {
    requests.map_values(|request: PendingReverseRequest| request@)
}

impl View for Multiplexer {
    type V = MuxView;

    closed spec fn view(&self) -> MuxView {
        MuxView {
            seq_map: self.seq_map@,
            clients: connections_view(self.clients@),
            init_args: clients_view(self.client_init_args@),
            client_counter: self.client_counter,
            phase: self.phase,
            pending_initialize: clients_view(self.pending_initialize@),
            capabilities: message_view(self.cached_capabilities),
            initialized_event: message_view(self.initialized_event),
            last_stopped_event: message_view(self.last_stopped_event),
            upstream_connected: self.upstream_connected,
            reverse_requests: reverse_view(self.reverse_requests@),
            next_reverse_seq: self.next_reverse_seq,
            operator_owned: self.operator_owned,
        }
    }
}

// ---------------------------------------------------------------------------
// Removing what belongs to a client
// ---------------------------------------------------------------------------

impl Owned for ClientConnection {
    closed spec fn owner(&self) -> Seq<char> {
        self.id@
    }

    fn is_owned_by(&self, id: &str) -> (res: bool) {
        self.id.as_str().eq(id)
    }
}

impl Owned for (String, Json) {
    closed spec fn owner(&self) -> Seq<char> {
        self.0@
    }

    fn is_owned_by(&self, id: &str) -> (res: bool) {
        self.0.as_str().eq(id)
    }
}

impl Owned for PendingReverseRequest {
    closed spec fn owner(&self) -> Seq<char> {
        self.client_id@
    }

    fn is_owned_by(&self, id: &str) -> (res: bool) {
        self.client_id.as_str().eq(id)
    }
}

/// Remove every item that belongs to `id`.
fn remove_owned<T: Owned>(items: &mut Vec<T>, id: &str)
    ensures
        final(items)@ == old(items)@.filter(|item: T| item.owner() != id@),
{
    let ghost all = items@;
    let ghost keep = |item: T| item.owner() != id@;
    let ghost mut seen: int = 0;
    let mut i: usize = 0;
    proof {
        reveal(Seq::filter);
        assert(all.take(0) =~= Seq::empty());
    }
    while i < items.len()
        invariant
            i <= items@.len(),
            0 <= seen <= all.len(),
            keep == (|item: T| item.owner() != id@),
            items@.take(i as int) == all.take(seen).filter(keep),
            items@.skip(i as int) == all.skip(seen),
        decreases items@.len() - i,
    {
        let ghost before = items@;
        proof {
            reveal(Seq::filter);
            assert(before.skip(i as int).len() == all.skip(seen).len());
            assert(all.take(seen + 1).drop_last() =~= all.take(seen));
            assert(before.skip(i as int)[0] == all.skip(seen)[0]);
            assert(before.skip(i as int).skip(1) =~= all.skip(seen).skip(1));
            assert(all.skip(seen).skip(1) =~= all.skip(seen + 1));
        }
        if items[i].is_owned_by(id) {
            items.remove(i);
            proof {
                assert(items@.take(i as int) =~= before.take(i as int));
                assert(items@.skip(i as int) =~= before.skip(i as int).skip(1));
            }
        } else {
            i += 1;
            proof {
                assert(items@.take(i as int) =~= before.take(i - 1).push(before[i - 1]));
                assert(items@.skip(i as int) =~= before.skip(i - 1).skip(1));
            }
        }
        proof {
            seen = seen + 1;
        }
    }
    proof {
        assert(all.skip(seen).len() == 0);
        assert(all.take(seen) =~= all);
        assert(items@.take(i as int) =~= items@);
    }
}

/// Filtering and mapping commute where the filters agree.
proof fn lemma_filter_of_map<A, B>(
    items: Seq<A>,
    f: spec_fn(A) -> B,
    p: spec_fn(A) -> bool,
    q: spec_fn(B) -> bool,
)
    requires
        forall|a: A| #[trigger] p(a) == q(f(a)),
    ensures
        items.filter(p).map_values(f) == items.map_values(f).filter(q),
    decreases items.len(),
{
    reveal(Seq::filter);
    if items.len() > 0 {
        let rest = items.drop_last();
        lemma_filter_of_map(rest, f, p, q);
        assert(items.map_values(f).drop_last() =~= rest.map_values(f));
        assert(p(items.last()) == q(f(items.last())));
        assert(items.filter(p).map_values(f) =~= items.map_values(f).filter(q));
    }
}

// ---------------------------------------------------------------------------
// Messages that the multiplexer makes up
// ---------------------------------------------------------------------------

fn new_response(request_seq: Json, success: bool, command: Json) -> (res: DapMessage)
    ensures
        res@ == response(request_seq@, success, command@),
        res@ is Object,
{
    let mut res = Json::object();
    res.set("seq", Json::integer(0));
    res.set("type", Json::text("response"));
    res.set("request_seq", request_seq);
    res.set("success", Json::Bool(success));
    res.set("command", command);
    res
}

fn new_refusal(request_seq: Json, command: Json, reason: &str) -> (res: DapMessage)
    ensures
        res@ == refusal(request_seq@, command@, reason@),
{
    let mut res = new_response(request_seq, false, command);
    res.set("message", Json::text(reason));
    res
}

fn new_event(name: &str) -> (res: DapMessage)
    ensures
        res@ == event(name@),
        res@ is Object,
{
    let mut res = Json::object();
    res.set("seq", Json::integer(0));
    res.set("type", Json::text("event"));
    res.set("event", Json::text(name));
    res
}

fn new_loss_notice() -> (res: DapMessage)
    ensures
        res@ == loss_notice(),
{
    let mut body = Json::object();
    body.set("category", Json::text("console"));
    body.set(
        "output",
        Json::text("dap-mux: debug adapter connection lost; shutting down\n"),
    );
    let mut res = new_event("output");
    res.set("body", body);
    res
}

fn seq_of(message: &DapMessage) -> (res: Json)
    ensures
        res@ == own_seq(message@),
{
    match message.get("seq") {
        Some(seq) => seq.clone(),
        None => Json::integer(0),
    }
}

/// The DAP `command` field as a string, or "?" when absent.
fn command_field(message: &DapMessage) -> (res: &str)
    ensures
        res@ == command_or_unknown(message@),
{
    match message.get_str("command") {
        Some(command) => command,
        None => "?",
    }
}

/// The client's display identity from `initialize` arguments: the human-readable
/// `clientName`, falling back to the machine `clientID`. Both are optional, so
/// this returns `None` when neither is present.
fn client_display_name(arguments: &Json) -> (res: Option<String>)
    ensures
        text_view(res) == display_name(arguments@),
{
    let name = match arguments.get("clientName") {
        Some(name) => name.as_str(),
        None => arguments.get_str("clientID"),
    };
    match name {
        Some(name) => Some(name.to_owned()),
        None => None,
    }
}

// ---------------------------------------------------------------------------
// The session's parts
// ---------------------------------------------------------------------------

impl Multiplexer {
    fn build(operator_owned: bool) -> (res: Self)
        ensures
            res@ == MuxView::fresh(operator_owned),
            res@.well_formed(),
    {
        let res = Multiplexer {
            seq_map: SeqMap::new(),
            clients: Vec::new(),
            client_init_args: Vec::new(),
            client_counter: 0,
            phase: SessionPhase::PreInit,
            pending_initialize: Vec::new(),
            cached_capabilities: None,
            initialized_event: None,
            last_stopped_event: None,
            upstream_connected: false,
            reverse_requests: HashMap::new(),
            next_reverse_seq: 1,
            operator_owned,
        };
        assert(res@ =~= MuxView::fresh(operator_owned));
        res
    }

    /// Whether `client_id` is connected.
    fn is_connected(&self, client_id: &str) -> (res: bool)
        ensures
            res == self@.connected(client_id@),
    {
        let ghost views = self@.clients;
        let mut i: usize = 0;
        while i < self.clients.len()
            invariant
                i <= self.clients@.len(),
                views == self@.clients,
                forall|j: int| 0 <= j < i ==> (#[trigger] views[j]).id != client_id@,
            decreases self.clients@.len() - i,
        {
            assert(views[i as int].id == self.clients@[i as int].id@);
            if self.clients[i].id.as_str().eq(client_id) {
                return true;
            }
            i += 1;
        }
        false
    }

    fn send_to(&self, client_id: &str, message: DapMessage, actions: &mut Vec<Action>)
        ensures
            actions_view(final(actions)@) == actions_view(old(actions)@) + self@.to_client(
                client_id@,
                message@,
            ),
    {
        if self.is_connected(client_id) {
            ask_for(actions, Action::ToClient(client_id.to_owned(), message));
        }
    }

    fn send_upstream(&self, message: DapMessage, actions: &mut Vec<Action>)
        ensures
            actions_view(final(actions)@) == actions_view(old(actions)@) + self@.to_adapter(
                message@,
            ),
    {
        if self.upstream_connected {
            ask_for(actions, Action::ToAdapter(message));
        }
    }

    /// Mark a client as having completed `initialize`.
    fn mark_initialized(&mut self, client_id: &str)
        ensures
            final(self)@ == old(self)@.marked(|id: Seq<char>| id == client_id@),
    {
        let mut i: usize = 0;
        while i < self.clients.len()
            invariant
                i <= self.clients@.len(),
                self@ == (MuxView { clients: self@.clients, ..old(self)@ }),
                self.clients@.len() == old(self).clients@.len(),
                forall|j: int|
                    0 <= j < i ==> (#[trigger] self.clients@[j])@ == (ClientView {
                        initialized: old(self).clients@[j].initialized
                            || old(self).clients@[j].id@ == client_id@,
                        ..old(self).clients@[j]@
                    }),
                forall|j: int|
                    i <= j < self.clients@.len() ==> #[trigger] self.clients@[j]
                        == old(self).clients@[j],
            decreases self.clients@.len() - i,
        {
            if self.clients[i].id.as_str().eq(client_id) {
                self.clients[i].initialized = true;
            }
            i += 1;
        }
        assert(self@ =~= old(self)@.marked(|id: Seq<char>| id == client_id@));
    }

    /// Record a client's self-reported name, where it gave one.
    fn set_display_name(&mut self, client_id: &str, name: Option<String>)
        ensures
            final(self)@ == old(self)@.named(client_id@, text_view(name)),
    {
        if let Some(name) = name {
            let mut i: usize = 0;
            while i < self.clients.len()
                invariant
                    i <= self.clients@.len(),
                    self@ == (MuxView { clients: self@.clients, ..old(self)@ }),
                    self.clients@.len() == old(self).clients@.len(),
                    forall|j: int|
                        0 <= j < i ==> (#[trigger] self.clients@[j])@ == (if old(
                            self,
                        ).clients@[j].id@ == client_id@ {
                            ClientView { display_name: Some(name@), ..old(self).clients@[j]@ }
                        } else {
                            old(self).clients@[j]@
                        }),
                    forall|j: int|
                        i <= j < self.clients@.len() ==> #[trigger] self.clients@[j]
                            == old(self).clients@[j],
                decreases self.clients@.len() - i,
            {
                if self.clients[i].id.as_str().eq(client_id) {
                    self.clients[i].display_name = Some(name.clone());
                }
                i += 1;
            }
        }
        assert(self@ =~= old(self)@.named(client_id@, text_view(name)));
    }

    fn set_init_args(&mut self, client_id: &str, args: Json)
        ensures
            final(self)@ == old(self)@.with_init_args(client_id@, args@),
    {
        let ghost views = old(self)@.init_args;
        let mut known = false;
        let mut i: usize = 0;
        while i < self.client_init_args.len()
            invariant
                i <= self.client_init_args@.len(),
                self@ == (MuxView { init_args: self@.init_args, ..old(self)@ }),
                views == old(self)@.init_args,
                self.client_init_args@.len() == old(self).client_init_args@.len(),
                known <==> exists|j: int| 0 <= j < i && (#[trigger] views[j]).0 == client_id@,
                forall|j: int|
                    0 <= j < i ==> (#[trigger] self.client_init_args@[j]).0@ == old(
                        self,
                    ).client_init_args@[j].0@ && self.client_init_args@[j].1@ == (if old(
                        self,
                    ).client_init_args@[j].0@ == client_id@ {
                        args@
                    } else {
                        old(self).client_init_args@[j].1@
                    }),
                forall|j: int|
                    i <= j < self.client_init_args@.len() ==> #[trigger] self.client_init_args@[j]
                        == old(self).client_init_args@[j],
            decreases self.client_init_args@.len() - i,
        {
            assert(views[i as int].0 == self.client_init_args@[i as int].0@);
            if self.client_init_args[i].0.as_str().eq(client_id) {
                self.client_init_args[i].1 = args.clone();
                known = true;
            }
            i += 1;
        }
        if !known {
            assert(clients_view(self.client_init_args@) =~= views);
            self.client_init_args.push((client_id.to_owned(), args));
        }
        assert(self@.init_args =~= old(self)@.with_init_args(client_id@, args@).init_args);
    }

    /// Tear down a departed client's per-session state. Shared by both exit
    /// paths — a client's own `disconnect`, and an observed connection drop —
    /// so the set of state cleaned for a client lives in one place. Returns the
    /// number of in-flight forward requests dropped.
    ///
    /// Any reverse request the client still owed the adapter a response for is
    /// failed back to the adapter, so a `runInTerminal`/`startDebugging` does
    /// not leave the adapter blocked on a client that is gone.
    pub fn cleanup_client_state(&mut self, client_id: &str, actions: &mut Vec<Action>) -> (removed:
        usize)
        ensures
            final(self)@ == old(self)@.cleaned(client_id@),
            old(self)@.well_formed() ==> final(self)@.well_formed(),
            actions_view(final(actions)@) == actions_view(old(actions)@) + old(
                self,
            )@.failing_owed(client_id@),
            removed == old(self)@.seq_map.owned(client_id@).len(),
    {
        proof {
            if old(self)@.well_formed() {
                lemma_cleanup_keeps_order(old(self)@, client_id@);
            }
        }
        let removed = self.seq_map.cleanup(client_id);
        remove_owned(&mut self.client_init_args, client_id);
        remove_owned(&mut self.pending_initialize, client_id);
        proof {
            let view = |entry: (String, Json)| (entry.0@, entry.1@);
            let p = |entry: (String, Json)| entry.owner() != client_id@;
            let q = from_others(client_id@);
            lemma_filter_of_map(old(self).client_init_args@, view, p, q);
            lemma_filter_of_map(old(self).pending_initialize@, view, p, q);
        }
        self.fail_reverse_requests_for_client(client_id, actions);
        removed
    }

    /// Answer a reverse request the mux could not route to a client by sending
    /// a failure response up to the adapter, so the adapter is not left blocked.
    fn fail_reverse_request_to_adapter(
        &self,
        adapter_seq: i64,
        command: &str,
        reason: &str,
        actions: &mut Vec<Action>,
    )
        ensures
            actions_view(final(actions)@) == actions_view(old(actions)@) + self@.to_adapter(
                refusal(integer(adapter_seq as int), JsonView::String(command@), reason@),
            ),
    {
        let response = new_refusal(Json::integer(adapter_seq), Json::text(command), reason);
        self.send_upstream(response, actions);
    }

    /// Fail every reverse request still routed to `client_id` back to the
    /// adapter and forget them, so a departing client does not strand the
    /// adapter on a response that can no longer arrive.
    fn fail_reverse_requests_for_client(&mut self, client_id: &str, actions: &mut Vec<Action>)
        ensures
            final(self)@ == (MuxView {
                reverse_requests: old(self)@.cleaned(client_id@).reverse_requests,
                ..old(self)@
            }),
            actions_view(final(actions)@) == actions_view(old(actions)@) + old(
                self,
            )@.failing_owed(client_id@),
    {
        let ghost asked = actions_view(actions@);
        let ghost start = self@;
        let seqs = numbers_in_order(&self.reverse_requests, client_id);
        let ghost fail = |seq: i64|
            ActionView::ToAdapter(
                reverse_failure(
                    start.reverse_requests[seq],
                    "dap-mux: client handling reverse request disconnected before responding"@,
                ),
            );
        proof {
            assert(numbers_of(self.reverse_requests@, client_id@) =~= start.owed_by(client_id@));
            lemma_in_order(seqs@, start.owed_by(client_id@));
            assert(seqs@.take(0).to_set() =~= Set::empty());
            assert(self@.reverse_requests =~= start.reverse_requests.remove_keys(
                seqs@.take(0).to_set(),
            ));
        }
        assert(actions_view(actions@) =~= asked + seqs@.take(0).map_values(fail));
        let mut i: usize = 0;
        while i < seqs.len()
            invariant
                i <= seqs@.len(),
                lists(seqs@, start.owed_by(client_id@)),
                fail == (|seq: i64|
                    ActionView::ToAdapter(
                        reverse_failure(
                            start.reverse_requests[seq],
                            "dap-mux: client handling reverse request disconnected before responding"@,
                        ),
                    )),
                self@ == (MuxView {
                    reverse_requests: start.reverse_requests.remove_keys(
                        seqs@.take(i as int).to_set(),
                    ),
                    ..start
                }),
                actions_view(actions@) == asked + (if start.upstream_connected {
                    seqs@.take(i as int).map_values(fail)
                } else {
                    Seq::empty()
                }),
            decreases seqs@.len() - i,
        {
            let seq = seqs[i];
            let ghost done = seqs@.take(i as int);
            let ghost next = seqs@.take(i + 1);
            proof {
                assert(seqs@.contains(seq));
                assert(start.owed_by(client_id@).contains(seq));
                assert(next =~= done.push(seq));
                if done.contains(seq) {
                    let k = choose|k: int| 0 <= k < done.len() && done[k] == seq;
                    assert(seqs@[k] < seqs@[i as int]);
                }
                assert(self@.reverse_requests.contains_key(seq));
                assert(self@.reverse_requests[seq] == start.reverse_requests[seq]);
                assert forall|n: i64| #[trigger] next.to_set().contains(n) <==> done.to_set().contains(
                    n,
                ) || n == seq by {
                    if done.contains(n) {
                        let k = choose|k: int| 0 <= k < done.len() && done[k] == n;
                        assert(next[k] == n);
                    }
                    if n == seq {
                        assert(next[i as int] == n);
                    }
                }
            }
            if let Some(pending) = self.forget_reverse_request(seq) {
                self.fail_reverse_request_to_adapter(
                    pending.adapter_seq,
                    pending.command.as_str(),
                    "dap-mux: client handling reverse request disconnected before responding",
                    actions,
                );
            }
            proof {
                assert(self@.reverse_requests =~= start.reverse_requests.remove_keys(
                    next.to_set(),
                ));
                assert(next.map_values(fail) =~= done.map_values(fail).push(fail(seq)));
                assert(actions_view(actions@) =~= asked + (if start.upstream_connected {
                    next.map_values(fail)
                } else {
                    Seq::empty()
                }));
            }
            i += 1;
        }
        proof {
            assert(seqs@.take(seqs@.len() as int) =~= seqs@);
            assert forall|n: i64| #[trigger] seqs@.to_set().contains(n) <==> start.owed_by(
                client_id@,
            ).contains(n) by {
                assert(seqs@.contains(n) <==> start.owed_by(client_id@).contains(n));
            }
            assert(seqs@.to_set() =~= start.owed_by(client_id@));
        }
    }

    /// Remove a client: close its connection and clean up its session state,
    /// while the session continues for any other clients.
    ///
    /// Any already queued message — notably the synthetic `disconnect` response
    /// asked for just before — precedes the close.
    fn disconnect_client(&mut self, client_id: &str, actions: &mut Vec<Action>)
        ensures
            final(self)@ == old(self)@.departure(client_id@).after,
            actions_view(final(actions)@) == actions_view(old(actions)@) + old(self)@.departure(
                client_id@,
            ).actions,
    {
        if self.is_connected(client_id) {
            ask_for(actions, Action::CloseClient(client_id.to_owned()));
        }
        remove_owned(&mut self.clients, client_id);
        proof {
            let view = |client: ClientConnection| client@;
            let p = |client: ClientConnection| client.owner() != client_id@;
            let q = other_than(client_id@);
            lemma_filter_of_map(old(self).clients@, view, p, q);
        }
        self.cleanup_client_state(client_id, actions);
        assert(actions_view(actions@) =~= actions_view(old(actions)@) + old(self)@.departure(
            client_id@,
        ).actions);
    }
}

// ---------------------------------------------------------------------------
// Synthetic / cached responses to clients
// ---------------------------------------------------------------------------

impl Multiplexer {
    fn respond_with_cached_initialize(
        &mut self,
        client_id: &str,
        message: &DapMessage,
        actions: &mut Vec<Action>,
    )
        ensures
            final(self)@ == old(self)@.marked(|id: Seq<char>| id == client_id@),
            actions_view(final(actions)@) == actions_view(old(actions)@) + old(self)@.replay(
                client_id@,
                message@,
            ),
    {
        let mut response = new_response(seq_of(message), true, Json::text("initialize"));
        if let Some(caps) = &self.cached_capabilities {
            response.set("body", caps.clone());
        }
        self.send_to(client_id, response, actions);
        if let Some(event) = &self.initialized_event {
            self.send_to(client_id, event.clone(), actions);
        }
        if let Some(event) = &self.last_stopped_event {
            self.send_to(client_id, event.clone(), actions);
        }
        assert(actions_view(actions@) =~= actions_view(old(actions)@) + old(self)@.replay(
            client_id@,
            message@,
        ));
        self.mark_initialized(client_id);
    }

    /// Tell a client its `initialize` failed because the adapter rejected the
    /// session's initialize. Sent to clients queued behind the in-flight
    /// initialize so they do not wait on a response that will never come.
    fn respond_initialize_failure(
        &self,
        client_id: &str,
        message: &DapMessage,
        reason: &str,
        actions: &mut Vec<Action>,
    )
        ensures
            actions_view(final(actions)@) == actions_view(old(actions)@) + self@.to_client(
                client_id@,
                initialize_refusal(message@, reason@),
            ),
    {
        let response = new_refusal(seq_of(message), Json::text("initialize"), reason);
        self.send_to(client_id, response, actions);
    }

    fn respond_synthetic_success(
        &self,
        client_id: &str,
        message: &DapMessage,
        actions: &mut Vec<Action>,
    )
        ensures
            actions_view(final(actions)@) == actions_view(old(actions)@) + self@.to_client(
                client_id@,
                acknowledgement(message@),
            ),
    {
        let command = match message.get("command") {
            Some(command) => command.clone(),
            None => Json::text(""),
        };
        let response = new_response(seq_of(message), true, command);
        self.send_to(client_id, response, actions);
    }

    /// Whether the adapter advertised `capability` in its cached initialize
    /// capabilities.
    fn adapter_supports(&self, capability: &str) -> (res: bool)
        ensures
            res == self@.adapter_supports(capability@),
    {
        match &self.cached_capabilities {
            Some(caps) => caps.get_flag(capability),
            None => false,
        }
    }

    /// Reject a `restart` the adapter cannot honor, honestly, so the client
    /// knows the restart did not happen (rather than a misleading success).
    fn respond_restart_unsupported(
        &self,
        client_id: &str,
        message: &DapMessage,
        actions: &mut Vec<Action>,
    )
        ensures
            actions_view(final(actions)@) == actions_view(old(actions)@) + self@.to_client(
                client_id@,
                restart_refusal(message@),
            ),
    {
        let response = new_refusal(
            seq_of(message),
            Json::text("restart"),
            "restart unsupported: the debug adapter does not advertise supportsRestartRequest; emulated restart cannot work through the mux",
        );
        self.send_to(client_id, response, actions);
    }
}

// ---------------------------------------------------------------------------
// Routing — adapter -> client(s)
// ---------------------------------------------------------------------------

/// Marking clients one after the other marks them all.
proof fn lemma_marked_twice(
    view: MuxView,
    first: spec_fn(Seq<char>) -> bool,
    second: spec_fn(Seq<char>) -> bool,
    both: spec_fn(Seq<char>) -> bool,
)
    requires
        forall|id: Seq<char>| #[trigger] both(id) == (first(id) || second(id)),
    ensures
        view.marked(first).marked(second) == view.marked(both),
{
    assert(view.marked(first).marked(second).clients =~= view.marked(both).clients);
}

/// Marking clients moves nobody and changes no reply.
proof fn lemma_marked_keeps_replies(view: MuxView, done: spec_fn(Seq<char>) -> bool)
    ensures
        forall|id: Seq<char>| #[trigger] view.marked(done).connected(id) == view.connected(id),
        forall|id: Seq<char>, message: JsonView|
            #[trigger] view.marked(done).to_client(id, message) == view.to_client(id, message),
        forall|id: Seq<char>, message: JsonView|
            #[trigger] view.marked(done).replay(id, message) == view.replay(id, message),
{
    let after = view.marked(done);
    assert forall|id: Seq<char>| #[trigger] after.connected(id) == view.connected(id) by {
        if view.connected(id) {
            let i = choose|i: int|
                0 <= i < view.clients.len() && (#[trigger] view.clients[i]).id == id;
            assert(after.clients[i].id == id);
        }
        if after.connected(id) {
            let i = choose|i: int|
                0 <= i < after.clients.len() && (#[trigger] after.clients[i]).id == id;
            assert(view.clients[i].id == id);
        }
    }
    assert forall|id: Seq<char>, message: JsonView|
        #[trigger] after.replay(id, message) == view.replay(id, message) by {
        assert(after.to_client(id, after.cached_reply(message)) == view.to_client(
            id,
            view.cached_reply(message),
        ));
    }
}

impl Multiplexer {
    /// Serve the clients queued behind the session's `initialize` from the
    /// cached capabilities.
    fn replay_to_buffered(
        &mut self,
        buffered: &Vec<(String, DapMessage)>,
        actions: &mut Vec<Action>,
    )
        ensures
            final(self)@ == old(self)@.marked(
                |id: Seq<char>| waits(clients_view(buffered@), id),
            ),
            actions_view(final(actions)@) == actions_view(old(actions)@) + old(self)@.replays(
                clients_view(buffered@),
            ),
    {
        let ghost asked = actions_view(actions@);
        let ghost waiting = clients_view(buffered@);
        let ghost start = self@;
        let mut i: usize = 0;
        assert(waiting.take(0) =~= Seq::empty());
        assert(start.marked(|id: Seq<char>| waits(waiting.take(0), id)) =~= start);
        assert(asked + start.replays(waiting.take(0)) =~= asked);
        while i < buffered.len()
            invariant
                i <= buffered@.len(),
                waiting == clients_view(buffered@),
                self@ == start.marked(|id: Seq<char>| waits(waiting.take(i as int), id)),
                actions_view(actions@) == asked + start.replays(waiting.take(i as int)),
            decreases buffered@.len() - i,
        {
            let (buffered_id, buffered_message) = &buffered[i];
            let ghost done = |id: Seq<char>| waits(waiting.take(i as int), id);
            let ghost next = |id: Seq<char>| waits(waiting.take(i + 1), id);
            let ghost this = |id: Seq<char>| id == buffered_id@;
            self.respond_with_cached_initialize(buffered_id.as_str(), buffered_message, actions);
            proof {
                let now = waiting.take(i + 1);
                assert(waiting[i as int] == (buffered_id@, buffered_message@));
                assert(now.drop_last() =~= waiting.take(i as int));
                assert forall|id: Seq<char>| #[trigger] next(id) == (done(id) || this(id)) by {
                    if done(id) {
                        let j = choose|j: int|
                            0 <= j < i && (#[trigger] waiting.take(i as int)[j]).0 == id;
                        assert(now[j].0 == id);
                    }
                    if this(id) {
                        assert(now[i as int].0 == id);
                    }
                    if next(id) {
                        let j = choose|j: int| 0 <= j < i + 1 && (#[trigger] now[j]).0 == id;
                        if j < i {
                            assert(waiting.take(i as int)[j].0 == id);
                        }
                    }
                }
                lemma_marked_twice(start, done, this, next);
                lemma_marked_keeps_replies(start, done);
                assert(asked + start.replays(waiting.take(i as int)) + start.replay(
                    buffered_id@,
                    buffered_message@,
                ) =~= asked + start.replays(now));
            }
            i += 1;
        }
        assert(waiting.take(waiting.len() as int) =~= waiting);
    }

    /// Turn down the clients queued behind an `initialize` that the adapter
    /// rejected.
    fn refuse_buffered(
        &self,
        buffered: &Vec<(String, DapMessage)>,
        reason: &str,
        actions: &mut Vec<Action>,
    )
        ensures
            actions_view(final(actions)@) == actions_view(old(actions)@) + self@.refusals(
                clients_view(buffered@),
                reason@,
            ),
    {
        let ghost asked = actions_view(actions@);
        let ghost waiting = clients_view(buffered@);
        let mut i: usize = 0;
        assert(waiting.take(0) =~= Seq::empty());
        assert(asked + self@.refusals(waiting.take(0), reason@) =~= asked);
        while i < buffered.len()
            invariant
                i <= buffered@.len(),
                waiting == clients_view(buffered@),
                actions_view(actions@) == asked + self@.refusals(waiting.take(i as int), reason@),
            decreases buffered@.len() - i,
        {
            let (buffered_id, buffered_message) = &buffered[i];
            self.respond_initialize_failure(
                buffered_id.as_str(),
                buffered_message,
                reason,
                actions,
            );
            proof {
                assert(waiting[i as int] == (buffered_id@, buffered_message@));
                assert(waiting.take(i + 1).drop_last() =~= waiting.take(i as int));
                assert(actions_view(actions@) =~= asked + self@.refusals(
                    waiting.take(i + 1),
                    reason@,
                ));
            }
            i += 1;
        }
        assert(waiting.take(waiting.len() as int) =~= waiting);
    }

    /// The first initialize response settles the session's init state. On
    /// success, cache capabilities and serve the clients queued behind it from
    /// that cache. On failure, the adapter rejected initialize: drop back to
    /// the pre-init state so a later client may try again, and fail the queued
    /// clients rather than leave them waiting on a response that will never
    /// come.
    fn settle_initialize(&mut self, message: &DapMessage, actions: &mut Vec<Action>)
        ensures
            final(self)@ == old(self)@.settled(message@).after,
            actions_view(final(actions)@) == actions_view(old(actions)@) + old(self)@.settled(
                message@,
            ).actions,
    {
        let mut buffered: Vec<(String, DapMessage)> = Vec::new();
        std::mem::swap(&mut buffered, &mut self.pending_initialize);
        assert(clients_view(self.pending_initialize@) =~= Seq::empty());
        if message.get_flag("success") {
            self.phase = SessionPhase::Initialized;
            self.cached_capabilities = match message.get("body") {
                Some(body) => Some(body.clone()),
                None => None,
            };
            self.replay_to_buffered(&buffered, actions);
        } else {
            let reason = match message.get_str("message") {
                Some(reason) => reason,
                None => "debug adapter rejected initialize",
            };
            self.refuse_buffered(&buffered, reason, actions);
            self.phase = SessionPhase::PreInit;
        }
    }

    /// Route a response from the adapter back to the client that asked, under
    /// the client's own number.
    pub fn route_response(&mut self, message: DapMessage) -> (actions: Vec<Action>)
        ensures
            final(self)@ == old(self)@.adapter_response(message@).after,
            actions_view(actions@) == old(self)@.adapter_response(message@).actions,
            old(self)@.well_formed() ==> final(self)@.well_formed(),
    {
        proof {
            if old(self)@.well_formed() {
                lemma_adapter_response_keeps_order(old(self)@, message@);
            }
        }
        let mut actions: Vec<Action> = Vec::new();
        assert(actions_view(actions@) =~= Seq::empty());
        let request_seq = match message.get_i64("request_seq") {
            Some(request_seq) => request_seq,
            None => return actions,
        };
        if message.has_text("command", "initialize") && self.phase == SessionPhase::Initializing {
            self.settle_initialize(&message, &mut actions);
        }
        let ghost settled = self@;
        let ghost asked = actions_view(actions@);
        let pending = match self.seq_map.resolve(request_seq) {
            Some(pending) => pending,
            None => {
                assert(settled.seq_map.resolved(request_seq) =~= settled.seq_map);
                assert(actions_view(actions@) =~= asked + Seq::<ActionView>::empty());
                return actions;
            },
        };
        let initializes = message.has_text("command", "initialize") && message.get_flag("success");
        let ghost resolved = self@;
        if initializes {
            self.mark_initialized(pending.client_id.as_str());
        }
        let mut restored = message;
        restored.set("request_seq", Json::integer(pending.client_seq));
        self.send_to(pending.client_id.as_str(), restored, &mut actions);
        proof {
            let done = |id: Seq<char>| initializes && id == pending.client_id@;
            let this = |id: Seq<char>| id == pending.client_id@;
            if initializes {
                assert(done =~= this);
                lemma_marked_keeps_replies(resolved, this);
            } else {
                assert(resolved.marked(done) =~= resolved);
            }
            assert(settled.to_client(pending.client_id@, restored@) == self@.to_client(
                pending.client_id@,
                restored@,
            ));
            assert(actions_view(actions@) =~= old(self)@.adapter_response(message@).actions);
        }
        actions
    }

    /// Send an event to every client, and keep what a late joiner needs of it.
    pub fn broadcast_event(&mut self, message: DapMessage) -> (actions: Vec<Action>)
        ensures
            final(self)@ == old(self)@.adapter_event(message@).after,
            actions_view(actions@) == old(self)@.adapter_event(message@).actions,
            old(self)@.well_formed() ==> final(self)@.well_formed(),
    {
        if message.has_text("event", "initialized") {
            self.initialized_event = Some(message.clone());
        }
        if message.has_text("event", "stopped") {
            self.last_stopped_event = Some(message.clone());
        } else if message.has_text("event", "continued") || message.has_text(
            "event",
            "terminated",
        ) {
            self.last_stopped_event = None;
        }
        let mut actions: Vec<Action> = Vec::new();
        let ghost views = self@.clients;
        let ghost send = |client: ClientView| ActionView::ToClient(client.id, message@);
        let mut i: usize = 0;
        while i < self.clients.len()
            invariant
                i <= self.clients@.len(),
                views == self@.clients,
                send == (|client: ClientView| ActionView::ToClient(client.id, message@)),
                actions_view(actions@) == views.take(i as int).map_values(send),
            decreases self.clients@.len() - i,
        {
            assert(views[i as int].id == self.clients@[i as int].id@);
            ask_for(&mut actions, Action::ToClient(self.clients[i].id.clone(), message.clone()));
            assert(actions_view(actions@) =~= views.take(i + 1).map_values(send));
            i += 1;
        }
        assert(views.take(views.len() as int) =~= views);
        actions
    }

    fn route_reverse_request(&mut self, message: DapMessage) -> (actions: Vec<Action>)
        requires
            message@ is Object,
            old(self)@.next_reverse_seq < i64::MAX,
        ensures
            final(self)@ == old(self)@.reverse(message@).after,
            actions_view(actions@) == old(self)@.reverse(message@).actions,
    {
        // The adapter is blocked until it gets a response, so any path that
        // cannot deliver the request to a client must answer the adapter itself.
        let mut actions: Vec<Action> = Vec::new();
        assert(actions_view(actions@) =~= Seq::empty());
        let adapter_seq: i64 = match message.get_i64("seq") {
            Some(seq) => seq,
            None => 0,
        };
        let command = command_field(&message).to_owned();
        let target_id = match pick_reverse_request_target(
            self.client_init_args.as_slice(),
            &message,
        ) {
            Some(target_id) => target_id.to_owned(),
            None => {
                self.fail_reverse_request_to_adapter(
                    adapter_seq,
                    command.as_str(),
                    "dap-mux: no client available to handle reverse request",
                    &mut actions,
                );
                assert(actions_view(actions@) =~= self@.reverse(message@).actions);
                return actions;
            },
        };
        if !self.is_connected(target_id.as_str()) {
            self.fail_reverse_request_to_adapter(
                adapter_seq,
                command.as_str(),
                "dap-mux: target client for reverse request is gone",
                &mut actions,
            );
            assert(actions_view(actions@) =~= self@.reverse(message@).actions);
            return actions;
        }
        // Rewrite the adapter's seq to a mux-allocated one so the client's
        // response can be correlated back (adapters may reuse or zero the seq),
        // remembering the mapping to restore it when forwarding the response up.
        let proxy_seq = self.next_reverse_seq;
        self.next_reverse_seq = proxy_seq + 1;
        self.reverse_requests.insert(
            proxy_seq,
            PendingReverseRequest { adapter_seq, client_id: target_id.clone(), command },
        );
        let mut forwarded = message;
        forwarded.set("seq", Json::integer(proxy_seq));
        self.send_to(target_id.as_str(), forwarded, &mut actions);
        proof {
            assert(self@ =~= old(self)@.reverse(message@).after);
            assert(self@.connected(target_id@) == old(self)@.connected(target_id@));
            assert(actions_view(actions@) =~= old(self)@.reverse(message@).actions);
        }
        actions
    }
}

// ---------------------------------------------------------------------------
// Routing — client -> adapter
// ---------------------------------------------------------------------------

impl Multiplexer {
    /// Look up and forget the reverse request handed out under `seq`.
    fn forget_reverse_request(&mut self, seq: i64) -> (found: Option<PendingReverseRequest>)
        ensures
            final(self)@ == (MuxView {
                reverse_requests: old(self)@.reverse_requests.remove(seq),
                ..old(self)@
            }),
            found is Some <==> old(self)@.reverse_request(seq) is Some,
            found matches Some(request) ==> old(self)@.reverse_request(seq) == Some(request@),
    {
        let found = self.reverse_requests.remove(&seq);
        assert(self@.reverse_requests =~= old(self)@.reverse_requests.remove(seq));
        found
    }

    /// Forward a client's response to a previously routed reverse request back
    /// up to the adapter, restoring the adapter's original seq. Returns `true`
    /// if `message` was such a response and was handled; otherwise nothing is
    /// sent and nothing changes.
    pub fn forward_reverse_response(
        &mut self,
        message: DapMessage,
        actions: &mut Vec<Action>,
    ) -> (handled: bool)
        ensures
            handled <==> (integer_field(message@, "request_seq"@) matches Some(seq) && old(
                self,
            )@.reverse_request(seq) is Some),
            final(self)@ == old(self)@.client_response(message@).after,
            actions_view(final(actions)@) == actions_view(old(actions)@) + old(
                self,
            )@.client_response(message@).actions,
            !handled ==> final(self)@ == old(self)@ && actions_view(final(actions)@)
                == actions_view(old(actions)@),
            old(self)@.well_formed() ==> final(self)@.well_formed(),
    {
        let ghost asked = actions_view(actions@);
        assert(asked + Seq::<ActionView>::empty() =~= asked);
        proof {
            if old(self)@.well_formed() {
                lemma_answer_keeps_order(old(self)@, message@);
            }
        }
        let proxy_seq = match message.get_i64("request_seq") {
            Some(proxy_seq) => proxy_seq,
            None => return false,
        };
        let pending = match self.forget_reverse_request(proxy_seq) {
            Some(pending) => pending,
            None => {
                assert(self@.reverse_requests =~= old(self)@.reverse_requests);
                return false;
            },
        };
        let mut forwarded = message;
        forwarded.set("request_seq", Json::integer(pending.adapter_seq));
        self.send_upstream(forwarded, actions);
        true
    }

    /// Record what an `initialize` request says of its sender: its arguments,
    /// for reverse-request routing, and its name, for the operator view.
    fn note_initialize(&mut self, client_id: &str, message: &DapMessage)
        ensures
            final(self)@ == old(self)@.noted(client_id@, message@),
    {
        if message.has_text("command", "initialize") {
            let args = match message.get("arguments") {
                Some(args) => args.clone(),
                None => Json::object(),
            };
            self.set_display_name(client_id, client_display_name(&args));
            self.set_init_args(client_id, args);
        }
    }

    /// What becomes of a client's request.
    pub fn request_route(&self, message: &DapMessage) -> (route: RequestRoute)
        ensures
            route == self@.request_route(message@),
    {
        let configured = self.phase == SessionPhase::Configured;
        let initialize = message.has_text("command", "initialize");
        // Late-join: respond to initialize locally from cached capabilities.
        // DAP says initialize can only be sent once to the adapter.
        if initialize && (self.phase == SessionPhase::Initialized || configured) {
            return RequestRoute::Replay;
        }
        // In-flight guard: a first initialize is forwarded but unanswered.
        // Real adapters silently ignore a second initialize, which would
        // leave the second client waiting forever — so buffer it.

        if initialize && self.phase == SessionPhase::Initializing {
            return RequestRoute::Buffer;
        }
        // Once configured, late-joining clients must not re-send
        // attach/launch/configurationDone to the adapter.

        if configured && (message.has_text("command", "attach") || message.has_text(
            "command",
            "launch",
        ) || message.has_text("command", "configurationDone")) {
            return RequestRoute::Acknowledge;
        }
        // `terminate` asks to stop the shared debuggee. Honor it for real only
        // when this is the sole client, no separate operator owns the session
        // (the TUI), and the adapter advertises the capability. Otherwise detach
        // just this client and leave the debuggee running for the rest.

        if message.has_text("command", "terminate") && !(self.clients.len() == 1
            && !self.operator_owned && self.adapter_supports("supportsTerminateRequest")) {
            return RequestRoute::Detach;
        }
        // `disconnect` means this client is leaving; the session continues for
        // any other clients.

        if message.has_text("command", "disconnect") {
            return RequestRoute::Leave;
        }
        // `restart` re-runs the shared debuggee rather than ending the session,
        // so it is a legitimate request from any client. Without the adapter's
        // support, reject honestly — emulated disconnect+relaunch cannot work
        // through a shared mux, and a synthetic success would lie to the client.

        if message.has_text("command", "restart") && !self.adapter_supports(
            "supportsRestartRequest",
        ) {
            return RequestRoute::Refuse;
        }
        match message.get_i64("seq") {
            Some(seq) => RequestRoute::Forward(seq),
            None => RequestRoute::Drop,
        }
    }

    /// Move the session on for a request that is about to be forwarded.
    fn advance(&mut self, message: &DapMessage)
        ensures
            final(self)@ == old(self)@.advanced(message@),
    {
        if message.has_text("command", "initialize") {
            self.phase = SessionPhase::Initializing;
        } else if message.has_text("command", "configurationDone") {
            // Mark configured before forwarding so a concurrent
            // configurationDone from another client is intercepted.
            self.phase = SessionPhase::Configured;
        }
        if message.has_text("command", "restart") {
            // The debuggee is about to re-run: drop the stale stop so a client
            // joining mid-restart isn't replayed a stop from the previous run.
            self.last_stopped_event = None;
        }
    }
}

/// Recording what a client says of itself moves nobody and changes no reply.
proof fn lemma_noted_keeps_replies(view: MuxView, sender: Seq<char>, message: JsonView)
    ensures
        ({
            let after = view.noted(sender, message);
            &&& forall|id: Seq<char>| #[trigger] after.connected(id) == view.connected(id)
            &&& forall|id: Seq<char>, m: JsonView|
                #[trigger] after.to_client(id, m) == view.to_client(id, m)
            &&& forall|id: Seq<char>, m: JsonView|
                #[trigger] after.replay(id, m) == view.replay(id, m)
        }),
{
    let after = view.noted(sender, message);
    assert forall|id: Seq<char>| #[trigger] after.connected(id) == view.connected(id) by {
        if view.connected(id) {
            let i = choose|i: int|
                0 <= i < view.clients.len() && (#[trigger] view.clients[i]).id == id;
            assert(after.clients[i].id == id);
        }
        if after.connected(id) {
            let i = choose|i: int|
                0 <= i < after.clients.len() && (#[trigger] after.clients[i]).id == id;
            assert(view.clients[i].id == id);
        }
    }
    assert forall|id: Seq<char>, m: JsonView|
        #[trigger] after.replay(id, m) == view.replay(id, m) by {
        assert(after.to_client(id, after.cached_reply(m)) == view.to_client(
            id,
            view.cached_reply(m),
        ));
    }
}

impl Multiplexer {
    /// Route a request from a downstream client.
    fn handle_request(&mut self, client_id: &str, message: DapMessage) -> (actions: Vec<Action>)
        requires
            message@ is Object,
            old(self)@.request_route(message@) is Forward ==> old(self)@.seq_map.next_seq
                < i64::MAX,
        ensures
            final(self)@ == old(self)@.request(client_id@, message@).after,
            actions_view(actions@) == old(self)@.request(client_id@, message@).actions,
    {
        let mut actions: Vec<Action> = Vec::new();
        assert(actions_view(actions@) =~= Seq::empty());
        let route = self.request_route(&message);
        self.note_initialize(client_id, &message);
        let ghost noted = self@;
        proof {
            lemma_noted_keeps_replies(old(self)@, client_id@, message@);
        }
        match route {
            RequestRoute::Replay => {
                self.respond_with_cached_initialize(client_id, &message, &mut actions);
            },
            RequestRoute::Buffer => {
                let ghost waiting = self@.pending_initialize;
                self.pending_initialize.push((client_id.to_owned(), message));
                assert(self@.pending_initialize =~= waiting.push((client_id@, message@)));
            },
            RequestRoute::Acknowledge => {
                self.respond_synthetic_success(client_id, &message, &mut actions);
            },
            RequestRoute::Detach => {
                self.respond_synthetic_success(client_id, &message, &mut actions);
                self.send_to(client_id, new_event("terminated"), &mut actions);
            },
            RequestRoute::Leave => {
                proof {
                    lemma_commands_differ();
                }
                self.respond_synthetic_success(client_id, &message, &mut actions);
                self.disconnect_client(client_id, &mut actions);
            },
            RequestRoute::Refuse => {
                self.respond_restart_unsupported(client_id, &message, &mut actions);
            },
            RequestRoute::Forward(original_seq) => {
                self.advance(&message);
                let proxy_seq = self.seq_map.allocate(client_id, original_seq);
                let mut forwarded = message;
                forwarded.set("seq", Json::integer(proxy_seq));
                self.send_upstream(forwarded, &mut actions);
            },
            RequestRoute::Drop => {},
        }
        assert(actions_view(actions@) =~= old(self)@.request(client_id@, message@).actions);
        actions
    }

    /// Route a message from a downstream client to the adapter.
    ///
    /// A client's response to a reverse request (e.g. runInTerminal) is
    /// forwarded back to the adapter rather than dropped as stray noise; any
    /// other message that is not a request is ignored.
    pub fn handle_client_message(&mut self, client_id: &str, message: DapMessage) -> (actions: Vec<
        Action,
    >)
        requires
            has_kind(message@, "request"@) && old(self)@.request_route(message@) is Forward ==> old(
                self,
            )@.seq_map.next_seq < i64::MAX,
        ensures
            final(self)@ == old(self)@.from_client(client_id@, message@).after,
            actions_view(actions@) == old(self)@.from_client(client_id@, message@).actions,
            old(self)@.well_formed() ==> final(self)@.well_formed(),
            old(self)@.owned_within(old(self)@.present()) && old(self)@.connected(client_id@)
                ==> final(self)@.owned_within(final(self)@.present()),
            old(self)@.owned_within(old(self)@.ever_present()) && was_named(
                client_id@,
                old(self)@.client_counter,
            ) ==> final(self)@.owned_within(final(self)@.ever_present()),
    {
        proof {
            reveal(MuxView::step);
            if old(self)@.owned_within(old(self)@.present()) && old(self)@.connected(client_id@) {
                lemma_owners_are_present(old(self)@, Input::FromClient(client_id@, message@));
            }
            if old(self)@.owned_within(old(self)@.ever_present()) && was_named(
                client_id@,
                old(self)@.client_counter,
            ) {
                lemma_owners_were_present(old(self)@, Input::FromClient(client_id@, message@));
            }
            if old(self)@.well_formed() {
                lemma_client_message_keeps_order(old(self)@, client_id@, message@);
            }
        }
        if is_request(&message) {
            self.handle_request(client_id, message)
        } else if is_response(&message) {
            let mut actions: Vec<Action> = Vec::new();
            let _ = self.forward_reverse_response(message, &mut actions);
            assert(actions_view(actions@) =~= old(self)@.client_response(message@).actions);
            actions
        } else {
            let actions: Vec<Action> = Vec::new();
            assert(actions_view(actions@) =~= Seq::empty());
            actions
        }
    }

    /// Route a message from the adapter to the appropriate client(s).
    pub fn handle_upstream_message(&mut self, message: DapMessage) -> (actions: Vec<Action>)
        requires
            is_reverse_request(message@) ==> old(self)@.next_reverse_seq < i64::MAX,
        ensures
            final(self)@ == old(self)@.from_adapter(message@).after,
            actions_view(actions@) == old(self)@.from_adapter(message@).actions,
            has_kind(message@, "response"@) && is_ascii_chars(error_text(message@)) ==> lowercased(
                error_text(message@),
            ) == ascii_lowercased(error_text(message@)),
            old(self)@.well_formed() ==> final(self)@.well_formed(),
            old(self)@.owned_within(old(self)@.present()) ==> final(self)@.owned_within(
                final(self)@.present(),
            ),
            old(self)@.owned_within(old(self)@.ever_present()) ==> final(self)@.owned_within(
                final(self)@.ever_present(),
            ),
    {
        proof {
            reveal(MuxView::step);
            if old(self)@.owned_within(old(self)@.present()) {
                lemma_owners_are_present(old(self)@, Input::FromAdapter(message@));
            }
            if old(self)@.owned_within(old(self)@.ever_present()) {
                lemma_owners_were_present(old(self)@, Input::FromAdapter(message@));
            }
            if old(self)@.well_formed() {
                lemma_adapter_message_keeps_order(old(self)@, message@);
            }
        }
        let mut actions: Vec<Action> = Vec::new();
        assert(actions_view(actions@) =~= Seq::empty());
        if is_response(&message) {
            let message = rewrite_stale_variable_error(message);
            actions = self.route_response(message);
        } else if is_event(&message) {
            if !should_filter_event(&message) {
                actions = self.broadcast_event(message);
            }
        } else if is_known_reverse_request(&message) {
            actions = self.route_reverse_request(message);
        }
        actions
    }

    /// Clean up when a client disconnects. The session continues for others.
    pub fn handle_client_disconnect(&mut self, client_id: &str) -> (actions: Vec<Action>)
        ensures
            final(self)@ == old(self)@.departure(client_id@).after,
            actions_view(actions@) == old(self)@.departure(client_id@).actions,
            old(self)@.well_formed() ==> final(self)@.well_formed(),
            old(self)@.owned_within(old(self)@.present()) ==> final(self)@.owned_within(
                final(self)@.present(),
            ),
            old(self)@.owned_within(old(self)@.ever_present()) ==> final(self)@.owned_within(
                final(self)@.ever_present(),
            ),
    {
        proof {
            reveal(MuxView::step);
            if old(self)@.owned_within(old(self)@.present()) {
                lemma_owners_are_present(old(self)@, Input::Departs(client_id@));
            }
            if old(self)@.owned_within(old(self)@.ever_present()) {
                lemma_owners_were_present(old(self)@, Input::Departs(client_id@));
            }
            if old(self)@.well_formed() {
                lemma_leaving_keeps_order(old(self)@, client_id@);
            }
        }
        let mut actions: Vec<Action> = Vec::new();
        assert(actions_view(actions@) =~= Seq::empty());
        self.disconnect_client(client_id, &mut actions);
        assert(actions_view(actions@) =~= old(self)@.departure(client_id@).actions);
        actions
    }

    /// The upstream adapter connection was lost: the session cannot continue.
    ///
    /// Tells every client the session is over (a synthetic `terminated` event,
    /// preceded by an `output` notice for visibility), drops the dead upstream
    /// queue, and signals the shutdown.
    pub fn handle_upstream_disconnect(&mut self) -> (actions: Vec<Action>)
        ensures
            final(self)@ == old(self)@.adapter_loss().after,
            actions_view(actions@) == old(self)@.adapter_loss().actions,
            old(self)@.well_formed() ==> final(self)@.well_formed(),
            old(self)@.owned_within(old(self)@.present()) ==> final(self)@.owned_within(
                final(self)@.present(),
            ),
            old(self)@.owned_within(old(self)@.ever_present()) ==> final(self)@.owned_within(
                final(self)@.ever_present(),
            ),
    {
        proof {
            reveal(MuxView::step);
            if old(self)@.owned_within(old(self)@.present()) {
                lemma_owners_are_present(old(self)@, Input::AdapterLost);
            }
            if old(self)@.owned_within(old(self)@.ever_present()) {
                lemma_owners_were_present(old(self)@, Input::AdapterLost);
            }
            if old(self)@.well_formed() {
                lemma_leaving_keeps_order(old(self)@, Seq::empty());
            }
        }
        let mut actions: Vec<Action> = Vec::new();
        let ghost views = self@.clients;
        let mut i: usize = 0;
        assert(views.take(0) =~= Seq::empty());
        assert(actions_view(actions@) =~= farewells(views.take(0)));
        while i < self.clients.len()
            invariant
                i <= self.clients@.len(),
                views == self@.clients,
                actions_view(actions@) == farewells(views.take(i as int)),
            decreases self.clients@.len() - i,
        {
            proof {
                assert(views[i as int].id == self.clients@[i as int].id@);
                assert(views.take(i + 1).drop_last() =~= views.take(i as int));
            }
            ask_for(
                &mut actions,
                Action::ToClient(self.clients[i].id.clone(), new_loss_notice()),
            );
            ask_for(
                &mut actions,
                Action::ToClient(self.clients[i].id.clone(), new_event("terminated")),
            );
            assert(actions_view(actions@) =~= farewells(views.take(i + 1)));
            i += 1;
        }
        assert(views.take(views.len() as int) =~= views);
        ask_for(&mut actions, Action::CloseAdapter);
        ask_for(&mut actions, Action::SignalShutdown);
        assert(actions_view(actions@) =~= self@.adapter_loss().actions);
        // Any further client request has nowhere to go.
        self.upstream_connected = false;
        actions
    }

    /// End the current session: close every downstream client connection.
    ///
    /// This realizes the oneshot-client model — a client connection belongs to
    /// exactly one session — so callers recreate the [`Multiplexer`] for the
    /// next session rather than reusing this one (its session state is
    /// intentionally not reset in place).
    pub fn end_session(&mut self) -> (actions: Vec<Action>)
        ensures
            final(self)@ == old(self)@.ended().after,
            actions_view(actions@) == old(self)@.ended().actions,
            old(self)@.well_formed() ==> final(self)@.well_formed(),
            old(self)@.owned_within(old(self)@.ever_present()) ==> final(self)@.owned_within(
                final(self)@.ever_present(),
            ),
    {
        proof {
            reveal(MuxView::step);
            if old(self)@.owned_within(old(self)@.ever_present()) {
                lemma_owners_were_present(old(self)@, Input::Ends);
            }
            if old(self)@.well_formed() {
                lemma_leaving_keeps_order(old(self)@, Seq::empty());
            }
        }
        let mut actions: Vec<Action> = Vec::new();
        let ghost views = self@.clients;
        let ghost close = |client: ClientView| ActionView::CloseClient(client.id);
        let mut i: usize = 0;
        while i < self.clients.len()
            invariant
                i <= self.clients@.len(),
                views == self@.clients,
                close == (|client: ClientView| ActionView::CloseClient(client.id)),
                actions_view(actions@) == views.take(i as int).map_values(close),
            decreases self.clients@.len() - i,
        {
            assert(views[i as int].id == self.clients@[i as int].id@);
            ask_for(&mut actions, Action::CloseClient(self.clients[i].id.clone()));
            assert(actions_view(actions@) =~= views.take(i + 1).map_values(close));
            i += 1;
        }
        assert(views.take(views.len() as int) =~= views);
        ask_for(&mut actions, Action::CloseAdapter);
        assert(actions_view(actions@) =~= self@.ended().actions);
        self.clients = Vec::new();
        self.upstream_connected = false;
        assert(self@ =~= old(self)@.ended().after);
        actions
    }
}

// ---------------------------------------------------------------------------
// Lifecycle and inspection
// ---------------------------------------------------------------------------

impl Multiplexer {
    /// Create a new, unconnected multiplexer whose debuggee is owned by its
    /// clients (the stdio frontend, or a host launched to serve them).
    pub fn new() -> (res: Self)
        ensures
            res@ == MuxView::fresh(false),
            res@.well_formed(),
            res@.owned_within(res@.present()),
            res@.owned_within(res@.ever_present()),
    {
        Multiplexer::build(false)
    }

    /// Create a multiplexer whose debuggee is owned by a separate operator (the
    /// TUI). A client's `terminate` then only detaches that client; ending the
    /// shared debuggee is the operator's call.
    pub fn new_operator_owned() -> (res: Self)
        ensures
            res@ == MuxView::fresh(true),
            res@.well_formed(),
            res@.owned_within(res@.present()),
            res@.owned_within(res@.ever_present()),
    {
        Multiplexer::build(true)
    }

    /// The debug adapter is connected.
    pub fn connect_upstream(&mut self)
        ensures
            final(self)@ == (MuxView { upstream_connected: true, ..old(self)@ }),
            old(self)@.well_formed() ==> final(self)@.well_formed(),
            old(self)@.owned_within(old(self)@.present()) ==> final(self)@.owned_within(
                final(self)@.present(),
            ),
            old(self)@.owned_within(old(self)@.ever_present()) ==> final(self)@.owned_within(
                final(self)@.ever_present(),
            ),
    {
        proof {
            reveal(MuxView::step);
            if old(self)@.owned_within(old(self)@.present()) {
                lemma_owners_are_present(old(self)@, Input::AdapterConnects);
            }
            if old(self)@.owned_within(old(self)@.ever_present()) {
                lemma_owners_were_present(old(self)@, Input::AdapterConnects);
            }
        }
        self.upstream_connected = true;
    }

    /// Register one downstream client and return its id.
    pub fn register_client(&mut self) -> (client_id: String)
        requires
            old(self)@.client_counter < u64::MAX,
        ensures
            final(self)@ == old(self)@.joined(),
            client_id@ == client_name((old(self)@.client_counter + 1) as nat),
            old(self)@.well_formed() ==> final(self)@.well_formed(),
            old(self)@.owned_within(old(self)@.present()) ==> final(self)@.owned_within(
                final(self)@.present(),
            ),
            old(self)@.owned_within(old(self)@.ever_present()) ==> final(self)@.owned_within(
                final(self)@.ever_present(),
            ),
            old(self)@.well_formed() && old(self)@.owned_within(old(self)@.ever_present())
                ==> final(self)@.idle(client_id@),
            old(self)@.well_formed() ==> !old(self)@.connected(client_id@),
    {
        proof {
            reveal(MuxView::step);
            if old(self)@.owned_within(old(self)@.present()) {
                lemma_owners_are_present(old(self)@, Input::Joins);
            }
            if old(self)@.owned_within(old(self)@.ever_present()) {
                lemma_owners_were_present(old(self)@, Input::Joins);
            }
            if old(self)@.well_formed() && old(self)@.owned_within(old(self)@.ever_present()) {
                lemma_new_client_is_idle(old(self)@);
            }
        }
        self.client_counter = self.client_counter + 1;
        let mut client_id = "client-".to_owned();
        client_id.append(decimal_string(self.client_counter).as_str());
        self.clients.push(
            ClientConnection { id: client_id.clone(), initialized: false, display_name: None },
        );
        assert(self@ =~= old(self)@.joined());
        proof {
            if old(self)@.well_formed() {
                lemma_new_client_is_fresh(old(self)@);
            }
        }
        client_id
    }

    /// Whether the session's counters can still count up: another client can
    /// register, and another message of either direction can be numbered.
    pub fn has_room(&self) -> (res: bool)
        ensures
            res == (self@.client_counter < u64::MAX && self@.seq_map.next_seq < i64::MAX
                && self@.next_reverse_seq < i64::MAX),
    {
        self.client_counter < u64::MAX && self.seq_map.next_seq() < i64::MAX
            && self.next_reverse_seq < i64::MAX
    }

    /// Number of currently connected clients.
    pub fn client_count(&self) -> (count: usize)
        ensures
            count == self@.clients.len(),
    {
        self.clients.len()
    }

    /// A point-in-time view of the session for the operator interface:
    /// session phase, whether the upstream is connected, and one entry per
    /// connected client (id, initialize status, in-flight request count).
    pub fn snapshot(&self) -> (res: MuxSnapshot)
        ensures
            res.phase == self@.phase,
            res.upstream_connected == self@.upstream_connected,
            res.clients@.len() == self@.clients.len(),
            forall|i: int|
                0 <= i < res.clients@.len() ==> {
                    let info = #[trigger] res.clients@[i];
                    let client = self@.clients[i];
                    &&& info.id@ == client.id
                    &&& text_view(info.name) == client.display_name
                    &&& info.initialized == client.initialized
                    &&& info.pending_requests == self@.seq_map.owned(client.id).len()
                },
    {
        let mut clients: Vec<ClientInfo> = Vec::new();
        let ghost views = self@.clients;
        let mut i: usize = 0;
        while i < self.clients.len()
            invariant
                i <= self.clients@.len(),
                views == self@.clients,
                clients@.len() == i,
                forall|j: int|
                    0 <= j < i ==> {
                        let info = #[trigger] clients@[j];
                        let client = views[j];
                        &&& info.id@ == client.id
                        &&& text_view(info.name) == client.display_name
                        &&& info.initialized == client.initialized
                        &&& info.pending_requests == self@.seq_map.owned(client.id).len()
                    },
            decreases self.clients@.len() - i,
        {
            let client = &self.clients[i];
            assert(views[i as int] == client@);
            clients.push(
                ClientInfo {
                    id: client.id.clone(),
                    name: clone_text(&client.display_name),
                    initialized: client.initialized,
                    pending_requests: self.seq_map.pending_for(client.id.as_str()),
                },
            );
            i += 1;
        }
        MuxSnapshot { phase: self.phase, upstream_connected: self.upstream_connected, clients }
    }
}

} // verus!
