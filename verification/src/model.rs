//! What the multiplexer holds and does, as mathematical values.
//!
//! A session is a [`MuxView`]. Each input (a message from a client or from the
//! adapter, a connection that opens or closes) takes it to another one and
//! asks for a sequence of [`ActionView`]s. The functions here say which; the
//! multiplexer itself is in [`crate::mux`].

use vstd::prelude::*;

use crate::compat::{
    error_text, is_filtered_event, is_reverse_request, reverse_target, with_stale_note,
};
use crate::json::{
    empty_object, field, flag_field, integer, integer_field, text_field, with_field, JsonView,
};
use crate::mux::{RequestRoute, SessionPhase};
use crate::owned::in_order;
use crate::protocol::has_kind;
use crate::seq::{PendingView, SeqMapView};
use crate::text::{decimal, lowercased};

verus! {

/// A connected client.
#[verifier::ext_equal]
pub struct ClientView {
    pub id: Seq<char>,
    pub initialized: bool,
    pub display_name: Option<Seq<char>>,
}

/// A reverse request that a client has yet to answer.
#[verifier::ext_equal]
pub struct ReverseView {
    pub adapter_seq: i64,
    pub client_id: Seq<char>,
    pub command: Seq<char>,
}

/// Something for the owner of the connections to do.
#[verifier::ext_equal]
pub enum ActionView {
    ToClient(Seq<char>, JsonView),
    ToAdapter(JsonView),
    CloseClient(Seq<char>),
    CloseAdapter,
    SignalShutdown,
}

/// The state of a session.
#[verifier::ext_equal]
pub struct MuxView {
    pub seq_map: SeqMapView,
    pub clients: Seq<ClientView>,
    pub init_args: Seq<(Seq<char>, JsonView)>,
    pub client_counter: u64,
    pub phase: SessionPhase,
    pub pending_initialize: Seq<(Seq<char>, JsonView)>,
    pub capabilities: Option<JsonView>,
    pub initialized_event: Option<JsonView>,
    pub last_stopped_event: Option<JsonView>,
    pub upstream_connected: bool,
    pub reverse_requests: Map<i64, ReverseView>,
    pub next_reverse_seq: i64,
    pub operator_owned: bool,
}

/// A session after an input, and what is to be done.
#[verifier::ext_equal]
pub struct Step {
    pub after: MuxView,
    pub actions: Seq<ActionView>,
}

// ---------------------------------------------------------------------------
// Messages
// ---------------------------------------------------------------------------

/// Whether `message` carries the command `command`.
pub open spec fn asks(message: JsonView, command: Seq<char>) -> bool {
    text_field(message, "command"@) == Some(command)
}

/// The `seq` of a request, whatever it is, or zero.
pub open spec fn own_seq(message: JsonView) -> JsonView {
    match field(message, "seq"@) {
        Some(seq) => seq,
        None => integer(0),
    }
}

/// A response that the multiplexer makes up.
pub open spec fn response(request_seq: JsonView, success: bool, command: JsonView) -> JsonView {
    let blank = with_field(empty_object(), "seq"@, integer(0));
    let typed = with_field(blank, "type"@, JsonView::String("response"@));
    let addressed = with_field(typed, "request_seq"@, request_seq);
    let decided = with_field(addressed, "success"@, JsonView::Bool(success));
    with_field(decided, "command"@, command)
}

/// A failure response that the multiplexer makes up.
pub open spec fn refusal(
    request_seq: JsonView,
    command: JsonView,
    reason: Seq<char>,
) -> JsonView {
    with_field(response(request_seq, false, command), "message"@, JsonView::String(reason))
}

/// The response that says that a request succeeded.
pub open spec fn acknowledgement(message: JsonView) -> JsonView {
    let command = match field(message, "command"@) {
        Some(command) => command,
        None => JsonView::String(""@),
    };
    response(own_seq(message), true, command)
}

/// The response that turns down a `restart`.
pub open spec fn restart_refusal(message: JsonView) -> JsonView {
    refusal(
        own_seq(message),
        JsonView::String("restart"@),
        "restart unsupported: the debug adapter does not advertise supportsRestartRequest; emulated restart cannot work through the mux"@,
    )
}

/// The response that turns down an `initialize` queued behind one that the
/// adapter rejected.
pub open spec fn initialize_refusal(message: JsonView, reason: Seq<char>) -> JsonView {
    refusal(own_seq(message), JsonView::String("initialize"@), reason)
}

/// An event that the multiplexer makes up.
pub open spec fn event(name: Seq<char>) -> JsonView {
    let blank = with_field(empty_object(), "seq"@, integer(0));
    let typed = with_field(blank, "type"@, JsonView::String("event"@));
    with_field(typed, "event"@, JsonView::String(name))
}

/// The notice that the adapter connection was lost.
pub open spec fn loss_notice() -> JsonView {
    let category = with_field(empty_object(), "category"@, JsonView::String("console"@));
    let body = with_field(
        category,
        "output"@,
        JsonView::String("dap-mux: debug adapter connection lost; shutting down\n"@),
    );
    with_field(event("output"@), "body"@, body)
}

/// The arguments of an `initialize` request.
pub open spec fn initialize_arguments(message: JsonView) -> JsonView {
    match field(message, "arguments"@) {
        Some(arguments) => arguments,
        None => empty_object(),
    }
}

/// The name by which a client introduces itself: its `clientName`, or where
/// there is none, its `clientID`.
pub open spec fn display_name(arguments: JsonView) -> Option<Seq<char>> {
    match field(arguments, "clientName"@) {
        Some(_) => text_field(arguments, "clientName"@),
        None => text_field(arguments, "clientID"@),
    }
}

/// Why the adapter rejected `initialize`.
pub open spec fn rejection_reason(message: JsonView) -> Seq<char> {
    match text_field(message, "message"@) {
        Some(reason) => reason,
        None => "debug adapter rejected initialize"@,
    }
}

/// The command of a message, or `?`.
pub open spec fn command_or_unknown(message: JsonView) -> Seq<char> {
    match text_field(message, "command"@) {
        Some(command) => command,
        None => "?"@,
    }
}

/// The id of the client that connected as number `n`.
pub open spec fn client_name(n: nat) -> Seq<char> {
    "client-"@ + decimal(n)
}

/// What is said to the adapter of a reverse request that nobody can answer.
pub open spec fn reverse_failure(request: ReverseView, reason: Seq<char>) -> JsonView {
    refusal(integer(request.adapter_seq as int), JsonView::String(request.command), reason)
}

/// Picks what other clients sent.
pub open spec fn from_others(id: Seq<char>) -> spec_fn((Seq<char>, JsonView)) -> bool {
    |entry: (Seq<char>, JsonView)| entry.0 != id
}

/// Picks the other clients.
pub open spec fn other_than(id: Seq<char>) -> spec_fn(ClientView) -> bool {
    |client: ClientView| client.id != id
}

/// Whether a client with that id is among `clients`.
pub open spec fn among(clients: Seq<ClientView>, id: Seq<char>) -> bool {
    exists|i: int| 0 <= i < clients.len() && (#[trigger] clients[i]).id == id
}

// ---------------------------------------------------------------------------
// A session's parts
// ---------------------------------------------------------------------------

impl MuxView {
    /// A session that nobody has joined.
    pub open spec fn fresh(operator_owned: bool) -> MuxView {
        MuxView {
            seq_map: SeqMapView::empty(),
            clients: Seq::empty(),
            init_args: Seq::empty(),
            client_counter: 0,
            phase: SessionPhase::PreInit,
            pending_initialize: Seq::empty(),
            capabilities: None,
            initialized_event: None,
            last_stopped_event: None,
            upstream_connected: false,
            reverse_requests: Map::empty(),
            next_reverse_seq: 1,
            operator_owned,
        }
    }

    /// Whether a client is connected.
    pub open spec fn connected(self, id: Seq<char>) -> bool {
        among(self.clients, id)
    }

    /// Sending `message` to a client: nothing, where it is not connected.
    pub open spec fn to_client(self, id: Seq<char>, message: JsonView) -> Seq<ActionView> {
        if self.connected(id) {
            seq![ActionView::ToClient(id, message)]
        } else {
            Seq::empty()
        }
    }

    /// Sending `message` to the adapter: nothing, where it is not connected.
    pub open spec fn to_adapter(self, message: JsonView) -> Seq<ActionView> {
        if self.upstream_connected {
            seq![ActionView::ToAdapter(message)]
        } else {
            Seq::empty()
        }
    }

    /// Closing a client's connection: nothing, where it is not connected.
    pub open spec fn closing(self, id: Seq<char>) -> Seq<ActionView> {
        if self.connected(id) {
            seq![ActionView::CloseClient(id)]
        } else {
            Seq::empty()
        }
    }

    /// With those clients marked that have completed `initialize`.
    pub open spec fn marked(self, done: spec_fn(Seq<char>) -> bool) -> MuxView {
        MuxView {
            clients: self.clients.map_values(
                |client: ClientView|
                    ClientView { initialized: client.initialized || done(client.id), ..client },
            ),
            ..self
        }
    }

    /// With a client's name on record.
    pub open spec fn named(self, id: Seq<char>, name: Option<Seq<char>>) -> MuxView {
        MuxView {
            clients: self.clients.map_values(
                |client: ClientView|
                    if client.id == id && name is Some {
                        ClientView { display_name: name, ..client }
                    } else {
                        client
                    },
            ),
            ..self
        }
    }

    /// Whether a client's `initialize` arguments are on record.
    pub open spec fn introduced(self, id: Seq<char>) -> bool {
        exists|i: int| 0 <= i < self.init_args.len() && (#[trigger] self.init_args[i]).0 == id
    }

    /// With a client's `initialize` arguments on record: in place of its
    /// earlier ones, or else at the end.
    pub open spec fn with_init_args(self, id: Seq<char>, arguments: JsonView) -> MuxView {
        MuxView {
            init_args: if self.introduced(id) {
                self.init_args.map_values(
                    |entry: (Seq<char>, JsonView)|
                        if entry.0 == id {
                            (entry.0, arguments)
                        } else {
                            entry
                        },
                )
            } else {
                self.init_args.push((id, arguments))
            },
            ..self
        }
    }

    /// Whether the adapter advertised a capability.
    pub open spec fn adapter_supports(self, capability: Seq<char>) -> bool {
        match self.capabilities {
            Some(capabilities) => flag_field(capabilities, capability),
            None => false,
        }
    }

    /// Whether a `terminate` reaches the adapter: its sender is the only
    /// client, no operator owns the debuggee, and the adapter can do it.
    pub open spec fn honours_terminate(self) -> bool {
        &&& self.clients.len() == 1
        &&& !self.operator_owned
        &&& self.adapter_supports("supportsTerminateRequest"@)
    }

    /// The answer to an `initialize`, from the cached capabilities.
    pub open spec fn cached_reply(self, message: JsonView) -> JsonView {
        let reply = response(own_seq(message), true, JsonView::String("initialize"@));
        match self.capabilities {
            Some(capabilities) => with_field(reply, "body"@, capabilities),
            None => reply,
        }
    }

    /// Bringing a late joiner up to date: the answer to its `initialize`, the
    /// `initialized` event, and the current stop.
    pub open spec fn replay(self, id: Seq<char>, message: JsonView) -> Seq<ActionView> {
        self.to_client(id, self.cached_reply(message)) + (match self.initialized_event {
            Some(event) => self.to_client(id, event),
            None => Seq::empty(),
        }) + (match self.last_stopped_event {
            Some(event) => self.to_client(id, event),
            None => Seq::empty(),
        })
    }

    /// The reverse request that was handed out under `seq`.
    pub open spec fn reverse_request(self, seq: i64) -> Option<ReverseView> {
        if self.reverse_requests.contains_key(seq) {
            Some(self.reverse_requests[seq])
        } else {
            None
        }
    }

    /// The numbers of the reverse requests that a client has yet to answer.
    pub open spec fn owed_by(self, id: Seq<char>) -> Set<i64> {
        self.reverse_requests.dom().filter(
            |seq: i64| self.reverse_requests[seq].client_id == id,
        )
    }

    /// Failing the reverse requests that a departing client has yet to answer,
    /// the oldest first.
    pub open spec fn failing_owed(self, id: Seq<char>) -> Seq<ActionView> {
        if self.upstream_connected {
            in_order(self.owed_by(id)).map_values(
                |seq: i64|
                    ActionView::ToAdapter(
                        reverse_failure(
                            self.reverse_requests[seq],
                            "dap-mux: client handling reverse request disconnected before responding"@,
                        ),
                    ),
            )
        } else {
            Seq::empty()
        }
    }

    /// With nothing left of what a client had under way.
    pub open spec fn cleaned(self, id: Seq<char>) -> MuxView {
        MuxView {
            seq_map: self.seq_map.without_client(id),
            init_args: self.init_args.filter(from_others(id)),
            pending_initialize: self.pending_initialize.filter(from_others(id)),
            reverse_requests: self.reverse_requests.remove_keys(self.owed_by(id)),
            ..self
        }
    }

    /// With a client removed.
    pub open spec fn without_client(self, id: Seq<char>) -> MuxView {
        MuxView {
            clients: self.clients.filter(other_than(id)),
            ..self
        }
    }
}

// ---------------------------------------------------------------------------
// A session in order
// ---------------------------------------------------------------------------

/// Whether every item stands in relation `rel` to every later one.
pub open spec fn pairwise<A>(items: Seq<A>, rel: spec_fn(A, A) -> bool) -> bool {
    forall|i: int, j: int| 0 <= i < j < items.len() ==> rel(#[trigger] items[i], #[trigger] items[j])
}

/// Whether `id` was given to one of the first `count` clients.
pub open spec fn was_named(id: Seq<char>, count: u64) -> bool {
    exists|n: nat| 1 <= n <= count && id == #[trigger] client_name(n)
}

/// Whether the client with id `a` connected before the one with id `b`.
pub open spec fn named_before(a: Seq<char>, b: Seq<char>) -> bool {
    exists|n: nat, m: nat|
        n < m && a == #[trigger] client_name(n) && b == #[trigger] client_name(m)
}

/// Clients in the order they connected.
pub open spec fn connected_earlier() -> spec_fn(ClientView, ClientView) -> bool {
    |a: ClientView, b: ClientView| named_before(a.id, b.id)
}

/// Arguments of distinct clients.
pub open spec fn distinct_owners() -> spec_fn(
    (Seq<char>, JsonView),
    (Seq<char>, JsonView),
) -> bool {
    |a: (Seq<char>, JsonView), b: (Seq<char>, JsonView)| a.0 != b.0
}

impl MuxView {
    /// Whether the session is in order: clients are listed in the order they
    /// connected, each id was handed out, a client's arguments are on record
    /// once, and only numbers that were handed out are outstanding, each once.
    pub open spec fn well_formed(self) -> bool {
        &&& self.seq_map.well_formed()
        &&& pairwise(self.clients, connected_earlier())
        &&& forall|i: int|
            0 <= i < self.clients.len() ==> was_named(
                (#[trigger] self.clients[i]).id,
                self.client_counter,
            )
        &&& pairwise(self.init_args, distinct_owners())
        &&& self.next_reverse_seq >= 1
        &&& self.reverse_requests.dom().finite()
        &&& forall|seq: i64| #[trigger]
            self.reverse_requests.contains_key(seq) ==> 1 <= seq < self.next_reverse_seq
    }

    /// Whether everything under way (outstanding requests, `initialize`
    /// arguments, waiting `initialize` requests, reverse requests to be
    /// answered) belongs to clients that `known` picks.
    pub open spec fn owned_within(self, known: spec_fn(Seq<char>) -> bool) -> bool {
        &&& forall|seq: i64| #[trigger]
            self.seq_map.pending.contains_key(seq) ==> known(self.seq_map.pending[seq].client_id)
        &&& forall|i: int|
            0 <= i < self.init_args.len() ==> known((#[trigger] self.init_args[i]).0)
        &&& forall|i: int|
            0 <= i < self.pending_initialize.len() ==> known(
                (#[trigger] self.pending_initialize[i]).0,
            )
        &&& forall|seq: i64| #[trigger]
            self.reverse_requests.contains_key(seq) ==> known(self.reverse_requests[seq].client_id)
    }

    /// Picks the clients that are connected.
    pub open spec fn present(self) -> spec_fn(Seq<char>) -> bool {
        |id: Seq<char>| self.connected(id)
    }

    /// Picks the clients that have ever connected.
    pub open spec fn ever_present(self) -> spec_fn(Seq<char>) -> bool {
        |id: Seq<char>| was_named(id, self.client_counter)
    }

    /// Whether a client has nothing under way.
    pub open spec fn idle(self, id: Seq<char>) -> bool {
        &&& self.seq_map.owned(id) == Set::<i64>::empty()
        &&& !self.introduced(id)
        &&& !waits(self.pending_initialize, id)
        &&& self.owed_by(id) == Set::<i64>::empty()
    }
}

// ---------------------------------------------------------------------------
// Connections
// ---------------------------------------------------------------------------

impl MuxView {
    /// A client connects.
    pub open spec fn joined(self) -> MuxView {
        MuxView {
            client_counter: (self.client_counter + 1) as u64,
            clients: self.clients.push(
                ClientView {
                    id: client_name((self.client_counter + 1) as nat),
                    initialized: false,
                    display_name: None,
                },
            ),
            ..self
        }
    }

    /// A client's connection is gone, or is to be closed.
    pub open spec fn departure(self, id: Seq<char>) -> Step {
        Step {
            after: self.without_client(id).cleaned(id),
            actions: self.closing(id) + self.failing_owed(id),
        }
    }

    /// The adapter connection is lost.
    pub open spec fn adapter_loss(self) -> Step {
        Step {
            after: MuxView { upstream_connected: false, ..self },
            actions: farewells(self.clients) + seq![
                ActionView::CloseAdapter,
                ActionView::SignalShutdown,
            ],
        }
    }

    /// The session is ended from outside.
    pub open spec fn ended(self) -> Step {
        Step {
            after: MuxView { clients: Seq::empty(), upstream_connected: false, ..self },
            actions: self.clients.map_values(
                |client: ClientView| ActionView::CloseClient(client.id),
            ).push(ActionView::CloseAdapter),
        }
    }
}

/// Telling each client that the session is over.
pub open spec fn farewells(clients: Seq<ClientView>) -> Seq<ActionView>
    decreases clients.len(),
{
    if clients.len() == 0 {
        Seq::empty()
    } else {
        farewells(clients.drop_last()) + seq![
            ActionView::ToClient(clients.last().id, loss_notice()),
            ActionView::ToClient(clients.last().id, event("terminated"@)),
        ]
    }
}

// ---------------------------------------------------------------------------
// Messages from clients
// ---------------------------------------------------------------------------

impl MuxView {
    /// With what an `initialize` request says of its sender on record.
    pub open spec fn noted(self, id: Seq<char>, message: JsonView) -> MuxView {
        if asks(message, "initialize"@) {
            let arguments = initialize_arguments(message);
            self.named(id, display_name(arguments)).with_init_args(id, arguments)
        } else {
            self
        }
    }

    /// What becomes of a request.
    pub open spec fn request_route(self, message: JsonView) -> RequestRoute {
        let configured = self.phase == SessionPhase::Configured;
        if asks(message, "initialize"@) && (self.phase == SessionPhase::Initialized || configured) {
            RequestRoute::Replay
        } else if asks(message, "initialize"@) && self.phase == SessionPhase::Initializing {
            RequestRoute::Buffer
        } else if configured && (asks(message, "attach"@) || asks(message, "launch"@) || asks(
            message,
            "configurationDone"@,
        )) {
            RequestRoute::Acknowledge
        } else if asks(message, "terminate"@) && !self.honours_terminate() {
            RequestRoute::Detach
        } else if asks(message, "disconnect"@) {
            RequestRoute::Leave
        } else if asks(message, "restart"@) && !self.adapter_supports("supportsRestartRequest"@) {
            RequestRoute::Refuse
        } else {
            match integer_field(message, "seq"@) {
                Some(seq) => RequestRoute::Forward(seq),
                None => RequestRoute::Drop,
            }
        }
    }

    /// How a request that is forwarded moves the session on.
    pub open spec fn advanced(self, message: JsonView) -> MuxView {
        MuxView {
            phase: if asks(message, "initialize"@) {
                SessionPhase::Initializing
            } else if asks(message, "configurationDone"@) {
                SessionPhase::Configured
            } else {
                self.phase
            },
            last_stopped_event: if asks(message, "restart"@) {
                None
            } else {
                self.last_stopped_event
            },
            ..self
        }
    }

    /// A request arrives from a client.
    pub open spec fn request(self, id: Seq<char>, message: JsonView) -> Step {
        let noted = self.noted(id, message);
        match self.request_route(message) {
            RequestRoute::Replay => Step {
                after: noted.marked(|other: Seq<char>| other == id),
                actions: self.replay(id, message),
            },
            RequestRoute::Buffer => Step {
                after: MuxView {
                    pending_initialize: noted.pending_initialize.push((id, message)),
                    ..noted
                },
                actions: Seq::empty(),
            },
            RequestRoute::Acknowledge => Step {
                after: noted,
                actions: self.to_client(id, acknowledgement(message)),
            },
            RequestRoute::Detach => Step {
                after: noted,
                actions: self.to_client(id, acknowledgement(message)) + self.to_client(
                    id,
                    event("terminated"@),
                ),
            },
            RequestRoute::Leave => Step {
                after: self.departure(id).after,
                actions: self.to_client(id, acknowledgement(message)) + self.departure(id).actions,
            },
            RequestRoute::Refuse => Step {
                after: noted,
                actions: self.to_client(id, restart_refusal(message)),
            },
            RequestRoute::Forward(seq) => Step {
                after: MuxView {
                    seq_map: noted.seq_map.allocated(id, seq),
                    ..noted.advanced(message)
                },
                actions: self.to_adapter(
                    with_field(message, "seq"@, integer(self.seq_map.next_seq as int)),
                ),
            },
            RequestRoute::Drop => Step { after: noted, actions: Seq::empty() },
        }
    }

    /// A response arrives from a client: the answer to a reverse request goes
    /// back to the adapter, under the number that the adapter gave it.
    pub open spec fn client_response(self, message: JsonView) -> Step {
        match integer_field(message, "request_seq"@) {
            Some(seq) => match self.reverse_request(seq) {
                Some(request) => Step {
                    after: MuxView {
                        reverse_requests: self.reverse_requests.remove(seq),
                        ..self
                    },
                    actions: self.to_adapter(
                        with_field(message, "request_seq"@, integer(request.adapter_seq as int)),
                    ),
                },
                None => Step { after: self, actions: Seq::empty() },
            },
            None => Step { after: self, actions: Seq::empty() },
        }
    }

    /// A message arrives from a client.
    pub open spec fn from_client(self, id: Seq<char>, message: JsonView) -> Step {
        if has_kind(message, "request"@) {
            self.request(id, message)
        } else if has_kind(message, "response"@) {
            self.client_response(message)
        } else {
            Step { after: self, actions: Seq::empty() }
        }
    }
}

// ---------------------------------------------------------------------------
// Messages from the adapter
// ---------------------------------------------------------------------------

/// Whether a client is among those whose `initialize` waits.
pub open spec fn waits(waiting: Seq<(Seq<char>, JsonView)>, id: Seq<char>) -> bool {
    exists|i: int| 0 <= i < waiting.len() && (#[trigger] waiting[i]).0 == id
}

impl MuxView {
    /// Bringing each waiting client up to date, in the order they asked.
    pub open spec fn replays(self, waiting: Seq<(Seq<char>, JsonView)>) -> Seq<ActionView>
        decreases waiting.len(),
    {
        if waiting.len() == 0 {
            Seq::empty()
        } else {
            self.replays(waiting.drop_last()) + self.replay(waiting.last().0, waiting.last().1)
        }
    }

    /// Turning down each waiting client, in the order they asked.
    pub open spec fn refusals(
        self,
        waiting: Seq<(Seq<char>, JsonView)>,
        reason: Seq<char>,
    ) -> Seq<ActionView>
        decreases waiting.len(),
    {
        if waiting.len() == 0 {
            Seq::empty()
        } else {
            self.refusals(waiting.drop_last(), reason) + self.to_client(
                waiting.last().0,
                initialize_refusal(waiting.last().1, reason),
            )
        }
    }

    /// Whether a response settles the session's `initialize`.
    pub open spec fn settles(self, message: JsonView) -> bool {
        asks(message, "initialize"@) && self.phase == SessionPhase::Initializing
    }

    /// The adapter answers the session's `initialize`: on success its
    /// capabilities are kept and the waiting clients are served from them; on
    /// failure the waiting clients are turned down, and a later client may try
    /// again.
    pub open spec fn settled(self, message: JsonView) -> Step {
        let idle = MuxView { pending_initialize: Seq::empty(), ..self };
        let waiting = self.pending_initialize;
        if flag_field(message, "success"@) {
            let ready = MuxView {
                phase: SessionPhase::Initialized,
                capabilities: field(message, "body"@),
                ..idle
            };
            Step {
                after: ready.marked(|id: Seq<char>| waits(waiting, id)),
                actions: ready.replays(waiting),
            }
        } else {
            Step {
                after: MuxView { phase: SessionPhase::PreInit, ..idle },
                actions: idle.refusals(waiting, rejection_reason(message)),
            }
        }
    }

    /// A response goes back to the client that asked, under the number that
    /// the client gave its request.
    pub open spec fn returned(self, seq: i64, message: JsonView) -> Step {
        if self.seq_map.pending.contains_key(seq) {
            let PendingView { client_id, client_seq } = self.seq_map.pending[seq];
            let resolved = MuxView { seq_map: self.seq_map.resolved(seq), ..self };
            let initializes = asks(message, "initialize"@) && flag_field(message, "success"@);
            Step {
                after: resolved.marked(|id: Seq<char>| initializes && id == client_id),
                actions: self.to_client(
                    client_id,
                    with_field(message, "request_seq"@, integer(client_seq as int)),
                ),
            }
        } else {
            Step { after: self, actions: Seq::empty() }
        }
    }

    /// A response arrives from the adapter.
    pub open spec fn adapter_response(self, message: JsonView) -> Step {
        match integer_field(message, "request_seq"@) {
            None => Step { after: self, actions: Seq::empty() },
            Some(seq) => if self.settles(message) {
                let settled = self.settled(message);
                let returned = settled.after.returned(seq, message);
                Step { after: returned.after, actions: settled.actions + returned.actions }
            } else {
                self.returned(seq, message)
            },
        }
    }

    /// An event arrives from the adapter: every client gets it, and what a
    /// late joiner needs of it is kept.
    pub open spec fn adapter_event(self, message: JsonView) -> Step {
        let name = text_field(message, "event"@);
        Step {
            after: MuxView {
                initialized_event: if name == Some("initialized"@) {
                    Some(message)
                } else {
                    self.initialized_event
                },
                last_stopped_event: if name == Some("stopped"@) {
                    Some(message)
                } else if name == Some("continued"@) || name == Some("terminated"@) {
                    None
                } else {
                    self.last_stopped_event
                },
                ..self
            },
            actions: self.clients.map_values(
                |client: ClientView| ActionView::ToClient(client.id, message),
            ),
        }
    }

    /// A reverse request arrives from the adapter: one client gets it, under a
    /// number of the multiplexer's own; where none can, the adapter is told.
    pub open spec fn reverse(self, message: JsonView) -> Step {
        let adapter_seq = match integer_field(message, "seq"@) {
            Some(seq) => seq,
            None => 0,
        };
        let command = command_or_unknown(message);
        match reverse_target(self.init_args, message) {
            None => Step {
                after: self,
                actions: self.to_adapter(
                    reverse_failure(
                        ReverseView { adapter_seq, client_id: Seq::empty(), command },
                        "dap-mux: no client available to handle reverse request"@,
                    ),
                ),
            },
            Some(client_id) => if self.connected(client_id) {
                Step {
                    after: MuxView {
                        reverse_requests: self.reverse_requests.insert(
                            self.next_reverse_seq,
                            ReverseView { adapter_seq, client_id, command },
                        ),
                        next_reverse_seq: (self.next_reverse_seq + 1) as i64,
                        ..self
                    },
                    actions: self.to_client(
                        client_id,
                        with_field(message, "seq"@, integer(self.next_reverse_seq as int)),
                    ),
                }
            } else {
                Step {
                    after: self,
                    actions: self.to_adapter(
                        reverse_failure(
                            ReverseView { adapter_seq, client_id, command },
                            "dap-mux: target client for reverse request is gone"@,
                        ),
                    ),
                }
            },
        }
    }

    /// A message arrives from the adapter.
    pub open spec fn from_adapter(self, message: JsonView) -> Step {
        if has_kind(message, "response"@) {
            self.adapter_response(with_stale_note(message, lowercased(error_text(message))))
        } else if has_kind(message, "event"@) {
            if is_filtered_event(message) {
                Step { after: self, actions: Seq::empty() }
            } else {
                self.adapter_event(message)
            }
        } else if is_reverse_request(message) {
            self.reverse(message)
        } else {
            Step { after: self, actions: Seq::empty() }
        }
    }
}

// ---------------------------------------------------------------------------
// Runs
// ---------------------------------------------------------------------------

/// Something that happens to a session.
pub enum Input {
    /// A message arrives from a client.
    FromClient(Seq<char>, JsonView),
    /// A message arrives from the adapter.
    FromAdapter(JsonView),
    /// A client connects.
    Joins,
    /// A client's connection is gone.
    Departs(Seq<char>),
    /// The adapter is connected.
    AdapterConnects,
    /// The adapter connection is lost.
    AdapterLost,
    /// The session is ended from outside.
    Ends,
}

impl MuxView {
    /// What one input does.
    #[verifier::opaque]
    pub open spec fn step(self, input: Input) -> Step {
        match input {
            Input::FromClient(id, message) => self.from_client(id, message),
            Input::FromAdapter(message) => self.from_adapter(message),
            Input::Joins => Step { after: self.joined(), actions: Seq::empty() },
            Input::Departs(id) => self.departure(id),
            Input::AdapterConnects => Step {
                after: MuxView { upstream_connected: true, ..self },
                actions: Seq::empty(),
            },
            Input::AdapterLost => self.adapter_loss(),
            Input::Ends => self.ended(),
        }
    }

    /// The session after a run of inputs.
    pub open spec fn ran(self, inputs: Seq<Input>) -> MuxView
        decreases inputs.len(),
    {
        if inputs.len() == 0 {
            self
        } else {
            self.ran(inputs.drop_last()).step(inputs.last()).after
        }
    }

    /// All that is to be done in a run of inputs.
    pub open spec fn ran_actions(self, inputs: Seq<Input>) -> Seq<ActionView>
        decreases inputs.len(),
    {
        if inputs.len() == 0 {
            Seq::empty()
        } else {
            self.ran_actions(inputs.drop_last()) + self.ran(inputs.drop_last()).step(
                inputs.last(),
            ).actions
        }
    }

    /// Whether the session's counters do not run out within `count` inputs.
    pub open spec fn has_room_for(self, count: nat) -> bool {
        &&& self.client_counter + count <= u64::MAX
        &&& self.seq_map.next_seq + count <= i64::MAX
        &&& self.next_reverse_seq + count <= i64::MAX
    }
}

} // verus!
