//! What clients and the adapter are promised.
//!
//! Each law here speaks of the messages themselves: which members an object has
//! and what stands in them, who is sent what, and what a session remembers,
//! rather than of how the session is modelled to arrive at it.

use vstd::prelude::*;

use crate::compat::{
    error_text, is_filtered_event, lemma_first_of_filter, opted_in, reverse_target,
    with_stale_note,
};
use crate::json::{field, integer_field, text_field, JsonView, NumberView};
use crate::laws::{
    lemma_commands_differ, lemma_events_differ, lemma_filter_none, lemma_filter_source,
    lemma_kinds_differ, lemma_note_keeps_routing,
};
use crate::model::{
    acknowledgement, asks, client_name, display_name, farewells, from_others,
    initialize_arguments, other_than, refusal, rejection_reason, waits, ActionView, ClientView,
    Input, MuxView, ReverseView, Step,
};
use crate::mux::{MuxSnapshot, Multiplexer, RequestRoute, SessionPhase};
use crate::owned::lemma_in_order;
use crate::seq::{PendingView, SeqMapView};
use crate::text::{decimal, has_substring, lemma_decimal_injective, lowercased, occurs_at};

verus! {

// ---------------------------------------------------------------------------
// Messages
// ---------------------------------------------------------------------------

/// Whether a message is an object whose member `key` is `value`.
pub open spec fn says(message: JsonView, key: Seq<char>, value: JsonView) -> bool {
    message matches JsonView::Object(members) && members.contains_key(key) && members[key] == value
}

/// Whether a message has no member `key`.
pub open spec fn is_silent_on(message: JsonView, key: Seq<char>) -> bool {
    message matches JsonView::Object(members) ==> !members.contains_key(key)
}

/// The number `n`.
pub open spec fn figure(n: int) -> JsonView {
    JsonView::Number(NumberView::Int(n))
}

/// Whether a message is a request for `command`.
pub open spec fn is_request_for(message: JsonView, command: Seq<char>) -> bool {
    says(message, "type"@, JsonView::String("request"@)) && says(
        message,
        "command"@,
        JsonView::String(command),
    )
}

/// Whether a message is an event called `name`.
pub open spec fn is_event_called(message: JsonView, name: Seq<char>) -> bool {
    says(message, "type"@, JsonView::String("event"@)) && says(
        message,
        "event"@,
        JsonView::String(name),
    )
}

/// Whether a message is a response.
pub open spec fn is_an_answer(message: JsonView) -> bool {
    says(message, "type"@, JsonView::String("response"@))
}

/// Whether a message is a response to `command`.
pub open spec fn is_answer_to(message: JsonView, command: Seq<char>) -> bool {
    is_an_answer(message) && says(message, "command"@, JsonView::String(command))
}

/// A message with its member `key` set to `value`, and every other as it was.
pub open spec fn amended(message: JsonView, key: Seq<char>, value: JsonView) -> JsonView {
    match message {
        JsonView::Object(members) => JsonView::Object(members.insert(key, value)),
        _ => message,
    }
}

/// Whether a client is listed.
pub open spec fn is_listed(view: MuxView, id: Seq<char>) -> bool {
    exists|i: int| 0 <= i < view.clients.len() && (#[trigger] view.clients[i]).id == id
}

/// Whether the adapter said that it can do something.
pub open spec fn adapter_can(view: MuxView, capability: Seq<char>) -> bool {
    view.capabilities matches Some(capabilities) && says(
        capabilities,
        capability,
        JsonView::Bool(true),
    )
}

/// What is sent to the adapter when `message` is: nothing while it is not
/// connected.
pub open spec fn adapter_gets(view: MuxView, message: JsonView) -> Seq<ActionView> {
    if view.upstream_connected {
        seq![ActionView::ToAdapter(message)]
    } else {
        Seq::empty()
    }
}

/// What is sent to a client when `message` is: nothing while it is not listed.
pub open spec fn client_gets(view: MuxView, id: Seq<char>, message: JsonView) -> Seq<ActionView> {
    if is_listed(view, id) {
        seq![ActionView::ToClient(id, message)]
    } else {
        Seq::empty()
    }
}

/// The session once a request of a client, numbered `n` by it, has been given
/// the next number.
pub open spec fn numbered_next(view: MuxView, id: Seq<char>, n: i64) -> MuxView {
    MuxView {
        seq_map: SeqMapView {
            next_seq: (view.seq_map.next_seq + 1) as i64,
            pending: view.seq_map.pending.insert(
                view.seq_map.next_seq,
                PendingView { client_id: id, client_seq: n },
            ),
        },
        ..view
    }
}

/// A request as the adapter gets it: under the next number.
pub open spec fn under_next_number(view: MuxView, message: JsonView) -> JsonView {
    amended(message, "seq"@, figure(view.seq_map.next_seq as int))
}

/// Whether a message has no number of its own that is an integer in range.
pub open spec fn is_unnumbered(message: JsonView) -> bool {
    forall|n: i64| !#[trigger] says(message, "seq"@, figure(n as int))
}

/// What an unnumbered message is read as carrying.
proof fn lemma_unnumbered(message: JsonView)
    requires
        is_unnumbered(message),
    ensures
        integer_field(message, "seq"@) is None,
{
    if let Some(n) = integer_field(message, "seq"@) {
        assert(says(message, "seq"@, figure(n as int)));
    }
}

/// Being listed is being connected.
proof fn lemma_listed_is_connected(view: MuxView, id: Seq<char>)
    ensures
        is_listed(view, id) == view.connected(id),
        forall|message: JsonView| #[trigger]
            view.to_client(id, message) == client_gets(view, id, message),
{
    if is_listed(view, id) {
        let i = choose|i: int| 0 <= i < view.clients.len() && (#[trigger] view.clients[i]).id == id;
        assert(view.clients[i].id == id);
    }
    if view.connected(id) {
        let i = choose|i: int| 0 <= i < view.clients.len() && (#[trigger] view.clients[i]).id == id;
        assert(view.clients[i].id == id);
    }
}

// ---------------------------------------------------------------------------
// Requests that go up
// ---------------------------------------------------------------------------

/// Whether a message is a request that the multiplexer never answers itself.
pub open spec fn is_ordinary_request(message: JsonView) -> bool {
    &&& says(message, "type"@, JsonView::String("request"@))
    &&& !is_request_for(message, "initialize"@)
    &&& !is_request_for(message, "attach"@)
    &&& !is_request_for(message, "launch"@)
    &&& !is_request_for(message, "configurationDone"@)
    &&& !is_request_for(message, "terminate"@)
    &&& !is_request_for(message, "disconnect"@)
    &&& !is_request_for(message, "restart"@)
}

/// A request for anything but what the multiplexer handles itself goes up to the
/// adapter in every phase, whoever else is connected: under the next number,
/// otherwise as it came, and the client's own number for it is remembered.
/// Nothing else is sent and nothing else changes.
pub proof fn lemma_ordinary_request_goes_up(
    view: MuxView,
    id: Seq<char>,
    message: JsonView,
    n: i64,
)
    requires
        is_ordinary_request(message),
        says(message, "seq"@, figure(n as int)),
    ensures
        view.from_client(id, message) == (Step {
            after: numbered_next(view, id, n),
            actions: adapter_gets(view, under_next_number(view, message)),
        }),
{
}

/// Until the session is configured, `attach`, `launch` and `configurationDone`
/// go up like any other request; `configurationDone` configures the session, and
/// the other two change nothing.
pub proof fn lemma_configuring_request_goes_up(
    view: MuxView,
    id: Seq<char>,
    message: JsonView,
    n: i64,
)
    requires
        is_request_for(message, "attach"@) || is_request_for(message, "launch"@)
            || is_request_for(message, "configurationDone"@),
        says(message, "seq"@, figure(n as int)),
        view.phase != SessionPhase::Configured,
    ensures
        view.from_client(id, message).actions == adapter_gets(
            view,
            under_next_number(view, message),
        ),
        is_request_for(message, "attach"@) || is_request_for(message, "launch"@)
            ==> view.from_client(id, message).after == numbered_next(view, id, n),
        is_request_for(message, "configurationDone"@) ==> view.from_client(id, message).after == (
        MuxView { phase: SessionPhase::Configured, ..numbered_next(view, id, n) }),
{
    lemma_commands_differ();
}

/// A `terminate` goes up where its sender is the only client, no operator owns
/// the debuggee and the adapter said that it can terminate; a `restart` goes up
/// where the adapter said that it can restart, and the stop of the run that it
/// ends is forgotten.
pub proof fn lemma_ending_request_goes_up(
    view: MuxView,
    id: Seq<char>,
    message: JsonView,
    n: i64,
)
    requires
        says(message, "seq"@, figure(n as int)),
        is_request_for(message, "terminate"@) && view.clients.len() == 1 && !view.operator_owned
            && adapter_can(view, "supportsTerminateRequest"@) || is_request_for(
            message,
            "restart"@,
        ) && adapter_can(view, "supportsRestartRequest"@),
    ensures
        view.from_client(id, message).actions == adapter_gets(
            view,
            under_next_number(view, message),
        ),
        is_request_for(message, "terminate"@) ==> view.from_client(id, message).after
            == numbered_next(view, id, n),
        is_request_for(message, "restart"@) ==> view.from_client(id, message).after == (MuxView {
            last_stopped_event: None,
            ..numbered_next(view, id, n)
        }),
{
    lemma_commands_differ();
}

/// The first `initialize` goes up, and the session waits for its answer.
pub proof fn lemma_first_initialize_goes_up(
    view: MuxView,
    id: Seq<char>,
    message: JsonView,
    n: i64,
)
    requires
        is_request_for(message, "initialize"@),
        says(message, "seq"@, figure(n as int)),
        view.phase == SessionPhase::PreInit,
    ensures
        ({
            let Step { after, actions } = view.from_client(id, message);
            &&& actions == adapter_gets(view, under_next_number(view, message))
            &&& after == (MuxView {
                phase: SessionPhase::Initializing,
                clients: after.clients,
                init_args: after.init_args,
                ..numbered_next(view, id, n)
            })
        }),
{
    lemma_commands_differ();
}

/// A request without a number of its own that is not answered here goes
/// nowhere: nothing is sent, and the session is where it was.
pub proof fn lemma_unnumbered_request_goes_nowhere(
    view: MuxView,
    id: Seq<char>,
    message: JsonView,
)
    requires
        is_unnumbered(message),
        ({
            ||| is_ordinary_request(message)
            ||| is_request_for(message, "initialize"@) && view.phase == SessionPhase::PreInit
            ||| is_request_for(message, "attach"@) && view.phase != SessionPhase::Configured
            ||| is_request_for(message, "launch"@) && view.phase != SessionPhase::Configured
            ||| is_request_for(message, "configurationDone"@) && view.phase
                != SessionPhase::Configured
            ||| is_request_for(message, "terminate"@) && view.clients.len() == 1
                && !view.operator_owned && adapter_can(view, "supportsTerminateRequest"@)
            ||| is_request_for(message, "restart"@) && adapter_can(view, "supportsRestartRequest"@)
        }),
    ensures
        ({
            let Step { after, actions } = view.from_client(id, message);
            &&& actions == Seq::<ActionView>::empty()
            &&& !is_request_for(message, "initialize"@) ==> after == view
            &&& after == (MuxView { clients: after.clients, init_args: after.init_args, ..view })
        }),
{
    lemma_commands_differ();
    lemma_unnumbered(message);
}

// ---------------------------------------------------------------------------
// Requests that are answered here
// ---------------------------------------------------------------------------

/// The number that an answer to a request carries: the request's own, whatever
/// it is, or zero where it has none.
pub open spec fn number_of(message: JsonView) -> JsonView {
    match message {
        JsonView::Object(members) => if members.contains_key("seq"@) {
            members["seq"@]
        } else {
            figure(0)
        },
        _ => figure(0),
    }
}

/// The answer that a request succeeded.
pub open spec fn success_answer(number: JsonView, command: Seq<char>) -> JsonView {
    JsonView::Object(
        map![
            "seq"@ => figure(0),
            "type"@ => JsonView::String("response"@),
            "request_seq"@ => number,
            "success"@ => JsonView::Bool(true),
            "command"@ => JsonView::String(command),
        ],
    )
}

/// The answer that a request failed.
pub open spec fn failure_answer(
    number: JsonView,
    command: Seq<char>,
    reason: Seq<char>,
) -> JsonView {
    JsonView::Object(
        map![
            "seq"@ => figure(0),
            "type"@ => JsonView::String("response"@),
            "request_seq"@ => number,
            "success"@ => JsonView::Bool(false),
            "command"@ => JsonView::String(command),
            "message"@ => JsonView::String(reason),
        ],
    )
}

/// The event that tells a client that its session is over.
pub open spec fn over_event() -> JsonView {
    JsonView::Object(
        map![
            "seq"@ => figure(0),
            "type"@ => JsonView::String("event"@),
            "event"@ => JsonView::String("terminated"@),
        ],
    )
}

/// Once the session is configured, `attach`, `launch` and `configurationDone`
/// are answered here: the sender, and nobody else, is told under its own number
/// that the request succeeded. The session is as it was.
pub proof fn lemma_late_configuration_is_acknowledged(
    view: MuxView,
    id: Seq<char>,
    message: JsonView,
    command: Seq<char>,
)
    requires
        is_request_for(message, command),
        command == "attach"@ || command == "launch"@ || command == "configurationDone"@,
        view.phase == SessionPhase::Configured,
    ensures
        view.from_client(id, message) == (Step {
            after: view,
            actions: client_gets(view, id, success_answer(number_of(message), command)),
        }),
{
    lemma_commands_differ();
    lemma_listed_is_connected(view, id);
}

/// A `terminate` that does not go up only detaches its sender: it is told under
/// its own number that the request succeeded, and then that its session is over.
/// The session is as it was.
pub proof fn lemma_terminate_is_absorbed(
    view: MuxView,
    id: Seq<char>,
    message: JsonView,
)
    requires
        is_request_for(message, "terminate"@),
        view.clients.len() != 1 || view.operator_owned || !adapter_can(
            view,
            "supportsTerminateRequest"@,
        ),
    ensures
        view.from_client(id, message) == (Step {
            after: view,
            actions: client_gets(view, id, success_answer(number_of(message), "terminate"@)) + client_gets(
                view,
                id,
                over_event(),
            ),
        }),
{
    lemma_commands_differ();
    lemma_listed_is_connected(view, id);
}

/// A `restart` that the adapter did not say it can do is turned down under its
/// own number, and the session is as it was.
pub proof fn lemma_restart_is_turned_down(
    view: MuxView,
    id: Seq<char>,
    message: JsonView,
)
    requires
        is_request_for(message, "restart"@),
        !adapter_can(view, "supportsRestartRequest"@),
    ensures
        view.from_client(id, message) == (Step {
            after: view,
            actions: client_gets(
                view,
                id,
                failure_answer(
                    number_of(message),
                    "restart"@,
                    "restart unsupported: the debug adapter does not advertise supportsRestartRequest; emulated restart cannot work through the mux"@,
                ),
            ),
        }),
{
    lemma_commands_differ();
    lemma_listed_is_connected(view, id);
}

/// A `disconnect` is answered under its own number, as its first effect, before
/// the sender's connection is closed; the sender leaves as a client does whose
/// connection drops.
pub proof fn lemma_disconnect_is_acknowledged(
    view: MuxView,
    id: Seq<char>,
    message: JsonView,
)
    requires
        is_request_for(message, "disconnect"@),
    ensures
        view.from_client(id, message) == (Step {
            after: view.departure(id).after,
            actions: client_gets(view, id, success_answer(number_of(message), "disconnect"@))
                + view.departure(id).actions,
        }),
{
    lemma_commands_differ();
    lemma_listed_is_connected(view, id);
}

// ---------------------------------------------------------------------------
// Clients that come and go
// ---------------------------------------------------------------------------

/// A client that connects is listed last, under the next id, has not
/// initialized and has not said who it is. Nothing else changes.
pub proof fn lemma_joining(view: MuxView)
    requires
        view.client_counter < u64::MAX,
    ensures
        view.joined() == (MuxView {
            client_counter: (view.client_counter + 1) as u64,
            clients: view.clients.push(
                ClientView {
                    id: "client-"@ + decimal((view.client_counter + 1) as nat),
                    initialized: false,
                    display_name: None,
                },
            ),
            ..view
        }),
{
}

/// Whether `numbers` are those of the reverse requests that a client owes, in
/// order.
pub open spec fn are_owed(view: MuxView, id: Seq<char>, numbers: Seq<i64>) -> bool {
    &&& forall|i: int, j: int|
        0 <= i < j < numbers.len() ==> #[trigger] numbers[i] < #[trigger] numbers[j]
    &&& forall|n: i64| #[trigger]
        numbers.contains(n) <==> view.reverse_requests.contains_key(n)
            && view.reverse_requests[n].client_id == id
}

/// Telling the adapter that reverse requests have failed because their client is
/// gone.
pub open spec fn told_gone(view: MuxView, numbers: Seq<i64>) -> Seq<ActionView> {
    Seq::new(
        if view.upstream_connected {
            numbers.len()
        } else {
            0
        },
        |i: int|
            ActionView::ToAdapter(
                failure_answer(
                    figure(view.reverse_requests[numbers[i]].adapter_seq as int),
                    view.reverse_requests[numbers[i]].command,
                    "dap-mux: client handling reverse request disconnected before responding"@,
                ),
            ),
    )
}

/// When a client leaves, its connection is closed and the adapter is told of
/// each reverse request that the client owed, under the adapter's own number.
/// Nothing else is sent.
pub proof fn lemma_leaving_sends(view: MuxView, id: Seq<char>, numbers: Seq<i64>)
    requires
        are_owed(view, id, numbers),
    ensures
        view.departure(id).actions == (if is_listed(view, id) {
            seq![ActionView::CloseClient(id)]
        } else {
            Seq::empty()
        }) + told_gone(view, numbers),
{
    lemma_listed_is_connected(view, id);
    assert forall|n: i64| numbers.contains(n) <==> #[trigger] view.owed_by(id).contains(n) by {}
    lemma_in_order(numbers, view.owed_by(id));
    assert(view.failing_owed(id) =~= told_gone(view, numbers));
}

/// Picks what is not of a client.
pub open spec fn not_of(id: Seq<char>) -> spec_fn((Seq<char>, JsonView)) -> bool {
    |entry: (Seq<char>, JsonView)| entry.0 != id
}

/// Picks the clients that are not this one.
pub open spec fn but(id: Seq<char>) -> spec_fn(ClientView) -> bool {
    |client: ClientView| client.id != id
}

/// When a client leaves, it is no longer listed, and its requests, its
/// arguments, its waiting `initialize` and the reverse requests that it owed are
/// forgotten. All that is others' stays as it was, in the order it was, and so
/// does everything else.
pub proof fn lemma_leaving_forgets(view: MuxView, id: Seq<char>)
    ensures
        ({
            let after = view.departure(id).after;
            &&& after == (MuxView {
                clients: view.clients.filter(but(id)),
                init_args: view.init_args.filter(not_of(id)),
                pending_initialize: view.pending_initialize.filter(not_of(id)),
                seq_map: SeqMapView {
                    next_seq: view.seq_map.next_seq,
                    pending: after.seq_map.pending,
                },
                reverse_requests: after.reverse_requests,
                ..view
            })
            &&& forall|n: i64| #[trigger]
                after.seq_map.pending.contains_key(n) <==> view.seq_map.pending.contains_key(n)
                    && view.seq_map.pending[n].client_id != id
            &&& forall|n: i64| #[trigger]
                after.seq_map.pending.contains_key(n) ==> after.seq_map.pending[n]
                    == view.seq_map.pending[n]
            &&& forall|n: i64| #[trigger]
                after.reverse_requests.contains_key(n) <==> view.reverse_requests.contains_key(n)
                    && view.reverse_requests[n].client_id != id
            &&& forall|n: i64| #[trigger]
                after.reverse_requests.contains_key(n) ==> after.reverse_requests[n]
                    == view.reverse_requests[n]
        }),
{
    assert(other_than(id) =~= but(id));
    assert(from_others(id) =~= not_of(id));
}

/// The notice that a client gets when the adapter is lost.
pub open spec fn lost_notice() -> JsonView {
    JsonView::Object(
        map![
            "seq"@ => figure(0),
            "type"@ => JsonView::String("event"@),
            "event"@ => JsonView::String("output"@),
            "body"@ => JsonView::Object(
                map![
                    "category"@ => JsonView::String("console"@),
                    "output"@ => JsonView::String(
                        "dap-mux: debug adapter connection lost; shutting down\n"@,
                    ),
                ],
            ),
        ],
    )
}

/// When the adapter is lost, each client in turn is told so and then that its
/// session is over; then the connection to the adapter is closed and the session
/// shuts down. Beyond that the session is as it was.
pub proof fn lemma_loss_is_told(view: MuxView)
    ensures
        ({
            let Step { after, actions } = view.adapter_loss();
            let count = view.clients.len() as int;
            &&& actions.len() == 2 * count + 2
            &&& forall|i: int|
                0 <= i < count ==> {
                    let id = (#[trigger] view.clients[i]).id;
                    &&& actions[2 * i] == ActionView::ToClient(id, lost_notice())
                    &&& actions[2 * i + 1] == ActionView::ToClient(id, over_event())
                }
            &&& actions[2 * count] == ActionView::CloseAdapter
            &&& actions[2 * count + 1] == ActionView::SignalShutdown
            &&& after == (MuxView { upstream_connected: false, ..view })
        }),
{
    lemma_farewells_in_turn(view.clients);
}

proof fn lemma_farewells_in_turn(clients: Seq<ClientView>)
    ensures
        farewells(clients).len() == 2 * clients.len(),
        forall|i: int|
            0 <= i < clients.len() ==> {
                let id = (#[trigger] clients[i]).id;
                &&& farewells(clients)[2 * i] == ActionView::ToClient(id, lost_notice())
                &&& farewells(clients)[2 * i + 1] == ActionView::ToClient(id, over_event())
            },
    decreases clients.len(),
{
    if clients.len() > 0 {
        let rest = clients.drop_last();
        lemma_farewells_in_turn(rest);
        assert forall|i: int| 0 <= i < clients.len() implies {
            let id = (#[trigger] clients[i]).id;
            &&& farewells(clients)[2 * i] == ActionView::ToClient(id, lost_notice())
            &&& farewells(clients)[2 * i + 1] == ActionView::ToClient(id, over_event())
        } by {
            if i < rest.len() {
                assert(rest[i] == clients[i]);
            }
        }
    }
}

/// When the session is ended, each connection is closed, the clients' in order
/// and then the adapter's, and nobody is told anything. Nobody is listed any
/// longer; beyond that the session is as it was.
pub proof fn lemma_ending_closes(view: MuxView)
    ensures
        ({
            let Step { after, actions } = view.ended();
            &&& actions.len() == view.clients.len() + 1
            &&& forall|i: int|
                0 <= i < view.clients.len() ==> #[trigger] actions[i] == ActionView::CloseClient(
                    view.clients[i].id,
                )
            &&& actions.last() == ActionView::CloseAdapter
            &&& after == (MuxView {
                clients: Seq::empty(),
                upstream_connected: false,
                ..view
            })
        }),
{
}

// ---------------------------------------------------------------------------
// Who a client says it is
// ---------------------------------------------------------------------------

/// Whether `arguments` are those of a request: what it says, or else none.
pub open spec fn are_arguments(message: JsonView, arguments: JsonView) -> bool {
    says(message, "arguments"@, arguments) || is_silent_on(message, "arguments"@) && arguments
        == JsonView::Object(Map::empty())
}

/// Whether `arguments` name a client `name`: by its `clientName`, or by its
/// `clientID` where they have no `clientName`.
pub open spec fn give_name(arguments: JsonView, name: Seq<char>) -> bool {
    says(arguments, "clientName"@, JsonView::String(name)) || is_silent_on(
        arguments,
        "clientName"@,
    ) && says(arguments, "clientID"@, JsonView::String(name))
}

/// Whether a client has initialized: its `initialize` was answered from what the
/// adapter had said.
pub open spec fn is_past_initialize(phase: SessionPhase) -> bool {
    phase == SessionPhase::Initialized || phase == SessionPhase::Configured
}

/// Whatever becomes of an `initialize`, what it says of its sender is put on
/// record: the name that it gives, if it gives one, and its arguments, in place
/// of earlier ones or else after everybody else's. Of others nothing changes,
/// and the sender is marked as initialized exactly if it is answered at once.
pub proof fn lemma_initialize_is_recorded(
    view: MuxView,
    id: Seq<char>,
    message: JsonView,
    arguments: JsonView,
)
    requires
        is_request_for(message, "initialize"@),
        are_arguments(message, arguments),
    ensures
        ({
            let after = view.from_client(id, message).after;
            let known = exists|i: int|
                0 <= i < view.init_args.len() && (#[trigger] view.init_args[i]).0 == id;
            &&& !known ==> after.init_args == view.init_args.push((id, arguments))
            &&& known ==> after.init_args.len() == view.init_args.len()
            &&& known ==> forall|i: int|
                0 <= i < view.init_args.len() ==> #[trigger] after.init_args[i] == (
                if view.init_args[i].0 == id {
                    (id, arguments)
                } else {
                    view.init_args[i]
                })
            &&& after.clients.len() == view.clients.len()
            &&& forall|i: int|
                0 <= i < view.clients.len() && view.clients[i].id != id
                    ==> #[trigger] after.clients[i] == view.clients[i]
            &&& forall|i: int|
                #![trigger after.clients[i]]
                0 <= i < view.clients.len() && view.clients[i].id == id ==> {
                    &&& after.clients[i].id == id
                    &&& after.clients[i].initialized == (view.clients[i].initialized
                        || is_past_initialize(view.phase))
                    &&& forall|name: Seq<char>| #[trigger]
                        give_name(arguments, name) ==> after.clients[i].display_name == Some(name)
                    &&& (forall|name: Seq<char>| !#[trigger] give_name(arguments, name))
                        ==> after.clients[i].display_name == view.clients[i].display_name
                }
        }),
{
    lemma_commands_differ();
    let after = view.from_client(id, message).after;
    let noted = view.noted(id, message);
    let given = display_name(arguments);
    assert(initialize_arguments(message) == arguments);
    if let Some(name) = given {
        assert(give_name(arguments, name));
    }
    assert forall|name: Seq<char>| #[trigger] give_name(arguments, name) implies given == Some(
        name,
    ) by {}
    assert(view.introduced(id) == exists|i: int|
        0 <= i < view.init_args.len() && (#[trigger] view.init_args[i]).0 == id);
    assert forall|i: int| 0 <= i < view.clients.len() implies {
        &&& (#[trigger] after.clients[i]).id == view.clients[i].id
        &&& after.clients[i].display_name == noted.clients[i].display_name
    } by {
        assert(noted.clients[i].id == view.clients[i].id);
    }
}

// ---------------------------------------------------------------------------
// Catching up
// ---------------------------------------------------------------------------

/// The answer to an `initialize` from what the adapter said of itself.
pub open spec fn capabilities_answer(
    number: JsonView,
    capabilities: Option<JsonView>,
) -> JsonView {
    match capabilities {
        Some(body) => amended(success_answer(number, "initialize"@), "body"@, body),
        None => success_answer(number, "initialize"@),
    }
}

/// What brings a client up to date: the answer to its `initialize`, then the
/// `initialized` event and the current stop, as far as there are any.
pub open spec fn catching_up(
    view: MuxView,
    capabilities: Option<JsonView>,
    id: Seq<char>,
    message: JsonView,
) -> Seq<ActionView> {
    client_gets(view, id, capabilities_answer(number_of(message), capabilities)) + (
    match view.initialized_event {
        Some(event) => client_gets(view, id, event),
        None => Seq::empty(),
    }) + (match view.last_stopped_event {
        Some(event) => client_gets(view, id, event),
        None => Seq::empty(),
    })
}

/// An `initialize` that comes after the adapter has answered one brings its
/// sender up to date at once, and nothing else is sent. Beyond what is recorded
/// of the sender the session is as it was.
pub proof fn lemma_late_initialize_catches_up(view: MuxView, id: Seq<char>, message: JsonView)
    requires
        is_request_for(message, "initialize"@),
        is_past_initialize(view.phase),
    ensures
        ({
            let Step { after, actions } = view.from_client(id, message);
            &&& actions == catching_up(view, view.capabilities, id, message)
            &&& after == (MuxView { clients: after.clients, init_args: after.init_args, ..view })
        }),
{
    lemma_commands_differ();
    lemma_replay_catches_up(view, id, message);
}

/// A replay is catching up.
proof fn lemma_replay_catches_up(view: MuxView, id: Seq<char>, message: JsonView)
    ensures
        view.replay(id, message) == catching_up(view, view.capabilities, id, message),
{
    lemma_listed_is_connected(view, id);
    assert(view.cached_reply(message) == capabilities_answer(
        number_of(message),
        view.capabilities,
    ));
}

/// An `initialize` that comes while the adapter has yet to answer one is held
/// back, after those held back before it, and nothing is sent.
pub proof fn lemma_early_initialize_waits(view: MuxView, id: Seq<char>, message: JsonView)
    requires
        is_request_for(message, "initialize"@),
        view.phase == SessionPhase::Initializing,
    ensures
        ({
            let Step { after, actions } = view.from_client(id, message);
            &&& actions == Seq::<ActionView>::empty()
            &&& after == (MuxView {
                clients: after.clients,
                init_args: after.init_args,
                pending_initialize: view.pending_initialize.push((id, message)),
                ..view
            })
        }),
{
    lemma_commands_differ();
}

// ---------------------------------------------------------------------------
// Answers from the adapter
// ---------------------------------------------------------------------------

/// Whether a response reports the failure of a request that reads variables, as
/// far as its kind, its command and its outcome go.
pub open spec fn fails_variables(message: JsonView) -> bool {
    &&& is_answer_to(message, "variables"@) || is_answer_to(message, "scopes"@) || is_answer_to(
        message,
        "evaluate"@,
    )
    &&& !says(message, "success"@, JsonView::Bool(true))
}

/// The error text of a message; empty where it has none.
pub open spec fn error_of(message: JsonView) -> Seq<char> {
    match message {
        JsonView::Object(members) => if members.contains_key("message"@) {
            match members["message"@] {
                JsonView::String(text) => text,
                _ => ""@,
            }
        } else {
            ""@
        },
        _ => ""@,
    }
}

/// Whether `part` stands somewhere in `text`.
pub open spec fn speaks_of(text: Seq<char>, part: Seq<char>) -> bool {
    exists|at: int|
        0 <= at && at + part.len() <= text.len() && #[trigger] text.subrange(at, at + part.len())
            == part
}

/// A response as a client gets it, but for its number: where it reports that a
/// request that reads variables failed, and its error text, in lower case, speaks
/// of something invalid or not found, a note follows the error text. Any other
/// response is as the adapter sent it.
pub open spec fn clarified(message: JsonView) -> JsonView {
    let lowered = lowercased(error_of(message));
    if fails_variables(message) && (speaks_of(lowered, "invalid"@) || speaks_of(
        lowered,
        "not found"@,
    )) {
        amended(
            message,
            "message"@,
            JsonView::String(
                error_of(message)
                    + " (variable references are invalidated when execution resumes)"@,
            ),
        )
    } else {
        message
    }
}

/// What is a substring is spoken of.
proof fn lemma_speaks_of(text: Seq<char>, part: Seq<char>)
    ensures
        speaks_of(text, part) == has_substring(text, part),
{
    if has_substring(text, part) {
        let at = choose|at: int| #[trigger] occurs_at(text, part, at);
        assert(text.subrange(at, at + part.len()) == part);
    }
    if speaks_of(text, part) {
        let at = choose|at: int|
            0 <= at && at + part.len() <= text.len() && #[trigger] text.subrange(
                at,
                at + part.len(),
            ) == part;
        assert(occurs_at(text, part, at));
    }
}

/// A note is added to an error text exactly where it clarifies the failure of a
/// request that reads variables.
pub proof fn lemma_stale_errors_are_clarified(message: JsonView)
    ensures
        with_stale_note(message, lowercased(error_text(message))) == clarified(message),
        error_text(message) == error_of(message),
{
    lemma_speaks_of(lowercased(error_of(message)), "invalid"@);
    lemma_speaks_of(lowercased(error_of(message)), "not found"@);
}

/// The session once the request that is outstanding under `n` has been answered.
pub open spec fn answered(view: MuxView, n: i64) -> MuxView {
    MuxView {
        seq_map: SeqMapView {
            next_seq: view.seq_map.next_seq,
            pending: view.seq_map.pending.remove(n),
        },
        ..view
    }
}

/// A response to an outstanding request goes to the client that asked, under the
/// number that the client gave it and otherwise as it came but for a note that
/// clarifies a stale variable, and to nobody else; the request is outstanding no
/// longer. Nothing else changes, except that a client whose `initialize`
/// succeeded is marked.
pub proof fn lemma_answer_goes_to_the_asker(view: MuxView, message: JsonView, n: i64)
    requires
        is_an_answer(message),
        says(message, "request_seq"@, figure(n as int)),
        view.seq_map.pending.contains_key(n),
        !(is_answer_to(message, "initialize"@) && view.phase == SessionPhase::Initializing),
    ensures
        ({
            let Step { after, actions } = view.from_adapter(message);
            let PendingView { client_id, client_seq } = view.seq_map.pending[n];
            &&& actions == client_gets(
                view,
                client_id,
                amended(clarified(message), "request_seq"@, figure(client_seq as int)),
            )
            &&& !is_answer_to(message, "initialize"@) ==> after == answered(view, n)
            &&& after == (MuxView { clients: after.clients, ..answered(view, n) })
            &&& after.clients.len() == view.clients.len()
            &&& forall|i: int|
                0 <= i < view.clients.len() ==> #[trigger] after.clients[i] == (ClientView {
                    initialized: view.clients[i].initialized || (view.clients[i].id == client_id
                        && is_answer_to(message, "initialize"@) && says(
                        message,
                        "success"@,
                        JsonView::Bool(true),
                    )),
                    ..view.clients[i]
                })
        }),
{
    lemma_note_keeps_routing(message);
    lemma_stale_errors_are_clarified(message);
    lemma_listed_is_connected(view, view.seq_map.pending[n].client_id);
    let noted = with_stale_note(message, lowercased(error_text(message)));
    assert(asks(noted, "initialize"@) == asks(message, "initialize"@));
    if !is_answer_to(message, "initialize"@) {
        assert(view.from_adapter(message).after.clients =~= view.clients);
    }
}

/// A response that no request waits for, or that says of none that it answers
/// it, is dropped, unless it answers the session's `initialize`: nothing is sent
/// and nothing changes.
pub proof fn lemma_stray_answer_is_ignored(view: MuxView, message: JsonView)
    requires
        is_an_answer(message),
        forall|n: i64| #[trigger]
            says(message, "request_seq"@, figure(n as int)) ==> !view.seq_map.pending.contains_key(
                n,
            ) && !(is_answer_to(message, "initialize"@) && view.phase
                == SessionPhase::Initializing),
    ensures
        view.from_adapter(message) == (Step { after: view, actions: Seq::empty() }),
{
    lemma_note_keeps_routing(message);
    let noted = with_stale_note(message, lowercased(error_text(message)));
    assert(asks(noted, "initialize"@) == asks(message, "initialize"@));
    if let Some(n) = integer_field(message, "request_seq"@) {
        assert(says(message, "request_seq"@, figure(n as int)));
    }
}

/// What the clients whose `initialize` was held back get once the adapter has
/// said what it can do: each is brought up to date, in the order they asked.
pub open spec fn all_catching_up(
    view: MuxView,
    capabilities: Option<JsonView>,
    waiting: Seq<(Seq<char>, JsonView)>,
) -> Seq<ActionView>
    decreases waiting.len(),
{
    if waiting.len() == 0 {
        Seq::empty()
    } else {
        all_catching_up(view, capabilities, waiting.drop_last()) + catching_up(
            view,
            capabilities,
            waiting.last().0,
            waiting.last().1,
        )
    }
}

/// What the clients whose `initialize` was held back get once the adapter has
/// rejected the session's: each is turned down under its own number, in the
/// order they asked.
pub open spec fn all_turned_down(
    view: MuxView,
    waiting: Seq<(Seq<char>, JsonView)>,
    reason: Seq<char>,
) -> Seq<ActionView>
    decreases waiting.len(),
{
    if waiting.len() == 0 {
        Seq::empty()
    } else {
        all_turned_down(view, waiting.drop_last(), reason) + client_gets(
            view,
            waiting.last().0,
            failure_answer(number_of(waiting.last().1), "initialize"@, reason),
        )
    }
}

proof fn lemma_replays_catch_up(
    view: MuxView,
    ready: MuxView,
    waiting: Seq<(Seq<char>, JsonView)>,
)
    requires
        ready.clients == view.clients,
        ready.initialized_event == view.initialized_event,
        ready.last_stopped_event == view.last_stopped_event,
    ensures
        ready.replays(waiting) == all_catching_up(view, ready.capabilities, waiting),
    decreases waiting.len(),
{
    if waiting.len() > 0 {
        lemma_replays_catch_up(view, ready, waiting.drop_last());
        lemma_replay_catches_up(ready, waiting.last().0, waiting.last().1);
        assert(is_listed(ready, waiting.last().0) == is_listed(view, waiting.last().0));
        assert(catching_up(ready, ready.capabilities, waiting.last().0, waiting.last().1)
            == catching_up(view, ready.capabilities, waiting.last().0, waiting.last().1));
    }
}

proof fn lemma_refusals_turn_down(
    view: MuxView,
    idle: MuxView,
    waiting: Seq<(Seq<char>, JsonView)>,
    reason: Seq<char>,
)
    requires
        idle.clients == view.clients,
    ensures
        idle.refusals(waiting, reason) == all_turned_down(view, waiting, reason),
    decreases waiting.len(),
{
    if waiting.len() > 0 {
        lemma_refusals_turn_down(view, idle, waiting.drop_last(), reason);
        lemma_listed_is_connected(idle, waiting.last().0);
        assert(is_listed(idle, waiting.last().0) == is_listed(view, waiting.last().0));
    }
}

/// What the client whose request is outstanding under `n` gets of a response to
/// it: nothing where none is outstanding.
pub open spec fn asker_gets(view: MuxView, message: JsonView, n: i64) -> Seq<ActionView> {
    if view.seq_map.pending.contains_key(n) {
        client_gets(
            view,
            view.seq_map.pending[n].client_id,
            amended(message, "request_seq"@, figure(view.seq_map.pending[n].client_seq as int)),
        )
    } else {
        Seq::empty()
    }
}

/// When the adapter accepts `initialize`, what it says of itself is kept, the
/// clients that waited are brought up to date from it, and then the client that
/// asked first gets the adapter's own answer. Nobody waits any longer, those who
/// were answered are marked, and beyond that only the request is settled.
pub proof fn lemma_accepted_initialize(view: MuxView, message: JsonView, n: i64)
    requires
        is_answer_to(message, "initialize"@),
        says(message, "request_seq"@, figure(n as int)),
        says(message, "success"@, JsonView::Bool(true)),
        view.phase == SessionPhase::Initializing,
    ensures
        ({
            let Step { after, actions } = view.from_adapter(message);
            let waiting = view.pending_initialize;
            &&& forall|body: JsonView| #[trigger]
                says(message, "body"@, body) ==> after.capabilities == Some(body)
            &&& is_silent_on(message, "body"@) ==> after.capabilities is None
            &&& actions == all_catching_up(view, after.capabilities, waiting) + asker_gets(
                view,
                message,
                n,
            )
            &&& after == (MuxView {
                phase: SessionPhase::Initialized,
                capabilities: after.capabilities,
                pending_initialize: Seq::empty(),
                clients: after.clients,
                ..answered(view, n)
            })
            &&& after.clients.len() == view.clients.len()
            &&& forall|i: int|
                0 <= i < view.clients.len() ==> #[trigger] after.clients[i] == (ClientView {
                    initialized: view.clients[i].initialized || (exists|k: int|
                        0 <= k < waiting.len() && (#[trigger] waiting[k]).0 == view.clients[i].id)
                        || (view.seq_map.pending.contains_key(n)
                        && view.seq_map.pending[n].client_id == view.clients[i].id),
                    ..view.clients[i]
                })
        }),
{
    lemma_note_keeps_routing(message);
    let waiting = view.pending_initialize;
    let ready = MuxView {
        phase: SessionPhase::Initialized,
        capabilities: field(message, "body"@),
        pending_initialize: Seq::empty(),
        ..view
    };
    lemma_replays_catch_up(view, ready, waiting);
    let settled = view.settled(message);
    let Step { after, actions } = view.from_adapter(message);
    assert forall|i: int| 0 <= i < view.clients.len() implies (
    #[trigger] settled.after.clients[i]).id == view.clients[i].id by {}
    assert forall|id: Seq<char>| is_listed(settled.after, id) == #[trigger] is_listed(view, id) by {
        if is_listed(view, id) {
            let i = choose|i: int|
                0 <= i < view.clients.len() && (#[trigger] view.clients[i]).id == id;
            assert(settled.after.clients[i].id == id);
        }
        if is_listed(settled.after, id) {
            let i = choose|i: int|
                0 <= i < settled.after.clients.len() && (#[trigger] settled.after.clients[i]).id
                    == id;
            assert(view.clients[i].id == id);
        }
    }
    if view.seq_map.pending.contains_key(n) {
        lemma_listed_is_connected(settled.after, view.seq_map.pending[n].client_id);
        assert(is_listed(view, view.seq_map.pending[n].client_id) == is_listed(
            settled.after,
            view.seq_map.pending[n].client_id,
        ));
    }
    assert(after.seq_map.pending =~= view.seq_map.pending.remove(n));
    assert forall|i: int| 0 <= i < view.clients.len() implies #[trigger] after.clients[i] == (
    ClientView {
        initialized: view.clients[i].initialized || (exists|k: int|
            0 <= k < waiting.len() && (#[trigger] waiting[k]).0 == view.clients[i].id) || (
        view.seq_map.pending.contains_key(n) && view.seq_map.pending[n].client_id
            == view.clients[i].id),
        ..view.clients[i]
    }) by {
        assert(settled.after.clients[i].initialized == (view.clients[i].initialized || waits(
            waiting,
            view.clients[i].id,
        )));
    }
}

/// When the adapter rejects `initialize`, the clients that waited are turned
/// down for the adapter's reason, or for want of one with a reason of the
/// multiplexer's own, and then the client that asked first gets the adapter's own
/// answer. Nobody waits any longer, and the next `initialize` may go up again;
/// beyond that only the request is settled.
pub proof fn lemma_rejected_initialize(
    view: MuxView,
    message: JsonView,
    n: i64,
    reason: Seq<char>,
)
    requires
        is_answer_to(message, "initialize"@),
        says(message, "request_seq"@, figure(n as int)),
        !says(message, "success"@, JsonView::Bool(true)),
        says(message, "message"@, JsonView::String(reason)) || (forall|text: Seq<char>|
            !#[trigger] says(message, "message"@, JsonView::String(text))) && reason
            == "debug adapter rejected initialize"@,
        view.phase == SessionPhase::Initializing,
    ensures
        view.from_adapter(message) == (Step {
            after: MuxView {
                phase: SessionPhase::PreInit,
                pending_initialize: Seq::empty(),
                ..answered(view, n)
            },
            actions: all_turned_down(view, view.pending_initialize, reason) + asker_gets(
                view,
                message,
                n,
            ),
        }),
{
    lemma_note_keeps_routing(message);
    let idle = MuxView { pending_initialize: Seq::empty(), ..view };
    lemma_refusals_turn_down(view, idle, view.pending_initialize, reason);
    if let Some(text) = text_field(message, "message"@) {
        assert(says(message, "message"@, JsonView::String(text)));
    }
    assert(rejection_reason(message) == reason);
    let settled = view.settled(message).after;
    let Step { after, actions } = view.from_adapter(message);
    if view.seq_map.pending.contains_key(n) {
        let owner = view.seq_map.pending[n].client_id;
        lemma_listed_is_connected(settled, owner);
        assert(is_listed(settled, owner) == is_listed(view, owner));
        assert(after.clients =~= view.clients);
    } else {
        assert(view.seq_map.pending.remove(n) =~= view.seq_map.pending);
        assert(actions =~= all_turned_down(view, view.pending_initialize, reason));
    }
}

// ---------------------------------------------------------------------------
// Events
// ---------------------------------------------------------------------------

/// Whether an event is one of the three that no client is sent.
pub open spec fn is_withheld(message: JsonView) -> bool {
    ||| says(message, "event"@, JsonView::String("debugpySockets"@))
    ||| says(message, "event"@, JsonView::String("debugpyAttach"@))
    ||| says(message, "event"@, JsonView::String("startDebugging"@))
}

/// Every event but `debugpySockets`, `debugpyAttach` and `startDebugging` goes
/// to every client, in the order they connected, exactly as the adapter sent it,
/// and nowhere else; these three go to nobody.
pub proof fn lemma_events_go_to_everybody(view: MuxView, message: JsonView)
    requires
        says(message, "type"@, JsonView::String("event"@)),
    ensures
        view.from_adapter(message).actions == Seq::new(
            if is_withheld(message) {
                0
            } else {
                view.clients.len()
            },
            |i: int| ActionView::ToClient(view.clients[i].id, message),
        ),
        is_filtered_event(message) == is_withheld(message),
{
    lemma_kinds_differ();
}

/// An event changes nothing but what is kept for late joiners: an `initialized`
/// is kept as such, a `stopped` as the current stop, and a `continued` or a
/// `terminated` ends the current stop.
pub proof fn lemma_events_are_kept(view: MuxView, message: JsonView)
    requires
        says(message, "type"@, JsonView::String("event"@)),
    ensures
        view.from_adapter(message).after == (MuxView {
            initialized_event: if is_event_called(message, "initialized"@) {
                Some(message)
            } else {
                view.initialized_event
            },
            last_stopped_event: if is_event_called(message, "stopped"@) {
                Some(message)
            } else if is_event_called(message, "continued"@) || is_event_called(
                message,
                "terminated"@,
            ) {
                None
            } else {
                view.last_stopped_event
            },
            ..view
        }),
{
    lemma_kinds_differ();
    lemma_events_differ();
}

// ---------------------------------------------------------------------------
// Requests of the adapter's
// ---------------------------------------------------------------------------

/// Whether a message is a request that an adapter may make of a client.
pub open spec fn is_asking_back(message: JsonView) -> bool {
    is_request_for(message, "runInTerminal"@) || is_request_for(message, "startDebugging"@)
}

/// Whether the entry at `k` is whom a reverse request goes to: the first that
/// can run a command in a terminal, where that is asked for and one can, and the
/// first of all otherwise.
pub open spec fn is_chosen(
    clients: Seq<(Seq<char>, JsonView)>,
    message: JsonView,
    k: int,
) -> bool {
    let can = |i: int|
        says(clients[i].1, "supportsRunInTerminalRequest"@, JsonView::Bool(true));
    &&& 0 <= k < clients.len()
    &&& if is_request_for(message, "runInTerminal"@) && exists|i: int|
        0 <= i < clients.len() && #[trigger] can(i) {
        can(k) && forall|i: int| 0 <= i < k ==> !#[trigger] can(i)
    } else {
        k == 0
    }
}

/// The number that the adapter gave a request; zero where it gave none.
pub open spec fn is_adapters_number(message: JsonView, n: i64) -> bool {
    says(message, "seq"@, figure(n as int)) || is_unnumbered(message) && n == 0
}

/// The chosen client is the target.
proof fn lemma_chosen_is_target(
    clients: Seq<(Seq<char>, JsonView)>,
    message: JsonView,
    k: int,
)
    requires
        is_asking_back(message),
        is_chosen(clients, message, k),
    ensures
        reverse_target(clients, message) == Some(clients[k].0),
{
    let pred = |client: (Seq<char>, JsonView)| opted_in(client);
    let willing = clients.filter(pred);
    let can = |i: int|
        says(clients[i].1, "supportsRunInTerminalRequest"@, JsonView::Bool(true));
    lemma_filter_source(clients, pred);
    if is_request_for(message, "runInTerminal"@) && exists|i: int|
        0 <= i < clients.len() && #[trigger] can(i) {
        let head = clients.take(k);
        assert forall|i: int| 0 <= i < head.len() implies !pred(#[trigger] head[i]) by {
            assert(!can(i));
            assert(head[i] == clients[i]);
        }
        lemma_filter_none(head, pred);
        assert(can(k));
        lemma_first_of_filter(clients, pred, k);
    } else if is_request_for(message, "runInTerminal"@) {
        assert forall|i: int| 0 <= i < clients.len() implies !pred(#[trigger] clients[i]) by {
            assert(!can(i));
        }
        lemma_filter_none(clients, pred);
    }
}

/// A `runInTerminal` or `startDebugging` of the adapter's goes to one client,
/// the first that can do it, under a number of the multiplexer's own and
/// otherwise as it came, and it is remembered who owes the answer and under which
/// number the adapter waits for it. Nothing else is sent and nothing else
/// changes.
pub proof fn lemma_reverse_request_is_handed_out(
    view: MuxView,
    message: JsonView,
    k: int,
    n: i64,
    command: Seq<char>,
)
    requires
        is_asking_back(message),
        is_request_for(message, command),
        is_chosen(view.init_args, message, k),
        is_listed(view, view.init_args[k].0),
        is_adapters_number(message, n),
        view.next_reverse_seq < i64::MAX,
    ensures
        view.from_adapter(message) == (Step {
            after: MuxView {
                reverse_requests: view.reverse_requests.insert(
                    view.next_reverse_seq,
                    ReverseView { adapter_seq: n, client_id: view.init_args[k].0, command },
                ),
                next_reverse_seq: (view.next_reverse_seq + 1) as i64,
                ..view
            },
            actions: seq![
                ActionView::ToClient(
                    view.init_args[k].0,
                    amended(message, "seq"@, figure(view.next_reverse_seq as int)),
                ),
            ],
        }),
{
    lemma_kinds_differ();
    lemma_chosen_is_target(view.init_args, message, k);
    lemma_listed_is_connected(view, view.init_args[k].0);
    if is_unnumbered(message) {
        lemma_unnumbered(message);
    }
}

/// A request of the adapter's that no client can be handed is answered at once,
/// under the adapter's own number: it failed, because nobody has introduced
/// itself or because the client that it is for is gone. Nothing changes.
pub proof fn lemma_reverse_request_is_failed(
    view: MuxView,
    message: JsonView,
    n: i64,
    command: Seq<char>,
)
    requires
        is_asking_back(message),
        is_request_for(message, command),
        is_adapters_number(message, n),
        view.init_args.len() == 0 || exists|k: int| #[trigger]
            is_chosen(view.init_args, message, k) && !is_listed(view, view.init_args[k].0),
    ensures
        view.from_adapter(message) == (Step {
            after: view,
            actions: adapter_gets(
                view,
                failure_answer(
                    figure(n as int),
                    command,
                    if view.init_args.len() == 0 {
                        "dap-mux: no client available to handle reverse request"@
                    } else {
                        "dap-mux: target client for reverse request is gone"@
                    },
                ),
            ),
        }),
{
    lemma_kinds_differ();
    if is_unnumbered(message) {
        lemma_unnumbered(message);
    }
    if view.init_args.len() == 0 {
        let pred = |client: (Seq<char>, JsonView)| opted_in(client);
        lemma_filter_source(view.init_args, pred);
    } else {
        let k = choose|k: int| #[trigger]
            is_chosen(view.init_args, message, k) && !is_listed(view, view.init_args[k].0);
        lemma_chosen_is_target(view.init_args, message, k);
        lemma_listed_is_connected(view, view.init_args[k].0);
    }
}

/// A client's answer to a request of the adapter's goes up under the number that
/// the adapter gave the request, otherwise as it came, and the request is owed no
/// longer. Nothing else is sent and nothing else changes.
pub proof fn lemma_answer_goes_up(view: MuxView, id: Seq<char>, message: JsonView, n: i64)
    requires
        is_an_answer(message),
        says(message, "request_seq"@, figure(n as int)),
        view.reverse_requests.contains_key(n),
    ensures
        view.from_client(id, message) == (Step {
            after: MuxView { reverse_requests: view.reverse_requests.remove(n), ..view },
            actions: adapter_gets(
                view,
                amended(
                    message,
                    "request_seq"@,
                    figure(view.reverse_requests[n].adapter_seq as int),
                ),
            ),
        }),
{
    lemma_kinds_differ();
}

/// What a client sends that is neither a request nor the answer to a request of
/// the adapter's is ignored: nothing is sent and nothing changes.
pub proof fn lemma_other_client_messages_are_ignored(
    view: MuxView,
    id: Seq<char>,
    message: JsonView,
)
    requires
        !says(message, "type"@, JsonView::String("request"@)),
        is_an_answer(message) ==> forall|n: i64| #[trigger]
            says(message, "request_seq"@, figure(n as int)) ==> !view.reverse_requests.contains_key(
                n,
            ),
    ensures
        view.from_client(id, message) == (Step { after: view, actions: Seq::empty() }),
{
    if let Some(n) = integer_field(message, "request_seq"@) {
        assert(says(message, "request_seq"@, figure(n as int)));
    }
}

/// What the adapter sends that is no response, no event and no request that it
/// may make is ignored: nothing is sent and nothing changes.
pub proof fn lemma_other_adapter_messages_are_ignored(view: MuxView, message: JsonView)
    requires
        !is_an_answer(message),
        !says(message, "type"@, JsonView::String("event"@)),
        !is_asking_back(message),
    ensures
        view.from_adapter(message) == (Step { after: view, actions: Seq::empty() }),
{
}

// ---------------------------------------------------------------------------
// What is kept, over any run
// ---------------------------------------------------------------------------

/// What is kept for late joiners as the `initialized` event changes when the
/// adapter sends one, and on nothing else that can happen to a session.
pub proof fn lemma_initialized_event_is_kept(view: MuxView, input: Input)
    ensures
        view.step(input).after.initialized_event == (match input {
            Input::FromAdapter(message) => if is_event_called(message, "initialized"@) {
                Some(message)
            } else {
                view.initialized_event
            },
            _ => view.initialized_event,
        }),
{
    reveal(MuxView::step);
    lemma_kinds_differ();
    lemma_events_differ();
    if let Input::FromAdapter(message) = input {
        lemma_note_keeps_routing(message);
    }
}

/// Whether an input is an `initialized` event of the adapter's.
pub open spec fn is_initialized_event(input: Input) -> bool {
    input matches Input::FromAdapter(message) && is_event_called(message, "initialized"@)
}

/// Over any run, the `initialized` event that is kept for late joiners is the
/// latest that the adapter sent, or the one kept before where it sent none; and a
/// client whose `initialize` is then answered at once is sent that event.
pub proof fn lemma_latest_initialized_is_replayed(
    view: MuxView,
    inputs: Seq<Input>,
    k: int,
    id: Seq<char>,
    message: JsonView,
)
    requires
        0 <= k <= inputs.len(),
        k > 0 ==> is_initialized_event(inputs[k - 1]),
        forall|j: int| k <= j < inputs.len() ==> !is_initialized_event(#[trigger] inputs[j]),
    ensures
        ({
            let now = view.ran(inputs);
            let kept = if k == 0 {
                view.initialized_event
            } else {
                Some(inputs[k - 1]->FromAdapter_0)
            };
            &&& now.initialized_event == kept
            &&& is_request_for(message, "initialize"@) && is_past_initialize(now.phase)
                && is_listed(now, id) && kept is Some ==> now.from_client(
                id,
                message,
            ).actions.contains(ActionView::ToClient(id, kept->0))
        }),
    decreases inputs.len(),
{
    let now = view.ran(inputs);
    if inputs.len() > 0 {
        let earlier = inputs.drop_last();
        lemma_initialized_event_is_kept(view.ran(earlier), inputs.last());
        if k < inputs.len() {
            assert forall|j: int| k <= j < earlier.len() implies !is_initialized_event(
                #[trigger] earlier[j],
            ) by {
                assert(earlier[j] == inputs[j]);
            }
            if k > 0 {
                assert(earlier[k - 1] == inputs[k - 1]);
            }
            lemma_latest_initialized_is_replayed(view, earlier, k, id, message);
            assert(!is_initialized_event(inputs[inputs.len() - 1]));
        }
    }
    if is_request_for(message, "initialize"@) && is_past_initialize(now.phase) && is_listed(now, id)
        && now.initialized_event is Some {
        lemma_late_initialize_catches_up(now, id, message);
        assert(now.from_client(id, message).actions[1] == ActionView::ToClient(
            id,
            now.initialized_event->0,
        ));
    }
}

/// Whether a request is one that restarts the debuggee.
pub open spec fn restarts(view: MuxView, message: JsonView) -> bool {
    is_request_for(message, "restart"@) && adapter_can(view, "supportsRestartRequest"@)
        && !is_unnumbered(message)
}

/// The current stop changes when the adapter says where the debuggee stands or
/// a client restarts it, and on nothing else that can happen to a session.
pub proof fn lemma_current_stop_changes(view: MuxView, input: Input)
    ensures
        view.step(input).after.last_stopped_event == (match input {
            Input::FromAdapter(message) => if is_event_called(message, "stopped"@) {
                Some(message)
            } else if is_event_called(message, "continued"@) || is_event_called(
                message,
                "terminated"@,
            ) {
                None
            } else {
                view.last_stopped_event
            },
            Input::FromClient(_, message) => if restarts(view, message) {
                None
            } else {
                view.last_stopped_event
            },
            _ => view.last_stopped_event,
        }),
{
    reveal(MuxView::step);
    lemma_kinds_differ();
    lemma_events_differ();
    lemma_commands_differ();
    match input {
        Input::FromAdapter(message) => {
            lemma_note_keeps_routing(message);
        },
        Input::FromClient(_, message) => {
            if is_unnumbered(message) {
                lemma_unnumbered(message);
            } else {
                let n = choose|n: i64| #[trigger] says(message, "seq"@, figure(n as int));
                assert(integer_field(message, "seq"@) == Some(n));
            }
        },
        _ => {},
    }
}

/// Where a session stands changes when a client's `initialize` or
/// `configurationDone` goes up, and when the adapter answers the `initialize`,
/// and on nothing else that can happen to a session.
pub proof fn lemma_phase_changes(view: MuxView, input: Input)
    ensures
        view.step(input).after.phase == (match input {
            Input::FromClient(_, message) => if is_unnumbered(message) {
                view.phase
            } else if is_request_for(message, "initialize"@) && view.phase
                == SessionPhase::PreInit {
                SessionPhase::Initializing
            } else if is_request_for(message, "configurationDone"@) {
                SessionPhase::Configured
            } else {
                view.phase
            },
            Input::FromAdapter(message) => if view.phase == SessionPhase::Initializing
                && is_answer_to(message, "initialize"@) && exists|n: i64| #[trigger]
                says(message, "request_seq"@, figure(n as int)) {
                if says(message, "success"@, JsonView::Bool(true)) {
                    SessionPhase::Initialized
                } else {
                    SessionPhase::PreInit
                }
            } else {
                view.phase
            },
            _ => view.phase,
        }),
{
    reveal(MuxView::step);
    lemma_kinds_differ();
    lemma_commands_differ();
    match input {
        Input::FromAdapter(message) => {
            lemma_note_keeps_routing(message);
            let noted = with_stale_note(message, lowercased(error_text(message)));
            assert(asks(noted, "initialize"@) == asks(message, "initialize"@));
            if let Some(n) = integer_field(message, "request_seq"@) {
                assert(says(message, "request_seq"@, figure(n as int)));
            }
        },
        Input::FromClient(_, message) => {
            if is_unnumbered(message) {
                lemma_unnumbered(message);
            } else {
                let n = choose|n: i64| #[trigger] says(message, "seq"@, figure(n as int));
                assert(integer_field(message, "seq"@) == Some(n));
            }
        },
        _ => {},
    }
}

/// What the adapter said that it can do changes when it accepts `initialize`,
/// and on nothing else that can happen to a session; who owns the debuggee never
/// changes, and whether the adapter is connected only as it connects, is lost or
/// the session is ended.
pub proof fn lemma_standing_facts(view: MuxView, input: Input)
    ensures
        ({
            let after = view.step(input).after;
            &&& after.operator_owned == view.operator_owned
            &&& after.upstream_connected == (match input {
                Input::AdapterConnects => true,
                Input::AdapterLost => false,
                Input::Ends => false,
                _ => view.upstream_connected,
            })
            &&& after.capabilities != view.capabilities ==> (
            input matches Input::FromAdapter(message) && view.phase == SessionPhase::Initializing
                && is_answer_to(message, "initialize"@) && says(
                message,
                "success"@,
                JsonView::Bool(true),
            ))
        }),
{
    reveal(MuxView::step);
    if let Input::FromAdapter(message) = input {
        lemma_note_keeps_routing(message);
        let noted = with_stale_note(message, lowercased(error_text(message)));
        assert(asks(noted, "initialize"@) == asks(message, "initialize"@));
    }
}

/// What each thing that can happen to a session amounts to.
pub proof fn lemma_steps(view: MuxView, id: Seq<char>, message: JsonView)
    ensures
        view.step(Input::FromClient(id, message)) == view.from_client(id, message),
        view.step(Input::FromAdapter(message)) == view.from_adapter(message),
        view.step(Input::Departs(id)) == view.departure(id),
        view.step(Input::AdapterLost) == view.adapter_loss(),
        view.step(Input::Ends) == view.ended(),
        view.step(Input::Joins) == (Step { after: view.joined(), actions: Seq::empty() }),
        view.step(Input::AdapterConnects) == (Step {
            after: MuxView { upstream_connected: true, ..view },
            actions: Seq::empty(),
        }),
{
    reveal(MuxView::step);
}

/// A session starts with nothing: nobody listed, nothing outstanding, nothing
/// kept, no adapter; numbers start at one.
pub proof fn lemma_session_starts_empty(operator_owned: bool)
    ensures
        ({
            let fresh = MuxView::fresh(operator_owned);
            &&& fresh.seq_map.next_seq == 1
            &&& fresh.seq_map.pending == Map::<i64, PendingView>::empty()
            &&& fresh.clients.len() == 0
            &&& fresh.init_args.len() == 0
            &&& fresh.client_counter == 0
            &&& fresh.phase == SessionPhase::PreInit
            &&& fresh.pending_initialize.len() == 0
            &&& fresh.capabilities is None
            &&& fresh.initialized_event is None
            &&& fresh.last_stopped_event is None
            &&& !fresh.upstream_connected
            &&& fresh.reverse_requests == Map::<i64, ReverseView>::empty()
            &&& fresh.next_reverse_seq == 1
            &&& fresh.operator_owned == operator_owned
        }),
{
}

// ---------------------------------------------------------------------------
// One operation at a time
// ---------------------------------------------------------------------------

/// Whether a message names `command`.
pub open spec fn bids(message: JsonView, command: Seq<char>) -> bool {
    says(message, "command"@, JsonView::String(command))
}

/// Whether a request is answered here, whatever its number.
pub open spec fn is_answered_here(view: MuxView, message: JsonView) -> bool {
    ||| bids(message, "initialize"@) && view.phase != SessionPhase::PreInit
    ||| view.phase == SessionPhase::Configured && (bids(message, "attach"@) || bids(
        message,
        "launch"@,
    ) || bids(message, "configurationDone"@))
    ||| bids(message, "terminate"@) && !(view.clients.len() == 1 && !view.operator_owned
        && adapter_can(view, "supportsTerminateRequest"@))
    ||| bids(message, "disconnect"@)
    ||| bids(message, "restart"@) && !adapter_can(view, "supportsRestartRequest"@)
}

/// Which way a request goes, by the command it names, the phase of the session,
/// who is connected and what the adapter said that it can do. All that is not
/// answered here is forwarded under its number, in every phase; only without a
/// number is it dropped.
pub proof fn lemma_routes(view: MuxView, message: JsonView, n: i64)
    ensures
        ({
            let route = view.request_route(message);
            &&& route is Replay <==> bids(message, "initialize"@) && (view.phase
                == SessionPhase::Initialized || view.phase == SessionPhase::Configured)
            &&& route is Buffer <==> bids(message, "initialize"@) && view.phase
                == SessionPhase::Initializing
            &&& route is Acknowledge <==> view.phase == SessionPhase::Configured && (bids(
                message,
                "attach"@,
            ) || bids(message, "launch"@) || bids(message, "configurationDone"@))
            &&& route is Detach <==> bids(message, "terminate"@) && !(view.clients.len() == 1
                && !view.operator_owned && adapter_can(view, "supportsTerminateRequest"@))
            &&& route is Leave <==> bids(message, "disconnect"@)
            &&& route is Refuse <==> bids(message, "restart"@) && !adapter_can(
                view,
                "supportsRestartRequest"@,
            )
            &&& route == RequestRoute::Forward(n) <==> says(message, "seq"@, figure(n as int))
                && !is_answered_here(view, message)
            &&& route is Drop <==> is_unnumbered(message) && !is_answered_here(view, message)
        }),
{
    lemma_commands_differ();
    if is_unnumbered(message) {
        lemma_unnumbered(message);
    } else {
        let k = choose|k: i64| #[trigger] says(message, "seq"@, figure(k as int));
        assert(integer_field(message, "seq"@) == Some(k));
    }
}

/// A request that is acknowledged, by a session past its configuration, to a
/// client that only detaches or to one that leaves, is acknowledged first of
/// all: its sender, where it is connected, is told under its own number, and for
/// the command that it named, that the request succeeded.
pub proof fn lemma_acknowledged_first(
    view: MuxView,
    id: Seq<char>,
    message: JsonView,
    n: i64,
    command: Seq<char>,
)
    requires
        is_request_for(message, command),
        says(message, "seq"@, figure(n as int)),
        view.request_route(message) is Acknowledge || view.request_route(message) is Detach
            || view.request_route(message) is Leave,
        is_listed(view, id),
    ensures
        ({
            let actions = view.from_client(id, message).actions;
            &&& actions.len() > 0
            &&& actions[0] matches ActionView::ToClient(to, answer) && to == id && is_answer_to(
                answer,
                command,
            ) && says(answer, "request_seq"@, figure(n as int)) && says(
                answer,
                "success"@,
                JsonView::Bool(true),
            )
        }),
{
    lemma_listed_is_connected(view, id);
    reveal_strlit("seq");
    reveal_strlit("type");
    reveal_strlit("request_seq");
    reveal_strlit("success");
    reveal_strlit("command");
    assert("seq"@.len() == 3 && "type"@.len() == 4 && "request_seq"@.len() == 11);
    assert("success"@[0] == 's' && "command"@[0] == 'c');
    assert("success"@.len() == 7 && "command"@.len() == 7);
    let answer = success_answer(figure(n as int), command);
    assert(view.from_client(id, message).actions[0] == ActionView::ToClient(id, answer));
}

/// Broadcasting an event sends it to every client, in the order they connected,
/// as it is, and nowhere else; it is kept as the `initialized` event or as the
/// current stop, or ends the current stop, by its name alone.
pub proof fn lemma_broadcasting(view: MuxView, message: JsonView)
    ensures
        ({
            let Step { after, actions } = view.adapter_event(message);
            let is = |name: Seq<char>| says(message, "event"@, JsonView::String(name));
            &&& actions.len() == view.clients.len()
            &&& forall|i: int|
                0 <= i < view.clients.len() ==> #[trigger] actions[i] == ActionView::ToClient(
                    view.clients[i].id,
                    message,
                )
            &&& after == (MuxView {
                initialized_event: if is("initialized"@) {
                    Some(message)
                } else {
                    view.initialized_event
                },
                last_stopped_event: if is("stopped"@) {
                    Some(message)
                } else if is("continued"@) || is("terminated"@) {
                    None
                } else {
                    view.last_stopped_event
                },
                ..view
            })
        }),
{
}

/// Routing a response sends it to the client whose request it answers, under the
/// number that the client gave it, as it is otherwise, and to nobody else; the
/// request is outstanding no longer. One that answers nothing is dropped.
pub proof fn lemma_routing(view: MuxView, message: JsonView, n: i64)
    requires
        !(bids(message, "initialize"@) && view.phase == SessionPhase::Initializing),
    ensures
        says(message, "request_seq"@, figure(n as int)) && view.seq_map.pending.contains_key(n)
            ==> {
            let Step { after, actions } = view.adapter_response(message);
            &&& actions == asker_gets(view, message, n)
            &&& !bids(message, "initialize"@) ==> after == answered(view, n)
            &&& after == (MuxView { clients: after.clients, ..answered(view, n) })
        },
        says(message, "request_seq"@, figure(n as int)) && !view.seq_map.pending.contains_key(n)
            ==> view.adapter_response(message) == (Step { after: view, actions: Seq::empty() }),
        (forall|k: i64| !#[trigger] says(message, "request_seq"@, figure(k as int)))
            ==> view.adapter_response(message) == (Step { after: view, actions: Seq::empty() }),
{
    if view.seq_map.pending.contains_key(n) {
        lemma_listed_is_connected(view, view.seq_map.pending[n].client_id);
        if !bids(message, "initialize"@) && says(message, "request_seq"@, figure(n as int)) {
            assert(view.adapter_response(message).after.clients =~= view.clients);
        }
    }
    if let Some(k) = integer_field(message, "request_seq"@) {
        assert(says(message, "request_seq"@, figure(k as int)));
    }
}

/// Sending a client's answer up restores the number that the adapter gave its
/// request and changes nothing else of the answer; what answers no request of
/// the adapter's is left alone.
pub proof fn lemma_sending_answers_up(view: MuxView, message: JsonView, n: i64)
    ensures
        says(message, "request_seq"@, figure(n as int)) && view.reverse_requests.contains_key(n)
            ==> view.client_response(message) == (Step {
            after: MuxView { reverse_requests: view.reverse_requests.remove(n), ..view },
            actions: adapter_gets(
                view,
                amended(
                    message,
                    "request_seq"@,
                    figure(view.reverse_requests[n].adapter_seq as int),
                ),
            ),
        }),
        says(message, "request_seq"@, figure(n as int)) && !view.reverse_requests.contains_key(n)
            ==> view.client_response(message) == (Step { after: view, actions: Seq::empty() }),
        (forall|k: i64| !#[trigger] says(message, "request_seq"@, figure(k as int)))
            ==> view.client_response(message) == (Step { after: view, actions: Seq::empty() }),
{
    if let Some(k) = integer_field(message, "request_seq"@) {
        assert(says(message, "request_seq"@, figure(k as int)));
    }
}

/// Cleaning up after a client forgets all that it had under way and nothing of
/// anybody else's, and tells the adapter of each reverse request that it owed.
pub proof fn lemma_cleaning_up(view: MuxView, id: Seq<char>, numbers: Seq<i64>)
    requires
        are_owed(view, id, numbers),
    ensures
        ({
            let after = view.cleaned(id);
            let gone = view.departure(id).after;
            &&& view.failing_owed(id) == told_gone(view, numbers)
            &&& after == (MuxView { clients: view.clients, ..gone })
        }),
{
    assert forall|n: i64| numbers.contains(n) <==> #[trigger] view.owed_by(id).contains(n) by {}
    lemma_in_order(numbers, view.owed_by(id));
    assert(view.failing_owed(id) =~= told_gone(view, numbers));
    assert(view.cleaned(id) =~= (MuxView {
        clients: view.clients,
        ..view.departure(id).after
    }));
}

/// The id of a client is its number after `client-`, and two ids are the same
/// only for the same number.
pub proof fn lemma_client_ids(a: nat, b: nat)
    ensures
        client_name(a) == "client-"@ + decimal(a),
        client_name(a) == client_name(b) ==> a == b,
{
    if client_name(a) == client_name(b) {
        let prefix = "client-"@.len() as int;
        assert(client_name(a).skip(prefix) =~= decimal(a));
        assert(client_name(b).skip(prefix) =~= decimal(b));
        lemma_decimal_injective(a, b);
    }
}

/// A note follows the error text of a response exactly where the response
/// reports that a request that reads variables failed and the text that it is
/// judged by speaks of something invalid or not found. Any other message is as
/// it was.
pub proof fn lemma_noting(message: JsonView, lowered: Seq<char>)
    ensures
        with_stale_note(message, lowered) == (if fails_variables(message) && (speaks_of(
            lowered,
            "invalid"@,
        ) || speaks_of(lowered, "not found"@)) {
            amended(
                message,
                "message"@,
                JsonView::String(
                    error_of(message)
                        + " (variable references are invalidated when execution resumes)"@,
                ),
            )
        } else {
            message
        }),
{
    lemma_speaks_of(lowered, "invalid"@);
    lemma_speaks_of(lowered, "not found"@);
}

/// Whom a reverse request is for: where it is `runInTerminal`, the first client
/// that said that it can run a command in a terminal; where none did, and for
/// any other request, the first client; and nobody where there is none.
pub proof fn lemma_targets(clients: Seq<(Seq<char>, JsonView)>, message: JsonView, k: int)
    ensures
        ({
            let target = reverse_target(clients, message);
            let can = |i: int|
                says(clients[i].1, "supportsRunInTerminalRequest"@, JsonView::Bool(true));
            &&& clients.len() == 0 ==> target is None
            &&& clients.len() > 0 && !bids(message, "runInTerminal"@) ==> target == Some(
                clients[0].0,
            )
            &&& clients.len() > 0 && (forall|i: int| 0 <= i < clients.len() ==> !#[trigger] can(i))
                ==> target == Some(clients[0].0)
            &&& bids(message, "runInTerminal"@) && 0 <= k < clients.len() && can(k) && (forall|
                i: int,
            |
                0 <= i < k ==> !#[trigger] can(i)) ==> target == Some(clients[k].0)
        }),
{
    let pred = |client: (Seq<char>, JsonView)| opted_in(client);
    let can = |i: int|
        says(clients[i].1, "supportsRunInTerminalRequest"@, JsonView::Bool(true));
    lemma_filter_source(clients, pred);
    if forall|i: int| 0 <= i < clients.len() ==> !#[trigger] can(i) {
        assert forall|i: int| 0 <= i < clients.len() implies !pred(#[trigger] clients[i]) by {
            assert(!can(i));
        }
        lemma_filter_none(clients, pred);
    }
    if 0 <= k < clients.len() && can(k) && (forall|i: int| 0 <= i < k ==> !#[trigger] can(i)) {
        let head = clients.take(k);
        assert forall|i: int| 0 <= i < head.len() implies !pred(#[trigger] head[i]) by {
            assert(!can(i));
            assert(head[i] == clients[i]);
        }
        lemma_filter_none(head, pred);
        lemma_first_of_filter(clients, pred, k);
    }
}

/// The answers that are made up here carry the number of what they answer, as it
/// stands there, or zero, and the command as it stands there; they are
/// responses, and say whether they succeeded.
pub proof fn lemma_made_up_answers(
    message: JsonView,
    number: JsonView,
    command: Seq<char>,
    reason: Seq<char>,
)
    ensures
        acknowledgement(message) == (match message {
            JsonView::Object(members) => if members.contains_key("command"@) {
                amended(success_answer(number_of(message), ""@), "command"@, members["command"@])
            } else {
                success_answer(number_of(message), ""@)
            },
            _ => success_answer(figure(0), ""@),
        }),
        refusal(number, JsonView::String(command), reason) == failure_answer(
            number,
            command,
            reason,
        ),
{
    if let JsonView::Object(members) = message {
        if members.contains_key("command"@) {
            let made = amended(
                success_answer(number_of(message), ""@),
                "command"@,
                members["command"@],
            );
            assert(acknowledgement(message)->Object_0 =~= made->Object_0);
        }
    }
}

/// A snapshot shows the session as it is: its phase, whether the adapter is
/// connected, and every client in the order they connected, by its id and the
/// name that it gave, with whether it has initialized and how many of its
/// requests are outstanding.
pub proof fn lemma_snapshots(mux: &Multiplexer, shown: MuxSnapshot, i: int, requests: Seq<i64>)
    requires
        call_ensures(Multiplexer::snapshot, (mux,), shown),
        0 <= i < mux@.clients.len(),
        requests.no_duplicates(),
        forall|n: i64| #[trigger]
            requests.contains(n) <==> mux@.seq_map.pending.contains_key(n)
                && mux@.seq_map.pending[n].client_id == mux@.clients[i].id,
    ensures
        shown.phase == mux@.phase,
        shown.upstream_connected == mux@.upstream_connected,
        shown.clients@.len() == mux@.clients.len(),
        shown.clients@[i].id@ == mux@.clients[i].id,
        mux@.clients[i].display_name matches Some(name) ==> shown.clients@[i].name matches Some(
            given,
        ) && given@ == name,
        mux@.clients[i].display_name is None ==> shown.clients@[i].name is None,
        shown.clients@[i].initialized == mux@.clients[i].initialized,
        shown.clients@[i].pending_requests == requests.len(),
{
    let id = mux@.clients[i].id;
    assert(shown.clients@[i].id@ == id);
    requests.unique_seq_to_set();
    assert(requests.to_set() =~= mux@.seq_map.owned(id));
}

} // verus!
