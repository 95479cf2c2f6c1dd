//! What holds over whole runs of a session.
//!
//! A run is any sequence of [`Input`]s: messages from clients and from the
//! adapter, connections that open and close, in any order and number.

use vstd::prelude::*;

use crate::compat::{is_filtered_event, is_reverse_request, reverse_target};
use crate::json::{field, integer_field, text_field, JsonView};
use crate::laws::{
    adapter_seq, answers_as, lemma_adapter_message_keeps_order, lemma_client_message_keeps_order,
    lemma_clients_are_distinct, lemma_departure_leaves_nothing_behind,
    lemma_departure_of_nobody_is_silent, lemma_events_differ, lemma_filter_none,
    lemma_filter_source, lemma_kinds_differ, lemma_leaving_keeps_order, lemma_members_differ,
    lemma_new_client_is_fresh, lemma_note_keeps_routing,
    lemma_refusals_go_to_connected, lemma_replays_go_to_connected,
    lemma_request_outlives_adapter_messages, lemma_request_outlives_client_messages,
    lemma_request_outlives_departures, lemma_response_returns_to_sender,
    lemma_reverse_request_kind, lemma_session_starts_in_order,
    lemma_session_survives_adapter_messages, rejects_initialize, renumbered, spares_adapter,
};
use crate::model::{
    among, asks, client_name, farewells, other_than, rejection_reason, reverse_failure, waits,
    was_named, ActionView, ClientView, Input, MuxView, ReverseView, Step,
};
use crate::mux::{RequestRoute, SessionPhase};
use crate::owned::in_order;
use crate::owners::{
    lemma_adapter_message_keeps_owners, lemma_client_message_keeps_owners,
    lemma_client_message_moves_nobody, lemma_counter_only_grows, lemma_departure_keeps_owners,
    lemma_new_client_is_idle, lemma_owners_are_present, lemma_owners_were_present,
    sender_ever_present, sender_present,
};
use crate::protocol::has_kind;

verus! {

// ---------------------------------------------------------------------------
// Order
// ---------------------------------------------------------------------------

/// What a run passed through, it passed through on the way to its last input.
proof fn lemma_earlier_prefix(inputs: Seq<Input>, j: int)
    requires
        0 <= j < inputs.len(),
    ensures
        inputs.drop_last().take(j) == inputs.take(j),
        inputs.take(inputs.len() - 1) == inputs.drop_last(),
{
    assert(inputs.drop_last().take(j) =~= inputs.take(j));
    assert(inputs.take(inputs.len() - 1) =~= inputs.drop_last());
}

/// One input leaves the session in order, and takes one number at most from
/// each of its counters.
pub proof fn lemma_step_keeps_order(view: MuxView, input: Input, spare: nat)
    requires
        view.well_formed(),
        view.has_room_for(spare + 1),
    ensures
        view.step(input).after.well_formed(),
        view.step(input).after.has_room_for(spare),
        view.step(input).after.next_reverse_seq >= view.next_reverse_seq,
        view.step(input).after.seq_map.next_seq >= view.seq_map.next_seq,
        view.step(input).after.client_counter >= view.client_counter,
{
    reveal(MuxView::step);
    match input {
        Input::FromClient(id, message) => {
            lemma_client_message_keeps_order(view, id, message);
        },
        Input::FromAdapter(message) => {
            lemma_adapter_message_keeps_order(view, message);
        },
        Input::Joins => {
            lemma_new_client_is_fresh(view);
        },
        Input::Departs(id) => {
            lemma_leaving_keeps_order(view, id);
        },
        Input::AdapterConnects => {
            lemma_session_starts_in_order(true, view);
        },
        Input::AdapterLost => {
            lemma_leaving_keeps_order(view, Seq::empty());
        },
        Input::Ends => {
            lemma_leaving_keeps_order(view, Seq::empty());
        },
    }
}

/// A session stays in order over any run: clients stay listed in the order they
/// connected, and only numbers that were handed out are outstanding, each once.
pub proof fn lemma_run_keeps_order(view: MuxView, inputs: Seq<Input>, spare: nat)
    requires
        view.well_formed(),
        view.has_room_for(inputs.len() + spare),
    ensures
        view.ran(inputs).well_formed(),
        view.ran(inputs).has_room_for(spare),
        view.ran(inputs).next_reverse_seq >= view.next_reverse_seq,
        view.ran(inputs).seq_map.next_seq >= view.seq_map.next_seq,
        view.ran(inputs).client_counter >= view.client_counter,
    decreases inputs.len(),
{
    if inputs.len() > 0 {
        lemma_run_keeps_order(view, inputs.drop_last(), spare + 1);
        lemma_step_keeps_order(view.ran(inputs.drop_last()), inputs.last(), spare);
    }
}

// ---------------------------------------------------------------------------
// Initialize
// ---------------------------------------------------------------------------

/// Picks the `initialize` requests that are sent to the adapter.
pub open spec fn initializing() -> spec_fn(ActionView) -> bool {
    |action: ActionView|
        action matches ActionView::ToAdapter(message) && has_kind(message, "request"@) && asks(
            message,
            "initialize"@,
        )
}

/// How many `initialize` requests are sent to the adapter.
pub open spec fn initializes_sent(actions: Seq<ActionView>) -> nat {
    actions.filter(initializing()).len()
}

/// Whether an input is the adapter's rejection of an `initialize`.
pub open spec fn is_rejection(input: Input) -> bool {
    input matches Input::FromAdapter(message) && rejects_initialize(message)
}

/// A failure that the adapter is told of is no request.
proof fn lemma_failure_is_no_request(request: ReverseView, reason: Seq<char>)
    ensures
        !has_kind(reverse_failure(request, reason), "request"@),
{
    lemma_members_differ();
    lemma_kinds_differ();
    assert(has_kind(reverse_failure(request, reason), "response"@));
}

/// Failing what a client owes asks the adapter for nothing.
proof fn lemma_failing_asks_for_nothing(view: MuxView, id: Seq<char>)
    ensures
        initializes_sent(view.departure(id).actions) == 0,
{
    let actions = view.departure(id).actions;
    let failing = view.failing_owed(id);
    assert forall|i: int| 0 <= i < actions.len() implies !initializing()(#[trigger] actions[i]) by {
        let k = i - view.closing(id).len();
        if 0 <= k {
            assert(actions[i] == failing[k]);
            lemma_failure_is_no_request(
                view.reverse_requests[in_order(view.owed_by(id))[k]],
                "dap-mux: client handling reverse request disconnected before responding"@,
            );
        }
    }
    lemma_filter_none(actions, initializing());
}

/// What spares the adapter sends it no `initialize`.
proof fn lemma_sparing_sends_nothing(actions: Seq<ActionView>)
    requires
        spares_adapter(actions),
    ensures
        initializes_sent(actions) == 0,
{
    assert forall|i: int| 0 <= i < actions.len() implies !initializing()(#[trigger] actions[i]) by {
        assert(!(actions[i] is ToAdapter));
    }
    lemma_filter_none(actions, initializing());
}

/// Saying farewell spares the adapter.
proof fn lemma_farewells_spare_adapter(clients: Seq<ClientView>)
    ensures
        spares_adapter(farewells(clients)),
    decreases clients.len(),
{
    if clients.len() > 0 {
        lemma_farewells_spare_adapter(clients.drop_last());
    }
}

/// A client's message sends the adapter an `initialize` only while nothing is
/// initialized, and takes the session out of that state.
proof fn lemma_client_message_initializes_once(view: MuxView, id: Seq<char>, message: JsonView)
    ensures
        ({
            let Step { after, actions } = view.from_client(id, message);
            &&& initializes_sent(actions) <= 1
            &&& initializes_sent(actions) == 1 ==> view.phase == SessionPhase::PreInit
                && after.phase == SessionPhase::Initializing
            &&& view.phase != SessionPhase::PreInit ==> after.phase != SessionPhase::PreInit
        }),
{
    let actions = view.from_client(id, message).actions;
    lemma_members_differ();
    lemma_kinds_differ();
    if has_kind(message, "request"@) && view.request_route(message) is Forward {
        lemma_filter_source(actions, initializing());
        if initializes_sent(actions) == 1 {
            assert(initializing()(actions.filter(initializing())[0]));
            assert(actions.contains(actions.filter(initializing())[0]));
        }
    } else if has_kind(message, "request"@) && view.request_route(message) is Leave {
        let acknowledged = actions.take(actions.len() - view.departure(id).actions.len());
        assert(actions =~= acknowledged + view.departure(id).actions);
        Seq::filter_distributes_over_add(
            acknowledged,
            view.departure(id).actions,
            initializing(),
        );
        lemma_failing_asks_for_nothing(view, id);
        assert(spares_adapter(acknowledged));
        lemma_sparing_sends_nothing(acknowledged);
    } else {
        assert forall|i: int| 0 <= i < actions.len() implies !initializing()(
            #[trigger] actions[i],
        ) by {}
        lemma_filter_none(actions, initializing());
    }
}

/// An adapter's message never sends an `initialize`, and only a rejection takes
/// the session back to where nothing is initialized.
proof fn lemma_adapter_message_never_initializes(view: MuxView, message: JsonView)
    ensures
        ({
            let Step { after, actions } = view.from_adapter(message);
            &&& initializes_sent(actions) == 0
            &&& view.phase != SessionPhase::PreInit && !rejects_initialize(message) ==> after.phase
                != SessionPhase::PreInit
        }),
{
    let actions = view.from_adapter(message).actions;
    if has_kind(message, "response"@) {
        lemma_note_keeps_routing(message);
        let waiting = view.pending_initialize;
        let idle = MuxView { pending_initialize: Seq::empty(), ..view };
        let ready = MuxView {
            phase: SessionPhase::Initialized,
            capabilities: field(message, "body"@),
            ..idle
        };
        lemma_replays_go_to_connected(ready, waiting);
        lemma_refusals_go_to_connected(idle, waiting, rejection_reason(message));
        assert(spares_adapter(actions));
        lemma_sparing_sends_nothing(actions);
    } else if has_kind(message, "event"@) {
        assert(spares_adapter(actions));
        lemma_sparing_sends_nothing(actions);
    } else {
        assert forall|i: int| 0 <= i < actions.len() implies !initializing()(
            #[trigger] actions[i],
        ) by {
            lemma_members_differ();
            lemma_kinds_differ();
        }
        lemma_filter_none(actions, initializing());
    }
}

/// What one input does to the session's `initialize`.
proof fn lemma_step_initializes_once(view: MuxView, input: Input)
    requires
        !is_rejection(input),
    ensures
        ({
            let Step { after, actions } = view.step(input);
            &&& initializes_sent(actions) <= 1
            &&& initializes_sent(actions) == 1 ==> view.phase == SessionPhase::PreInit
                && after.phase != SessionPhase::PreInit
            &&& view.phase != SessionPhase::PreInit ==> after.phase != SessionPhase::PreInit
        }),
{
    reveal(MuxView::step);
    let actions = view.step(input).actions;
    match input {
        Input::FromClient(id, message) => {
            lemma_client_message_initializes_once(view, id, message);
        },
        Input::FromAdapter(message) => {
            lemma_adapter_message_never_initializes(view, message);
        },
        Input::Departs(id) => {
            lemma_failing_asks_for_nothing(view, id);
        },
        _ => {
            lemma_farewells_spare_adapter(view.clients);
            assert(spares_adapter(actions));
            lemma_sparing_sends_nothing(actions);
        },
    }
}

/// However many clients initialize, the adapter gets at most one `initialize`
/// in a run in which it rejects none, and none at all where the session was
/// past that when the run began.
pub proof fn lemma_initialize_goes_up_at_most_once(view: MuxView, inputs: Seq<Input>)
    requires
        forall|i: int| 0 <= i < inputs.len() ==> !is_rejection(#[trigger] inputs[i]),
    ensures
        initializes_sent(view.ran_actions(inputs)) <= 1,
        initializes_sent(view.ran_actions(inputs)) == 1 ==> view.phase == SessionPhase::PreInit
            && view.ran(inputs).phase != SessionPhase::PreInit,
        view.phase != SessionPhase::PreInit ==> view.ran(inputs).phase != SessionPhase::PreInit,
    decreases inputs.len(),
{
    if inputs.len() == 0 {
        lemma_filter_none(view.ran_actions(inputs), initializing());
    } else {
        let earlier = inputs.drop_last();
        assert forall|i: int| 0 <= i < earlier.len() implies !is_rejection(
            #[trigger] earlier[i],
        ) by {
            assert(earlier[i] == inputs[i]);
        }
        lemma_initialize_goes_up_at_most_once(view, earlier);
        let before = view.ran(earlier);
        assert(inputs[inputs.len() - 1] == inputs.last());
        lemma_step_initializes_once(before, inputs.last());
        Seq::filter_distributes_over_add(
            view.ran_actions(earlier),
            before.step(inputs.last()).actions,
            initializing(),
        );
    }
}

/// Once an `initialize` has gone up and was not rejected, every later one is
/// answered here: from what the adapter said, or, until it has said it, by
/// holding the request back. Nothing is sent to the adapter.
pub proof fn lemma_later_initialize_is_answered_here(
    view: MuxView,
    inputs: Seq<Input>,
    id: Seq<char>,
    message: JsonView,
)
    requires
        forall|i: int| 0 <= i < inputs.len() ==> !is_rejection(#[trigger] inputs[i]),
        view.phase != SessionPhase::PreInit || initializes_sent(view.ran_actions(inputs)) > 0,
        has_kind(message, "request"@),
        asks(message, "initialize"@),
    ensures
        ({
            let now = view.ran(inputs);
            let actions = now.from_client(id, message).actions;
            &&& spares_adapter(actions)
            &&& if now.phase == SessionPhase::Initializing {
                &&& now.request_route(message) == RequestRoute::Buffer
                &&& actions == Seq::<ActionView>::empty()
                &&& now.from_client(id, message).after.pending_initialize.last() == (id, message)
            } else {
                &&& now.request_route(message) == RequestRoute::Replay
                &&& actions == now.replay(id, message)
            }
        }),
{
    lemma_initialize_goes_up_at_most_once(view, inputs);
}

// ---------------------------------------------------------------------------
// Events
// ---------------------------------------------------------------------------

/// The messages that a client is sent, in order.
pub open spec fn delivered(id: Seq<char>, actions: Seq<ActionView>) -> Seq<JsonView>
    decreases actions.len(),
{
    if actions.len() == 0 {
        Seq::empty()
    } else {
        let earlier = delivered(id, actions.drop_last());
        match actions.last() {
            ActionView::ToClient(to, message) => if to == id {
                earlier.push(message)
            } else {
                earlier
            },
            _ => earlier,
        }
    }
}

/// What a client is sent in two stretches is what it is sent in one and then in
/// the other.
proof fn lemma_delivered_in_two(id: Seq<char>, first: Seq<ActionView>, second: Seq<ActionView>)
    ensures
        delivered(id, first + second) == delivered(id, first) + delivered(id, second),
    decreases second.len(),
{
    let both = first + second;
    if second.len() == 0 {
        assert(both =~= first);
        assert(delivered(id, first) + delivered(id, second) =~= delivered(id, first));
    } else {
        assert(both.drop_last() =~= first + second.drop_last());
        lemma_delivered_in_two(id, first, second.drop_last());
        assert(delivered(id, both) =~= delivered(id, first) + delivered(id, second));
    }
}

/// A message to every client reaches each of them once.
proof fn lemma_broadcast_is_delivered_once(
    clients: Seq<ClientView>,
    actions: Seq<ActionView>,
    id: Seq<char>,
    message: JsonView,
)
    requires
        actions.len() == clients.len(),
        forall|i: int|
            0 <= i < actions.len() ==> #[trigger] actions[i] == ActionView::ToClient(
                clients[i].id,
                message,
            ),
        forall|i: int, j: int|
            0 <= i < j < clients.len() ==> (#[trigger] clients[i]).id != (#[trigger] clients[j]).id,
    ensures
        delivered(id, actions) == if among(clients, id) {
            seq![message]
        } else {
            Seq::<JsonView>::empty()
        },
    decreases clients.len(),
{
    if clients.len() == 0 {
        assert(!among(clients, id));
    } else {
        let rest = clients.drop_last();
        let last = clients.len() - 1;
        assert forall|i: int| 0 <= i < rest.len() implies #[trigger] actions.drop_last()[i]
            == ActionView::ToClient(rest[i].id, message) by {
            assert(actions[i] == ActionView::ToClient(clients[i].id, message));
        }
        lemma_broadcast_is_delivered_once(rest, actions.drop_last(), id, message);
        assert(actions[last] == ActionView::ToClient(clients[last].id, message));
        if clients[last].id == id {
            assert(among(clients, id));
            if among(rest, id) {
                let i = choose|i: int| 0 <= i < rest.len() && (#[trigger] rest[i]).id == id;
                assert(clients[i].id != clients[last].id);
            }
            assert(delivered(id, actions) =~= seq![message]);
        } else {
            if among(clients, id) {
                let i = choose|i: int| 0 <= i < clients.len() && (#[trigger] clients[i]).id == id;
                assert(rest[i].id == id);
            }
            if among(rest, id) {
                let i = choose|i: int| 0 <= i < rest.len() && (#[trigger] rest[i]).id == id;
                assert(clients[i].id == id);
            }
        }
    }
}

/// An event that is not dropped is delivered once, exactly as the adapter sent
/// it, to each client that is connected when it arrives, and to nobody else; one
/// that is dropped is delivered to nobody.
pub proof fn lemma_event_is_delivered_once(view: MuxView, message: JsonView, id: Seq<char>)
    requires
        view.well_formed(),
        has_kind(message, "event"@),
    ensures
        delivered(id, view.from_adapter(message).actions) == if view.connected(id)
            && !is_filtered_event(message) {
            seq![message]
        } else {
            Seq::<JsonView>::empty()
        },
{
    lemma_kinds_differ();
    if !is_filtered_event(message) {
        assert forall|i: int, j: int| 0 <= i < j < view.clients.len() implies (
        #[trigger] view.clients[i]).id != (#[trigger] view.clients[j]).id by {
            lemma_clients_are_distinct(view, i, j);
        }
        lemma_broadcast_is_delivered_once(
            view.clients,
            view.from_adapter(message).actions,
            id,
            message,
        );
    }
}

impl MuxView {
    /// The session after events have been broadcast, one after the other.
    pub open spec fn broadcast(self, events: Seq<JsonView>) -> MuxView
        decreases events.len(),
    {
        if events.len() == 0 {
            self
        } else {
            self.broadcast(events.drop_last()).adapter_event(events.last()).after
        }
    }

    /// All that is to be done to broadcast events, one after the other.
    pub open spec fn broadcast_actions(self, events: Seq<JsonView>) -> Seq<ActionView>
        decreases events.len(),
    {
        if events.len() == 0 {
            Seq::empty()
        } else {
            self.broadcast_actions(events.drop_last()) + self.broadcast(
                events.drop_last(),
            ).adapter_event(events.last()).actions
        }
    }
}

/// Broadcasting any sequence of events delivers each of them exactly once,
/// exactly as it came and in order, to each connected client, and nothing to
/// anybody else. It changes nothing but the events kept for late joiners.
pub proof fn lemma_broadcasts_are_delivered_in_order(
    view: MuxView,
    events: Seq<JsonView>,
    id: Seq<char>,
)
    requires
        view.well_formed(),
    ensures
        delivered(id, view.broadcast_actions(events)) == if view.connected(id) {
            events
        } else {
            Seq::<JsonView>::empty()
        },
        ({
            let after = view.broadcast(events);
            after == (MuxView {
                initialized_event: after.initialized_event,
                last_stopped_event: after.last_stopped_event,
                ..view
            })
        }),
    decreases events.len(),
{
    if events.len() == 0 {
        assert(events =~= Seq::<JsonView>::empty());
    } else {
        let earlier = events.drop_last();
        let message = events.last();
        lemma_broadcasts_are_delivered_in_order(view, earlier, id);
        let actions = view.broadcast(earlier).adapter_event(message).actions;
        lemma_delivered_in_two(id, view.broadcast_actions(earlier), actions);
        assert forall|i: int, j: int| 0 <= i < j < view.clients.len() implies (
        #[trigger] view.clients[i]).id != (#[trigger] view.clients[j]).id by {
            lemma_clients_are_distinct(view, i, j);
        }
        lemma_broadcast_is_delivered_once(view.clients, actions, id, message);
        assert(earlier.push(message) =~= events);
        assert(delivered(id, view.broadcast_actions(events)) =~= if view.connected(id) {
            events
        } else {
            Seq::<JsonView>::empty()
        });
    }
}

/// Whether an event says anew where the debuggee stands.
pub open spec fn tells_stop(event: JsonView) -> bool {
    let name = text_field(event, "event"@);
    name == Some("stopped"@) || name == Some("continued"@) || name == Some("terminated"@)
}

/// After any sequence of broadcast events, the stop that is kept is the most
/// recent `stopped` event if no `continued` or `terminated` came after it, and
/// none if one did; other events do not affect it.
pub proof fn lemma_broadcast_keeps_latest_stop(view: MuxView, events: Seq<JsonView>, k: int)
    requires
        0 <= k <= events.len(),
        forall|j: int| k <= j < events.len() ==> !tells_stop(#[trigger] events[j]),
    ensures
        ({
            let stop = view.broadcast(events).last_stopped_event;
            if k == 0 {
                stop == view.last_stopped_event
            } else {
                let name = text_field(events[k - 1], "event"@);
                &&& name == Some("stopped"@) ==> stop == Some(events[k - 1])
                &&& name == Some("continued"@) || name == Some("terminated"@) ==> stop is None
            }
        }),
    decreases events.len(),
{
    if events.len() > 0 {
        let earlier = events.drop_last();
        lemma_events_differ();
        if k < events.len() {
            assert forall|j: int| k <= j < earlier.len() implies !tells_stop(
                #[trigger] earlier[j],
            ) by {
                assert(earlier[j] == events[j]);
            }
            lemma_broadcast_keeps_latest_stop(view, earlier, k);
            assert(!tells_stop(events[events.len() - 1]));
        }
    }
}

/// Messages as they arrive from the adapter.
pub open spec fn arriving(messages: Seq<JsonView>) -> Seq<Input> {
    messages.map_values(|message: JsonView| Input::FromAdapter(message))
}

/// Picks the events that are not dropped.
pub open spec fn forwarded() -> spec_fn(JsonView) -> bool {
    |message: JsonView| !is_filtered_event(message)
}

/// Over any run of events, a connected client gets each event that is not
/// dropped, exactly once, exactly as the adapter sent it, in the order the
/// adapter sent them. Events leave the clients, the phase, the connection to
/// the adapter and everything under way as they were.
pub proof fn lemma_events_are_delivered_in_order(
    view: MuxView,
    events: Seq<JsonView>,
    id: Seq<char>,
)
    requires
        view.well_formed(),
        view.connected(id),
        forall|i: int| 0 <= i < events.len() ==> has_kind(#[trigger] events[i], "event"@),
    ensures
        delivered(id, view.ran_actions(arriving(events))) == events.filter(forwarded()),
        ({
            let after = view.ran(arriving(events));
            after == (MuxView {
                initialized_event: after.initialized_event,
                last_stopped_event: after.last_stopped_event,
                ..view
            })
        }),
    decreases events.len(),
{
    reveal(MuxView::step);
    reveal(Seq::filter);
    let inputs = arriving(events);
    if events.len() == 0 {
        assert(events.filter(forwarded()) =~= Seq::<JsonView>::empty());
    } else {
        let earlier = events.drop_last();
        let message = events.last();
        assert(inputs.drop_last() =~= arriving(earlier));
        assert forall|i: int| 0 <= i < earlier.len() implies has_kind(
            #[trigger] earlier[i],
            "event"@,
        ) by {
            assert(earlier[i] == events[i]);
        }
        lemma_events_are_delivered_in_order(view, earlier, id);
        let before = view.ran(arriving(earlier));
        let actions = before.from_adapter(message).actions;
        assert(has_kind(events[events.len() - 1], "event"@));
        lemma_kinds_differ();
        lemma_delivered_in_two(id, view.ran_actions(arriving(earlier)), actions);
        lemma_event_is_delivered_once(before, message, id);
        assert(delivered(id, view.ran_actions(inputs)) =~= events.filter(forwarded()));
    }
}

/// Whether an input says anew where the debuggee stands: it stops, runs on or
/// ends, or it is restarted.
pub open spec fn moves_stop(view: MuxView, input: Input) -> bool {
    match input {
        Input::FromAdapter(message) => {
            &&& has_kind(message, "event"@)
            &&& tells_stop(message)
        },
        Input::FromClient(_, message) => {
            &&& has_kind(message, "request"@)
            &&& asks(message, "restart"@)
            &&& view.request_route(message) is Forward
        },
        _ => false,
    }
}

/// Nothing else changes where the debuggee is taken to stand.
proof fn lemma_step_keeps_stop(view: MuxView, input: Input)
    requires
        !moves_stop(view, input),
    ensures
        view.step(input).after.last_stopped_event == view.last_stopped_event,
{
    reveal(MuxView::step);
    if let Input::FromAdapter(message) = input {
        lemma_note_keeps_routing(message);
        lemma_kinds_differ();
    }
}

/// Over any run, the stop that is kept for late joiners is the latest one,
/// until the debuggee runs on, ends or is restarted: no other input affects it,
/// and no other event.
pub proof fn lemma_latest_stop_is_kept(view: MuxView, inputs: Seq<Input>, k: int)
    requires
        0 <= k <= inputs.len(),
        forall|j: int|
            k <= j < inputs.len() ==> !moves_stop(view.ran(inputs.take(j)), #[trigger] inputs[j]),
    ensures
        view.ran(inputs).last_stopped_event == view.ran(inputs.take(k)).last_stopped_event,
        k > 0 ==> (inputs[k - 1] matches Input::FromAdapter(message) ==> {
            let name = text_field(message, "event"@);
            let stop = view.ran(inputs).last_stopped_event;
            has_kind(message, "event"@) ==> {
                &&& name == Some("stopped"@) ==> stop == Some(message)
                &&& name == Some("continued"@) || name == Some("terminated"@) ==> stop is None
            }
        }),
    decreases inputs.len(),
{
    reveal(MuxView::step);
    if k < inputs.len() {
        let earlier = inputs.drop_last();
        assert forall|j: int| k <= j < earlier.len() implies !moves_stop(
            view.ran(earlier.take(j)),
            #[trigger] earlier[j],
        ) by {
            lemma_earlier_prefix(inputs, j);
            assert(earlier[j] == inputs[j]);
        }
        lemma_latest_stop_is_kept(view, earlier, k);
        lemma_earlier_prefix(inputs, k);
        lemma_earlier_prefix(inputs, inputs.len() - 1);
        assert(inputs[inputs.len() - 1] == inputs.last());
        lemma_step_keeps_stop(view.ran(earlier), inputs.last());
        if k > 0 {
            assert(earlier[k - 1] == inputs[k - 1]);
        }
    } else {
        assert(inputs.take(k) =~= inputs);
        lemma_kinds_differ();
        lemma_events_differ();
    }
}

// ---------------------------------------------------------------------------
// Requests
// ---------------------------------------------------------------------------

/// Whether an input settles the request of `owner` that is outstanding under
/// `seq`: the adapter answers it, or its client leaves.
pub open spec fn settles_request(
    view: MuxView,
    input: Input,
    seq: i64,
    owner: Seq<char>,
) -> bool {
    match input {
        Input::FromAdapter(message) => has_kind(message, "response"@) && integer_field(
            message,
            "request_seq"@,
        ) == Some(seq),
        Input::FromClient(id, message) => id == owner && has_kind(message, "request"@)
            && view.request_route(message) is Leave,
        Input::Departs(id) => id == owner,
        _ => false,
    }
}

/// Any other input leaves a request outstanding.
proof fn lemma_step_keeps_request(view: MuxView, input: Input, seq: i64)
    requires
        view.seq_map.well_formed(),
        view.seq_map.next_seq < i64::MAX,
        view.seq_map.pending.contains_key(seq),
        !settles_request(view, input, seq, view.seq_map.pending[seq].client_id),
    ensures
        view.step(input).after.seq_map.pending.contains_key(seq),
        view.step(input).after.seq_map.pending[seq] == view.seq_map.pending[seq],
{
    reveal(MuxView::step);
    match input {
        Input::FromClient(id, message) => {
            lemma_request_outlives_client_messages(view, id, message, seq);
        },
        Input::FromAdapter(message) => {
            lemma_request_outlives_adapter_messages(view, message, seq);
        },
        Input::Departs(id) => {
            lemma_request_outlives_departures(view, id, seq);
        },
        _ => {},
    }
}

/// A forwarded request stays outstanding over any run, as its client sent it,
/// until the adapter answers it or its client leaves.
pub proof fn lemma_request_stays_outstanding(view: MuxView, inputs: Seq<Input>, seq: i64)
    requires
        view.well_formed(),
        view.has_room_for(inputs.len()),
        view.seq_map.pending.contains_key(seq),
        forall|j: int|
            0 <= j < inputs.len() ==> !settles_request(
                view.ran(inputs.take(j)),
                #[trigger] inputs[j],
                seq,
                view.seq_map.pending[seq].client_id,
            ),
    ensures
        view.ran(inputs).seq_map.pending.contains_key(seq),
        view.ran(inputs).seq_map.pending[seq] == view.seq_map.pending[seq],
    decreases inputs.len(),
{
    if inputs.len() > 0 {
        let earlier = inputs.drop_last();
        let owner = view.seq_map.pending[seq].client_id;
        assert forall|j: int| 0 <= j < earlier.len() implies !settles_request(
            view.ran(earlier.take(j)),
            #[trigger] earlier[j],
            seq,
            owner,
        ) by {
            lemma_earlier_prefix(inputs, j);
            assert(earlier[j] == inputs[j]);
        }
        lemma_request_stays_outstanding(view, earlier, seq);
        let before = view.ran(earlier);
        assert(before.seq_map.well_formed() && before.seq_map.next_seq < i64::MAX) by {
            lemma_run_keeps_order(view, earlier, 1);
        }
        lemma_earlier_prefix(inputs, inputs.len() - 1);
        let input = inputs[inputs.len() - 1];
        assert(!settles_request(view.ran(inputs.take(inputs.len() - 1)), input, seq, owner));
        lemma_step_keeps_request(before, input, seq);
    }
}

/// The whole life of a forwarded request: it stays outstanding through any run
/// that neither answers it nor removes its client, and its response then goes to
/// the client that asked and to nobody else, under the client's own number.
pub proof fn lemma_request_is_answered_in_the_end(
    view: MuxView,
    id: Seq<char>,
    request: JsonView,
    seq: i64,
    inputs: Seq<Input>,
    reply: JsonView,
)
    requires
        view.well_formed(),
        view.has_room_for(inputs.len() + 1),
        has_kind(request, "request"@),
        view.request_route(request) == RequestRoute::Forward(seq),
        ({
            let between = view.from_client(id, request).after;
            &&& forall|j: int|
                0 <= j < inputs.len() ==> !settles_request(
                    between.ran(inputs.take(j)),
                    #[trigger] inputs[j],
                    view.seq_map.next_seq,
                    id,
                )
            &&& between.ran(inputs).connected(id)
            &&& !between.ran(inputs).settles(reply)
        }),
        has_kind(reply, "response"@),
        integer_field(reply, "request_seq"@) == Some(view.seq_map.next_seq),
    ensures
        ({
            let Step { after, actions } = view.from_client(id, request).after.ran(
                inputs,
            ).from_adapter(reply);
            &&& actions.len() == 1
            &&& actions[0] matches ActionView::ToClient(to, sent) && to == id && answers_as(
                reply,
                sent,
                seq,
            )
            &&& !after.seq_map.pending.contains_key(view.seq_map.next_seq)
        }),
{
    let between = view.from_client(id, request).after;
    assert(between.well_formed() && between.has_room_for(inputs.len())) by {
        reveal(MuxView::step);
        lemma_step_keeps_order(view, Input::FromClient(id, request), inputs.len());
    }
    let number = view.seq_map.next_seq;
    assert(between.seq_map.pending.contains_key(number));
    assert(between.seq_map.pending[number].client_id == id);
    lemma_request_stays_outstanding(between, inputs, number);
    lemma_response_returns_to_sender(between.ran(inputs), reply, number);
}

/// No input brings a settled number back.
proof fn lemma_step_keeps_settled(view: MuxView, input: Input, seq: i64)
    requires
        seq < view.seq_map.next_seq,
        !view.seq_map.pending.contains_key(seq),
    ensures
        !view.step(input).after.seq_map.pending.contains_key(seq),
{
    reveal(MuxView::step);
    if let Input::FromAdapter(message) = input {
        lemma_note_keeps_routing(message);
    }
}

/// Once a number is settled, nothing is outstanding under it for good: no
/// request gets it again, so a second response to it finds nobody.
pub proof fn lemma_settled_request_stays_settled(view: MuxView, inputs: Seq<Input>, seq: i64)
    requires
        view.well_formed(),
        view.has_room_for(inputs.len()),
        seq < view.seq_map.next_seq,
        !view.seq_map.pending.contains_key(seq),
    ensures
        !view.ran(inputs).seq_map.pending.contains_key(seq),
    decreases inputs.len(),
{
    if inputs.len() > 0 {
        let earlier = inputs.drop_last();
        lemma_settled_request_stays_settled(view, earlier, seq);
        assert(view.ran(earlier).seq_map.next_seq >= view.seq_map.next_seq) by {
            lemma_run_keeps_order(view, earlier, 1);
        }
        lemma_step_keeps_settled(view.ran(earlier), inputs.last(), seq);
    }
}

// ---------------------------------------------------------------------------
// Reverse requests
// ---------------------------------------------------------------------------

/// Whether an input settles the reverse request that `owner` owes under `seq`:
/// it is answered, or its client leaves.
pub open spec fn settles_reverse(
    view: MuxView,
    input: Input,
    seq: i64,
    owner: Seq<char>,
) -> bool {
    match input {
        Input::FromClient(id, message) => {
            ||| has_kind(message, "response"@) && integer_field(message, "request_seq"@) == Some(
                seq,
            )
            ||| id == owner && has_kind(message, "request"@) && view.request_route(
                message,
            ) is Leave
        },
        Input::Departs(id) => id == owner,
        _ => false,
    }
}

/// What another input leaves of the reverse requests.
proof fn lemma_step_keeps_reverse_request(
    view: MuxView,
    input: Input,
    seq: i64,
    request: ReverseView,
)
    requires
        view.well_formed(),
        view.has_room_for(1),
        view.reverse_request(seq) == Some(request),
        !settles_reverse(view, input, seq, request.client_id),
    ensures
        view.step(input).after.reverse_request(seq) == Some(request),
{
    reveal(MuxView::step);
    if let Input::FromAdapter(message) = input {
        lemma_note_keeps_routing(message);
    }
}

/// A reverse request stays owed over any run until it is answered or its client
/// leaves.
pub proof fn lemma_reverse_request_stays_owed(
    view: MuxView,
    inputs: Seq<Input>,
    seq: i64,
    request: ReverseView,
)
    requires
        view.well_formed(),
        view.has_room_for(inputs.len()),
        view.reverse_request(seq) == Some(request),
        forall|j: int|
            0 <= j < inputs.len() ==> !settles_reverse(
                view.ran(inputs.take(j)),
                #[trigger] inputs[j],
                seq,
                request.client_id,
            ),
    ensures
        view.ran(inputs).reverse_request(seq) == Some(request),
    decreases inputs.len(),
{
    if inputs.len() > 0 {
        let earlier = inputs.drop_last();
        assert forall|j: int| 0 <= j < earlier.len() implies !settles_reverse(
            view.ran(earlier.take(j)),
            #[trigger] earlier[j],
            seq,
            request.client_id,
        ) by {
            lemma_earlier_prefix(inputs, j);
            assert(earlier[j] == inputs[j]);
        }
        lemma_reverse_request_stays_owed(view, earlier, seq, request);
        lemma_run_keeps_order(view, earlier, 1);
        lemma_earlier_prefix(inputs, inputs.len() - 1);
        let input = inputs[inputs.len() - 1];
        assert(!settles_reverse(
            view.ran(inputs.take(inputs.len() - 1)),
            input,
            seq,
            request.client_id,
        ));
        lemma_step_keeps_reverse_request(view.ran(earlier), input, seq, request);
    }
}

/// No input brings back the number of a reverse request that is settled.
proof fn lemma_step_keeps_nothing_owed(view: MuxView, input: Input, seq: i64)
    requires
        seq < view.next_reverse_seq,
        view.reverse_request(seq) is None,
    ensures
        view.step(input).after.reverse_request(seq) is None,
{
    reveal(MuxView::step);
    if let Input::FromAdapter(message) = input {
        lemma_note_keeps_routing(message);
    }
}

/// Once a reverse request is answered or failed, its number stands for nothing
/// for good, over any run.
pub proof fn lemma_settled_reverse_request_stays_settled(
    view: MuxView,
    inputs: Seq<Input>,
    seq: i64,
)
    requires
        view.well_formed(),
        view.has_room_for(inputs.len()),
        seq < view.next_reverse_seq,
        view.reverse_request(seq) is None,
    ensures
        view.ran(inputs).reverse_request(seq) is None,
    decreases inputs.len(),
{
    if inputs.len() > 0 {
        let earlier = inputs.drop_last();
        lemma_settled_reverse_request_stays_settled(view, earlier, seq);
        let before = view.ran(earlier);
        assert(before.next_reverse_seq >= view.next_reverse_seq) by {
            lemma_run_keeps_order(view, earlier, 1);
        }
        lemma_step_keeps_nothing_owed(before, inputs.last(), seq);
    }
}

/// The answer to a reverse request goes back to the adapter once: under the
/// adapter's own number, otherwise unchanged, and alone. However the session
/// goes on, a second answer to it then changes and sends nothing.
pub proof fn lemma_reverse_answer_goes_back_once(
    view: MuxView,
    seq: i64,
    request: ReverseView,
    id: Seq<char>,
    answer: JsonView,
    inputs: Seq<Input>,
    again: Seq<char>,
    second: JsonView,
)
    requires
        view.well_formed(),
        view.has_room_for(inputs.len() + 1),
        view.upstream_connected,
        view.reverse_request(seq) == Some(request),
        has_kind(answer, "response"@),
        integer_field(answer, "request_seq"@) == Some(seq),
        has_kind(second, "response"@),
        integer_field(second, "request_seq"@) == Some(seq),
    ensures
        ({
            let Step { after, actions } = view.from_client(id, answer);
            let later = after.ran(inputs);
            &&& actions.len() == 1
            &&& actions[0] matches ActionView::ToAdapter(sent) && renumbered(
                answer,
                sent,
                "request_seq"@,
                request.adapter_seq,
            )
            &&& after.reverse_request(seq) is None
            &&& later.from_client(again, second) == (Step { after: later, actions: Seq::empty() })
        }),
{
    reveal(MuxView::step);
    lemma_kinds_differ();
    lemma_step_keeps_order(view, Input::FromClient(id, answer), inputs.len());
    let after = view.from_client(id, answer).after;
    assert(view.reverse_requests.contains_key(seq));
    lemma_settled_reverse_request_stays_settled(after, inputs, seq);
}

/// The whole life of a reverse request that a client gets: it stays owed
/// through any run that neither answers it nor removes its client, and its
/// answer then goes back to the adapter under the number that the adapter gave
/// it.
pub proof fn lemma_reverse_request_is_answered_in_the_end(
    view: MuxView,
    message: JsonView,
    target: Seq<char>,
    inputs: Seq<Input>,
    id: Seq<char>,
    answer: JsonView,
)
    requires
        view.well_formed(),
        view.has_room_for(inputs.len() + 2),
        is_reverse_request(message),
        reverse_target(view.init_args, message) == Some(target),
        view.connected(target),
        ({
            let between = view.from_adapter(message).after;
            &&& between.ran(inputs).upstream_connected
            &&& forall|j: int|
                0 <= j < inputs.len() ==> !settles_reverse(
                    between.ran(inputs.take(j)),
                    #[trigger] inputs[j],
                    view.next_reverse_seq,
                    target,
                )
        }),
        has_kind(answer, "response"@),
        integer_field(answer, "request_seq"@) == Some(view.next_reverse_seq),
    ensures
        ({
            let actions = view.from_adapter(message).after.ran(inputs).from_client(
                id,
                answer,
            ).actions;
            &&& actions.len() == 1
            &&& actions[0] matches ActionView::ToAdapter(sent) && renumbered(
                answer,
                sent,
                "request_seq"@,
                adapter_seq(message),
            )
        }),
{
    reveal(MuxView::step);
    let between = view.from_adapter(message).after;
    let seq = view.next_reverse_seq;
    lemma_reverse_request_kind(message);
    lemma_step_keeps_order(view, Input::FromAdapter(message), inputs.len() + 1);
    let request = between.reverse_requests[seq];
    lemma_reverse_request_stays_owed(between, inputs, seq, request);
    lemma_run_keeps_order(between, inputs, 1);
    lemma_reverse_answer_goes_back_once(
        between.ran(inputs),
        seq,
        request,
        id,
        answer,
        Seq::empty(),
        id,
        answer,
    );
}

// ---------------------------------------------------------------------------
// Clients
// ---------------------------------------------------------------------------

/// A client is connected after an input only if it was before, or has just
/// connected under an id that is new.
proof fn lemma_step_connects_only_new(view: MuxView, input: Input, id: Seq<char>)
    requires
        view.step(input).after.connected(id),
        view.client_counter < u64::MAX,
    ensures
        view.connected(id) || (input is Joins && id == client_name(
            (view.client_counter + 1) as nat,
        )),
{
    reveal(MuxView::step);
    let after = view.step(input).after;
    let i = choose|i: int| 0 <= i < after.clients.len() && (#[trigger] after.clients[i]).id == id;
    match input {
        Input::FromClient(sender, message) => {
            if has_kind(message, "request"@) && view.request_route(message) is Leave {
                lemma_filter_source(view.clients, other_than(sender));
                assert(view.clients.contains(view.clients.filter(other_than(sender))[i]));
            } else {
                lemma_client_message_moves_nobody(view, sender, message);
            }
        },
        Input::FromAdapter(message) => {
            lemma_session_survives_adapter_messages(view, message);
            assert(view.clients[i].id == id);
        },
        Input::Joins => {
            if i < view.clients.len() {
                assert(view.clients[i].id == id);
            }
        },
        Input::Departs(gone) => {
            lemma_filter_source(view.clients, other_than(gone));
            assert(view.clients.contains(view.clients.filter(other_than(gone))[i]));
        },
        Input::AdapterConnects => {
            assert(view.clients[i].id == id);
        },
        Input::AdapterLost => {
            assert(view.clients[i].id == id);
        },
        Input::Ends => {},
    }
}

/// An id that was handed out stays handed out.
proof fn lemma_names_last(id: Seq<char>, count: u64, later: u64)
    requires
        was_named(id, count),
        count <= later,
    ensures
        was_named(id, later),
{
    let n = choose|n: nat| 1 <= n <= count && id == #[trigger] client_name(n);
    assert(1 <= n <= later);
}

/// Ids are never reused: over any run, the next client to connect gets an id
/// that nobody had before, and a client that has left does not reappear.
pub proof fn lemma_ids_are_never_reused(view: MuxView, inputs: Seq<Input>, id: Seq<char>)
    requires
        view.well_formed(),
        view.has_room_for(inputs.len() + 1),
        was_named(id, view.client_counter),
    ensures
        client_name((view.ran(inputs).client_counter + 1) as nat) != id,
        !view.connected(id) ==> !view.ran(inputs).connected(id),
    decreases inputs.len(),
{
    lemma_run_keeps_order(view, inputs, 1);
    let now = view.ran(inputs);
    lemma_names_last(id, view.client_counter, now.client_counter);
    lemma_new_client_is_fresh(now);
    if inputs.len() > 0 && now.connected(id) {
        let earlier = inputs.drop_last();
        lemma_ids_are_never_reused(view, earlier, id);
        lemma_run_keeps_order(view, earlier, 2);
        lemma_step_connects_only_new(view.ran(earlier), inputs.last(), id);
    }
}

/// Whether clients only send while they are connected, and the session is not
/// ended.
pub open spec fn clients_behave(view: MuxView, inputs: Seq<Input>) -> bool {
    forall|j: int|
        0 <= j < inputs.len() ==> sender_present(view.ran(inputs.take(j)), #[trigger] inputs[j])
            && !(inputs[j] is Ends)
}

/// Whether clients only send once they have connected.
pub open spec fn clients_known(view: MuxView, inputs: Seq<Input>) -> bool {
    forall|j: int|
        0 <= j < inputs.len() ==> sender_ever_present(
            view.ran(inputs.take(j)),
            #[trigger] inputs[j],
        )
}

/// Throughout a session, everything under way belongs to a client that is
/// connected: nothing outlives its client.
pub proof fn lemma_nothing_outlives_its_client(view: MuxView, inputs: Seq<Input>)
    requires
        view.owned_within(view.present()),
        clients_behave(view, inputs),
    ensures
        view.ran(inputs).owned_within(view.ran(inputs).present()),
    decreases inputs.len(),
{
    if inputs.len() > 0 {
        let earlier = inputs.drop_last();
        assert forall|j: int| 0 <= j < earlier.len() implies sender_present(
            view.ran(earlier.take(j)),
            #[trigger] earlier[j],
        ) && !(earlier[j] is Ends) by {
            lemma_earlier_prefix(inputs, j);
            assert(earlier[j] == inputs[j]);
        }
        lemma_nothing_outlives_its_client(view, earlier);
        lemma_earlier_prefix(inputs, inputs.len() - 1);
        let input = inputs[inputs.len() - 1];
        assert(sender_present(view.ran(inputs.take(inputs.len() - 1)), input));
        lemma_owners_are_present(view.ran(earlier), input);
    }
}

/// How many clients connect in a run.
pub open spec fn joins(inputs: Seq<Input>) -> nat
    decreases inputs.len(),
{
    if inputs.len() == 0 {
        0
    } else {
        joins(inputs.drop_last()) + if inputs.last() is Joins {
            1nat
        } else {
            0nat
        }
    }
}

/// Clients are counted over any run.
proof fn lemma_joins_are_counted(view: MuxView, inputs: Seq<Input>)
    requires
        view.client_counter + inputs.len() <= u64::MAX,
    ensures
        view.ran(inputs).client_counter == view.client_counter + joins(inputs),
        joins(inputs) <= inputs.len(),
    decreases inputs.len(),
{
    if inputs.len() > 0 {
        lemma_joins_are_counted(view, inputs.drop_last());
        lemma_counter_only_grows(view.ran(inputs.drop_last()), inputs.last());
    }
}

/// Throughout a session and past its end, everything under way belongs to a
/// client that has connected.
pub proof fn lemma_everything_belongs_to_a_client(view: MuxView, inputs: Seq<Input>)
    requires
        view.client_counter + inputs.len() <= u64::MAX,
        view.owned_within(view.ever_present()),
        clients_known(view, inputs),
    ensures
        view.ran(inputs).owned_within(view.ran(inputs).ever_present()),
    decreases inputs.len(),
{
    if inputs.len() > 0 {
        let earlier = inputs.drop_last();
        assert forall|j: int| 0 <= j < earlier.len() implies sender_ever_present(
            view.ran(earlier.take(j)),
            #[trigger] earlier[j],
        ) by {
            lemma_earlier_prefix(inputs, j);
            assert(earlier[j] == inputs[j]);
        }
        lemma_everything_belongs_to_a_client(view, earlier);
        lemma_joins_are_counted(view, earlier);
        lemma_earlier_prefix(inputs, inputs.len() - 1);
        let input = inputs[inputs.len() - 1];
        assert(sender_ever_present(view.ran(inputs.take(inputs.len() - 1)), input));
        lemma_owners_were_present(view.ran(earlier), input);
    }
}

/// The n-th client to connect gets the id `client-n`, whatever happened before,
/// stands last in the list after those that were there, and has nothing under
/// way.
pub proof fn lemma_nth_client(operator_owned: bool, inputs: Seq<Input>)
    requires
        MuxView::fresh(operator_owned).has_room_for(inputs.len() + 1),
        clients_known(MuxView::fresh(operator_owned), inputs),
    ensures
        ({
            let before = MuxView::fresh(operator_owned).ran(inputs);
            let after = before.step(Input::Joins).after;
            let id = client_name(joins(inputs) + 1);
            &&& after.clients == before.clients.push(
                ClientView { id, initialized: false, display_name: None },
            )
            &&& after.idle(id)
            &&& after.well_formed()
        }),
{
    reveal(MuxView::step);
    let fresh = MuxView::fresh(operator_owned);
    lemma_session_starts_in_order(operator_owned, fresh);
    lemma_run_keeps_order(fresh, inputs, 1);
    lemma_joins_are_counted(fresh, inputs);
    lemma_everything_belongs_to_a_client(fresh, inputs);
    let before = fresh.ran(inputs);
    lemma_new_client_is_fresh(before);
    lemma_new_client_is_idle(before);
    assert((before.client_counter + 1) as nat == joins(inputs) + 1);
}

/// Picks everybody but one client.
pub open spec fn everybody_but(id: Seq<char>) -> spec_fn(Seq<char>) -> bool {
    |other: Seq<char>| other != id
}

/// A client that is gone has nothing under way as long as it sends nothing.
proof fn lemma_gone_client_stays_idle(view: MuxView, inputs: Seq<Input>, id: Seq<char>)
    requires
        view.owned_within(everybody_but(id)),
        forall|j: int|
            0 <= j < inputs.len() ==> (#[trigger] inputs[j] matches Input::FromClient(sender, _)
                ==> sender != id),
    ensures
        view.ran(inputs).owned_within(everybody_but(id)),
    decreases inputs.len(),
{
    reveal(MuxView::step);
    if inputs.len() > 0 {
        let earlier = inputs.drop_last();
        let known = everybody_but(id);
        assert forall|j: int| 0 <= j < earlier.len() implies (
        #[trigger] earlier[j] matches Input::FromClient(sender, _) ==> sender != id) by {
            assert(earlier[j] == inputs[j]);
        }
        lemma_gone_client_stays_idle(view, earlier, id);
        let before = view.ran(earlier);
        let input = inputs[inputs.len() - 1];
        match input {
            Input::FromClient(sender, message) => {
                lemma_client_message_keeps_owners(before, sender, message, known);
            },
            Input::FromAdapter(message) => {
                lemma_adapter_message_keeps_owners(before, message, known);
            },
            Input::Departs(gone) => {
                lemma_departure_keeps_owners(before, gone, known, known);
            },
            _ => {},
        }
    }
}

/// What belongs to others leaves a client idle, and the other way round.
proof fn lemma_idle_owns_nothing(view: MuxView, id: Seq<char>)
    ensures
        view.idle(id) <==> view.owned_within(everybody_but(id)),
{
    let known = everybody_but(id);
    if view.owned_within(known) {
        assert forall|seq: i64| !view.seq_map.owned(id).contains(seq) by {
            if view.seq_map.owned(id).contains(seq) {
                assert(view.seq_map.pending.contains_key(seq));
            }
        }
        assert(view.seq_map.owned(id) =~= Set::<i64>::empty());
        assert forall|seq: i64| !view.owed_by(id).contains(seq) by {
            if view.owed_by(id).contains(seq) {
                assert(view.reverse_requests.contains_key(seq));
            }
        }
        assert(view.owed_by(id) =~= Set::<i64>::empty());
        if view.introduced(id) {
            let i = choose|i: int|
                0 <= i < view.init_args.len() && (#[trigger] view.init_args[i]).0 == id;
            assert(known(view.init_args[i].0));
        }
        if waits(view.pending_initialize, id) {
            let i = choose|i: int|
                0 <= i < view.pending_initialize.len() && (
                #[trigger] view.pending_initialize[i]).0 == id;
            assert(known(view.pending_initialize[i].0));
        }
    }
    if view.idle(id) {
        assert forall|seq: i64| #[trigger] view.seq_map.pending.contains_key(seq) implies known(
            view.seq_map.pending[seq].client_id,
        ) by {
            assert(!view.seq_map.owned(id).contains(seq));
        }
        assert forall|seq: i64| #[trigger] view.reverse_requests.contains_key(seq) implies known(
            view.reverse_requests[seq].client_id,
        ) by {
            assert(!view.owed_by(id).contains(seq));
        }
        assert(view.owned_within(known));
    }
}

/// A client that has left is gone for good: however the session goes on without
/// it, it is not connected and has nothing under way, and a second departure
/// changes and sends nothing.
pub proof fn lemma_departed_client_is_gone_for_good(
    view: MuxView,
    id: Seq<char>,
    inputs: Seq<Input>,
)
    requires
        view.well_formed(),
        view.has_room_for(inputs.len() + 1),
        was_named(id, view.client_counter),
        forall|j: int|
            0 <= j < inputs.len() ==> (#[trigger] inputs[j] matches Input::FromClient(sender, _)
                ==> sender != id),
    ensures
        ({
            let later = view.departure(id).after.ran(inputs);
            &&& !later.connected(id)
            &&& later.idle(id)
            &&& later.departure(id) == (Step { after: later, actions: Seq::empty() })
        }),
{
    let gone = view.departure(id).after;
    let later = gone.ran(inputs);
    lemma_departure_leaves_nothing_behind(view, id);
    lemma_leaving_keeps_order(view, id);
    lemma_ids_are_never_reused(gone, inputs, id);
    lemma_idle_owns_nothing(gone, id);
    lemma_gone_client_stays_idle(gone, inputs, id);
    lemma_idle_owns_nothing(later, id);
    lemma_departure_of_nobody_is_silent(later, id);
}

} // verus!
