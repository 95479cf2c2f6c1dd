//! What holds of every session.
//!
//! Each public proof function here states one law of the multiplexer over the
//! model that the contracts in [`crate::mux`] are written in.

use vstd::prelude::*;

use crate::compat::{
    error_text, is_filtered_event, is_reverse_request, lemma_note_changes_only_the_error_text,
    reverse_target, with_stale_note,
};
use crate::json::{
    field, flag_field, integer, integer_field, lemma_with_field, text_field, with_field, JsonView,
};
use crate::model::{
    acknowledgement, asks, client_name, command_or_unknown, connected_earlier, distinct_owners,
    event, farewells, from_others, initialize_refusal, loss_notice, other_than, own_seq, pairwise,
    rejection_reason, restart_refusal, reverse_failure, waits, was_named, ActionView, ClientView,
    MuxView, ReverseView, Step,
};
use crate::mux::{RequestRoute, SessionPhase};
use crate::owned::{in_order, lemma_in_order, lemma_in_order_lists, lists};
use crate::protocol::has_kind;
use crate::seq::{
    lemma_cleanup_is_exact, lemma_resolve_undoes_allocate, lemma_seq_map_stays_well_formed,
    PendingView,
};
use crate::text::{decimal, lemma_decimal_injective, lowercased};

verus! {

// ---------------------------------------------------------------------------
// Names
// ---------------------------------------------------------------------------

/// The commands that are routed in a way of their own are told apart.
pub proof fn lemma_commands_differ()
    ensures
        "initialize"@ != "attach"@,
        "initialize"@ != "launch"@,
        "initialize"@ != "configurationDone"@,
        "initialize"@ != "terminate"@,
        "initialize"@ != "disconnect"@,
        "initialize"@ != "restart"@,
        "attach"@ != "configurationDone"@,
        "attach"@ != "terminate"@,
        "attach"@ != "disconnect"@,
        "attach"@ != "restart"@,
        "launch"@ != "configurationDone"@,
        "launch"@ != "terminate"@,
        "launch"@ != "disconnect"@,
        "launch"@ != "restart"@,
        "configurationDone"@ != "terminate"@,
        "configurationDone"@ != "disconnect"@,
        "configurationDone"@ != "restart"@,
        "terminate"@ != "disconnect"@,
        "terminate"@ != "restart"@,
        "disconnect"@ != "restart"@,
        "initialize"@ != "variables"@,
        "initialize"@ != "scopes"@,
        "initialize"@ != "evaluate"@,
{
    reveal_strlit("initialize");
    assert("initialize"@.len() == 10);
    reveal_strlit("attach");
    assert("attach"@.len() == 6);
    reveal_strlit("launch");
    assert("launch"@.len() == 6);
    reveal_strlit("configurationDone");
    assert("configurationDone"@.len() == 17);
    reveal_strlit("terminate");
    assert("terminate"@.len() == 9);
    reveal_strlit("disconnect");
    assert("disconnect"@.len() == 10);
    reveal_strlit("restart");
    assert("restart"@.len() == 7);
    reveal_strlit("variables");
    assert("variables"@.len() == 9);
    reveal_strlit("scopes");
    assert("scopes"@.len() == 6);
    reveal_strlit("evaluate");
    assert("evaluate"@.len() == 8);
    assert("initialize"@[0] != "disconnect"@[0]);
}

/// The kinds of messages are told apart.
pub proof fn lemma_kinds_differ()
    ensures
        "request"@ != "response"@,
        "request"@ != "event"@,
        "response"@ != "event"@,
{
    reveal_strlit("request");
    assert("request"@.len() == 7);
    reveal_strlit("response");
    assert("response"@.len() == 8);
    reveal_strlit("event");
    assert("event"@.len() == 5);
}

/// The members that the multiplexer reads or writes are told apart.
pub proof fn lemma_members_differ()
    ensures
        "seq"@ != "type"@,
        "seq"@ != "command"@,
        "type"@ != "request_seq"@,
        "type"@ != "success"@,
        "type"@ != "command"@,
        "type"@ != "message"@,
        "type"@ != "body"@,
        "request_seq"@ != "success"@,
        "request_seq"@ != "command"@,
        "request_seq"@ != "message"@,
        "request_seq"@ != "body"@,
        "success"@ != "command"@,
        "success"@ != "message"@,
        "success"@ != "body"@,
        "command"@ != "message"@,
        "command"@ != "body"@,
        "body"@ != "seq"@,
{
    reveal_strlit("seq");
    assert("seq"@.len() == 3);
    reveal_strlit("type");
    assert("type"@.len() == 4);
    reveal_strlit("request_seq");
    assert("request_seq"@.len() == 11);
    reveal_strlit("success");
    assert("success"@.len() == 7);
    reveal_strlit("command");
    assert("command"@.len() == 7);
    reveal_strlit("message");
    assert("message"@.len() == 7);
    reveal_strlit("body");
    assert("body"@.len() == 4);
    assert("type"@[0] != "body"@[0]);
    assert("success"@[0] != "command"@[0]);
    assert("success"@[0] != "message"@[0]);
    assert("command"@[0] != "message"@[0]);
}

/// The events that say where the debuggee stands are told apart.
pub proof fn lemma_events_differ()
    ensures
        "stopped"@ != "continued"@,
        "stopped"@ != "terminated"@,
        "stopped"@ != "initialized"@,
        "continued"@ != "initialized"@,
        "terminated"@ != "initialized"@,
        "initialized"@ != "debugpySockets"@,
        "initialized"@ != "debugpyAttach"@,
        "initialized"@ != "startDebugging"@,
        "stopped"@ != "debugpySockets"@,
        "stopped"@ != "debugpyAttach"@,
        "stopped"@ != "startDebugging"@,
        "continued"@ != "debugpySockets"@,
        "continued"@ != "debugpyAttach"@,
        "continued"@ != "startDebugging"@,
        "terminated"@ != "debugpySockets"@,
        "terminated"@ != "debugpyAttach"@,
        "terminated"@ != "startDebugging"@,
{
    reveal_strlit("debugpySockets");
    assert("debugpySockets"@.len() == 14);
    reveal_strlit("debugpyAttach");
    assert("debugpyAttach"@.len() == 13);
    reveal_strlit("startDebugging");
    assert("startDebugging"@.len() == 14);
    reveal_strlit("stopped");
    assert("stopped"@.len() == 7);
    reveal_strlit("continued");
    assert("continued"@.len() == 9);
    reveal_strlit("terminated");
    assert("terminated"@.len() == 10);
    reveal_strlit("initialized");
    assert("initialized"@.len() == 11);
}

// ---------------------------------------------------------------------------
// Sequences
// ---------------------------------------------------------------------------

/// What a filter lets through was there before.
pub(crate) proof fn lemma_filter_source<A>(items: Seq<A>, keep: spec_fn(A) -> bool)
    ensures
        items.filter(keep).len() <= items.len(),
        forall|i: int|
            0 <= i < items.filter(keep).len() ==> keep(#[trigger] items.filter(keep)[i])
                && items.contains(items.filter(keep)[i]),
        forall|i: int|
            0 <= i < items.len() && keep(#[trigger] items[i]) ==> items.filter(keep).contains(
                items[i],
            ),
{
    let kept = items.filter(keep);
    items.lemma_filter_len(keep);
    assert forall|i: int| 0 <= i < kept.len() implies keep(#[trigger] kept[i]) && items.contains(
        kept[i],
    ) by {
        assert(kept.contains(kept[i]));
        items.lemma_filter_pred(keep, i);
        items.lemma_filter_contains_rev(keep, kept[i]);
    }
    assert forall|i: int| 0 <= i < items.len() && keep(#[trigger] items[i]) implies kept.contains(
        items[i],
    ) by {
        items.lemma_filter_contains(keep, i);
    }
}

/// A filter keeps what stands in order in order.
pub(crate) proof fn lemma_filter_pairwise<A>(
    items: Seq<A>,
    keep: spec_fn(A) -> bool,
    rel: spec_fn(A, A) -> bool,
)
    requires
        pairwise(items, rel),
    ensures
        pairwise(items.filter(keep), rel),
    decreases items.len(),
{
    reveal(Seq::filter);
    if items.len() > 0 {
        let rest = items.drop_last();
        assert(pairwise(rest, rel)) by {
            assert forall|i: int, j: int| 0 <= i < j < rest.len() implies rel(
                #[trigger] rest[i],
                #[trigger] rest[j],
            ) by {
                assert(rel(items[i], items[j]));
            }
        }
        lemma_filter_pairwise(rest, keep, rel);
        lemma_filter_source(rest, keep);
        let kept = items.filter(keep);
        assert forall|i: int, j: int| 0 <= i < j < kept.len() implies rel(
            #[trigger] kept[i],
            #[trigger] kept[j],
        ) by {
            if j < rest.filter(keep).len() {
                assert(rel(rest.filter(keep)[i], rest.filter(keep)[j]));
            } else {
                assert(rest.contains(rest.filter(keep)[i]));
                let k = choose|k: int| 0 <= k < rest.len() && rest[k] == kept[i];
                assert(rel(items[k], items[items.len() - 1]));
            }
        }
    }
}

// ---------------------------------------------------------------------------
// What every operation keeps
// ---------------------------------------------------------------------------

/// Two clients with the same id are the same client.
pub proof fn lemma_client_name_injective(a: nat, b: nat)
    requires
        client_name(a) == client_name(b),
    ensures
        a == b,
{
    let prefix = "client-"@.len() as int;
    assert(client_name(a).skip(prefix) =~= decimal(a));
    assert(client_name(b).skip(prefix) =~= decimal(b));
    lemma_decimal_injective(a, b);
}

/// A client that connects gets an id that no client had before.
pub proof fn lemma_new_client_is_fresh(view: MuxView)
    requires
        view.well_formed(),
        view.client_counter < u64::MAX,
    ensures
        !view.connected(client_name((view.client_counter + 1) as nat)),
        !was_named(client_name((view.client_counter + 1) as nat), view.client_counter),
        view.joined().connected(client_name((view.client_counter + 1) as nat)),
        view.joined().well_formed(),
{
    let fresh = client_name((view.client_counter + 1) as nat);
    let after = view.joined();
    if was_named(fresh, view.client_counter) {
        let n = choose|n: nat| 1 <= n <= view.client_counter && fresh == #[trigger] client_name(n);
        lemma_client_name_injective(n, (view.client_counter + 1) as nat);
    }
    assert(after.clients.last().id == fresh);
    assert(after.connected(fresh));
    assert forall|i: int| 0 <= i < after.clients.len() implies was_named(
        (#[trigger] after.clients[i]).id,
        after.client_counter,
    ) by {
        if i < view.clients.len() {
            assert(was_named(view.clients[i].id, view.client_counter));
            let n = choose|n: nat|
                1 <= n <= view.client_counter && view.clients[i].id == #[trigger] client_name(n);
            assert(1 <= n <= after.client_counter && after.clients[i].id == client_name(n));
        }
    }
    let rel = connected_earlier();
    assert forall|i: int, j: int| 0 <= i < j < after.clients.len() implies rel(
        #[trigger] after.clients[i],
        #[trigger] after.clients[j],
    ) by {
        if j < view.clients.len() {
            assert(rel(view.clients[i], view.clients[j]));
        } else {
            assert(was_named(view.clients[i].id, view.client_counter));
            let n = choose|n: nat|
                1 <= n <= view.client_counter && view.clients[i].id == #[trigger] client_name(n);
            assert(n < (view.client_counter + 1) as nat);
        }
    }
}

/// No two connected clients share an id.
pub proof fn lemma_clients_are_distinct(view: MuxView, i: int, j: int)
    requires
        view.well_formed(),
        0 <= i < j < view.clients.len(),
    ensures
        view.clients[i].id != view.clients[j].id,
{
    let rel = connected_earlier();
    let (a, b) = (view.clients[i].id, view.clients[j].id);
    assert(rel(view.clients[i], view.clients[j]));
    let (n, m) = choose|n: nat, m: nat|
        n < m && a == #[trigger] client_name(n) && b == #[trigger] client_name(m);
    if a == b {
        lemma_client_name_injective(n, m);
    }
}

/// Clients that keep their ids stay in order.
proof fn lemma_same_ids_stay_in_order(before: Seq<ClientView>, after: Seq<ClientView>)
    requires
        before.len() == after.len(),
        forall|i: int| 0 <= i < after.len() ==> (#[trigger] after[i]).id == before[i].id,
        pairwise(before, connected_earlier()),
    ensures
        pairwise(after, connected_earlier()),
{
    let rel = connected_earlier();
    assert forall|i: int, j: int| 0 <= i < j < after.len() implies rel(
        #[trigger] after[i],
        #[trigger] after[j],
    ) by {
        assert(rel(before[i], before[j]));
    }
}

/// Forgetting what a client had under way leaves the session in order.
pub proof fn lemma_cleanup_keeps_order(view: MuxView, id: Seq<char>)
    requires
        view.well_formed(),
    ensures
        view.cleaned(id).well_formed(),
{
    let after = view.cleaned(id);
    lemma_seq_map_stays_well_formed(view.seq_map, id, 0, 0);
    lemma_filter_pairwise(view.init_args, from_others(id), distinct_owners());
    assert(after.reverse_requests.dom() =~= view.reverse_requests.dom().difference(
        view.owed_by(id),
    ));
    assert forall|seq: i64| #[trigger] after.reverse_requests.contains_key(seq) implies 1 <= seq
        < after.next_reverse_seq by {
        assert(view.reverse_requests.contains_key(seq));
    }
}

/// A departure, the loss of the adapter and the end of the session leave the
/// session in order.
pub proof fn lemma_leaving_keeps_order(view: MuxView, id: Seq<char>)
    requires
        view.well_formed(),
    ensures
        view.departure(id).after.well_formed(),
        view.adapter_loss().after.well_formed(),
        view.ended().after.well_formed(),
{
    let removed = view.without_client(id);
    let stay = other_than(id);
    lemma_filter_pairwise(view.clients, stay, connected_earlier());
    lemma_filter_source(view.clients, stay);
    assert forall|i: int| 0 <= i < removed.clients.len() implies was_named(
        (#[trigger] removed.clients[i]).id,
        removed.client_counter,
    ) by {
        assert(view.clients.contains(view.clients.filter(stay)[i]));
        let j = choose|j: int| 0 <= j < view.clients.len() && view.clients[j] == removed.clients[i];
        assert(was_named(view.clients[j].id, view.client_counter));
    }
    lemma_cleanup_keeps_order(removed, id);
}

/// A client's answer to a reverse request leaves the session in order.
pub proof fn lemma_answer_keeps_order(view: MuxView, message: JsonView)
    requires
        view.well_formed(),
    ensures
        view.client_response(message).after.well_formed(),
{
}

/// A client's message leaves the session in order.
pub proof fn lemma_client_message_keeps_order(view: MuxView, id: Seq<char>, message: JsonView)
    requires
        view.well_formed(),
        has_kind(message, "request"@) && view.request_route(message) is Forward
            ==> view.seq_map.next_seq < i64::MAX,
    ensures
        view.from_client(id, message).after.well_formed(),
{
    let after = view.from_client(id, message).after;
    if has_kind(message, "request"@) {
        lemma_noted_keeps_order(view, id, message);
        lemma_leaving_keeps_order(view, id);
        let noted = view.noted(id, message);
        match view.request_route(message) {
            RequestRoute::Replay => {
                lemma_same_ids_stay_in_order(noted.clients, after.clients);
                assert forall|i: int| 0 <= i < after.clients.len() implies was_named(
                    (#[trigger] after.clients[i]).id,
                    after.client_counter,
                ) by {
                    assert(was_named(noted.clients[i].id, noted.client_counter));
                }
            },
            RequestRoute::Forward(seq) => {
                lemma_seq_map_stays_well_formed(view.seq_map, id, seq, 0);
            },
            _ => {},
        }
    } else if has_kind(message, "response"@) {
        lemma_answer_keeps_order(view, message);
    }
}

/// Recording what a client says of itself leaves the session in order.
proof fn lemma_noted_keeps_order(view: MuxView, id: Seq<char>, message: JsonView)
    requires
        view.well_formed(),
    ensures
        view.noted(id, message).well_formed(),
{
    let after = view.noted(id, message);
    lemma_same_ids_stay_in_order(view.clients, after.clients);
    assert forall|i: int| 0 <= i < after.clients.len() implies was_named(
        (#[trigger] after.clients[i]).id,
        after.client_counter,
    ) by {
        assert(was_named(view.clients[i].id, view.client_counter));
    }
    let rel = distinct_owners();
    assert forall|i: int, j: int| 0 <= i < j < after.init_args.len() implies rel(
        #[trigger] after.init_args[i],
        #[trigger] after.init_args[j],
    ) by {
        if j < view.init_args.len() {
            assert(rel(view.init_args[i], view.init_args[j]));
        } else {
            assert(!view.introduced(id));
            assert(view.init_args[i].0 != id);
        }
    }
}

/// A response from the adapter leaves the session in order.
pub proof fn lemma_adapter_response_keeps_order(view: MuxView, message: JsonView)
    requires
        view.well_formed(),
    ensures
        view.adapter_response(message).after.well_formed(),
{
    let after = view.adapter_response(message).after;
    if let Some(seq) = integer_field(message, "request_seq"@) {
        let base = if view.settles(message) {
            view.settled(message).after
        } else {
            view
        };
        lemma_seq_map_stays_well_formed(view.seq_map, Seq::empty(), 0, seq);
        assert(after.clients.len() == view.clients.len());
        assert forall|i: int| 0 <= i < after.clients.len() implies (
        #[trigger] after.clients[i]).id == view.clients[i].id by {
            assert(base.clients[i].id == view.clients[i].id);
        }
        lemma_same_ids_stay_in_order(view.clients, after.clients);
        assert forall|i: int| 0 <= i < after.clients.len() implies was_named(
            (#[trigger] after.clients[i]).id,
            after.client_counter,
        ) by {
            assert(was_named(view.clients[i].id, view.client_counter));
        }
    }
}

/// An adapter's message leaves the session in order.
pub proof fn lemma_adapter_message_keeps_order(view: MuxView, message: JsonView)
    requires
        view.well_formed(),
        is_reverse_request(message) ==> view.next_reverse_seq < i64::MAX,
    ensures
        view.from_adapter(message).after.well_formed(),
{
    let after = view.from_adapter(message).after;
    if has_kind(message, "response"@) {
        lemma_adapter_response_keeps_order(
            view,
            with_stale_note(message, lowercased(error_text(message))),
        );
    } else if is_reverse_request(message) && !has_kind(message, "event"@) {
        assert(after.reverse_requests.dom().finite());
    }
}

/// A session starts in order, and connecting the adapter keeps it so.
pub proof fn lemma_session_starts_in_order(operator_owned: bool, view: MuxView)
    requires
        view.well_formed(),
    ensures
        MuxView::fresh(operator_owned).well_formed(),
        (MuxView { upstream_connected: true, ..view }).well_formed(),
{
}

// ---------------------------------------------------------------------------
// Requests and responses
// ---------------------------------------------------------------------------

/// Whether `after` is `before` with member `key` set to the integer `i` and
/// every other member as it was.
pub open spec fn renumbered(before: JsonView, after: JsonView, key: Seq<char>, i: i64) -> bool {
    &&& integer_field(after, key) == Some(i)
    &&& forall|other: Seq<char>|
        other != key ==> #[trigger] field(after, other) == field(before, other)
}

/// Whether nothing is sent to the adapter.
pub open spec fn spares_adapter(actions: Seq<ActionView>) -> bool {
    forall|i: int| 0 <= i < actions.len() ==> !(#[trigger] actions[i] is ToAdapter)
}

/// A request that is not answered on the spot reaches the adapter under the
/// next number of a single increasing sequence, otherwise unchanged, and is
/// the only thing sent; the client's own number for it is remembered.
pub proof fn lemma_request_is_forwarded(view: MuxView, id: Seq<char>, message: JsonView, seq: i64)
    requires
        has_kind(message, "request"@),
        view.request_route(message) == RequestRoute::Forward(seq),
        view.upstream_connected,
        view.seq_map.next_seq < i64::MAX,
    ensures
        ({
            let Step { after, actions } = view.from_client(id, message);
            &&& actions.len() == 1
            &&& actions[0] matches ActionView::ToAdapter(sent) && renumbered(
                message,
                sent,
                "seq"@,
                view.seq_map.next_seq,
            )
            &&& integer_field(message, "seq"@) == Some(seq)
            &&& after.seq_map.next_seq == view.seq_map.next_seq + 1
            &&& after.seq_map.pending == view.seq_map.pending.insert(
                view.seq_map.next_seq,
                PendingView { client_id: id, client_seq: seq },
            )
        }),
{
}

/// Clarifying an error keeps everything that routing reads.
pub(crate) proof fn lemma_note_keeps_routing(message: JsonView)
    ensures
        ({
            let noted = with_stale_note(message, lowercased(error_text(message)));
            &&& forall|key: Seq<char>|
                key != "message"@ ==> #[trigger] field(noted, key) == field(message, key)
            &&& integer_field(noted, "request_seq"@) == integer_field(message, "request_seq"@)
            &&& flag_field(noted, "success"@) == flag_field(message, "success"@)
            &&& forall|command: Seq<char>| #[trigger] asks(noted, command) == asks(message, command)
            &&& asks(message, "initialize"@) ==> noted == message
        }),
{
    let lowered = lowercased(error_text(message));
    let noted = with_stale_note(message, lowered);
    lemma_note_changes_only_the_error_text(message, lowered);
    lemma_members_differ();
    assert(field(noted, "request_seq"@) == field(message, "request_seq"@));
    assert(field(noted, "success"@) == field(message, "success"@));
    assert(field(noted, "command"@) == field(message, "command"@));
    lemma_commands_differ();
}

/// Whether `sent` is `message` under the number `client_seq`, and otherwise as
/// the adapter sent it, but for a note that may follow its error text.
pub open spec fn answers_as(message: JsonView, sent: JsonView, client_seq: i64) -> bool {
    &&& integer_field(sent, "request_seq"@) == Some(client_seq)
    &&& forall|key: Seq<char>|
        key != "request_seq"@ && key != "message"@ ==> #[trigger] field(sent, key) == field(
            message,
            key,
        )
    &&& error_text(message).is_prefix_of(error_text(sent))
}

/// A response goes to the client that asked and to nobody else, under the
/// client's own number, and its number is settled.
pub proof fn lemma_response_returns_to_sender(view: MuxView, message: JsonView, seq: i64)
    requires
        has_kind(message, "response"@),
        integer_field(message, "request_seq"@) == Some(seq),
        view.seq_map.pending.contains_key(seq),
        view.connected(view.seq_map.pending[seq].client_id),
        !view.settles(message),
    ensures
        ({
            let Step { after, actions } = view.from_adapter(message);
            let sender = view.seq_map.pending[seq];
            &&& actions.len() == 1
            &&& actions[0] matches ActionView::ToClient(id, sent) && id == sender.client_id
                && answers_as(message, sent, sender.client_seq)
            &&& after.seq_map == view.seq_map.resolved(seq)
        }),
{
    let noted = with_stale_note(message, lowercased(error_text(message)));
    lemma_note_keeps_routing(message);
    lemma_note_changes_only_the_error_text(message, lowercased(error_text(message)));
    assert(asks(noted, "initialize"@) == asks(message, "initialize"@));
    lemma_restored_answer(message, noted, view.seq_map.pending[seq].client_seq);
}

/// Renumbering a clarified response leaves it an answer to the request.
proof fn lemma_restored_answer(message: JsonView, noted: JsonView, client_seq: i64)
    requires
        noted == with_stale_note(message, lowercased(error_text(message))),
        message is Object,
    ensures
        answers_as(
            message,
            with_field(noted, "request_seq"@, integer(client_seq as int)),
            client_seq,
        ),
{
    let sent = with_field(noted, "request_seq"@, integer(client_seq as int));
    lemma_note_keeps_routing(message);
    lemma_note_changes_only_the_error_text(message, lowercased(error_text(message)));
    lemma_with_field(noted, "request_seq"@, integer(client_seq as int));
    lemma_members_differ();
    assert(field(sent, "message"@) == field(noted, "message"@));
    assert forall|key: Seq<char>|
        key != "request_seq"@ && key != "message"@ implies #[trigger] field(sent, key) == field(
        message,
        key,
    ) by {
        assert(field(noted, key) == field(message, key));
    }
}

/// The client whose `initialize` was the session's own gets the adapter's
/// answer to it, after the clients that waited behind it have got theirs.
pub proof fn lemma_first_initialize_is_answered_last(view: MuxView, message: JsonView, seq: i64)
    requires
        has_kind(message, "response"@),
        integer_field(message, "request_seq"@) == Some(seq),
        view.seq_map.pending.contains_key(seq),
        view.connected(view.seq_map.pending[seq].client_id),
        view.settles(message),
    ensures
        ({
            let Step { after, actions } = view.from_adapter(message);
            let sender = view.seq_map.pending[seq];
            &&& actions.drop_last() == view.settled(message).actions
            &&& actions.last() matches ActionView::ToClient(id, sent) && id == sender.client_id
                && renumbered(message, sent, "request_seq"@, sender.client_seq)
            &&& flag_field(message, "success"@) ==> forall|i: int|
                0 <= i < after.clients.len() && (#[trigger] after.clients[i]).id
                    == sender.client_id ==> after.clients[i].initialized
        }),
{
    lemma_note_keeps_routing(message);
    let settled = view.settled(message).after;
    let owner = view.seq_map.pending[seq].client_id;
    let i = choose|i: int| 0 <= i < view.clients.len() && (#[trigger] view.clients[i]).id == owner;
    assert(settled.clients[i].id == owner);
    assert(settled.connected(owner));
    let actions = view.from_adapter(message).actions;
    assert(actions.drop_last() =~= view.settled(message).actions);
}

/// A response that nobody waits for, or whose client has left, is dropped.
pub proof fn lemma_stray_response_is_dropped(view: MuxView, message: JsonView)
    requires
        has_kind(message, "response"@),
        !view.settles(message),
        match integer_field(message, "request_seq"@) {
            None => true,
            Some(seq) => !view.seq_map.pending.contains_key(seq) || !view.connected(
                view.seq_map.pending[seq].client_id,
            ),
        },
    ensures
        view.from_adapter(message).actions == Seq::<ActionView>::empty(),
{
    lemma_note_keeps_routing(message);
    let noted = with_stale_note(message, lowercased(error_text(message)));
    assert(asks(noted, "initialize"@) == asks(message, "initialize"@));
}

/// A forwarded request and its response bring the session's numbers back to
/// where they were, and the client gets the response under its own number.
pub proof fn lemma_round_trip(
    view: MuxView,
    id: Seq<char>,
    request: JsonView,
    seq: i64,
    reply: JsonView,
)
    requires
        view.well_formed(),
        view.connected(id),
        has_kind(request, "request"@),
        view.request_route(request) == RequestRoute::Forward(seq),
        view.seq_map.next_seq < i64::MAX,
        has_kind(reply, "response"@),
        integer_field(reply, "request_seq"@) == Some(view.seq_map.next_seq),
        !view.from_client(id, request).after.settles(reply),
    ensures
        ({
            let between = view.from_client(id, request).after;
            let Step { after, actions } = between.from_adapter(reply);
            &&& actions.len() == 1
            &&& actions[0] matches ActionView::ToClient(to, sent) && to == id && answers_as(
                reply,
                sent,
                seq,
            )
            &&& after.seq_map.pending == view.seq_map.pending
        }),
{
    let between = view.from_client(id, request).after;
    lemma_noted_keeps_clients(view, id, request);
    assert(view.noted(id, request).connected(id));
    lemma_resolve_undoes_allocate(view.seq_map, id, seq);
    lemma_response_returns_to_sender(between, reply, view.seq_map.next_seq);
}

/// Recording what a client says of itself moves nobody.
pub(crate) proof fn lemma_noted_keeps_clients(view: MuxView, sender: Seq<char>, message: JsonView)
    ensures
        view.noted(sender, message).clients.len() == view.clients.len(),
        forall|id: Seq<char>|
            #[trigger] view.noted(sender, message).connected(id) == view.connected(id),
{
    let after = view.noted(sender, message);
    assert forall|id: Seq<char>| #[trigger] after.connected(id) == view.connected(id) by {
        if view.connected(id) {
            let i = choose|i: int|
                0 <= i < view.clients.len() && (#[trigger] view.clients[i]).id == id;
            assert(after.clients[i].id == id);
        }
        if after.connected(id) {
            let i = choose|i: int|
                0 <= i < after.clients.len() && (#[trigger] after.clients[i]).id == id;
            assert(view.clients[i].id == id);
        }
    }
}

/// An outstanding request stays outstanding whatever clients send, as long as
/// its own client does not leave.
pub proof fn lemma_request_outlives_client_messages(
    view: MuxView,
    id: Seq<char>,
    message: JsonView,
    seq: i64,
)
    requires
        view.seq_map.well_formed(),
        view.seq_map.pending.contains_key(seq),
        has_kind(message, "request"@) && view.request_route(message) is Forward
            ==> view.seq_map.next_seq < i64::MAX,
        has_kind(message, "request"@) && view.request_route(message) is Leave ==> id
            != view.seq_map.pending[seq].client_id,
    ensures
        ({
            let after = view.from_client(id, message).after;
            &&& after.seq_map.pending.contains_key(seq)
            &&& after.seq_map.pending[seq] == view.seq_map.pending[seq]
        }),
{
}

/// An outstanding request stays outstanding until the adapter answers it.
pub proof fn lemma_request_outlives_adapter_messages(view: MuxView, message: JsonView, seq: i64)
    requires
        view.seq_map.pending.contains_key(seq),
        has_kind(message, "response"@) ==> integer_field(message, "request_seq"@) != Some(seq),
    ensures
        ({
            let after = view.from_adapter(message).after;
            &&& after.seq_map.pending.contains_key(seq)
            &&& after.seq_map.pending[seq] == view.seq_map.pending[seq]
        }),
{
    lemma_note_keeps_routing(message);
}

/// An outstanding request outlives another client's departure.
pub proof fn lemma_request_outlives_departures(view: MuxView, id: Seq<char>, seq: i64)
    requires
        view.seq_map.pending.contains_key(seq),
        view.seq_map.pending[seq].client_id != id,
    ensures
        ({
            let after = view.departure(id).after;
            &&& after.seq_map.pending.contains_key(seq)
            &&& after.seq_map.pending[seq] == view.seq_map.pending[seq]
        }),
{
}

/// Numbers are handed out in one increasing sequence: only a forwarded request
/// takes one, and it takes the next.
pub proof fn lemma_numbers_only_grow(view: MuxView, id: Seq<char>, message: JsonView)
    requires
        has_kind(message, "request"@) && view.request_route(message) is Forward
            ==> view.seq_map.next_seq < i64::MAX,
    ensures
        view.from_client(id, message).after.seq_map.next_seq == view.seq_map.next_seq + (if has_kind(
            message,
            "request"@,
        ) && view.request_route(message) is Forward {
            1int
        } else {
            0int
        }),
        view.from_adapter(message).after.seq_map.next_seq == view.seq_map.next_seq,
        view.departure(id).after.seq_map.next_seq == view.seq_map.next_seq,
{
}

// ---------------------------------------------------------------------------
// What the multiplexer answers itself
// ---------------------------------------------------------------------------

/// A request that the multiplexer answers, holds back or drops never reaches
/// the adapter. Only a `disconnect` makes it say something to the adapter: that
/// the reverse requests its sender owed have failed.
pub proof fn lemma_absorbed_request_spares_adapter(
    view: MuxView,
    id: Seq<char>,
    message: JsonView,
)
    requires
        has_kind(message, "request"@),
        !(view.request_route(message) is Forward),
    ensures
        !(view.request_route(message) is Leave) ==> spares_adapter(
            view.from_client(id, message).actions,
        ),
        view.request_route(message) is Leave ==> view.from_client(id, message).actions
            == view.to_client(id, acknowledgement(message)) + view.closing(id) + view.failing_owed(
            id,
        ),
        view.from_client(id, message).after.seq_map.next_seq == view.seq_map.next_seq,
{
    let actions = view.from_client(id, message).actions;
    if view.request_route(message) is Leave {
        assert(actions =~= view.to_client(id, acknowledgement(message)) + view.closing(id)
            + view.failing_owed(id));
    }
}

/// `initialize` reaches the adapter only while nothing is initialized, and
/// sending it closes the way for others until the adapter has answered.
pub proof fn lemma_initialize_reaches_adapter_once(
    view: MuxView,
    id: Seq<char>,
    message: JsonView,
)
    requires
        has_kind(message, "request"@),
        asks(message, "initialize"@),
        view.request_route(message) is Forward,
    ensures
        view.phase == SessionPhase::PreInit,
        view.from_client(id, message).after.phase == SessionPhase::Initializing,
        forall|later: JsonView|
            asks(later, "initialize"@) ==> #[trigger] view.from_client(
                id,
                message,
            ).after.request_route(later) == RequestRoute::Buffer,
{
}

/// Whether a message from the adapter is the rejection of an `initialize`.
pub open spec fn rejects_initialize(message: JsonView) -> bool {
    &&& has_kind(message, "response"@)
    &&& asks(message, "initialize"@)
    &&& !flag_field(message, "success"@)
}

/// The session falls back to where `initialize` may be sent only when the
/// adapter rejects one.
pub proof fn lemma_only_rejection_reopens_initialize(
    view: MuxView,
    id: Seq<char>,
    message: JsonView,
)
    requires
        view.phase != SessionPhase::PreInit,
    ensures
        view.from_client(id, message).after.phase != SessionPhase::PreInit,
        view.from_adapter(message).after.phase == SessionPhase::PreInit ==> view.phase
            == SessionPhase::Initializing && rejects_initialize(message),
        view.departure(id).after.phase == view.phase,
{
    lemma_note_keeps_routing(message);
}

/// How far a session has come.
pub open spec fn progress(phase: SessionPhase) -> int {
    match phase {
        SessionPhase::PreInit => 0,
        SessionPhase::Initializing => 1,
        SessionPhase::Initialized => 2,
        SessionPhase::Configured => 3,
    }
}

/// A session only moves forward, except that it starts over when the adapter
/// rejects `initialize`; once configured, it stays so.
pub proof fn lemma_session_only_moves_forward(view: MuxView, id: Seq<char>, message: JsonView)
    ensures
        progress(view.from_client(id, message).after.phase) >= progress(view.phase),
        progress(view.from_adapter(message).after.phase) >= progress(view.phase) || (view.phase
            == SessionPhase::Initializing && view.from_adapter(message).after.phase
            == SessionPhase::PreInit),
        view.phase == SessionPhase::Configured ==> {
            &&& view.from_client(id, message).after.phase == SessionPhase::Configured
            &&& view.from_adapter(message).after.phase == SessionPhase::Configured
        },
{
    lemma_commands_differ();
}

/// A request that is dropped sends nothing and does not move the session on: no
/// number is taken, the phase and the current stop stay, and all that is kept of
/// it is what an `initialize` says of its sender.
pub proof fn lemma_dropped_request_changes_nothing(view: MuxView, id: Seq<char>, message: JsonView)
    requires
        has_kind(message, "request"@),
        view.request_route(message) is Drop,
    ensures
        ({
            let Step { after, actions } = view.from_client(id, message);
            &&& actions == Seq::<ActionView>::empty()
            &&& after.phase == view.phase
            &&& after.last_stopped_event == view.last_stopped_event
            &&& after.seq_map == view.seq_map
            &&& !asks(message, "initialize"@) ==> after == view
        }),
{
}

/// A client moves the session on only by a request that is forwarded: the
/// session waits for an answer to `initialize` only where one was asked for, and
/// is configured only where the adapter was told so.
pub proof fn lemma_only_forwarding_moves_on(view: MuxView, id: Seq<char>, message: JsonView)
    requires
        view.from_client(id, message).after.phase != view.phase,
    ensures
        has_kind(message, "request"@),
        view.request_route(message) is Forward,
        view.from_client(id, message).after.phase == SessionPhase::Initializing && asks(
            message,
            "initialize"@,
        ) || view.from_client(id, message).after.phase == SessionPhase::Configured && asks(
            message,
            "configurationDone"@,
        ),
        view.from_client(id, message).actions == view.to_adapter(
            with_field(message, "seq"@, integer(view.seq_map.next_seq as int)),
        ),
{
}

/// A forwarded `configurationDone` configures the session before it reaches the
/// adapter, and from then on `attach`, `launch` and `configurationDone` from
/// anybody are acknowledged without troubling the adapter.
pub proof fn lemma_configuration_reaches_adapter_once(
    view: MuxView,
    id: Seq<char>,
    message: JsonView,
    late: JsonView,
)
    requires
        has_kind(message, "request"@),
        asks(message, "configurationDone"@),
        integer_field(message, "seq"@) is Some || view.phase == SessionPhase::Configured,
        asks(late, "attach"@) || asks(late, "launch"@) || asks(late, "configurationDone"@),
    ensures
        ({
            let after = view.from_client(id, message).after;
            &&& after.phase == SessionPhase::Configured
            &&& after.request_route(late) == RequestRoute::Acknowledge
        }),
{
    lemma_commands_differ();
}

/// A `restart` that the adapter cannot do is turned down and changes nothing.
pub proof fn lemma_restart_is_refused_honestly(view: MuxView, id: Seq<char>, message: JsonView)
    requires
        view.connected(id),
        has_kind(message, "request"@),
        asks(message, "restart"@),
        !view.adapter_supports("supportsRestartRequest"@),
    ensures
        ({
            let Step { after, actions } = view.from_client(id, message);
            &&& after == view
            &&& actions == seq![ActionView::ToClient(id, restart_refusal(message))]
            &&& !flag_field(restart_refusal(message), "success"@)
        }),
{
    lemma_commands_differ();
    lemma_members_differ();
}

/// A `restart` that the adapter can do is forwarded, and the stop of the run
/// that it ends is not replayed to later joiners.
pub proof fn lemma_restart_forgets_the_stop(
    view: MuxView,
    id: Seq<char>,
    message: JsonView,
    seq: i64,
)
    requires
        has_kind(message, "request"@),
        asks(message, "restart"@),
        integer_field(message, "seq"@) == Some(seq),
        view.adapter_supports("supportsRestartRequest"@),
    ensures
        view.request_route(message) == RequestRoute::Forward(seq),
        view.from_client(id, message).after.last_stopped_event is None,
{
    lemma_commands_differ();
}

/// Sending a message, if there is one.
pub open spec fn sending(id: Seq<char>, message: Option<JsonView>) -> Seq<ActionView> {
    match message {
        Some(message) => seq![ActionView::ToClient(id, message)],
        None => Seq::empty(),
    }
}

/// A client that joins a running session is brought up to date: its
/// `initialize` is answered with the adapter's capabilities under its own
/// number, then come the `initialized` event and the current stop, as far as
/// there are any, each as the adapter sent it. Nothing reaches the adapter or
/// another client.
pub proof fn lemma_late_joiner_is_caught_up(view: MuxView, id: Seq<char>, message: JsonView)
    requires
        view.connected(id),
        has_kind(message, "request"@),
        asks(message, "initialize"@),
        view.phase == SessionPhase::Initialized || view.phase == SessionPhase::Configured,
    ensures
        ({
            let Step { after, actions } = view.from_client(id, message);
            let reply = view.cached_reply(message);
            &&& actions == seq![ActionView::ToClient(id, reply)] + sending(
                id,
                view.initialized_event,
            ) + sending(id, view.last_stopped_event)
            &&& field(reply, "body"@) == view.capabilities
            &&& field(reply, "request_seq"@) == Some(own_seq(message))
            &&& flag_field(reply, "success"@)
            &&& forall|i: int|
                0 <= i < after.clients.len() && (#[trigger] after.clients[i]).id == id
                    ==> after.clients[i].initialized
        }),
{
    lemma_members_differ();
    let actions = view.from_client(id, message).actions;
    assert(actions =~= seq![ActionView::ToClient(id, view.cached_reply(message))] + sending(
        id,
        view.initialized_event,
    ) + sending(id, view.last_stopped_event));
}

/// Where the debuggee stands is remembered as the adapter last said it: a stop
/// is replayed to late joiners until the debuggee runs on or ends.
pub proof fn lemma_current_stop_is_kept(view: MuxView, message: JsonView)
    requires
        has_kind(message, "event"@),
    ensures
        ({
            let name = text_field(message, "event"@);
            let stop = view.from_adapter(message).after.last_stopped_event;
            &&& name == Some("stopped"@) ==> stop == Some(message)
            &&& name == Some("continued"@) || name == Some("terminated"@) ==> stop is None
            &&& name != Some("stopped"@) && name != Some("continued"@) && name != Some(
                "terminated"@,
            ) ==> stop == view.last_stopped_event
        }),
{
    lemma_kinds_differ();
    lemma_events_differ();
}

/// When the adapter accepts `initialize`, each client whose own was held back
/// gets its answer, and none is held back any longer.
pub proof fn lemma_waiting_clients_are_served(view: MuxView, message: JsonView, i: int)
    requires
        has_kind(message, "response"@),
        integer_field(message, "request_seq"@) is Some,
        view.settles(message),
        flag_field(message, "success"@),
        0 <= i < view.pending_initialize.len(),
        view.connected(view.pending_initialize[i].0),
    ensures
        ({
            let Step { after, actions } = view.from_adapter(message);
            let (id, request) = view.pending_initialize[i];
            &&& after.pending_initialize == Seq::<(Seq<char>, JsonView)>::empty()
            &&& after.capabilities == field(message, "body"@)
            &&& after.phase == SessionPhase::Initialized
            &&& actions.contains(ActionView::ToClient(id, after.cached_reply(request)))
            &&& forall|k: int|
                0 <= k < after.clients.len() && (#[trigger] after.clients[k]).id == id
                    ==> after.clients[k].initialized
        }),
{
    lemma_note_keeps_routing(message);
    let waiting = view.pending_initialize;
    let ready = MuxView {
        phase: SessionPhase::Initialized,
        capabilities: field(message, "body"@),
        pending_initialize: Seq::empty(),
        ..view
    };
    lemma_replays_reach_each(ready, waiting, i);
    assert(waits(waiting, waiting[i].0));
    let settled = view.settled(message);
    let target = ActionView::ToClient(waiting[i].0, ready.cached_reply(waiting[i].1));
    let k = choose|k: int| 0 <= k < settled.actions.len() && settled.actions[k] == target;
    assert(view.from_adapter(message).actions[k] == target);
    let after = view.from_adapter(message).after;
    assert forall|k: int|
        0 <= k < after.clients.len() && (#[trigger] after.clients[k]).id
            == waiting[i].0 implies after.clients[k].initialized by {
        assert(settled.after.clients[k].id == waiting[i].0);
        assert(settled.after.clients[k].initialized);
    }
}

/// Each waiting client that is connected is among those replayed to.
proof fn lemma_replays_reach_each(view: MuxView, waiting: Seq<(Seq<char>, JsonView)>, i: int)
    requires
        0 <= i < waiting.len(),
        view.connected(waiting[i].0),
    ensures
        view.replays(waiting).contains(
            ActionView::ToClient(waiting[i].0, view.cached_reply(waiting[i].1)),
        ),
    decreases waiting.len(),
{
    let target = ActionView::ToClient(waiting[i].0, view.cached_reply(waiting[i].1));
    let rest = waiting.drop_last();
    let head = view.replays(rest);
    let tail = view.replay(waiting.last().0, waiting.last().1);
    if i < rest.len() {
        lemma_replays_reach_each(view, rest, i);
        let k = choose|k: int| 0 <= k < head.len() && head[k] == target;
        assert((head + tail)[k] == target);
    } else {
        assert(tail[0] == target);
        assert((head + tail)[head.len() as int] == target);
    }
}

/// When the adapter rejects `initialize`, each client whose own was held back
/// is told so, none is held back any longer, and a later client may try again.
pub proof fn lemma_waiting_clients_are_refused(view: MuxView, message: JsonView, i: int)
    requires
        has_kind(message, "response"@),
        integer_field(message, "request_seq"@) is Some,
        view.settles(message),
        !flag_field(message, "success"@),
        0 <= i < view.pending_initialize.len(),
        view.connected(view.pending_initialize[i].0),
    ensures
        ({
            let Step { after, actions } = view.from_adapter(message);
            let (id, request) = view.pending_initialize[i];
            &&& after.pending_initialize == Seq::<(Seq<char>, JsonView)>::empty()
            &&& after.phase == SessionPhase::PreInit
            &&& actions.contains(
                ActionView::ToClient(id, initialize_refusal(request, rejection_reason(message))),
            )
        }),
{
    lemma_note_keeps_routing(message);
    let idle = MuxView { pending_initialize: Seq::empty(), ..view };
    let reason = rejection_reason(message);
    lemma_refusals_reach_each(idle, view.pending_initialize, reason, i);
    let settled = view.settled(message);
    let (id, request) = view.pending_initialize[i];
    let target = ActionView::ToClient(id, initialize_refusal(request, reason));
    let k = choose|k: int| 0 <= k < settled.actions.len() && settled.actions[k] == target;
    assert(view.from_adapter(message).actions[k] == target);
}

/// Each waiting client that is connected is among those turned down.
proof fn lemma_refusals_reach_each(
    view: MuxView,
    waiting: Seq<(Seq<char>, JsonView)>,
    reason: Seq<char>,
    i: int,
)
    requires
        0 <= i < waiting.len(),
        view.connected(waiting[i].0),
    ensures
        view.refusals(waiting, reason).contains(
            ActionView::ToClient(waiting[i].0, initialize_refusal(waiting[i].1, reason)),
        ),
    decreases waiting.len(),
{
    let target = ActionView::ToClient(waiting[i].0, initialize_refusal(waiting[i].1, reason));
    let rest = waiting.drop_last();
    let head = view.refusals(rest, reason);
    let tail = view.to_client(
        waiting.last().0,
        initialize_refusal(waiting.last().1, reason),
    );
    if i < rest.len() {
        lemma_refusals_reach_each(view, rest, reason, i);
        let k = choose|k: int| 0 <= k < head.len() && head[k] == target;
        assert((head + tail)[k] == target);
    } else {
        assert(tail[0] == target);
        assert((head + tail)[head.len() as int] == target);
    }
}

// ---------------------------------------------------------------------------
// Events
// ---------------------------------------------------------------------------

/// An event that is not filtered goes to every client once, in the order they
/// connected, exactly as the adapter sent it, and nowhere else; an event that
/// is filtered goes nowhere and changes nothing.
pub proof fn lemma_event_reaches_every_client(view: MuxView, message: JsonView)
    requires
        has_kind(message, "event"@),
    ensures
        ({
            let Step { after, actions } = view.from_adapter(message);
            if is_filtered_event(message) {
                actions == Seq::<ActionView>::empty() && after == view
            } else {
                &&& actions.len() == view.clients.len()
                &&& forall|i: int|
                    0 <= i < actions.len() ==> #[trigger] actions[i] == ActionView::ToClient(
                        view.clients[i].id,
                        message,
                    )
                &&& after.clients == view.clients
            }
        }),
{
    lemma_kinds_differ();
}

/// The end of the debuggee is not the end of the session: whatever the adapter
/// says, it stays connected, and so does every client.
pub proof fn lemma_session_survives_adapter_messages(view: MuxView, message: JsonView)
    ensures
        ({
            let after = view.from_adapter(message).after;
            &&& after.upstream_connected == view.upstream_connected
            &&& after.clients.len() == view.clients.len()
            &&& forall|i: int|
                0 <= i < view.clients.len() ==> (#[trigger] after.clients[i]).id
                    == view.clients[i].id
        }),
{
    if has_kind(message, "response"@) {
        let noted = with_stale_note(message, lowercased(error_text(message)));
        let after = view.from_adapter(message).after;
        if let Some(seq) = integer_field(noted, "request_seq"@) {
            let base = if view.settles(noted) {
                view.settled(noted).after
            } else {
                view
            };
            assert forall|i: int| 0 <= i < view.clients.len() implies (
            #[trigger] after.clients[i]).id == view.clients[i].id by {
                assert(base.clients[i].id == view.clients[i].id);
            }
        }
    }
}

// ---------------------------------------------------------------------------
// Leaving
// ---------------------------------------------------------------------------

/// Nothing is left of a client that has gone, by its own request or because
/// its connection dropped: it is not connected, and it has nothing under way.
pub proof fn lemma_departure_leaves_nothing_behind(view: MuxView, id: Seq<char>)
    ensures
        ({
            let after = view.departure(id).after;
            &&& !after.connected(id)
            &&& after.idle(id)
        }),
{
    let after = view.departure(id).after;
    lemma_filter_source(view.clients, other_than(id));
    lemma_filter_source(view.init_args, from_others(id));
    lemma_filter_source(view.pending_initialize, from_others(id));
    if after.connected(id) {
        let i = choose|i: int|
            0 <= i < after.clients.len() && (#[trigger] after.clients[i]).id == id;
        assert(other_than(id)(view.clients.filter(other_than(id))[i]));
    }
    if after.introduced(id) {
        let i = choose|i: int|
            0 <= i < after.init_args.len() && (#[trigger] after.init_args[i]).0 == id;
        assert(from_others(id)(view.init_args.filter(from_others(id))[i]));
    }
    if waits(after.pending_initialize, id) {
        let i = choose|i: int|
            0 <= i < after.pending_initialize.len() && (
            #[trigger] after.pending_initialize[i]).0 == id;
        assert(from_others(id)(view.pending_initialize.filter(from_others(id))[i]));
    }
    assert(after.seq_map.owned(id) =~= Set::<i64>::empty());
    assert(after.owed_by(id) =~= Set::<i64>::empty());
}

/// Another client's departure leaves a client where it was: connected as it
/// was, with what it has under way, and it is sent nothing.
pub proof fn lemma_departure_spares_others(view: MuxView, id: Seq<char>, other: Seq<char>)
    requires
        other != id,
    ensures
        ({
            let Step { after, actions } = view.departure(id);
            &&& after.connected(other) == view.connected(other)
            &&& forall|i: int|
                0 <= i < view.clients.len() && (#[trigger] view.clients[i]).id != id
                    ==> after.clients.contains(view.clients[i])
            &&& after.seq_map.owned(other) == view.seq_map.owned(other)
            &&& after.owed_by(other) == view.owed_by(other)
            &&& forall|seq: i64| #[trigger]
                view.owed_by(other).contains(seq) ==> after.reverse_request(seq)
                    == view.reverse_request(seq)
            &&& after.phase == view.phase
            &&& after.upstream_connected == view.upstream_connected
            &&& forall|i: int| 0 <= i < actions.len() ==> !(#[trigger] actions[i] is ToClient)
        }),
{
    let after = view.departure(id).after;
    lemma_filter_source(view.clients, other_than(id));
    assert forall|i: int| 0 <= i < view.clients.len() && (#[trigger] view.clients[i]).id
        != id implies after.clients.contains(view.clients[i]) by {
        assert(other_than(id)(view.clients[i]));
    }
    if view.connected(other) {
        let i = choose|i: int|
            0 <= i < view.clients.len() && (#[trigger] view.clients[i]).id == other;
        assert(after.clients.contains(view.clients[i]));
        let j = choose|j: int| 0 <= j < after.clients.len() && after.clients[j] == view.clients[i];
        assert(after.clients[j].id == other);
    }
    if after.connected(other) {
        let i = choose|i: int|
            0 <= i < after.clients.len() && (#[trigger] after.clients[i]).id == other;
        assert(view.clients.contains(view.clients.filter(other_than(id))[i]));
        let j = choose|j: int| 0 <= j < view.clients.len() && view.clients[j] == after.clients[i];
        assert(view.clients[j].id == other);
    }
    assert(after.owed_by(other) =~= view.owed_by(other));
    assert(after.seq_map.owned(other) =~= view.seq_map.owned(other));
}

/// The reverse requests that a departing client owed do not strand the adapter:
/// each fails exactly once, under the adapter's own number, in the order they
/// were handed out; beyond that, a departure closes the client's connection and
/// does nothing else.
pub proof fn lemma_departure_fails_each_owed_once(view: MuxView, id: Seq<char>)
    requires
        view.well_formed(),
    ensures
        ({
            let actions = view.departure(id).actions;
            let mine = in_order(view.owed_by(id));
            let closing = view.closing(id).len() as int;
            &&& closing == (if view.connected(id) {
                1int
            } else {
                0int
            })
            &&& actions.take(closing) == view.closing(id)
            &&& actions.len() == closing + (if view.upstream_connected {
                view.owed_by(id).len() as int
            } else {
                0int
            })
            &&& view.upstream_connected ==> forall|k: int|
                0 <= k < mine.len() ==> #[trigger] actions[closing + k] == ActionView::ToAdapter(
                    reverse_failure(
                        view.reverse_requests[mine[k]],
                        "dap-mux: client handling reverse request disconnected before responding"@,
                    ),
                )
            &&& mine.len() == view.owed_by(id).len()
            &&& lists(mine, view.owed_by(id))
        }),
{
    let actions = view.departure(id).actions;
    vstd::set_lib::lemma_len_subset(view.owed_by(id), view.reverse_requests.dom());
    lemma_in_order_lists(view.owed_by(id));
    assert(actions.take(view.closing(id).len() as int) =~= view.closing(id));
}

/// A filter that lets everything through changes nothing.
pub(crate) proof fn lemma_filter_all<A>(items: Seq<A>, keep: spec_fn(A) -> bool)
    requires
        forall|i: int| 0 <= i < items.len() ==> keep(#[trigger] items[i]),
    ensures
        items.filter(keep) == items,
    decreases items.len(),
{
    reveal(Seq::filter);
    if items.len() > 0 {
        let rest = items.drop_last();
        assert forall|i: int| 0 <= i < rest.len() implies keep(#[trigger] rest[i]) by {
            assert(rest[i] == items[i]);
        }
        lemma_filter_all(rest, keep);
        assert(keep(items[items.len() - 1]));
        assert(items.filter(keep) =~= items);
    } else {
        assert(items.filter(keep) =~= items);
    }
}

/// A filter that lets nothing through leaves nothing.
pub(crate) proof fn lemma_filter_none<A>(items: Seq<A>, keep: spec_fn(A) -> bool)
    requires
        forall|i: int| 0 <= i < items.len() ==> !keep(#[trigger] items[i]),
    ensures
        items.filter(keep) == Seq::<A>::empty(),
{
    lemma_filter_source(items, keep);
    if items.filter(keep).len() > 0 {
        assert(items.contains(items.filter(keep)[0]));
    }
    assert(items.filter(keep) =~= Seq::<A>::empty());
}

/// The departure of a client that is not connected and has nothing under way
/// changes and sends nothing.
pub proof fn lemma_departure_of_nobody_is_silent(view: MuxView, id: Seq<char>)
    requires
        !view.connected(id),
        view.idle(id),
    ensures
        view.departure(id) == (Step { after: view, actions: Seq::empty() }),
{
    assert forall|i: int| 0 <= i < view.clients.len() implies other_than(id)(
        #[trigger] view.clients[i],
    ) by {}
    lemma_filter_all(view.clients, other_than(id));
    assert forall|i: int| 0 <= i < view.init_args.len() implies from_others(id)(
        #[trigger] view.init_args[i],
    ) by {}
    lemma_filter_all(view.init_args, from_others(id));
    assert forall|i: int| 0 <= i < view.pending_initialize.len() implies from_others(id)(
        #[trigger] view.pending_initialize[i],
    ) by {}
    lemma_filter_all(view.pending_initialize, from_others(id));
    assert(view.cleaned(id).reverse_requests =~= view.reverse_requests);
    assert(lists(Seq::<i64>::empty(), view.owed_by(id)));
    lemma_in_order(Seq::<i64>::empty(), view.owed_by(id));
    assert(view.seq_map.without_client(id).pending =~= view.seq_map.pending);
    assert(view.departure(id).after =~= view);
    assert(view.departure(id).actions =~= Seq::<ActionView>::empty());
}

/// Cleaning up after a client leaves it nothing under way and everybody else as
/// they were; a second time, it finds nothing, changes nothing and sends nothing.
pub proof fn lemma_cleanup_is_complete(view: MuxView, id: Seq<char>, other: Seq<char>)
    requires
        other != id,
    ensures
        ({
            let after = view.cleaned(id);
            &&& after.idle(id)
            &&& after.seq_map.owned(id).len() == 0
            &&& after.clients == view.clients
            &&& after.seq_map.owned(other) == view.seq_map.owned(other)
            &&& after.introduced(other) == view.introduced(other)
            &&& waits(after.pending_initialize, other) == waits(view.pending_initialize, other)
            &&& after.owed_by(other) == view.owed_by(other)
            &&& after.cleaned(id) == after
            &&& after.failing_owed(id) == Seq::<ActionView>::empty()
        }),
{
    let bare = MuxView { clients: Seq::empty(), ..view };
    let gone = bare.departure(id).after;
    let after = view.cleaned(id);
    lemma_filter_none(bare.clients, other_than(id));
    lemma_departure_leaves_nothing_behind(bare, id);
    lemma_departure_of_nobody_is_silent(gone, id);
    assert(gone == (MuxView { clients: Seq::empty(), ..after }));
    assert(after.idle(id)) by {
        assert(after.introduced(id) == gone.introduced(id));
        assert(after.owed_by(id) == gone.owed_by(id));
    }
    assert(after.cleaned(id) == (MuxView { clients: view.clients, ..gone.cleaned(id) }));
    assert(after.failing_owed(id) =~= Seq::<ActionView>::empty());
    lemma_cleanup_is_exact(view.seq_map, id, other);
    lemma_filter_source(view.init_args, from_others(id));
    lemma_filter_source(view.pending_initialize, from_others(id));
    if view.introduced(other) {
        let i = choose|i: int|
            0 <= i < view.init_args.len() && (#[trigger] view.init_args[i]).0 == other;
        assert(from_others(id)(view.init_args[i]));
        let j = choose|j: int|
            0 <= j < after.init_args.len() && after.init_args[j] == view.init_args[i];
        assert(after.init_args[j].0 == other);
    }
    if after.introduced(other) {
        let i = choose|i: int|
            0 <= i < after.init_args.len() && (#[trigger] after.init_args[i]).0 == other;
        assert(view.init_args.contains(view.init_args.filter(from_others(id))[i]));
    }
    let (before, now) = (view.pending_initialize, after.pending_initialize);
    if waits(before, other) {
        let i = choose|i: int| 0 <= i < before.len() && (#[trigger] before[i]).0 == other;
        assert(from_others(id)(before[i]));
        let j = choose|j: int| 0 <= j < now.len() && now[j] == before[i];
        assert(now[j].0 == other);
    }
    if waits(now, other) {
        let i = choose|i: int| 0 <= i < now.len() && (#[trigger] now[i]).0 == other;
        assert(before.contains(before.filter(from_others(id))[i]));
    }
    assert(after.owed_by(other) =~= view.owed_by(other));
}

/// A second departure of the same client changes and sends nothing.
pub proof fn lemma_second_departure_is_silent(view: MuxView, id: Seq<char>)
    ensures
        view.departure(id).after.departure(id) == (Step {
            after: view.departure(id).after,
            actions: Seq::empty(),
        }),
{
    lemma_departure_leaves_nothing_behind(view, id);
    lemma_departure_of_nobody_is_silent(view.departure(id).after, id);
}

/// A `disconnect` is acknowledged before the connection is closed, and removes
/// its sender as a dropped connection would.
pub proof fn lemma_disconnect_is_a_departure(view: MuxView, id: Seq<char>, message: JsonView)
    requires
        view.connected(id),
        has_kind(message, "request"@),
        asks(message, "disconnect"@),
    ensures
        ({
            let Step { after, actions } = view.from_client(id, message);
            &&& after == view.departure(id).after
            &&& actions.len() >= 2
            &&& actions[0] == ActionView::ToClient(id, acknowledgement(message))
            &&& actions[1] == ActionView::CloseClient(id)
        }),
{
    lemma_commands_differ();
}

/// A `terminate` that is not honoured only detaches its sender: the sender is
/// told that it succeeded and that its session is over; the adapter and the
/// other clients hear nothing, and nobody is removed.
pub proof fn lemma_terminate_detaches_only_its_sender(
    view: MuxView,
    id: Seq<char>,
    message: JsonView,
)
    requires
        view.connected(id),
        has_kind(message, "request"@),
        asks(message, "terminate"@),
        view.clients.len() != 1 || view.operator_owned || !view.adapter_supports(
            "supportsTerminateRequest"@,
        ),
    ensures
        view.from_client(id, message).actions == seq![
            ActionView::ToClient(id, acknowledgement(message)),
            ActionView::ToClient(id, event("terminated"@)),
        ],
        view.from_client(id, message).after == view,
{
    lemma_commands_differ();
    assert(view.from_client(id, message).actions =~= seq![
        ActionView::ToClient(id, acknowledgement(message)),
        ActionView::ToClient(id, event("terminated"@)),
    ]);
}

/// A `terminate` from the only client, where no operator owns the debuggee and
/// the adapter can do it, is forwarded.
pub proof fn lemma_terminate_is_honoured(view: MuxView, message: JsonView, seq: i64)
    requires
        asks(message, "terminate"@),
        integer_field(message, "seq"@) == Some(seq),
        view.clients.len() == 1,
        !view.operator_owned,
        view.adapter_supports("supportsTerminateRequest"@),
    ensures
        view.request_route(message) == RequestRoute::Forward(seq),
{
    lemma_commands_differ();
}

// ---------------------------------------------------------------------------
// Reverse requests
// ---------------------------------------------------------------------------

/// A recognized reverse request is neither a response nor an event.
pub(crate) proof fn lemma_reverse_request_kind(message: JsonView)
    requires
        is_reverse_request(message),
    ensures
        !has_kind(message, "response"@),
        !has_kind(message, "event"@),
        message is Object,
{
    lemma_kinds_differ();
}

/// The number that the adapter gave a request.
pub open spec fn adapter_seq(message: JsonView) -> i64 {
    match integer_field(message, "seq"@) {
        Some(seq) => seq,
        None => 0,
    }
}

/// While the adapter is connected, a reverse request is never left unanswered:
/// either one connected client gets it, under a number that is remembered, or
/// the adapter is told at once, under its own number, that it failed.
pub proof fn lemma_reverse_request_is_never_stranded(view: MuxView, message: JsonView)
    requires
        view.well_formed(),
        view.upstream_connected,
        is_reverse_request(message),
        view.next_reverse_seq < i64::MAX,
    ensures
        ({
            let Step { after, actions } = view.from_adapter(message);
            &&& actions.len() == 1
            &&& actions[0] matches ActionView::ToClient(id, sent) ==> {
                &&& view.connected(id)
                &&& renumbered(message, sent, "seq"@, view.next_reverse_seq)
                &&& after.reverse_request(view.next_reverse_seq) == Some(
                    ReverseView {
                        adapter_seq: adapter_seq(message),
                        client_id: id,
                        command: command_or_unknown(message),
                    },
                )
            }
            &&& !(actions[0] is ToClient) ==> (actions[0] matches ActionView::ToAdapter(sent)
                && integer_field(sent, "request_seq"@) == Some(adapter_seq(message))
                && !flag_field(sent, "success"@) && after == view)
        }),
{
    lemma_reverse_request_kind(message);
    lemma_members_differ();
}

/// A client's answer to a reverse request goes up to the adapter under the
/// adapter's own number, otherwise unchanged, and is awaited no longer: a
/// second answer is ignored.
pub proof fn lemma_reverse_round_trip(
    view: MuxView,
    request: JsonView,
    target: Seq<char>,
    id: Seq<char>,
    answer: JsonView,
)
    requires
        view.well_formed(),
        view.upstream_connected,
        view.next_reverse_seq < i64::MAX,
        is_reverse_request(request),
        reverse_target(view.init_args, request) == Some(target),
        view.connected(target),
        has_kind(answer, "response"@),
        integer_field(answer, "request_seq"@) == Some(view.next_reverse_seq),
    ensures
        ({
            let between = view.from_adapter(request).after;
            let Step { after, actions } = between.from_client(id, answer);
            &&& actions.len() == 1
            &&& actions[0] matches ActionView::ToAdapter(sent) && renumbered(
                answer,
                sent,
                "request_seq"@,
                adapter_seq(request),
            )
            &&& after.reverse_requests == view.reverse_requests
            &&& after.from_client(id, answer) == (Step { after, actions: Seq::empty() })
        }),
{
    lemma_reverse_request_kind(request);
    lemma_kinds_differ();
    let between = view.from_adapter(request).after;
    let after = between.from_client(id, answer).after;
    assert(!view.reverse_requests.contains_key(view.next_reverse_seq));
    assert(after.reverse_requests =~= view.reverse_requests);
}

// ---------------------------------------------------------------------------
// The adapter is lost
// ---------------------------------------------------------------------------

/// When the adapter connection is lost, every client is told that it was lost
/// and then that its session is over, and the session shuts down.
pub proof fn lemma_adapter_loss_reaches_every_client(view: MuxView, i: int)
    requires
        0 <= i < view.clients.len(),
    ensures
        ({
            let Step { after, actions } = view.adapter_loss();
            let id = view.clients[i].id;
            &&& actions.len() == 2 * view.clients.len() + 2
            &&& actions[2 * i] == ActionView::ToClient(id, loss_notice())
            &&& actions[2 * i + 1] == ActionView::ToClient(id, event("terminated"@))
            &&& actions.last() == ActionView::SignalShutdown
            &&& !after.upstream_connected
        }),
{
    lemma_farewells_reach_each(view.clients, i);
}

proof fn lemma_farewells_reach_each(clients: Seq<ClientView>, i: int)
    ensures
        farewells(clients).len() == 2 * clients.len(),
        0 <= i < clients.len() ==> {
            &&& farewells(clients)[2 * i] == ActionView::ToClient(clients[i].id, loss_notice())
            &&& farewells(clients)[2 * i + 1] == ActionView::ToClient(
                clients[i].id,
                event("terminated"@),
            )
        },
    decreases clients.len(),
{
    if clients.len() > 0 {
        lemma_farewells_reach_each(clients.drop_last(), i);
    }
}

/// Only the loss of the adapter shuts the session down: no message and no
/// departure does.
pub proof fn lemma_only_adapter_loss_shuts_down(view: MuxView, id: Seq<char>, message: JsonView)
    ensures
        !view.from_client(id, message).actions.contains(ActionView::SignalShutdown),
        !view.from_adapter(message).actions.contains(ActionView::SignalShutdown),
        !view.departure(id).actions.contains(ActionView::SignalShutdown),
        !view.ended().actions.contains(ActionView::SignalShutdown),
{
    lemma_messages_go_to_connected_clients(view, id, message);
}

/// Whether each action is a message to the adapter, or concerns a client that
/// is connected.
pub open spec fn concerns_connected(view: MuxView, actions: Seq<ActionView>) -> bool {
    forall|i: int|
        0 <= i < actions.len() ==> match #[trigger] actions[i] {
            ActionView::ToClient(id, _) => view.connected(id),
            ActionView::ToAdapter(_) => view.upstream_connected,
            ActionView::CloseClient(id) => view.connected(id),
            ActionView::CloseAdapter => false,
            ActionView::SignalShutdown => false,
        }
}

/// A message, from whichever side, only ever leads to messages to clients that
/// are connected, to closing their connections, and to messages to an adapter
/// that is connected.
pub proof fn lemma_messages_go_to_connected_clients(
    view: MuxView,
    id: Seq<char>,
    message: JsonView,
)
    ensures
        concerns_connected(view, view.from_client(id, message).actions),
        concerns_connected(view, view.from_adapter(message).actions),
        concerns_connected(view, view.departure(id).actions),
{
    let noted = with_stale_note(message, lowercased(error_text(message)));
    if has_kind(message, "response"@) && view.settles(noted) {
        let waiting = view.pending_initialize;
        let idle = MuxView { pending_initialize: Seq::empty(), ..view };
        let ready = MuxView {
            phase: SessionPhase::Initialized,
            capabilities: field(noted, "body"@),
            ..idle
        };
        lemma_replays_go_to_connected(ready, waiting);
        lemma_refusals_go_to_connected(idle, waiting, rejection_reason(noted));
        let settled = view.settled(noted).after;
        assert(settled.clients.len() == view.clients.len());
        if let Some(seq) = integer_field(noted, "request_seq"@) {
            let owner = settled.seq_map.pending[seq].client_id;
            if settled.connected(owner) {
                let i = choose|i: int|
                    0 <= i < settled.clients.len() && (#[trigger] settled.clients[i]).id == owner;
                assert(view.clients[i].id == owner);
            }
        }
    }
    assert forall|i: int| 0 <= i < view.clients.len() implies view.connected(
        (#[trigger] view.clients[i]).id,
    ) by {}
}

pub(crate) proof fn lemma_replays_go_to_connected(
    view: MuxView,
    waiting: Seq<(Seq<char>, JsonView)>,
)
    ensures
        concerns_connected(view, view.replays(waiting)),
        spares_adapter(view.replays(waiting)),
    decreases waiting.len(),
{
    if waiting.len() > 0 {
        lemma_replays_go_to_connected(view, waiting.drop_last());
    }
}

pub(crate) proof fn lemma_refusals_go_to_connected(
    view: MuxView,
    waiting: Seq<(Seq<char>, JsonView)>,
    reason: Seq<char>,
)
    ensures
        concerns_connected(view, view.refusals(waiting, reason)),
        spares_adapter(view.refusals(waiting, reason)),
    decreases waiting.len(),
{
    if waiting.len() > 0 {
        lemma_refusals_go_to_connected(view, waiting.drop_last(), reason);
    }
}

} // verus!
