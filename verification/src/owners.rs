//! Whose things are under way.
//!
//! A session keeps outstanding requests, `initialize` arguments, waiting
//! `initialize` requests and reverse requests to be answered. The laws here say
//! that each of them belongs to a client of the session.

use vstd::prelude::*;

use crate::compat::{is_reverse_request, lemma_reverse_target_is_a_client, reverse_target};
use crate::json::JsonView;
use crate::laws::{
    lemma_filter_source, lemma_new_client_is_fresh, lemma_note_keeps_routing,
    lemma_session_survives_adapter_messages,
};
use crate::model::{client_name, from_others, other_than, waits, was_named, Input, MuxView};
use crate::mux::RequestRoute;
use crate::protocol::has_kind;

verus! {

/// What belongs to some clients belongs to those and others.
proof fn lemma_owners_widen(
    view: MuxView,
    known: spec_fn(Seq<char>) -> bool,
    wider: spec_fn(Seq<char>) -> bool,
)
    requires
        view.owned_within(known),
        forall|id: Seq<char>| #[trigger] known(id) ==> wider(id),
    ensures
        view.owned_within(wider),
{
    assert forall|seq: i64| #[trigger] view.seq_map.pending.contains_key(seq) implies wider(
        view.seq_map.pending[seq].client_id,
    ) by {
        assert(known(view.seq_map.pending[seq].client_id));
    }
    assert forall|i: int| 0 <= i < view.init_args.len() implies wider(
        (#[trigger] view.init_args[i]).0,
    ) by {
        assert(known(view.init_args[i].0));
    }
    assert forall|i: int| 0 <= i < view.pending_initialize.len() implies wider(
        (#[trigger] view.pending_initialize[i]).0,
    ) by {
        assert(known(view.pending_initialize[i].0));
    }
    assert forall|seq: i64| #[trigger] view.reverse_requests.contains_key(seq) implies wider(
        view.reverse_requests[seq].client_id,
    ) by {
        assert(known(view.reverse_requests[seq].client_id));
    }
}

/// Nothing that a departed client had under way is left, and what is left
/// belongs to whom it belonged before.
pub proof fn lemma_departure_keeps_owners(
    view: MuxView,
    id: Seq<char>,
    known: spec_fn(Seq<char>) -> bool,
    others: spec_fn(Seq<char>) -> bool,
)
    requires
        view.owned_within(known),
        forall|other: Seq<char>| #[trigger] known(other) && other != id ==> others(other),
    ensures
        view.departure(id).after.owned_within(others),
{
    let after = view.departure(id).after;
    lemma_filter_source(view.init_args, from_others(id));
    lemma_filter_source(view.pending_initialize, from_others(id));
    assert forall|seq: i64| #[trigger] after.seq_map.pending.contains_key(seq) implies others(
        after.seq_map.pending[seq].client_id,
    ) by {
        assert(view.seq_map.pending.contains_key(seq));
        assert(!view.seq_map.owned(id).contains(seq));
        assert(known(view.seq_map.pending[seq].client_id));
    }
    assert forall|i: int| 0 <= i < after.init_args.len() implies others(
        (#[trigger] after.init_args[i]).0,
    ) by {
        let kept = view.init_args.filter(from_others(id));
        assert(from_others(id)(kept[i]) && view.init_args.contains(kept[i]));
        let j = choose|j: int| 0 <= j < view.init_args.len() && view.init_args[j] == kept[i];
        assert(known(view.init_args[j].0));
    }
    assert forall|i: int| 0 <= i < after.pending_initialize.len() implies others(
        (#[trigger] after.pending_initialize[i]).0,
    ) by {
        let kept = view.pending_initialize.filter(from_others(id));
        assert(from_others(id)(kept[i]) && view.pending_initialize.contains(kept[i]));
        let j = choose|j: int|
            0 <= j < view.pending_initialize.len() && view.pending_initialize[j] == kept[i];
        assert(known(view.pending_initialize[j].0));
    }
    assert forall|seq: i64| #[trigger] after.reverse_requests.contains_key(seq) implies others(
        after.reverse_requests[seq].client_id,
    ) by {
        assert(view.reverse_requests.contains_key(seq));
        assert(!view.owed_by(id).contains(seq));
        assert(known(view.reverse_requests[seq].client_id));
    }
}

/// What a client's message sets under way belongs to that client.
pub proof fn lemma_client_message_keeps_owners(
    view: MuxView,
    id: Seq<char>,
    message: JsonView,
    known: spec_fn(Seq<char>) -> bool,
)
    requires
        view.owned_within(known),
        known(id),
    ensures
        view.from_client(id, message).after.owned_within(known),
{
    let after = view.from_client(id, message).after;
    if has_kind(message, "request"@) {
        let noted = view.noted(id, message);
        assert(noted.owned_within(known)) by {
            assert forall|i: int| 0 <= i < noted.init_args.len() implies known(
                (#[trigger] noted.init_args[i]).0,
            ) by {
                if i < view.init_args.len() {
                    assert(known(view.init_args[i].0));
                }
            }
        }
        match view.request_route(message) {
            RequestRoute::Leave => {
                lemma_departure_keeps_owners(view, id, known, known);
            },
            RequestRoute::Buffer => {
                assert forall|i: int| 0 <= i < after.pending_initialize.len() implies known(
                    (#[trigger] after.pending_initialize[i]).0,
                ) by {
                    if i < noted.pending_initialize.len() {
                        assert(known(noted.pending_initialize[i].0));
                    }
                }
            },
            RequestRoute::Forward(seq) => {
                assert forall|s: i64| #[trigger]
                    after.seq_map.pending.contains_key(s) implies known(
                    after.seq_map.pending[s].client_id,
                ) by {
                    if s != view.seq_map.next_seq {
                        assert(view.seq_map.pending.contains_key(s));
                    }
                }
            },
            _ => {},
        }
    } else if has_kind(message, "response"@) {
        assert forall|seq: i64| #[trigger] after.reverse_requests.contains_key(seq) implies known(
            after.reverse_requests[seq].client_id,
        ) by {
            assert(view.reverse_requests.contains_key(seq));
        }
    }
}

/// What an adapter's message sets under way belongs to a client that has
/// introduced itself.
pub proof fn lemma_adapter_message_keeps_owners(
    view: MuxView,
    message: JsonView,
    known: spec_fn(Seq<char>) -> bool,
)
    requires
        view.owned_within(known),
    ensures
        view.from_adapter(message).after.owned_within(known),
{
    let after = view.from_adapter(message).after;
    if has_kind(message, "response"@) {
        lemma_response_keeps_owners(view, message, known);
    } else if is_reverse_request(message) && !has_kind(message, "event"@) {
        if let Some(target) = reverse_target(view.init_args, message) {
            lemma_reverse_target_is_a_client(view.init_args, message, 0);
            let k = choose|k: int|
                0 <= k < view.init_args.len() && target == (#[trigger] view.init_args[k]).0;
            assert(known(view.init_args[k].0));
            assert forall|seq: i64| #[trigger]
                after.reverse_requests.contains_key(seq) implies known(
                after.reverse_requests[seq].client_id,
            ) by {
                if seq != view.next_reverse_seq || after == view {
                    assert(view.reverse_requests.contains_key(seq));
                }
            }
        }
    }
}

/// A response from the adapter only settles what is under way.
proof fn lemma_response_keeps_owners(
    view: MuxView,
    message: JsonView,
    known: spec_fn(Seq<char>) -> bool,
)
    requires
        view.owned_within(known),
        has_kind(message, "response"@),
    ensures
        view.from_adapter(message).after.owned_within(known),
{
    let after = view.from_adapter(message).after;
    lemma_note_keeps_routing(message);
    assert(after.init_args == view.init_args);
    assert(after.reverse_requests == view.reverse_requests);
    assert(after.pending_initialize == view.pending_initialize || after.pending_initialize.len()
        == 0);
    assert forall|seq: i64| #[trigger] after.seq_map.pending.contains_key(seq) implies known(
        after.seq_map.pending[seq].client_id,
    ) by {
        assert(view.seq_map.pending.contains_key(seq));
        assert(after.seq_map.pending[seq] == view.seq_map.pending[seq]);
    }
}

/// Whether an input comes from a client that is connected, if it comes from a
/// client.
pub open spec fn sender_present(view: MuxView, input: Input) -> bool {
    input matches Input::FromClient(id, _) ==> view.connected(id)
}

/// Whether an input comes from a client that has ever connected, if it comes
/// from a client.
pub open spec fn sender_ever_present(view: MuxView, input: Input) -> bool {
    input matches Input::FromClient(id, _) ==> was_named(id, view.client_counter)
}

/// As long as the session is not ended, everything under way belongs to a
/// client that is connected.
pub proof fn lemma_owners_are_present(view: MuxView, input: Input)
    requires
        view.owned_within(view.present()),
        sender_present(view, input),
        !(input is Ends),
    ensures
        view.step(input).after.owned_within(view.step(input).after.present()),
{
    reveal(MuxView::step);
    let after = view.step(input).after;
    let (before, now) = (view.present(), after.present());
    match input {
        Input::FromClient(id, message) => {
            if has_kind(message, "request"@) && view.request_route(message) is Leave {
                lemma_departed_client_is_not_present(view, id);
                lemma_departure_keeps_owners(view, id, before, now);
            } else {
                lemma_client_message_keeps_owners(view, id, message, before);
                lemma_client_message_moves_nobody(view, id, message);
                lemma_owners_widen(after, before, now);
            }
        },
        Input::FromAdapter(message) => {
            lemma_adapter_message_keeps_owners(view, message, before);
            lemma_session_survives_adapter_messages(view, message);
            assert forall|id: Seq<char>| #[trigger] before(id) implies now(id) by {
                let i = choose|i: int|
                    0 <= i < view.clients.len() && (#[trigger] view.clients[i]).id == id;
                assert(after.clients[i].id == id);
            }
            lemma_owners_widen(after, before, now);
        },
        Input::Joins => {
            assert forall|id: Seq<char>| #[trigger] before(id) implies now(id) by {
                let i = choose|i: int|
                    0 <= i < view.clients.len() && (#[trigger] view.clients[i]).id == id;
                assert(after.clients[i].id == id);
            }
            assert(after.owned_within(before));
            lemma_owners_widen(after, before, now);
        },
        Input::Departs(id) => {
            lemma_departed_client_is_not_present(view, id);
            lemma_departure_keeps_owners(view, id, before, now);
        },
        _ => {
            assert(after.owned_within(before));
            assert forall|id: Seq<char>| #[trigger] before(id) implies now(id) by {}
            lemma_owners_widen(after, before, now);
        },
    }
}

/// Everybody but the client that departs stays.
proof fn lemma_departed_client_is_not_present(view: MuxView, id: Seq<char>)
    ensures
        forall|other: Seq<char>| #[trigger]
            view.present()(other) && other != id ==> view.departure(id).after.present()(other),
{
    let after = view.departure(id).after;
    lemma_filter_source(view.clients, other_than(id));
    assert forall|other: Seq<char>| #[trigger] view.present()(other) && other
        != id implies after.present()(other) by {
        let i = choose|i: int|
            0 <= i < view.clients.len() && (#[trigger] view.clients[i]).id == other;
        assert(other_than(id)(view.clients[i]));
        let kept = view.clients.filter(other_than(id));
        let j = choose|j: int| 0 <= j < kept.len() && kept[j] == view.clients[i];
        assert(after.clients[j].id == other);
    }
}

/// A client's message leaves everybody connected who was, but for a
/// `disconnect`.
pub proof fn lemma_client_message_moves_nobody(view: MuxView, id: Seq<char>, message: JsonView)
    requires
        !(has_kind(message, "request"@) && view.request_route(message) is Leave),
    ensures
        ({
            let after = view.from_client(id, message).after;
            &&& after.clients.len() == view.clients.len()
            &&& forall|i: int|
                0 <= i < view.clients.len() ==> (#[trigger] after.clients[i]).id
                    == view.clients[i].id
            &&& forall|other: Seq<char>| #[trigger]
                after.connected(other) == view.connected(other)
        }),
{
    let after = view.from_client(id, message).after;
    let noted = view.noted(id, message);
    assert(after.clients.len() == view.clients.len());
    assert forall|i: int| 0 <= i < view.clients.len() implies (#[trigger] after.clients[i]).id
        == view.clients[i].id by {
        assert(noted.clients[i].id == view.clients[i].id);
    }
    assert forall|other: Seq<char>| #[trigger] after.connected(other) == view.connected(other) by {
        if view.connected(other) {
            let i = choose|i: int|
                0 <= i < view.clients.len() && (#[trigger] view.clients[i]).id == other;
            assert(after.clients[i].id == other);
        }
        if after.connected(other) {
            let i = choose|i: int|
                0 <= i < after.clients.len() && (#[trigger] after.clients[i]).id == other;
            assert(view.clients[i].id == other);
        }
    }
}

/// Everything under way belongs to a client that has connected, though it may
/// have left since the session was ended.
pub proof fn lemma_owners_were_present(view: MuxView, input: Input)
    requires
        view.owned_within(view.ever_present()),
        sender_ever_present(view, input),
        input is Joins ==> view.client_counter < u64::MAX,
    ensures
        view.step(input).after.owned_within(view.step(input).after.ever_present()),
{
    reveal(MuxView::step);
    let after = view.step(input).after;
    let (before, now) = (view.ever_present(), after.ever_present());
    assert(after.owned_within(before)) by {
        match input {
            Input::FromClient(id, message) => {
                lemma_client_message_keeps_owners(view, id, message, before);
            },
            Input::FromAdapter(message) => {
                lemma_adapter_message_keeps_owners(view, message, before);
            },
            Input::Departs(id) => {
                lemma_departure_keeps_owners(view, id, before, before);
            },
            _ => {},
        }
    }
    lemma_counter_only_grows(view, input);
    assert forall|id: Seq<char>| #[trigger] before(id) implies now(id) by {
        let n = choose|n: nat| 1 <= n <= view.client_counter && id == #[trigger] client_name(n);
        assert(1 <= n <= after.client_counter);
    }
    lemma_owners_widen(after, before, now);
}

/// Clients are counted as they connect, and by nothing else.
pub proof fn lemma_counter_only_grows(view: MuxView, input: Input)
    requires
        input is Joins ==> view.client_counter < u64::MAX,
    ensures
        view.step(input).after.client_counter == view.client_counter + (if input is Joins {
            1int
        } else {
            0int
        }),
{
    reveal(MuxView::step);
    if let Input::FromAdapter(message) = input {
        lemma_note_keeps_routing(message);
    }
}

/// A client that connects has nothing under way: what others left behind is
/// not taken for its own.
pub proof fn lemma_new_client_is_idle(view: MuxView)
    requires
        view.well_formed(),
        view.owned_within(view.ever_present()),
        view.client_counter < u64::MAX,
    ensures
        view.joined().idle(client_name((view.client_counter + 1) as nat)),
{
    let id = client_name((view.client_counter + 1) as nat);
    let after = view.joined();
    let known = view.ever_present();
    lemma_new_client_is_fresh(view);
    assert(!known(id));
    assert forall|seq: i64| !after.seq_map.owned(id).contains(seq) by {
        if after.seq_map.owned(id).contains(seq) {
            assert(view.seq_map.pending.contains_key(seq));
        }
    }
    assert(after.seq_map.owned(id) =~= Set::<i64>::empty());
    if after.introduced(id) {
        let i = choose|i: int|
            0 <= i < after.init_args.len() && (#[trigger] after.init_args[i]).0 == id;
        assert(known(view.init_args[i].0));
    }
    if waits(after.pending_initialize, id) {
        let i = choose|i: int|
            0 <= i < after.pending_initialize.len() && (
            #[trigger] after.pending_initialize[i]).0 == id;
        assert(known(view.pending_initialize[i].0));
    }
    assert forall|seq: i64| !after.owed_by(id).contains(seq) by {
        if after.owed_by(id).contains(seq) {
            assert(view.reverse_requests.contains_key(seq));
        }
    }
    assert(after.owed_by(id) =~= Set::<i64>::empty());
}

} // verus!
