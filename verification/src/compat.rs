//! Debug-adapter compatibility layer.
//!
//! Filters, rewrites, and routes messages that need special handling due to
//! adapter quirks or DAP edge cases. The multiplexer calls into this module
//! before forwarding messages.

use vstd::prelude::*;
use vstd::string::*;
use vstd::utf8::*;

use crate::json::{field, flag_field, text_field, with_field, Json, JsonView};
use crate::protocol::has_kind;
use crate::text::{ascii_lowercased, contains, has_substring, lowercased, to_lowercase};

verus! {

/// Whether `message` is one of the events that are dropped rather than
/// forwarded: debugpy's custom events, and the one that signals subprocess
/// debugging.
pub open spec fn is_filtered_event(message: JsonView) -> bool {
    let event = text_field(message, "event"@);
    ||| event == Some("debugpySockets"@)
    ||| event == Some("debugpyAttach"@)
    ||| event == Some("startDebugging"@)
}

/// Return whether an event should be dropped rather than forwarded.
///
/// Filters debugpy-specific custom events that non-debugpy clients don't
/// understand, and the (unsupported) subprocess-debugging event.
pub fn should_filter_event(message: &Json) -> (res: bool)
    ensures
        res == is_filtered_event(message@),
{
    message.has_text("event", "debugpySockets") || message.has_text("event", "debugpyAttach")
        || message.has_text("event", "startDebugging")
}

/// Whether `message` is one of the requests that an adapter may send.
pub open spec fn is_reverse_request(message: JsonView) -> bool {
    &&& has_kind(message, "request"@)
    &&& {
        ||| text_field(message, "command"@) == Some("runInTerminal"@)
        ||| text_field(message, "command"@) == Some("startDebugging"@)
    }
}

/// Return whether this is a recognized reverse request from the adapter.
///
/// DAP allows the adapter to send requests to the client (e.g.
/// `runInTerminal`). These need special routing — they cannot be broadcast
/// like events.
pub fn is_known_reverse_request(message: &Json) -> (res: bool)
    ensures
        res == is_reverse_request(message@),
{
    message.has_text("type", "request") && (message.has_text("command", "runInTerminal")
        || message.has_text("command", "startDebugging"))
}

/// The ids and initialize arguments of `clients`.
pub open spec fn clients_view(clients: Seq<(String, Json)>) -> Seq<(Seq<char>, JsonView)> {
    clients.map_values(|client: (String, Json)| (client.0@, client.1@))
}

/// Whether a client declared that it can run a command in a terminal.
pub open spec fn opted_in(client: (Seq<char>, JsonView)) -> bool {
    flag_field(client.1, "supportsRunInTerminalRequest"@)
}

/// The client that handles a reverse request: the first one, except that
/// `runInTerminal` goes to the first that opted in, where one did.
pub open spec fn reverse_target(
    clients: Seq<(Seq<char>, JsonView)>,
    message: JsonView,
) -> Option<Seq<char>> {
    let willing = clients.filter(|client: (Seq<char>, JsonView)| opted_in(client));
    if text_field(message, "command"@) == Some("runInTerminal"@) && willing.len() > 0 {
        Some(willing[0].0)
    } else if clients.len() > 0 {
        Some(clients[0].0)
    } else {
        None
    }
}

/// The first item that passes a filter is the first one it lets through.
pub proof fn lemma_first_of_filter<A>(items: Seq<A>, pred: spec_fn(A) -> bool, at: int)
    requires
        0 <= at < items.len(),
        items.take(at).filter(pred).len() == 0,
        pred(items[at]),
    ensures
        items.filter(pred).len() > 0,
        items.filter(pred)[0] == items[at],
{
    let head = items.take(at);
    let one = seq![items[at]];
    let tail = items.skip(at + 1);
    assert(items =~= head + (one + tail));
    Seq::filter_distributes_over_add(head, one + tail, pred);
    Seq::filter_distributes_over_add(one, tail, pred);
    assert(one.filter(pred) =~= one) by {
        reveal(Seq::filter);
        assert(one.drop_last() =~= Seq::<A>::empty());
        assert(one.drop_last().filter(pred) =~= Seq::<A>::empty());
    }
}

/// Choose which client should handle a reverse request.
///
/// For `runInTerminal`, prefer a client that declared
/// `supportsRunInTerminalRequest` in its initialize arguments. Falls back to
/// the first connected client. `clients` is an ordered list of
/// `(client_id, initialize_arguments)`.
pub fn pick_reverse_request_target<'a>(clients: &'a [(String, Json)], message: &Json) -> (res:
    Option<&'a str>)
    ensures
        res is Some <==> reverse_target(clients_view(clients@), message@) is Some,
        res matches Some(id) ==> reverse_target(clients_view(clients@), message@) == Some(id@),
{
    let ghost views = clients_view(clients@);
    let ghost pred = |client: (Seq<char>, JsonView)| opted_in(client);
    if message.has_text("command", "runInTerminal") {
        let mut i: usize = 0;
        proof {
            assert(views.take(0) =~= Seq::empty());
            reveal(Seq::filter);
        }
        while i < clients.len()
            invariant
                i <= clients@.len(),
                views == clients_view(clients@),
                pred == (|client: (Seq<char>, JsonView)| opted_in(client)),
                views.take(i as int).filter(pred).len() == 0,
                text_field(message@, "command"@) == Some("runInTerminal"@),
            decreases clients@.len() - i,
        {
            let (client_id, init_args) = &clients[i];
            if init_args.get_flag("supportsRunInTerminalRequest") {
                proof {
                    assert(views[i as int] == (client_id@, init_args@));
                    lemma_first_of_filter(views, pred, i as int);
                }
                return Some(client_id.as_str());
            }
            proof {
                reveal(Seq::filter);
                assert(views[i as int] == (client_id@, init_args@));
                assert(views.take(i + 1).drop_last() =~= views.take(i as int));
            }
            i += 1;
        }
        assert(views.take(views.len() as int) =~= views);
    }
    if clients.len() > 0 {
        assert(views[0].0 == clients@[0].0@);
        Some(clients[0].0.as_str())
    } else {
        None
    }
}

/// Whether `message` is a failed response to a request that reads variables.
pub open spec fn is_failed_variable_request(message: JsonView) -> bool {
    let command = text_field(message, "command"@);
    &&& has_kind(message, "response"@)
    &&& !flag_field(message, "success"@)
    &&& command == Some("variables"@) || command == Some("scopes"@) || command == Some("evaluate"@)
}

/// The error text of a response.
pub open spec fn error_text(message: JsonView) -> Seq<char> {
    match text_field(message, "message"@) {
        Some(text) => text,
        None => ""@,
    }
}

/// A response with a note appended to its error text, where it reports a
/// failed variable request and `lowered`, its error text in lower case, speaks
/// of something invalid or not found. Any other message is unchanged.
pub open spec fn with_stale_note(message: JsonView, lowered: Seq<char>) -> JsonView {
    if is_failed_variable_request(message) && (has_substring(lowered, "invalid"@) || has_substring(
        lowered,
        "not found"@,
    )) {
        with_field(
            message,
            "message"@,
            JsonView::String(
                error_text(message)
                    + " (variable references are invalidated when execution resumes)"@,
            ),
        )
    } else {
        message
    }
}

/// Append a clarifying note to a stale variable-reference error, given its
/// error text in lower case.
pub fn annotate_stale_variable_error(message: Json, lowered: &str) -> (res: Json)
    ensures
        res@ == with_stale_note(message@, lowered@),
{
    let failed = message.has_text("type", "response") && !message.get_flag("success") && (
    message.has_text("command", "variables") || message.has_text("command", "scopes")
        || message.has_text("command", "evaluate"));
    if failed && (contains(lowered, "invalid") || contains(lowered, "not found")) {
        let mut annotated = match message.get_str("message") {
            Some(original) => original.to_owned(),
            None => "".to_owned(),
        };
        annotated.append(" (variable references are invalidated when execution resumes)");
        let mut res = message;
        res.set("message", Json::String(annotated));
        res
    } else {
        message
    }
}

/// Improve error messages for stale variable-reference requests.
///
/// When execution resumes, variable references become invalid. Adapters may
/// return cryptic errors; this appends a clarifying note. Returns the message
/// unchanged when it doesn't match.
pub fn rewrite_stale_variable_error(message: Json) -> (res: Json)
    ensures
        res@ == with_stale_note(message@, lowercased(error_text(message@))),
        is_ascii_chars(error_text(message@)) ==> lowercased(error_text(message@))
            == ascii_lowercased(error_text(message@)),
{
    let lowered = match message.get_str("message") {
        Some(original) => to_lowercase(original),
        None => to_lowercase(""),
    };
    annotate_stale_variable_error(message, lowered.as_str())
}

// ---------------------------------------------------------------------------
// Laws
// ---------------------------------------------------------------------------

/// A reverse request goes to one of the clients whenever there is one, and a
/// `runInTerminal` to one that opted in whenever one did.
pub proof fn lemma_reverse_target_is_a_client(
    clients: Seq<(Seq<char>, JsonView)>,
    message: JsonView,
    i: int,
)
    requires
        0 <= i < clients.len(),
    ensures
        reverse_target(clients, message) is Some,
        exists|k: int|
            0 <= k < clients.len() && reverse_target(clients, message) == Some(
                (#[trigger] clients[k]).0,
            ) && (text_field(message, "command"@) == Some("runInTerminal"@) && opted_in(clients[i])
                ==> opted_in(clients[k])),
{
    let pred = |client: (Seq<char>, JsonView)| opted_in(client);
    let willing = clients.filter(pred);
    if willing.len() > 0 {
        assert(willing.contains(willing[0]));
        clients.lemma_filter_pred(pred, 0);
        clients.lemma_filter_contains_rev(pred, willing[0]);
        let k = choose|k: int| 0 <= k < clients.len() && clients[k] == willing[0];
        assert(opted_in(clients[k]));
    } else if opted_in(clients[i]) {
        clients.lemma_filter_contains(pred, i);
    }
    assert(clients[0].0 == clients[0].0);
}

/// Clarifying an error changes the error text alone, and only by adding to it.
pub proof fn lemma_note_changes_only_the_error_text(message: JsonView, lowered: Seq<char>)
    ensures
        ({
            let noted = with_stale_note(message, lowered);
            &&& forall|key: Seq<char>|
                key != "message"@ ==> #[trigger] field(noted, key) == field(message, key)
            &&& error_text(message).is_prefix_of(error_text(noted))
        }),
{
    let noted = with_stale_note(message, lowered);
    assert(error_text(noted).subrange(0, error_text(message).len() as int) =~= error_text(message));
}

/// The events that are dropped are those called `debugpySockets`,
/// `debugpyAttach` and `startDebugging`, and no others, whatever else they hold.
pub proof fn lemma_dropped_events(members: Map<Seq<char>, JsonView>, name: Seq<char>)
    ensures
        members.contains_key("event"@) && members["event"@] == JsonView::String(name) ==> (
        is_filtered_event(JsonView::Object(members)) <==> name == "debugpySockets"@ || name
            == "debugpyAttach"@ || name == "startDebugging"@),
        !members.contains_key("event"@) || !(members["event"@] is String) ==> !is_filtered_event(
            JsonView::Object(members),
        ),
        forall|message: JsonView|
            !(message is Object) ==> !#[trigger] is_filtered_event(message),
{
}

/// The requests that an adapter may make are `runInTerminal` and
/// `startDebugging`, and no others.
pub proof fn lemma_requests_of_adapters(members: Map<Seq<char>, JsonView>)
    ensures
        is_reverse_request(JsonView::Object(members)) <==> {
            &&& members.contains_key("type"@) && members["type"@] == JsonView::String("request"@)
            &&& members.contains_key("command"@)
            &&& members["command"@] == JsonView::String("runInTerminal"@) || members["command"@]
                == JsonView::String("startDebugging"@)
        },
        forall|message: JsonView|
            !(message is Object) ==> !#[trigger] is_reverse_request(message),
{
}

} // verus!
