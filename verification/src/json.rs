//! JSON values as the multiplexer sees them.
//!
//! [`Json`] holds a parsed JSON document. Parsing and printing are
//! `serde_json`'s work; this module takes a `serde_json::Value` apart into a
//! [`Json`] and puts one together again. An object's meaning is a map: the
//! order in which its entries are stored carries none, and of two entries with
//! one key the later one counts.

use vstd::prelude::*;
use vstd::string::*;

verus! {

// ---------------------------------------------------------------------------
// The outside types
// ---------------------------------------------------------------------------

/// `serde_json::Value`: a parsed JSON document.
#[verifier::external_type_specification]
#[verifier::external_body]
pub struct ExValue(serde_json::Value);

/// `serde_json::Number`: a JSON number.
#[verifier::external_type_specification]
#[verifier::external_body]
pub struct ExNumber(serde_json::Number);

/// `serde_json::Error`: why a text is not a JSON document.
#[verifier::external_type_specification]
#[verifier::external_body]
pub struct ExError(serde_json::Error);

// ---------------------------------------------------------------------------
// The model
// ---------------------------------------------------------------------------

/// What a JSON number is: an integer, or a floating-point number given by its
/// bits.
pub enum NumberView {
    Int(int),
    Float(u64),
}

/// What a JSON document is.
pub enum JsonView {
    Null,
    Bool(bool),
    Number(NumberView),
    String(Seq<char>),
    Array(Seq<JsonView>),
    Object(Map<Seq<char>, JsonView>),
}

/// What a `serde_json::Number` holds.
pub uninterp spec fn number_view(n: serde_json::Number) -> NumberView;

/// What a `serde_json::Value` holds.
pub uninterp spec fn value_view(v: serde_json::Value) -> JsonView;

/// A JSON number. Integers within `i64` are held as such; any other number is
/// carried along as it was parsed.
#[derive(Debug)]
pub enum JsonNumber {
    Int(i64),
    Other(serde_json::Number),
}

/// A JSON document.
#[derive(Debug)]
pub enum Json {
    Null,
    Bool(bool),
    Number(JsonNumber),
    String(String),
    Array(Vec<Json>),
    Object(Vec<(String, Json)>),
}

impl View for JsonNumber {
    type V = NumberView;

    open spec fn view(&self) -> NumberView {
        match *self {
            JsonNumber::Int(i) => NumberView::Int(i as int),
            JsonNumber::Other(n) => number_view(n),
        }
    }
}

/// The documents that `items` hold.
pub open spec fn items_view(items: Seq<Json>) -> Seq<JsonView>
    decreases items,
{
    if items.len() == 0 {
        Seq::empty()
    } else {
        items_view(items.drop_last()).push(json_view(items.last()))
    }
}

/// The map that `entries` spell out: a later entry overrides an earlier one.
pub open spec fn entries_view(entries: Seq<(String, Json)>) -> Map<Seq<char>, JsonView>
    decreases entries,
{
    if entries.len() == 0 {
        Map::empty()
    } else {
        entries_view(entries.drop_last()).insert(entries.last().0@, json_view(entries.last().1))
    }
}

/// What a [`Json`] holds.
pub open spec fn json_view(json: Json) -> JsonView
    decreases json,
{
    match json {
        Json::Null => JsonView::Null,
        Json::Bool(b) => JsonView::Bool(b),
        Json::Number(n) => JsonView::Number(n@),
        Json::String(s) => JsonView::String(s@),
        Json::Array(items) => JsonView::Array(items_view(items@)),
        Json::Object(entries) => JsonView::Object(entries_view(entries@)),
    }
}

impl View for Json {
    type V = JsonView;

    open spec fn view(&self) -> JsonView {
        json_view(*self)
    }
}

// ---------------------------------------------------------------------------
// Taking a parsed document apart, and putting one together
// ---------------------------------------------------------------------------

/// One level of a `serde_json::Value`.
pub enum ValueParts {
    Null,
    Bool(bool),
    Number(serde_json::Number),
    String(String),
    Array(Vec<serde_json::Value>),
    Object(Vec<(String, serde_json::Value)>),
}

/// The map that `members` spell out: a later member overrides an earlier one.
pub open spec fn members_view(members: Seq<(String, serde_json::Value)>) -> Map<
    Seq<char>,
    JsonView,
>
    decreases members.len(),
{
    if members.len() == 0 {
        Map::empty()
    } else {
        members_view(members.drop_last()).insert(members.last().0@, value_view(members.last().1))
    }
}

/// The document that the parts make up.
pub open spec fn parts_view(parts: ValueParts) -> JsonView {
    match parts {
        ValueParts::Null => JsonView::Null,
        ValueParts::Bool(b) => JsonView::Bool(b),
        ValueParts::Number(n) => JsonView::Number(number_view(n)),
        ValueParts::String(s) => JsonView::String(s@),
        ValueParts::Array(items) => JsonView::Array(
            items@.map_values(|v: serde_json::Value| value_view(v)),
        ),
        ValueParts::Object(members) => JsonView::Object(members_view(members@)),
    }
}

/// Whether no two members share a key.
pub open spec fn distinct_keys(members: Seq<(String, serde_json::Value)>) -> bool {
    forall|i: int, j: int|
        0 <= i < j < members.len() ==> (#[trigger] members[i]).0@ != (#[trigger] members[j]).0@
}

/// Tells the variants of a `serde_json::Value` apart and moves out what they
/// hold, an object's members by `serde_json::Map`'s owning iterator. Claims
/// that the parts make up the document, and that a map's keys are distinct.
#[verifier::external_body]
fn value_into_parts(value: serde_json::Value) -> (parts: ValueParts)
    ensures
        parts_view(parts) == value_view(value),
        parts matches ValueParts::Object(members) ==> distinct_keys(members@),
{
    match value {
        serde_json::Value::Null => ValueParts::Null,
        serde_json::Value::Bool(b) => ValueParts::Bool(b),
        serde_json::Value::Number(n) => ValueParts::Number(n),
        serde_json::Value::String(s) => ValueParts::String(s),
        serde_json::Value::Array(items) => ValueParts::Array(items),
        serde_json::Value::Object(members) => ValueParts::Object(members.into_iter().collect()),
    }
}

/// Builds a `serde_json::Value` from its parts, an object's map by
/// `serde_json::Map`'s `FromIterator`, which inserts the members one after the
/// other. Claims that the document is the one that the parts make up.
#[verifier::external_body]
fn value_from_parts(parts: ValueParts) -> (value: serde_json::Value)
    ensures
        value_view(value) == parts_view(parts),
{
    match parts {
        ValueParts::Null => serde_json::Value::Null,
        ValueParts::Bool(b) => serde_json::Value::Bool(b),
        ValueParts::Number(n) => serde_json::Value::Number(n),
        ValueParts::String(s) => serde_json::Value::String(s),
        ValueParts::Array(items) => serde_json::Value::Array(items),
        ValueParts::Object(members) => serde_json::Value::Object(members.into_iter().collect()),
    }
}

/// The `i64` that a number is, if it is one.
pub open spec fn number_as_i64(n: NumberView) -> Option<i64> {
    match n {
        NumberView::Int(i) => if i64::MIN <= i <= i64::MAX {
            Some(i as i64)
        } else {
            None
        },
        NumberView::Float(_) => None,
    }
}

/// Calls `serde_json::Number::as_i64`: the number as an `i64` if it is an
/// integer in that range, nothing otherwise.
#[verifier::external_body]
fn outside_number_as_i64(n: &serde_json::Number) -> (res: Option<i64>)
    ensures
        res == number_as_i64(number_view(*n)),
{
    n.as_i64()
}

/// Calls `serde_json::Number::from(i64)`: the number is that integer.
#[verifier::external_body]
fn outside_number_from_i64(i: i64) -> (res: serde_json::Number)
    ensures
        number_view(res) == NumberView::Int(i as int),
{
    serde_json::Number::from(i)
}

/// Calls `serde_json::Number::clone`: the copy holds the same number.
#[verifier::external_body]
fn outside_number_clone(n: &serde_json::Number) -> (res: serde_json::Number)
    ensures
        number_view(res) == number_view(*n),
{
    n.clone()
}

proof fn lemma_members_view(members: Seq<(String, serde_json::Value)>)
    requires
        distinct_keys(members),
    ensures
        members_view(members).dom().finite(),
        forall|k: Seq<char>|
            members_view(members).contains_key(k) ==> exists|i: int|
                0 <= i < members.len() && (#[trigger] members[i]).0@ == k,
        forall|i: int|
            #![trigger members[i]]
            0 <= i < members.len() ==> {
                &&& members_view(members).contains_key(members[i].0@)
                &&& members_view(members)[members[i].0@] == value_view(members[i].1)
            },
    decreases members.len(),
{
    if members.len() > 0 {
        let rest = members.drop_last();
        assert forall|i: int, j: int| 0 <= i < j < rest.len() implies (#[trigger] rest[i]).0@ != (
        #[trigger] rest[j]).0@ by {
            assert(rest[i] == members[i] && rest[j] == members[j]);
        }
        lemma_members_view(rest);
        assert forall|i: int| #![trigger members[i]] 0 <= i < members.len() implies {
            &&& members_view(members).contains_key(members[i].0@)
            &&& members_view(members)[members[i].0@] == value_view(members[i].1)
        } by {
            if i < rest.len() {
                assert(rest[i] == members[i]);
                assert(members[i].0@ != members[members.len() - 1].0@);
            }
        }
        assert forall|k: Seq<char>| members_view(members).contains_key(k) implies exists|i: int|
            0 <= i < members.len() && (#[trigger] members[i]).0@ == k by {
            if k == members.last().0@ {
                assert(members[members.len() - 1].0@ == k);
            } else {
                let i = choose|i: int| 0 <= i < rest.len() && (#[trigger] rest[i]).0@ == k;
                assert(members[i].0@ == k);
            }
        }
    }
}

/// The document that a parsed `serde_json::Value` holds.
pub fn json_from_value(value: serde_json::Value) -> (json: Json)
    ensures
        json@ == value_view(value),
    decreases value_view(value),
{
    match value_into_parts(value) {
        ValueParts::Null => Json::Null,
        ValueParts::Bool(b) => Json::Bool(b),
        ValueParts::Number(n) => {
            match outside_number_as_i64(&n) {
                Some(i) => Json::Number(JsonNumber::Int(i)),
                None => Json::Number(JsonNumber::Other(n)),
            }
        },
        ValueParts::String(s) => Json::String(s),
        ValueParts::Array(values) => {
            let ghost all = values@;
            let ghost views = all.map_values(|v: serde_json::Value| value_view(v));
            assert(value_view(value) == JsonView::Array(views));
            let mut items: Vec<Json> = Vec::new();
            for v in it: values
                invariant
                    it.seq() == all,
                    views == all.map_values(|v: serde_json::Value| value_view(v)),
                    value_view(value) == JsonView::Array(views),
                    items_view(items@) == views.take(it.index() as int),
            {
                assert(views[it.index() as int] == value_view(v));
                let ghost before = items@;
                proof {
                    let whole = value_view(value);
                    assert(decreases_to!(whole => whole->Array_0));
                    assert(decreases_to!(views => views[it.index() as int]));
                }
                let item = json_from_value(v);
                items.push(item);
                assert(items@.drop_last() =~= before);
                assert(views.take(it.index() + 1) =~= views.take(it.index() as int).push(
                    value_view(v),
                ));
            }
            assert(views.take(all.len() as int) =~= views);
            Json::Array(items)
        },
        ValueParts::Object(members) => {
            let ghost all = members@;
            let mut entries: Vec<(String, Json)> = Vec::new();
            proof {
                lemma_members_view(all);
            }
            assert(all.take(0) =~= Seq::empty());
            for member in it: members
                invariant
                    it.seq() == all,
                    value_view(value) == JsonView::Object(members_view(all)),
                    members_view(all).dom().finite(),
                    forall|i: int|
                        #![trigger all[i]]
                        0 <= i < all.len() ==> {
                            &&& members_view(all).contains_key(all[i].0@)
                            &&& members_view(all)[all[i].0@] == value_view(all[i].1)
                        },
                    entries_view(entries@) == members_view(all.take(it.index() as int)),
            {
                let ghost before = entries@;
                assert(all[it.index() as int] == member);
                let (key, v) = member;
                proof {
                    let whole = value_view(value);
                    let map = members_view(all);
                    assert(decreases_to!(whole => whole->Object_0));
                    assert(decreases_to!(map => map[key@]));
                }
                let json = json_from_value(v);
                entries.push((key, json));
                assert(entries@.drop_last() =~= before);
                assert(all.take(it.index() + 1).drop_last() =~= all.take(it.index() as int));
            }
            assert(all.take(all.len() as int) =~= all);
            Json::Object(entries)
        },
    }
}

/// An item of an array is smaller than the array.
proof fn lemma_item_decreases(json: Json, items: Vec<Json>, i: int)
    requires
        json == Json::Array(items),
        0 <= i < items@.len(),
    ensures
        decreases_to!(json => items@[i]),
{
    assert(decreases_to!(json => json->Array_0));
    assert(decreases_to!(items => items@));
    assert(decreases_to!(items@ => items@[i]));
}

/// A member's value is smaller than the object.
proof fn lemma_entry_decreases(json: Json, entries: Vec<(String, Json)>, i: int)
    requires
        json == Json::Object(entries),
        0 <= i < entries@.len(),
    ensures
        decreases_to!(json => entries@[i].1),
{
    assert(decreases_to!(json => json->Object_0));
    assert(decreases_to!(entries => entries@));
    assert(decreases_to!(entries@ => entries@[i]));
    assert(decreases_to!(entries@[i] => entries@[i].1));
}

/// The `serde_json::Value` that holds a document.
pub fn value_from_json(json: &Json) -> (value: serde_json::Value)
    ensures
        value_view(value) == json@,
    decreases *json,
{
    match json {
        Json::Null => value_from_parts(ValueParts::Null),
        Json::Bool(b) => value_from_parts(ValueParts::Bool(*b)),
        Json::Number(JsonNumber::Int(i)) => {
            value_from_parts(ValueParts::Number(outside_number_from_i64(*i)))
        },
        Json::Number(JsonNumber::Other(n)) => {
            value_from_parts(ValueParts::Number(outside_number_clone(n)))
        },
        Json::String(s) => value_from_parts(ValueParts::String(s.clone())),
        Json::Array(items) => {
            let mut values: Vec<serde_json::Value> = Vec::new();
            let mut i: usize = 0;
            assert(items@.take(0) =~= Seq::empty());
            while i < items.len()
                invariant
                    i <= items@.len(),
                    *json == Json::Array(*items),
                    values@.map_values(|v: serde_json::Value| value_view(v)) =~= items_view(
                        items@.take(i as int),
                    ),
                decreases items@.len() - i,
            {
                proof {
                    lemma_item_decreases(*json, *items, i as int);
                }
                let value = value_from_json(&items[i]);
                values.push(value);
                assert(items@.take(i + 1).drop_last() =~= items@.take(i as int));
                i += 1;
            }
            assert(items@.take(items@.len() as int) =~= items@);
            value_from_parts(ValueParts::Array(values))
        },
        Json::Object(entries) => {
            let mut members: Vec<(String, serde_json::Value)> = Vec::new();
            let mut i: usize = 0;
            assert(entries@.take(0) =~= Seq::empty());
            while i < entries.len()
                invariant
                    i <= entries@.len(),
                    *json == Json::Object(*entries),
                    members_view(members@) == entries_view(entries@.take(i as int)),
                decreases entries@.len() - i,
            {
                let ghost before = members@;
                proof {
                    lemma_entry_decreases(*json, *entries, i as int);
                }
                let value = value_from_json(&entries[i].1);
                members.push((entries[i].0.clone(), value));
                assert(members@.drop_last() =~= before);
                assert(entries@.take(i + 1).drop_last() =~= entries@.take(i as int));
                i += 1;
            }
            assert(entries@.take(entries@.len() as int) =~= entries@);
            value_from_parts(ValueParts::Object(members))
        },
    }
}

// ---------------------------------------------------------------------------
// Parsing and printing
// ---------------------------------------------------------------------------

/// The document that `serde_json::from_slice` reads from `data`, if it reads
/// one.
pub uninterp spec fn parsed_json(data: Seq<u8>) -> Option<JsonView>;

/// The bytes that `serde_json::to_vec` writes for a document.
pub uninterp spec fn printed_json(v: JsonView) -> Seq<u8>;

/// How deeply `serde_json` lets arrays and objects nest when it parses.
pub const MAX_NESTING: u8 = 127;

/// Whether arrays and objects nest at most `limit` deep in `v`, and each of its
/// floating-point numbers survives being printed and parsed by itself (a
/// parser of best-effort precision may return a neighbour).
pub open spec fn survives_printing(v: JsonView, limit: nat) -> bool
    decreases limit,
{
    match v {
        JsonView::Number(NumberView::Float(_)) => parsed_json(printed_json(v)) == Some(v),
        JsonView::Array(items) => limit > 0 && forall|i: int|
            0 <= i < items.len() ==> survives_printing(#[trigger] items[i], (limit - 1) as nat),
        JsonView::Object(members) => limit > 0 && forall|k: Seq<char>|
            members.contains_key(k) ==> survives_printing(
                #[trigger] members[k],
                (limit - 1) as nat,
            ),
        _ => true,
    }
}

/// Calls `serde_json::from_slice::<serde_json::Value>`. Its result is named by
/// [`parsed_json`]: a function of the bytes alone. What the error says is left
/// unsaid.
#[verifier::external_body]
fn parse_value(data: &[u8]) -> (res: Result<serde_json::Value, serde_json::Error>)
    ensures
        res is Ok <==> parsed_json(data@) is Some,
        res matches Ok(value) ==> parsed_json(data@) == Some(value_view(value)),
{
    serde_json::from_slice::<serde_json::Value>(data)
}

/// Calls `serde_json::to_vec` on a `serde_json::Value`, which cannot fail: its
/// keys are strings and its numbers finite. The bytes are named by
/// [`printed_json`]: a function of the document alone. What was printed parses
/// back to the same document, unless it nests deeper than the parser goes or
/// holds a floating-point number that does not survive by itself.
#[verifier::external_body]
fn print_value(value: &serde_json::Value) -> (data: Vec<u8>)
    ensures
        data@ == printed_json(value_view(*value)),
        survives_printing(value_view(*value), MAX_NESTING as nat) ==> parsed_json(data@) == Some(
            value_view(*value),
        ),
{
    serde_json::to_vec(value).expect("a JSON value serializes")
}

/// Parse a JSON document.
pub fn parse(data: &[u8]) -> (res: Result<Json, serde_json::Error>)
    ensures
        res is Ok <==> parsed_json(data@) is Some,
        res matches Ok(json) ==> parsed_json(data@) == Some(json@),
{
    match parse_value(data) {
        Ok(value) => Ok(json_from_value(value)),
        Err(err) => Err(err),
    }
}

/// Print a JSON document.
pub fn print(json: &Json) -> (data: Vec<u8>)
    ensures
        data@ == printed_json(json@),
        survives_printing(json@, MAX_NESTING as nat) ==> parsed_json(data@) == Some(json@),
{
    print_value(&value_from_json(json))
}

// ---------------------------------------------------------------------------
// Reading and changing a document
// ---------------------------------------------------------------------------

/// The member `key` of `v`; nothing if `v` is no object or lacks it.
pub open spec fn field(v: JsonView, key: Seq<char>) -> Option<JsonView> {
    match v {
        JsonView::Object(members) => if members.contains_key(key) {
            Some(members[key])
        } else {
            None
        },
        _ => None,
    }
}

/// The text that `v` is, if it is a string.
pub open spec fn as_text(v: JsonView) -> Option<Seq<char>> {
    match v {
        JsonView::String(s) => Some(s),
        _ => None,
    }
}

/// The truth value that `v` is, if it is one.
pub open spec fn as_truth(v: JsonView) -> Option<bool> {
    match v {
        JsonView::Bool(b) => Some(b),
        _ => None,
    }
}

/// The `i64` that `v` is, if it is one.
pub open spec fn as_integer(v: JsonView) -> Option<i64> {
    match v {
        JsonView::Number(n) => number_as_i64(n),
        _ => None,
    }
}

/// The text in member `key` of `v`, if there is one.
pub open spec fn text_field(v: JsonView, key: Seq<char>) -> Option<Seq<char>> {
    match field(v, key) {
        Some(x) => as_text(x),
        None => None,
    }
}

/// The `i64` in member `key` of `v`, if there is one.
pub open spec fn integer_field(v: JsonView, key: Seq<char>) -> Option<i64> {
    match field(v, key) {
        Some(x) => as_integer(x),
        None => None,
    }
}

/// Whether member `key` of `v` is `true`.
pub open spec fn flag_field(v: JsonView, key: Seq<char>) -> bool {
    match field(v, key) {
        Some(x) => x == JsonView::Bool(true),
        None => false,
    }
}

/// `v` with its member `key` set to `value`, where `v` is an object.
pub open spec fn with_field(v: JsonView, key: Seq<char>, value: JsonView) -> JsonView {
    match v {
        JsonView::Object(members) => JsonView::Object(members.insert(key, value)),
        _ => v,
    }
}

/// Setting a member of an object sets that member and no other.
pub proof fn lemma_with_field(v: JsonView, key: Seq<char>, value: JsonView)
    requires
        v is Object,
    ensures
        with_field(v, key, value) is Object,
        field(with_field(v, key, value), key) == Some(value),
        forall|other: Seq<char>|
            other != key ==> #[trigger] field(with_field(v, key, value), other) == field(v, other),
{
}

/// The document that is the integer `i`.
pub open spec fn integer(i: int) -> JsonView {
    JsonView::Number(NumberView::Int(i))
}

/// The empty object.
pub open spec fn empty_object() -> JsonView {
    JsonView::Object(Map::empty())
}

/// Replacing the value of the last entry with a key is inserting that value.
proof fn lemma_entries_update(entries: Seq<(String, Json)>, i: int, entry: (String, Json))
    requires
        0 <= i < entries.len(),
        entry.0@ == entries[i].0@,
        forall|j: int| i < j < entries.len() ==> (#[trigger] entries[j]).0@ != entries[i].0@,
    ensures
        entries_view(entries.update(i, entry)) == entries_view(entries).insert(
            entry.0@,
            entry.1@,
        ),
    decreases entries.len(),
{
    let updated = entries.update(i, entry);
    let rest = entries.drop_last();
    if i == entries.len() - 1 {
        assert(updated.drop_last() =~= rest);
        assert(entries_view(updated) =~= entries_view(entries).insert(entry.0@, entry.1@));
    } else {
        assert forall|j: int| i < j < rest.len() implies (#[trigger] rest[j]).0@ != rest[i].0@ by {
            assert(rest[j] == entries[j]);
        }
        lemma_entries_update(rest, i, entry);
        assert(updated.drop_last() =~= rest.update(i, entry));
        assert(entries[entries.len() - 1].0@ != entries[i].0@);
        assert(entries_view(updated) =~= entries_view(entries).insert(entry.0@, entry.1@));
    }
}

/// The position of the last entry with a key.
fn last_entry(entries: &Vec<(String, Json)>, key: &str) -> (found: Option<usize>)
    ensures
        match found {
            Some(i) => {
                &&& i < entries@.len()
                &&& entries@[i as int].0@ == key@
                &&& forall|j: int| i < j < entries@.len() ==> (#[trigger] entries@[j]).0@ != key@
                &&& entries_view(entries@).contains_key(key@)
                &&& entries_view(entries@)[key@] == entries@[i as int].1@
            },
            None => !entries_view(entries@).contains_key(key@),
        },
{
    let mut i: usize = entries.len();
    assert(entries@.take(i as int) =~= entries@);
    while i > 0
        invariant
            i <= entries@.len(),
            forall|j: int| i <= j < entries@.len() ==> (#[trigger] entries@[j]).0@ != key@,
            entries_view(entries@).contains_key(key@) <==> entries_view(
                entries@.take(i as int),
            ).contains_key(key@),
            entries_view(entries@).contains_key(key@) ==> entries_view(entries@)[key@]
                == entries_view(entries@.take(i as int))[key@],
        decreases i,
    {
        assert(entries@.take(i as int).drop_last() =~= entries@.take(i - 1));
        if entries[i - 1].0.as_str().eq(key) {
            return Some(i - 1);
        }
        i -= 1;
    }
    assert(entries@.take(0) =~= Seq::empty());
    None
}

impl Json {
    /// An object without members.
    pub fn object() -> (res: Json)
        ensures
            res@ == empty_object(),
    {
        Json::Object(Vec::new())
    }

    /// The integer `i`.
    pub fn integer(i: i64) -> (res: Json)
        ensures
            res@ == integer(i as int),
    {
        Json::Number(JsonNumber::Int(i))
    }

    /// The string `s`.
    pub fn text(s: &str) -> (res: Json)
        ensures
            res@ == JsonView::String(s@),
    {
        Json::String(s.to_owned())
    }

    /// The member `key`; nothing if this is no object or lacks it.
    pub fn get(&self, key: &str) -> (res: Option<&Json>)
        ensures
            res is Some <==> field(self@, key@) is Some,
            res matches Some(json) ==> field(self@, key@) == Some(json@),
    {
        match self {
            Json::Object(entries) => {
                match last_entry(entries, key) {
                    Some(i) => Some(&entries[i].1),
                    None => None,
                }
            },
            _ => None,
        }
    }

    /// The text, if this is a string.
    pub fn as_str(&self) -> (res: Option<&str>)
        ensures
            res is Some <==> as_text(self@) is Some,
            res matches Some(s) ==> as_text(self@) == Some(s@),
    {
        match self {
            Json::String(s) => Some(s.as_str()),
            _ => None,
        }
    }

    /// The truth value, if this is one.
    pub fn as_bool(&self) -> (res: Option<bool>)
        ensures
            res == as_truth(self@),
    {
        match self {
            Json::Bool(b) => Some(*b),
            _ => None,
        }
    }

    /// The integer, if this is one within `i64`.
    pub fn as_i64(&self) -> (res: Option<i64>)
        ensures
            res == as_integer(self@),
    {
        match self {
            Json::Number(JsonNumber::Int(i)) => Some(*i),
            Json::Number(JsonNumber::Other(n)) => outside_number_as_i64(n),
            _ => None,
        }
    }

    /// The text in member `key`, if there is one.
    pub fn get_str(&self, key: &str) -> (res: Option<&str>)
        ensures
            res is Some <==> text_field(self@, key@) is Some,
            res matches Some(s) ==> text_field(self@, key@) == Some(s@),
    {
        match self.get(key) {
            Some(json) => json.as_str(),
            None => None,
        }
    }

    /// The integer in member `key`, if there is one within `i64`.
    pub fn get_i64(&self, key: &str) -> (res: Option<i64>)
        ensures
            res == integer_field(self@, key@),
    {
        match self.get(key) {
            Some(json) => json.as_i64(),
            None => None,
        }
    }

    /// Whether member `key` is `true`.
    pub fn get_flag(&self, key: &str) -> (res: bool)
        ensures
            res == flag_field(self@, key@),
    {
        match self.get(key) {
            Some(Json::Bool(b)) => *b,
            _ => false,
        }
    }

    /// Whether member `key` is the text `text`.
    pub fn has_text(&self, key: &str, text: &str) -> (res: bool)
        ensures
            res == (text_field(self@, key@) == Some(text@)),
    {
        match self.get(key) {
            Some(Json::String(s)) => s.as_str().eq(text),
            _ => false,
        }
    }

    /// Set member `key` of an object.
    pub fn set(&mut self, key: &str, value: Json)
        requires
            old(self)@ is Object,
        ensures
            final(self)@ == with_field(old(self)@, key@, value@),
    {
        if let Json::Object(entries) = self {
            let ghost before = entries@;
            match last_entry(entries, key) {
                Some(i) => {
                    let entry = (key.to_owned(), value);
                    proof {
                        lemma_entries_update(before, i as int, entry);
                    }
                    entries.set(i, entry);
                },
                None => {
                    entries.push((key.to_owned(), value));
                    assert(entries@.drop_last() =~= before);
                },
            }
        }
    }
}

impl Clone for Json {
    /// A copy that holds the same document.
    fn clone(&self) -> (res: Json)
        ensures
            res@ == self@,
        decreases self,
    {
        match self {
            Json::Null => Json::Null,
            Json::Bool(b) => Json::Bool(*b),
            Json::Number(JsonNumber::Int(i)) => Json::Number(JsonNumber::Int(*i)),
            Json::Number(JsonNumber::Other(n)) => {
                Json::Number(JsonNumber::Other(outside_number_clone(n)))
            },
            Json::String(s) => Json::String(s.clone()),
            Json::Array(items) => {
                let mut copies: Vec<Json> = Vec::new();
                let mut i: usize = 0;
                assert(items@.take(0) =~= Seq::empty());
                while i < items.len()
                    invariant
                        i <= items@.len(),
                        *self == Json::Array(*items),
                        items_view(copies@) == items_view(items@.take(i as int)),
                    decreases items@.len() - i,
                {
                    let ghost before = copies@;
                    proof {
                        lemma_item_decreases(*self, *items, i as int);
                    }
                    let copy = items[i].clone();
                    copies.push(copy);
                    assert(copies@.drop_last() =~= before);
                    assert(items@.take(i + 1).drop_last() =~= items@.take(i as int));
                    i += 1;
                }
                assert(items@.take(items@.len() as int) =~= items@);
                Json::Array(copies)
            },
            Json::Object(entries) => {
                let mut copies: Vec<(String, Json)> = Vec::new();
                let mut i: usize = 0;
                assert(entries@.take(0) =~= Seq::empty());
                while i < entries.len()
                    invariant
                        i <= entries@.len(),
                        *self == Json::Object(*entries),
                        entries_view(copies@) == entries_view(entries@.take(i as int)),
                    decreases entries@.len() - i,
                {
                    let ghost before = copies@;
                    proof {
                        lemma_entry_decreases(*self, *entries, i as int);
                    }
                    let copy = entries[i].1.clone();
                    copies.push((entries[i].0.clone(), copy));
                    assert(copies@.drop_last() =~= before);
                    assert(entries@.take(i + 1).drop_last() =~= entries@.take(i as int));
                    i += 1;
                }
                assert(entries@.take(entries@.len() as int) =~= entries@);
                Json::Object(copies)
            },
        }
    }
}

// ---------------------------------------------------------------------------
// Laws
// ---------------------------------------------------------------------------

/// A member is read as what stands there, and only as that: a text as a text, an
/// integer within `i64` as that integer, `true` as a flag that is set. What is no
/// object has no members.
pub proof fn lemma_reading_members(
    members: Map<Seq<char>, JsonView>,
    key: Seq<char>,
    text: Seq<char>,
    i: i64,
)
    ensures
        ({
            let object = JsonView::Object(members);
            let there = members.contains_key(key);
            &&& field(object, key) is Some <==> there
            &&& there ==> field(object, key) == Some(members[key])
            &&& text_field(object, key) == Some(text) <==> there && members[key]
                == JsonView::String(text)
            &&& integer_field(object, key) == Some(i) <==> there && members[key]
                == JsonView::Number(NumberView::Int(i as int))
            &&& flag_field(object, key) <==> there && members[key] == JsonView::Bool(true)
        }),
        forall|v: JsonView|
            !(v is Object) ==> #[trigger] field(v, key) is None && text_field(v, key) is None
                && integer_field(v, key) is None && !flag_field(v, key),
{
}

/// A value by itself is read as what it is, and only as that.
pub proof fn lemma_reading_values(v: JsonView, text: Seq<char>, truth: bool, i: i64)
    ensures
        as_text(v) == Some(text) <==> v == JsonView::String(text),
        as_truth(v) == Some(truth) <==> v == JsonView::Bool(truth),
        as_integer(v) == Some(i) <==> v == JsonView::Number(NumberView::Int(i as int)),
{
}

/// Setting a member puts the value there and leaves every other member as it
/// was; the empty object has no members, and an integer is that number.
pub proof fn lemma_setting_members(
    members: Map<Seq<char>, JsonView>,
    key: Seq<char>,
    value: JsonView,
    i: int,
)
    ensures
        with_field(JsonView::Object(members), key, value) == JsonView::Object(
            members.insert(key, value),
        ),
        empty_object() == JsonView::Object(Map::empty()),
        integer(i) == JsonView::Number(NumberView::Int(i)),
{
}

/// A document holds what it is made of: a list its items in order, and an object
/// what the latest entry with a key holds.
pub proof fn lemma_documents(
    entries: Seq<(String, Json)>,
    entry: (String, Json),
    items: Seq<Json>,
    item: Json,
    key: Seq<char>,
)
    ensures
        entries_view(Seq::empty()) == Map::<Seq<char>, JsonView>::empty(),
        ({
            let more = entries_view(entries.push(entry));
            &&& more.contains_key(key) <==> key == entry.0@ || entries_view(entries).contains_key(
                key,
            )
            &&& more[entry.0@] == entry.1@
            &&& key != entry.0@ && entries_view(entries).contains_key(key) ==> more[key]
                == entries_view(entries)[key]
        }),
        items_view(Seq::empty()).len() == 0,
        items_view(items.push(item)) == items_view(items).push(item@),
{
    assert(entries.push(entry).drop_last() =~= entries);
    assert(items.push(item).drop_last() =~= items);
}

} // verus!
