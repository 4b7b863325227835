//! JSON documents from text and to text, through `serde_json`.
use vstd::prelude::*;

use crate::json::{items_view, lemma_items_push, lemma_members_push, members_view, Json, JsonView};
use crate::text::blank;

verus! {

/// What a `serde_json::Value` holds.
pub uninterp spec fn document_of(value: serde_json::Value) -> JsonView;

/// What `serde_json::from_str` makes of a text: the document, or the message of the error.
pub uninterp spec fn parse_outcome(text: Seq<char>) -> Result<JsonView, Seq<char>>;

/// The text that `serde_json::to_string_pretty` makes of a document.
pub uninterp spec fn printed_text(document: JsonView) -> Seq<char>;

/// What `serde_json::Number::is_f64` says of a number.
pub uninterp spec fn float_number(number: serde_json::Number) -> bool;

/// How deep `serde_json::from_str` lets arrays and objects nest.
pub open spec fn depth_limit() -> nat {
    127
}

/// A document nested at most `depth` deep.
pub open spec fn nests(document: JsonView, depth: nat) -> bool
    decreases document,
{
    match document {
        JsonView::Array(items) => depth > 0 && forall|i: int|
            0 <= i < items.len() ==> nests(#[trigger] items[i], (depth - 1) as nat),
        JsonView::Object(members) => depth > 0 && forall|key: Seq<char>| #[trigger]
            members.contains_key(key) ==> nests(members[key], (depth - 1) as nat),
        _ => true,
    }
}

/// A document that holds a float somewhere.
pub open spec fn has_float(document: JsonView) -> bool
    decreases document,
{
    match document {
        JsonView::Number(number) => float_number(number),
        JsonView::Array(items) => exists|i: int|
            0 <= i < items.len() && has_float(#[trigger] items[i]),
        JsonView::Object(members) => exists|key: Seq<char>| #[trigger]
            members.contains_key(key) && has_float(members[key]),
        _ => false,
    }
}

/// The number that is found where a number was printed: an integer is found again, a float may
/// come back as another number.
pub open spec fn reread_number(number: serde_json::Number) -> serde_json::Number {
    if float_number(number) {
        match parse_outcome(printed_text(JsonView::Number(number))) {
            Ok(JsonView::Number(found)) => found,
            _ => number,
        }
    } else {
        number
    }
}

/// The document that is found where a document was printed: the same, but for its floats.
pub open spec fn reread(document: JsonView) -> JsonView
    decreases document,
{
    match document {
        JsonView::Number(number) => JsonView::Number(reread_number(number)),
        JsonView::Array(items) => JsonView::Array(
            Seq::new(
                items.len(),
                |i: int|
                    if 0 <= i < items.len() {
                        reread(items[i])
                    } else {
                        JsonView::Null
                    },
            ),
        ),
        JsonView::Object(members) => JsonView::Object(
            Map::new(
                |key: Seq<char>| members.contains_key(key),
                |key: Seq<char>|
                    if members.contains_key(key) {
                        reread(members[key])
                    } else {
                        JsonView::Null
                    },
            ),
        ),
        other => other,
    }
}

/// The outermost layer of a `serde_json::Value`.
pub enum Layer {
    Null,
    Bool(bool),
    Number(serde_json::Number),
    Text(String),
    Array(Vec<serde_json::Value>),
    Object(Vec<(String, serde_json::Value)>),
}

/// The document that has `layer` for its outermost layer.
pub open spec fn layer_view(layer: Layer) -> JsonView {
    match layer {
        Layer::Null => JsonView::Null,
        Layer::Bool(b) => JsonView::Bool(b),
        Layer::Number(n) => JsonView::Number(n),
        Layer::Text(s) => JsonView::Text(s@),
        Layer::Array(items) => JsonView::Array(documents_of(items@)),
        Layer::Object(members) => JsonView::Object(layer_members(members@)),
    }
}

/// The members of an object layer.
pub open spec fn layer_members(members: Seq<(String, serde_json::Value)>) -> Map<
    Seq<char>,
    JsonView,
>
    decreases members.len(),
{
    if members.len() == 0 {
        Map::empty()
    } else {
        layer_members(members.drop_last()).insert(members.last().0@, document_of(members.last().1))
    }
}

/// No two members of an object layer have the same key.
pub open spec fn distinct_keys(members: Seq<(String, serde_json::Value)>) -> bool {
    forall|i: int, j: int|
        0 <= i < j < members.len() ==> #[trigger] members[i].0@ != #[trigger] members[j].0@
}

/// `serde_json::from_str` into a `serde_json::Value`. The outcome, error message included, is
/// named by `parse_outcome`. Text that nests deeper than the limit is an error.
#[verifier::external_body]
fn parse_value(text: &str) -> (res: Result<serde_json::Value, String>)
    ensures
        match res {
            Ok(value) => parse_outcome(text@) == Ok::<JsonView, Seq<char>>(document_of(value))
                && nests(document_of(value), depth_limit()),
            Err(message) => parse_outcome(text@) == Err::<JsonView, Seq<char>>(message@),
        },
{
    serde_json::from_str::<serde_json::Value>(text).map_err(|e| e.to_string())
}

/// `serde_json::to_string_pretty` of a `serde_json::Value`. It succeeds: the keys of an object are
/// strings, a number is always written, and writing goes to memory. The text is named by
/// `printed_text`: an object is kept and printed in the order of its keys, so the document alone
/// decides. Printed text is never blank, and unless the document nests too deep,
/// `serde_json::from_str` reads the document back from it. Integers come back as they were. A float
/// is printed as its shortest decimal, which is read as a finite number again, though not always as
/// the same one; it is read alike wherever it stands.
#[verifier::external_body]
fn print_value(value: &serde_json::Value) -> (res: Result<String, String>)
    ensures
        res is Ok,
        res->Ok_0@ == printed_text(document_of(*value)),
        !blank(res->Ok_0@),
        nests(document_of(*value), depth_limit()) ==> (parse_outcome(res->Ok_0@) == Ok::<
            JsonView,
            Seq<char>,
        >(reread(document_of(*value)))),
{
    serde_json::to_string_pretty(value).map_err(|e| e.to_string())
}

/// `serde_json::Number::is_f64`: whether a number is a float and no integer. The answer is named by
/// `float_number`.
#[verifier::external_body]
fn number_is_float(number: &serde_json::Number) -> (res: bool)
    ensures
        res == float_number(*number),
{
    number.is_f64()
}

/// Takes a `serde_json::Value` apart: one layer per variant, with what the variant holds. The
/// keys of a `serde_json::Map` are distinct.
#[verifier::external_body]
fn open_value(value: serde_json::Value) -> (layer: Layer)
    ensures
        layer_view(layer) == document_of(value),
        layer matches Layer::Object(members) ==> distinct_keys(members@),
{
    match value {
        serde_json::Value::Null => Layer::Null,
        serde_json::Value::Bool(b) => Layer::Bool(b),
        serde_json::Value::Number(n) => Layer::Number(n),
        serde_json::Value::String(s) => Layer::Text(s),
        serde_json::Value::Array(items) => Layer::Array(items),
        serde_json::Value::Object(members) => Layer::Object(members.into_iter().collect()),
    }
}

/// Puts a `serde_json::Value` together, the reverse of `open_value`: an object becomes the
/// `serde_json::Map` of its members.
#[verifier::external_body]
fn close_value(layer: Layer) -> (value: serde_json::Value)
    requires
        layer matches Layer::Object(members) ==> distinct_keys(members@),
    ensures
        document_of(value) == layer_view(layer),
{
    match layer {
        Layer::Null => serde_json::Value::Null,
        Layer::Bool(b) => serde_json::Value::Bool(b),
        Layer::Number(n) => serde_json::Value::Number(n),
        Layer::Text(s) => serde_json::Value::String(s),
        Layer::Array(items) => serde_json::Value::Array(items),
        Layer::Object(members) => serde_json::Value::Object(members.into_iter().collect()),
    }
}

/// One more member sets its key.
proof fn lemma_layer_push(
    members: Seq<(String, serde_json::Value)>,
    member: (String, serde_json::Value),
)
    ensures
        layer_members(members.push(member)) == layer_members(members).insert(
            member.0@,
            document_of(member.1),
        ),
{
    assert(members.push(member).drop_last() =~= members);
}

/// A new value for the last occurrence of a key replaces the old one.
proof fn lemma_layer_set(
    members: Seq<(String, serde_json::Value)>,
    at: int,
    value: serde_json::Value,
)
    requires
        0 <= at < members.len(),
        forall|i: int| at < i < members.len() ==> #[trigger] members[i].0@ != members[at].0@,
    ensures
        layer_members(members.update(at, (members[at].0, value))) == layer_members(members).insert(
            members[at].0@,
            document_of(value),
        ),
    decreases members.len(),
{
    let changed = members.update(at, (members[at].0, value));
    let rest = members.drop_last();
    if at == members.len() - 1 {
        assert(changed.drop_last() =~= rest);
    } else {
        assert(forall|i: int| 0 <= i < rest.len() ==> rest[i] == members[i]);
        assert forall|i: int| at < i < rest.len() implies #[trigger] rest[i].0@ != rest[at].0@ by {
            assert(members[i].0@ != members[at].0@);
        }
        lemma_layer_set(rest, at, value);
        assert(changed.drop_last() =~= rest.update(at, (rest[at].0, value)));
        assert(members[members.len() - 1].0@ != members[at].0@);
    }
    assert(layer_members(changed) =~= layer_members(members).insert(
        members[at].0@,
        document_of(value),
    ));
}

/// Each member of a layer is a member of the document.
proof fn lemma_layer_member(members: Seq<(String, serde_json::Value)>, at: int)
    requires
        0 <= at < members.len(),
        distinct_keys(members),
    ensures
        layer_members(members).contains_key(members[at].0@),
        layer_members(members)[members[at].0@] == document_of(members[at].1),
    decreases members.len(),
{
    let rest = members.drop_last();
    assert(forall|i: int| 0 <= i < rest.len() ==> rest[i] == members[i]);
    if at < members.len() - 1 {
        assert(distinct_keys(rest)) by {
            assert forall|i: int, j: int| 0 <= i < j < rest.len() implies #[trigger] rest[i].0@
                != #[trigger] rest[j].0@ by {
                assert(members[i].0@ != members[j].0@);
            }
        }
        lemma_layer_member(rest, at);
        assert(members[at].0@ != members[members.len() - 1].0@);
    }
}

/// An object layer has finitely many keys.
proof fn lemma_layer_finite(members: Seq<(String, serde_json::Value)>)
    ensures
        layer_members(members).dom().finite(),
    decreases members.len(),
{
    if members.len() > 0 {
        lemma_layer_finite(members.drop_last());
    }
}

/// What the items of an array layer hold.
pub open spec fn documents_of(values: Seq<serde_json::Value>) -> Seq<JsonView> {
    values.map_values(|item: serde_json::Value| document_of(item))
}

/// The document that a `serde_json::Value` holds.
fn from_value(value: serde_json::Value) -> (json: Json)
    ensures
        json@ == document_of(value),
    decreases document_of(value),
{
    match open_value(value) {
        Layer::Null => Json::Null,
        Layer::Bool(b) => Json::Bool(b),
        Layer::Number(n) => Json::Number(n),
        Layer::Text(s) => Json::Text(s),
        Layer::Array(values) => {
            let ghost all = values@;
            let mut items: Vec<Json> = Vec::new();
            for item in iter: values
                invariant
                    iter.seq() == all,
                    document_of(value) == JsonView::Array(documents_of(all)),
                    items_view(items@) == documents_of(all.take(iter.index() as int)),
            {
                let ghost done = iter.index() as int;
                assert(item == all[done]);
                assert(documents_of(all)[done] == document_of(item));
                assert(decreases_to!(document_of(value) => document_of(value)->Array_0));
                assert(decreases_to!(documents_of(all) => documents_of(all)[done]));
                let json = from_value(item);
                proof {
                    lemma_items_push(items@, json);
                    assert(documents_of(all.take(done + 1)) =~= documents_of(all.take(done)).push(
                        document_of(item),
                    ));
                }
                items.push(json);
            }
            assert(all.take(all.len() as int) =~= all);
            Json::Array(items)
        },
        Layer::Object(values) => {
            let ghost all = values@;
            let mut members: Vec<(String, Json)> = Vec::new();
            for member in iter: values
                invariant
                    iter.seq() == all,
                    distinct_keys(all),
                    document_of(value) == JsonView::Object(layer_members(all)),
                    members_view(members@) == layer_members(all.take(iter.index() as int)),
            {
                let ghost done = iter.index() as int;
                let (key, inner) = member;
                proof {
                    lemma_layer_finite(all);
                    lemma_layer_member(all, done);
                    lemma_layer_push(all.take(done), all[done]);
                    assert(all.take(done + 1) =~= all.take(done).push(all[done]));
                }
                assert(decreases_to!(document_of(value) => document_of(value)->Object_0));
                assert(decreases_to!(layer_members(all) => layer_members(all)[key@]));
                let json = from_value(inner);
                proof {
                    lemma_members_push(members@, (key, json));
                }
                members.push((key, json));
            }
            assert(all.take(all.len() as int) =~= all);
            Json::Object(members)
        },
    }
}

/// The `serde_json::Value` that holds a document.
fn to_value(json: &Json) -> (value: serde_json::Value)
    ensures
        document_of(value) == json@,
    decreases *json,
{
    match json {
        Json::Null => close_value(Layer::Null),
        Json::Bool(b) => close_value(Layer::Bool(*b)),
        Json::Number(n) => close_value(Layer::Number(n.clone())),
        Json::Text(s) => close_value(Layer::Text(s.clone())),
        Json::Array(items) => {
            let mut values: Vec<serde_json::Value> = Vec::new();
            let mut i: usize = 0;
            while i < items.len()
                invariant
                    i <= items.len(),
                    *json == Json::Array(*items),
                    documents_of(values@) == items_view(items@.take(i as int)),
                decreases items.len() - i,
            {
                assert(decreases_to!(*json => json->Array_0));
                assert(decreases_to!(items => items[i as int]));
                let value = to_value(&items[i]);
                proof {
                    lemma_items_push(items@.take(i as int), items@[i as int]);
                    assert(items@.take(i + 1) =~= items@.take(i as int).push(items@[i as int]));
                    assert(documents_of(values@.push(value)) =~= documents_of(values@).push(
                        document_of(value),
                    ));
                }
                values.push(value);
                i = i + 1;
            }
            assert(items@.take(i as int) =~= items@);
            close_value(Layer::Array(values))
        },
        Json::Object(members) => {
            let mut values: Vec<(String, serde_json::Value)> = Vec::new();
            let mut i: usize = 0;
            while i < members.len()
                invariant
                    i <= members.len(),
                    *json == Json::Object(*members),
                    distinct_keys(values@),
                    layer_members(values@) == members_view(members@.take(i as int)),
                decreases members.len() - i,
            {
                assert(decreases_to!(*json => json->Object_0));
                assert(decreases_to!(members => members[i as int]));
                assert(decreases_to!(members[i as int] => members[i as int].1));
                let value = to_value(&members[i].1);
                proof {
                    lemma_members_push(members@.take(i as int), members@[i as int]);
                    assert(members@.take(i + 1) =~= members@.take(i as int).push(
                        members@[i as int],
                    ));
                }
                set_member(&mut values, &members[i].0, value);
                i = i + 1;
            }
            assert(members@.take(i as int) =~= members@);
            close_value(Layer::Object(values))
        },
    }
}

/// Puts `value` under `key` in an object layer.
fn set_member(members: &mut Vec<(String, serde_json::Value)>, key: &String, value: serde_json::Value)
    requires
        distinct_keys(old(members)@),
    ensures
        distinct_keys(final(members)@),
        layer_members(final(members)@) == layer_members(old(members)@).insert(
            key@,
            document_of(value),
        ),
{
    let mut at: usize = 0;
    while at < members.len()
        invariant
            at <= members.len(),
            *members == *old(members),
            distinct_keys(members@),
            forall|i: int| 0 <= i < at ==> #[trigger] members@[i].0@ != key@,
        decreases members.len() - at,
    {
        if members[at].0 == *key {
            let name = members[at].0.clone();
            proof {
                lemma_layer_set(members@, at as int, value);
            }
            members.set(at, (name, value));
            return;
        }
        at = at + 1;
    }
    let member = (key.clone(), value);
    proof {
        lemma_layer_push(members@, member);
    }
    members.push(member);
}

impl Json {
    /// The document that a text spells; an error brings the parser's message.
    pub fn parse(text: &str) -> (res: Result<Json, String>)
        ensures
            match res {
                Ok(json) => parse_outcome(text@) == Ok::<JsonView, Seq<char>>(json@) && nests(
                    json@,
                    depth_limit(),
                ),
                Err(message) => parse_outcome(text@) == Err::<JsonView, Seq<char>>(message@),
            },
    {
        match parse_value(text) {
            Ok(value) => Ok(from_value(value)),
            Err(message) => Err(message),
        }
    }

    /// The document as indented text, in which `parse` finds it again, but for its floats.
    pub fn pretty(&self) -> (res: Result<String, String>)
        ensures
            res matches Ok(text) && {
                &&& text@ == printed_text(self@)
                &&& !blank(text@)
                &&& nests(self@, depth_limit()) ==> parse_outcome(text@) == Ok::<
                    JsonView,
                    Seq<char>,
                >(reread(self@))
            },
    {
        let value = to_value(self);
        print_value(&value)
    }

    /// Whether the document is a float: a number that may be read back as another.
    pub fn is_float(&self) -> (res: bool)
        ensures
            res == (self@ matches JsonView::Number(number) && float_number(number)),
    {
        match self {
            Json::Number(number) => number_is_float(number),
            _ => false,
        }
    }
}

/// A member that fits leaves an object within its depth.
pub proof fn lemma_nests_with_field(
    document: JsonView,
    key: Seq<char>,
    value: JsonView,
    depth: nat,
)
    requires
        nests(document, depth),
        depth > 0,
        nests(value, (depth - 1) as nat),
    ensures
        nests(document.with_field(key, value), depth),
{
}

/// A document is read back with the same members, each read back.
pub proof fn lemma_reread_field(document: JsonView, key: Seq<char>)
    ensures
        reread(document) is Object <==> document is Object,
        reread(document).field(key) == match document.field(key) {
            Some(member) => Some(reread(member)),
            None => None::<JsonView>,
        },
        reread(document).text() == document.text(),
        reread(document).text_field(key) == document.text_field(key),
{
    match document.field(key) {
        Some(member) => {
            assert(reread(member).text() == member.text());
        },
        None => {},
    }
}

/// Setting a member and reading back can be done in either order.
pub proof fn lemma_reread_with_field(document: JsonView, key: Seq<char>, value: JsonView)
    ensures
        reread(document.with_field(key, value)) == reread(document).with_field(key, reread(value)),
{
    match (reread(document.with_field(key, value)), reread(document)) {
        (JsonView::Object(left), JsonView::Object(right)) => {
            assert(left =~= right.insert(key, reread(value)));
        },
        _ => {},
    }
}

/// A document without floats is read back as it was printed.
pub proof fn law_without_floats_nothing_changes(document: JsonView)
    requires
        !has_float(document),
    ensures
        reread(document) == document,
    decreases document,
{
    match document {
        JsonView::Array(items) => {
            assert forall|i: int| 0 <= i < items.len() implies reread(#[trigger] items[i])
                == items[i] by {
                law_without_floats_nothing_changes(items[i]);
            }
            assert(reread(document)->Array_0 =~= items);
        },
        JsonView::Object(members) => {
            assert forall|key: Seq<char>| #[trigger] members.contains_key(key) implies reread(
                members[key],
            ) == members[key] by {
                law_without_floats_nothing_changes(members[key]);
            }
            assert(reread(document)->Object_0 =~= members);
        },
        _ => {},
    }
}

} // verus!
