//! JSON documents: the type, what a document says, and its members.
use vstd::prelude::*;

use crate::text::same_text;

verus! {

/// The numbers that `serde_json` parses and prints. The library only carries them.
#[verifier::external_type_specification]
#[verifier::external_body]
pub struct ExNumber(serde_json::Number);

/// The document type of `serde_json`. It is opaque here; `document_of` names what a value holds.
#[verifier::external_type_specification]
#[verifier::external_body]
pub struct ExValue(serde_json::Value);

/// `<serde_json::Number as Clone>::clone`: the copy is the number itself.
pub assume_specification[ <serde_json::Number as Clone>::clone ](
    number: &serde_json::Number,
) -> (copy: serde_json::Number)
    ensures
        copy == *number,
;

/// A JSON document. Where a key occurs twice in an object, the last occurrence counts.
#[derive(Debug)]
pub enum Json {
    Null,
    Bool(bool),
    Number(serde_json::Number),
    Text(String),
    Array(Vec<Json>),
    Object(Vec<(String, Json)>),
}

/// What a JSON document says: the members of an object have no order.
pub enum JsonView {
    Null,
    Bool(bool),
    Number(serde_json::Number),
    Text(Seq<char>),
    Array(Seq<JsonView>),
    Object(Map<Seq<char>, JsonView>),
}

impl JsonView {
    /// The member of an object under `key`; nothing where there is none, or no object.
    pub open spec fn field(self, key: Seq<char>) -> Option<JsonView> {
        match self {
            JsonView::Object(members) => if members.contains_key(key) {
                Some(members[key])
            } else {
                None
            },
            _ => None,
        }
    }

    /// The text of a string document.
    pub open spec fn text(self) -> Option<Seq<char>> {
        match self {
            JsonView::Text(text) => Some(text),
            _ => None,
        }
    }

    /// The items of an array document.
    pub open spec fn items(self) -> Option<Seq<JsonView>> {
        match self {
            JsonView::Array(items) => Some(items),
            _ => None,
        }
    }

    /// The text of the string under `key`.
    pub open spec fn text_field(self, key: Seq<char>) -> Option<Seq<char>> {
        match self.field(key) {
            Some(member) => member.text(),
            None => None,
        }
    }

    /// The object with `value` under `key`; any other document is left as it is.
    pub open spec fn with_field(self, key: Seq<char>, value: JsonView) -> JsonView {
        match self {
            JsonView::Object(members) => JsonView::Object(members.insert(key, value)),
            other => other,
        }
    }

    /// The object without members.
    pub open spec fn empty_object() -> JsonView {
        JsonView::Object(Map::empty())
    }
}

impl View for Json {
    type V = JsonView;

    open spec fn view(&self) -> JsonView {
        json_view(*self)
    }
}

pub open spec fn json_view(json: Json) -> JsonView
    decreases json,
{
    match json {
        Json::Null => JsonView::Null,
        Json::Bool(b) => JsonView::Bool(b),
        Json::Number(n) => JsonView::Number(n),
        Json::Text(s) => JsonView::Text(s@),
        Json::Array(items) => JsonView::Array(items_view(items@)),
        Json::Object(members) => JsonView::Object(members_view(members@)),
    }
}

/// What the items of an array say, in order.
pub open spec fn items_view(items: Seq<Json>) -> Seq<JsonView>
    decreases items,
{
    if items.len() == 0 {
        Seq::empty()
    } else {
        items_view(items.drop_last()).push(json_view(items.last()))
    }
}

/// What the members of an object say: each key with the value of its last occurrence.
pub open spec fn members_view(members: Seq<(String, Json)>) -> Map<Seq<char>, JsonView>
    decreases members,
{
    if members.len() == 0 {
        Map::empty()
    } else {
        members_view(members.drop_last()).insert(members.last().0@, json_view(members.last().1))
    }
}

/// The view of an array has one entry for each item.
pub proof fn lemma_items_view(items: Seq<Json>)
    ensures
        items_view(items).len() == items.len(),
        forall|i: int|
            0 <= i < items.len() ==> #[trigger] items_view(items)[i] == json_view(items[i]),
    decreases items.len(),
{
    if items.len() > 0 {
        lemma_items_view(items.drop_last());
        assert forall|i: int| 0 <= i < items.len() implies #[trigger] items_view(items)[i]
            == json_view(items[i]) by {
            if i < items.len() - 1 {
                assert(items_view(items)[i] == items_view(items.drop_last())[i]);
                assert(items.drop_last()[i] == items[i]);
            }
        }
    }
}

/// A key is a member exactly where it occurs.
pub proof fn lemma_members_key(members: Seq<(String, Json)>, key: Seq<char>)
    ensures
        members_view(members).contains_key(key) <==> exists|i: int|
            0 <= i < members.len() && #[trigger] members[i].0@ == key,
    decreases members.len(),
{
    if members.len() > 0 {
        let rest = members.drop_last();
        lemma_members_key(rest, key);
        if members.last().0@ == key {
            assert(members[members.len() - 1].0@ == key);
        } else if exists|i: int| 0 <= i < rest.len() && #[trigger] rest[i].0@ == key {
            let i = choose|i: int| 0 <= i < rest.len() && #[trigger] rest[i].0@ == key;
            assert(members[i].0@ == key);
        } else if exists|i: int| 0 <= i < members.len() && #[trigger] members[i].0@ == key {
            let i = choose|i: int| 0 <= i < members.len() && #[trigger] members[i].0@ == key;
            assert(rest[i].0@ == key);
        }
    }
}

/// The last occurrence of a key gives its value, and a new value there replaces it.
pub proof fn lemma_members_last(members: Seq<(String, Json)>, at: int, value: Json)
    requires
        0 <= at < members.len(),
        forall|i: int| at < i < members.len() ==> #[trigger] members[i].0@ != members[at].0@,
    ensures
        members_view(members).contains_key(members[at].0@),
        members_view(members)[members[at].0@] == json_view(members[at].1),
        members_view(members.update(at, (members[at].0, value))) == members_view(members).insert(
            members[at].0@,
            json_view(value),
        ),
    decreases members.len(),
{
    let changed = members.update(at, (members[at].0, value));
    let rest = members.drop_last();
    if at == members.len() - 1 {
        assert(changed.drop_last() =~= rest);
        assert(members_view(changed) =~= members_view(members).insert(
            members[at].0@,
            json_view(value),
        ));
    } else {
        assert(forall|i: int| 0 <= i < rest.len() ==> rest[i] == members[i]);
        assert forall|i: int| at < i < rest.len() implies #[trigger] rest[i].0@ != rest[at].0@ by {
            assert(members[i].0@ != members[at].0@);
        }
        lemma_members_last(rest, at, value);
        assert(changed.drop_last() =~= rest.update(at, (rest[at].0, value)));
        assert(members[members.len() - 1].0@ != members[at].0@);
        assert(members_view(changed) =~= members_view(members).insert(
            members[at].0@,
            json_view(value),
        ));
    }
}

/// One more item adds one more entry.
pub proof fn lemma_items_push(items: Seq<Json>, item: Json)
    ensures
        items_view(items.push(item)) == items_view(items).push(json_view(item)),
{
    assert(items.push(item).drop_last() =~= items);
}

/// One more member sets its key.
pub proof fn lemma_members_push(members: Seq<(String, Json)>, member: (String, Json))
    ensures
        members_view(members.push(member)) == members_view(members).insert(
            member.0@,
            json_view(member.1),
        ),
{
    assert(members.push(member).drop_last() =~= members);
}

impl Clone for Json {
    fn clone(&self) -> (copy: Self)
        ensures
            copy@ == self@,
        decreases *self,
    {
        match self {
            Json::Null => Json::Null,
            Json::Bool(b) => Json::Bool(*b),
            Json::Number(n) => Json::Number(n.clone()),
            Json::Text(s) => Json::Text(s.clone()),
            Json::Array(items) => {
                let mut copies: Vec<Json> = Vec::new();
                let mut i: usize = 0;
                while i < items.len()
                    invariant
                        i <= items.len(),
                        *self == Json::Array(*items),
                        items_view(copies@) == items_view(items@.take(i as int)),
                    decreases items.len() - i,
                {
                    assert(decreases_to!(*self => self->Array_0));
                    assert(decreases_to!(items => items[i as int]));
                    let item = items[i].clone();
                    proof {
                        lemma_items_push(copies@, item);
                        lemma_items_push(items@.take(i as int), items@[i as int]);
                        assert(items@.take(i + 1) =~= items@.take(i as int).push(items@[i as int]));
                    }
                    copies.push(item);
                    i = i + 1;
                }
                assert(items@.take(i as int) =~= items@);
                Json::Array(copies)
            },
            Json::Object(members) => {
                let mut copies: Vec<(String, Json)> = Vec::new();
                let mut i: usize = 0;
                while i < members.len()
                    invariant
                        i <= members.len(),
                        *self == Json::Object(*members),
                        members_view(copies@) == members_view(members@.take(i as int)),
                    decreases members.len() - i,
                {
                    assert(decreases_to!(*self => self->Object_0));
                    assert(decreases_to!(members => members[i as int]));
                    assert(decreases_to!(members[i as int] => members[i as int].1));
                    let member = (members[i].0.clone(), members[i].1.clone());
                    proof {
                        lemma_members_push(copies@, member);
                        lemma_members_push(members@.take(i as int), members@[i as int]);
                        assert(members@.take(i + 1) =~= members@.take(i as int).push(
                            members@[i as int],
                        ));
                    }
                    copies.push(member);
                    i = i + 1;
                }
                assert(members@.take(i as int) =~= members@);
                Json::Object(copies)
            },
        }
    }
}

impl Json {
    /// The member of an object under `key`.
    pub fn get(&self, key: &str) -> (member: Option<&Json>)
        ensures
            match member {
                Some(json) => self@.field(key@) == Some(json@),
                None => self@.field(key@) is None,
            },
    {
        match self {
            Json::Object(members) => match last_occurrence(members, key) {
                Some(at) => {
                    proof {
                        lemma_members_last(members@, at as int, Json::Null);
                    }
                    Some(&members[at].1)
                },
                None => {
                    proof {
                        lemma_members_key(members@, key@);
                    }
                    None
                },
            },
            _ => None,
        }
    }

    /// The text of a string document.
    pub fn as_str(&self) -> (text: Option<&str>)
        ensures
            match text {
                Some(text) => self@.text() == Some(text@),
                None => self@.text() is None,
            },
    {
        match self {
            Json::Text(text) => Some(text.as_str()),
            _ => None,
        }
    }

    /// The items of an array document.
    pub fn as_array(&self) -> (items: Option<&Vec<Json>>)
        ensures
            match items {
                Some(items) => self@.items() == Some(items_view(items@)),
                None => self@.items() is None,
            },
    {
        match self {
            Json::Array(items) => Some(items),
            _ => None,
        }
    }

    /// The text of the string under `key`.
    pub fn get_str(&self, key: &str) -> (text: Option<&str>)
        ensures
            match text {
                Some(text) => self@.text_field(key@) == Some(text@),
                None => self@.text_field(key@) is None,
            },
    {
        match self.get(key) {
            Some(member) => member.as_str(),
            None => None,
        }
    }

    /// Whether the document is an object.
    pub fn is_object(&self) -> (res: bool)
        ensures
            res == (self@ is Object),
    {
        match self {
            Json::Object(_) => true,
            _ => false,
        }
    }

    /// A string document.
    pub fn string(text: &str) -> (json: Json)
        ensures
            json@ == JsonView::Text(text@),
    {
        Json::Text(text.to_string())
    }

    /// The object without members.
    pub fn empty_object() -> (json: Json)
        ensures
            json@ == JsonView::empty_object(),
    {
        Json::Object(Vec::new())
    }

    /// Puts `value` under `key` of an object; any other document is left as it is.
    pub fn insert(&mut self, key: &str, value: Json)
        ensures
            final(self)@ == old(self)@.with_field(key@, value@),
    {
        match self {
            Json::Object(members) => {
                match last_occurrence(members, key) {
                    Some(at) => {
                        proof {
                            lemma_members_last(members@, at as int, value);
                        }
                        let name = members[at].0.clone();
                        members.set(at, (name, value));
                    },
                    None => {
                        let member = (key.to_string(), value);
                        proof {
                            lemma_members_push(members@, member);
                        }
                        members.push(member);
                    },
                }
            },
            _ => {},
        }
    }
}

/// Where `key` occurs last among the members of an object.
fn last_occurrence(members: &Vec<(String, Json)>, key: &str) -> (at: Option<usize>)
    ensures
        match at {
            Some(at) => {
                &&& at < members@.len()
                &&& members@[at as int].0@ == key@
                &&& forall|i: int| at < i < members@.len() ==> #[trigger] members@[i].0@ != key@
            },
            None => forall|i: int| 0 <= i < members@.len() ==> #[trigger] members@[i].0@ != key@,
        },
{
    let mut at: usize = members.len();
    while at > 0
        invariant
            at <= members.len(),
            forall|i: int| at <= i < members@.len() ==> #[trigger] members@[i].0@ != key@,
        decreases at,
    {
        if same_text(members[at - 1].0.as_str(), key) {
            return Some(at - 1);
        }
        at = at - 1;
    }
    None
}

/// The members of an object are those of its map, and nothing else has members, a text or items
/// that is no object, string or array.
pub proof fn law_parts_of_documents(
    document: JsonView,
    members: Map<Seq<char>, JsonView>,
    items: Seq<JsonView>,
    text: Seq<char>,
    key: Seq<char>,
)
    ensures
        JsonView::Object(members).field(key) is Some <==> members.dom().contains(key),
        members.dom().contains(key) ==> JsonView::Object(members).field(key) == Some(members[key]),
        !(document is Object) ==> document.field(key) is None,
        JsonView::Text(text).text() == Some(text),
        !(document is Text) ==> document.text() is None,
        JsonView::Array(items).items() == Some(items),
        !(document is Array) ==> document.items() is None,
        document.field(key) == Some(JsonView::Text(text)) <==> document.text_field(key) == Some(
            text,
        ),
        JsonView::empty_object().field(key) is None,
{
}

/// A member that was set is found, every other is what it was, and what is no object stays as it
/// is.
pub proof fn law_set_member_is_found(
    document: JsonView,
    key: Seq<char>,
    value: JsonView,
    other: Seq<char>,
)
    ensures
        document is Object ==> document.with_field(key, value) is Object,
        document is Object ==> document.with_field(key, value).field(key) == Some(value),
        other != key ==> document.with_field(key, value).field(other) == document.field(other),
        !(document is Object) ==> document.with_field(key, value) == document,
{
}

/// What a document says: its variant with what the variant holds, the items of an array one by one,
/// and of the members of an object with the same key the last.
pub proof fn law_view_of_documents(json: Json, i: int, key: Seq<char>)
    ensures
        match json {
            Json::Null => json@ is Null,
            Json::Bool(b) => json@ == JsonView::Bool(b),
            Json::Number(number) => json@ == JsonView::Number(number),
            Json::Text(text) => json@ == JsonView::Text(text@),
            Json::Array(items) => json@ matches JsonView::Array(views) && views.len()
                == items@.len() && (0 <= i < items@.len() ==> views[i] == items@[i]@),
            Json::Object(members) => json@ matches JsonView::Object(views) && (views.contains_key(
                key,
            ) <==> exists|k: int| 0 <= k < members@.len() && #[trigger] members@[k].0@ == key) && (
            0 <= i < members@.len() && (forall|k: int|
                i < k < members@.len() ==> #[trigger] members@[k].0@ != members@[i].0@)
                ==> views.contains_key(members@[i].0@) && views[members@[i].0@]
                == members@[i].1@),
        },
{
    match json {
        Json::Array(items) => {
            lemma_items_view(items@);
        },
        Json::Object(members) => {
            lemma_members_key(members@, key);
            if 0 <= i < members@.len() && forall|k: int|
                i < k < members@.len() ==> #[trigger] members@[k].0@ != members@[i].0@ {
                lemma_members_last(members@, i, Json::Null);
            }
        },
        _ => {},
    }
}

} // verus!
