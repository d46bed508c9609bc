//! JSON documents, as plain values.

use crate::text;
use serde_json::{from_slice, Value};
use vstd::prelude::*;

verus! {

/// A JSON value. A number is held where it is an integer.
#[derive(Debug)]
pub enum Json {
    Null,
    Bool(bool),
    Number(Option<i128>),
    Text(String),
    Array(Vec<Json>),
    Object(Vec<(String, Json)>),
}

/// A JSON value, mathematically.
#[verifier::ext_equal]
pub enum JsonView {
    Null,
    Bool(bool),
    Number(Option<i128>),
    Text(Seq<char>),
    Array(Seq<JsonView>),
    Object(Seq<(Seq<char>, JsonView)>),
}

pub open spec fn json_view(value: Json) -> JsonView
    decreases value,
{
    match value {
        Json::Null => JsonView::Null,
        Json::Bool(flag) => JsonView::Bool(flag),
        Json::Number(number) => JsonView::Number(number),
        Json::Text(text) => JsonView::Text(text@),
        Json::Array(items) => JsonView::Array(
            Seq::new(
                items@.len(),
                |i: int|
                    if 0 <= i < items@.len() {
                        json_view(items@[i])
                    } else {
                        JsonView::Null
                    },
            ),
        ),
        Json::Object(members) => JsonView::Object(
            Seq::new(
                members@.len(),
                |i: int|
                    if 0 <= i < members@.len() {
                        (members@[i].0@, json_view(members@[i].1))
                    } else {
                        (seq![], JsonView::Null)
                    },
            ),
        ),
    }
}

impl View for Json {
    type V = JsonView;

    open spec fn view(&self) -> JsonView {
        json_view(*self)
    }
}

impl DeepView for Json {
    type V = JsonView;

    open spec fn deep_view(&self) -> JsonView {
        json_view(*self)
    }
}

/// The value of the first member named `key`, from member `from` on.
pub open spec fn member_from(
    members: Seq<(Seq<char>, JsonView)>,
    key: Seq<char>,
    from: nat,
) -> Option<JsonView>
    decreases members.len() - from,
{
    if from >= members.len() {
        None
    } else if members[from as int].0 == key {
        Some(members[from as int].1)
    } else {
        member_from(members, key, from + 1)
    }
}

/// The member of an object named `key`; nothing in any other value.
pub open spec fn member(value: JsonView, key: Seq<char>) -> Option<JsonView> {
    match value {
        JsonView::Object(members) => member_from(members, key, 0),
        _ => None,
    }
}

/// The text that a value is.
pub open spec fn text_in(value: Option<JsonView>) -> Option<Seq<char>> {
    match value {
        Some(JsonView::Text(text)) => Some(text),
        _ => None,
    }
}

/// The integer of 64 bits that a value is.
pub open spec fn integer_in(value: Option<JsonView>) -> Option<i64> {
    match value {
        Some(JsonView::Number(Some(n))) => if i64::MIN <= n <= i64::MAX {
            Some(n as i64)
        } else {
            None
        },
        _ => None,
    }
}

/// The truth value that a value is.
pub open spec fn flag_in(value: Option<JsonView>) -> Option<bool> {
    match value {
        Some(JsonView::Bool(flag)) => Some(flag),
        _ => None,
    }
}

/// The items of the array that a value is.
pub open spec fn items_in(value: Option<JsonView>) -> Option<Seq<JsonView>> {
    match value {
        Some(JsonView::Array(items)) => Some(items),
        _ => None,
    }
}

/// The names of an object's members; none in any other value.
pub open spec fn keys_of(value: JsonView) -> Seq<Seq<char>> {
    match value {
        JsonView::Object(members) => members.map_values(|m: (Seq<char>, JsonView)| m.0),
        _ => seq![],
    }
}

pub open spec fn optional_view(value: Option<&Json>) -> Option<JsonView> {
    match value {
        Some(json) => Some(json@),
        None => None,
    }
}

impl Json {
    /// The member of an object named `key`.
    pub fn get(&self, key: &str) -> (value: Option<&Json>)
        ensures
            optional_view(value) == member(self@, key@),
    {
        match self {
            Json::Object(members) => {
                let mut i: usize = 0;
                while i < members.len()
                    invariant
                        i <= members@.len(),
                        self@ matches JsonView::Object(view) && view.len() == members@.len() && (
                        forall|j: int|
                            0 <= j < view.len() ==> view[j] == ((members@[j].0)@, members@[j].1@))
                            && member_from(view, key@, 0) == member_from(view, key@, i as nat),
                    decreases members@.len() - i,
                {
                    if text::same(members[i].0.as_str(), key) {
                        return Some(&members[i].1);
                    }
                    i += 1;
                }
                None
            },
            _ => None,
        }
    }

    /// The text that this value is.
    pub fn as_str(&self) -> (text: Option<&str>)
        ensures
            text.deep_view() == text_in(Some(self@)),
    {
        match self {
            Json::Text(text) => Some(text.as_str()),
            _ => None,
        }
    }

    /// The integer of 64 bits that this value is.
    pub fn as_i64(&self) -> (number: Option<i64>)
        ensures
            number == integer_in(Some(self@)),
    {
        match self {
            Json::Number(Some(n)) => {
                if -0x8000_0000_0000_0000 <= *n && *n <= 0x7fff_ffff_ffff_ffff {
                    Some(*n as i64)
                } else {
                    None
                }
            },
            _ => None,
        }
    }

    /// The truth value that this value is.
    pub fn as_bool(&self) -> (flag: Option<bool>)
        ensures
            flag == flag_in(Some(self@)),
    {
        match self {
            Json::Bool(flag) => Some(*flag),
            _ => None,
        }
    }

    /// The items of the array that this value is.
    pub fn as_array(&self) -> (items: Option<&Vec<Json>>)
        ensures
            match items {
                Some(list) => items_in(Some(self@)) == Some(list.deep_view()),
                None => items_in(Some(self@)) is None,
            },
    {
        match self {
            Json::Array(items) => {
                assert(items_in(Some(self@)).unwrap() == items.deep_view());
                Some(items)
            },
            _ => None,
        }
    }

    /// The names of this object's members.
    pub fn keys(&self) -> (keys: Vec<String>)
        ensures
            keys.deep_view() == keys_of(self@),
    {
        let mut keys: Vec<String> = Vec::new();
        match self {
            Json::Object(members) => {
                let mut i: usize = 0;
                while i < members.len()
                    invariant
                        i <= members@.len(),
                        keys@.len() == i,
                        forall|j: int| 0 <= j < i ==> (#[trigger] keys@[j])@ == (members@[j].0)@,
                    decreases members@.len() - i,
                {
                    keys.push(members[i].0.clone());
                    i += 1;
                }
                assert(keys.deep_view() == keys_of(self@));
            },
            _ => {
                assert(keys.deep_view() == keys_of(self@));
            },
        }
        keys
    }
}

/// A text, as a JSON value.
pub fn of_text(text: &str) -> (value: Json)
    ensures
        value@ == JsonView::Text(text@),
{
    Json::Text(text.to_owned())
}

/// A text, as a JSON value; none is null.
pub open spec fn optional_text_view(text: Option<Seq<char>>) -> JsonView {
    match text {
        Some(text) => JsonView::Text(text),
        None => JsonView::Null,
    }
}

pub fn of_optional_text(text: &Option<String>) -> (value: Json)
    ensures
        value@ == optional_text_view(text.deep_view()),
{
    match text {
        Some(text) => Json::Text(text.clone()),
        None => Json::Null,
    }
}

/// A number, as a JSON value.
pub open spec fn number_view(number: int) -> JsonView {
    JsonView::Number(Some(number as i128))
}

pub fn of_number(number: i128) -> (value: Json)
    ensures
        value@ == number_view(number as int),
{
    Json::Number(Some(number))
}

/// A number, as a JSON value; none is null.
pub open spec fn optional_number_view(number: Option<i64>) -> JsonView {
    match number {
        Some(number) => number_view(number as int),
        None => JsonView::Null,
    }
}

pub fn of_optional_number(number: Option<i64>) -> (value: Json)
    ensures
        value@ == optional_number_view(number),
{
    match number {
        Some(number) => Json::Number(Some(number as i128)),
        None => Json::Null,
    }
}

/// Texts, as a JSON array.
pub open spec fn texts_view(texts: Seq<Seq<char>>) -> JsonView {
    JsonView::Array(texts.map_values(|text: Seq<char>| JsonView::Text(text)))
}

pub fn of_texts(texts: &Vec<String>) -> (value: Json)
    ensures
        value@ == texts_view(texts.deep_view()),
{
    let mut items: Vec<Json> = Vec::new();
    let mut i: usize = 0;
    while i < texts.len()
        invariant
            i <= texts@.len(),
            items@.len() == i,
            forall|j: int| 0 <= j < i ==> (#[trigger] items@[j])@ == JsonView::Text(texts@[j]@),
        decreases texts@.len() - i,
    {
        items.push(Json::Text(texts[i].clone()));
        i += 1;
    }
    let value = of_items(items);
    assert(items.deep_view() == texts.deep_view().map_values(
        |text: Seq<char>| JsonView::Text(text),
    ));
    value
}

/// Values, as a JSON array.
pub fn of_items(items: Vec<Json>) -> (value: Json)
    ensures
        value@ == JsonView::Array(items.deep_view()),
{
    let value = Json::Array(items);
    assert(value@->Array_0 == items.deep_view());
    value
}

/// A member of an object.
pub fn named(name: &str, value: Json) -> (member: (String, Json))
    ensures
        member.deep_view() == (name@, value@),
{
    (name.to_owned(), value)
}

/// Members, as a JSON object.
pub fn of_members(members: Vec<(String, Json)>) -> (value: Json)
    ensures
        value@ == JsonView::Object(members.deep_view()),
{
    let value = Json::Object(members);
    assert(value@->Object_0 == members.deep_view());
    value
}

/// What `serde_json` makes of a text: the value it holds, or nothing where it
/// is not JSON.
pub uninterp spec fn json_document(text: Seq<u8>) -> Option<JsonView>;

/// Read a JSON text.
///
/// `serde_json::from_slice` gives the value that the text holds, or an error
/// where the text is not JSON. The nested values are read from their own texts.
#[verifier::external_body]
pub(crate) fn read_json(text: &[u8]) -> (value: Option<Json>)
    ensures
        value.deep_view() == json_document(text@),
{
    Some(match from_slice(text).ok()? {
        Value::Null => Json::Null,
        Value::Bool(flag) => Json::Bool(flag),
        Value::Number(number) => Json::Number(number.as_i128()),
        Value::String(text) => Json::Text(text),
        Value::Array(items) => Json::Array(
            items.iter().map(|v| read_json(v.to_string().as_bytes())).collect::<Option<_>>()?,
        ),
        Value::Object(members) => Json::Object(
            members.into_iter().map(|(k, v)| Some((k, read_json(v.to_string().as_bytes())?))).collect::<Option<_>>()?,
        ),
    })
}

/// A member is the first of its name, wherever it stands among the others; an object
/// without one has none, and neither has what is no object.
pub proof fn lemma_members(members: Seq<(Seq<char>, JsonView)>, key: Seq<char>, k: int)
    requires
        forall|j: int| 0 <= j < k && j < members.len() ==> (#[trigger] members[j]).0 != key,
        0 <= k < members.len() ==> members[k].0 == key,
        0 <= k <= members.len(),
    ensures
        member(JsonView::Object(members), key) == if k < members.len() {
            Some(members[k].1)
        } else {
            None
        },
        member(JsonView::Array(members.map_values(|m: (Seq<char>, JsonView)| m.1)), key) is None,
{
    lemma_member_search(members, key, 0, k);
}

proof fn lemma_member_search(
    members: Seq<(Seq<char>, JsonView)>,
    key: Seq<char>,
    from: nat,
    k: int,
)
    requires
        from <= k <= members.len(),
        forall|j: int| from <= j < k ==> (#[trigger] members[j]).0 != key,
        k < members.len() ==> members[k].0 == key,
    ensures
        member_from(members, key, from) == if k < members.len() {
            Some(members[k].1)
        } else {
            None
        },
    decreases k - from,
{
    if from < k {
        assert(members[from as int].0 != key);
        lemma_member_search(members, key, from + 1, k);
    }
}

/// A value is read as what it is, and as nothing else.
pub proof fn lemma_values_are_what_they_are(value: JsonView)
    ensures
        text_in(Some(value)) is Some <==> value is Text,
        items_in(Some(value)) is Some <==> value is Array,
        flag_in(Some(value)) is Some <==> value is Bool,
        value matches JsonView::Text(text) ==> text_in(Some(value)) == Some(text),
        value matches JsonView::Array(items) ==> items_in(Some(value)) == Some(items),
        value matches JsonView::Bool(flag) ==> flag_in(Some(value)) == Some(flag),
        integer_in(Some(value)) matches Some(n) ==> value == JsonView::Number(Some(n as i128)),
        forall|n: i64| #[trigger] integer_in(Some(number_view(n as int))) == Some(n),
        text_in(None) is None && items_in(None) is None && flag_in(None) is None && integer_in(None)
            is None,
{
}

} // verus!
