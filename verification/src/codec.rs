//! The border with the `serde_json` crate: its values, its parser and its printers.

use vstd::prelude::*;
use vstd::string::*;

use crate::json::{ascending, Json, JsonObject, JsonView};
use crate::text::precedes;

verus! {

/// A value as the `serde_json` crate holds it.
#[verifier::external_type_specification]
#[verifier::external_body]
pub struct ExValue(serde_json::Value);

/// The error of the `serde_json` crate's parser and printers.
#[verifier::external_type_specification]
#[verifier::external_body]
pub struct ExSerdeError(serde_json::Error);

/// What a `serde_json::Value` holds, the members of an object in the order in which
/// the crate's map visits them.
pub uninterp spec fn value_view(value: serde_json::Value) -> JsonView;

/// The outermost layer of a `serde_json::Value`, borrowed.
enum Layer<'a> {
    Null,
    Bool(bool),
    Number(&'a serde_json::Number),
    String(&'a String),
    Array(&'a Vec<serde_json::Value>),
    Object(Vec<(&'a String, &'a serde_json::Value)>),
}

spec fn layer_view(layer: Layer) -> JsonView {
    match layer {
        Layer::Null => JsonView::Null,
        Layer::Bool(b) => JsonView::Bool(b),
        Layer::Number(n) => JsonView::Number(*n),
        Layer::String(s) => JsonView::String(s@),
        Layer::Array(items) => JsonView::Array(
            items@.map_values(|item: serde_json::Value| value_view(item)),
        ),
        Layer::Object(members) => JsonView::Object(
            members@.map_values(
                |member: (&String, &serde_json::Value)| (member.0@, value_view(*member.1)),
            ),
        ),
    }
}

/// Opens a `serde_json::Value` by matching on its variants; an object is read with
/// `serde_json::Map::iter`. The layer holds what the value holds, and the members of
/// an object come in strictly ascending key order, since that map is a `BTreeMap`
/// keyed by `String`.
#[verifier::external_body]
fn open_value<'a>(value: &'a serde_json::Value) -> (layer: Layer<'a>)
    ensures
        layer_view(layer) == value_view(*value),
        layer is Object ==> ascending(layer_view(layer)->Object_0),
{
    match value {
        serde_json::Value::Null => Layer::Null,
        serde_json::Value::Bool(b) => Layer::Bool(*b),
        serde_json::Value::Number(n) => Layer::Number(n),
        serde_json::Value::String(s) => Layer::String(s),
        serde_json::Value::Array(items) => Layer::Array(items),
        serde_json::Value::Object(members) => Layer::Object(members.iter().collect()),
    }
}

/// The parts that a `serde_json::Value` is made of.
enum Parts {
    Null,
    Bool(bool),
    Number(serde_json::Number),
    String(String),
    Array(Vec<serde_json::Value>),
    Object(Vec<(String, serde_json::Value)>),
}

spec fn parts_view(parts: Parts) -> JsonView {
    match parts {
        Parts::Null => JsonView::Null,
        Parts::Bool(b) => JsonView::Bool(b),
        Parts::Number(n) => JsonView::Number(n),
        Parts::String(s) => JsonView::String(s@),
        Parts::Array(items) => JsonView::Array(
            items@.map_values(|item: serde_json::Value| value_view(item)),
        ),
        Parts::Object(members) => JsonView::Object(
            members@.map_values(
                |member: (String, serde_json::Value)| (member.0@, value_view(member.1)),
            ),
        ),
    }
}

/// Builds a `serde_json::Value` with the variant's own constructor; an object is
/// collected into a `serde_json::Map`, which keeps members that come in strictly
/// ascending key order as they are. The value holds what the parts hold.
#[verifier::external_body]
fn close_value(parts: Parts) -> (value: serde_json::Value)
    requires
        parts is Object ==> ascending(parts_view(parts)->Object_0),
    ensures
        value_view(value) == parts_view(parts),
{
    match parts {
        Parts::Null => serde_json::Value::Null,
        Parts::Bool(b) => serde_json::Value::Bool(b),
        Parts::Number(n) => serde_json::Value::Number(n),
        Parts::String(s) => serde_json::Value::String(s),
        Parts::Array(items) => serde_json::Value::Array(items),
        Parts::Object(members) => serde_json::Value::Object(members.into_iter().collect()),
    }
}

/// Reads a `serde_json::Value` into the library's own type.
pub fn from_value(value: &serde_json::Value) -> (json: Json)
    ensures
        json@ == value_view(*value),
    decreases value_view(*value),
{
    let ghost whole = value_view(*value);
    match open_value(value) {
        Layer::Null => Json::Null,
        Layer::Bool(b) => Json::Bool(b),
        Layer::Number(n) => Json::Number(n.clone()),
        Layer::String(s) => Json::String(s.clone()),
        Layer::Array(items) => {
            let mut copies: Vec<Json> = Vec::new();
            let mut i: usize = 0;
            while i < items.len()
                invariant
                    whole == value_view(*value),
                    whole is Array,
                    whole->Array_0 == items@.map_values(|item: serde_json::Value| value_view(item)),
                    i <= items.len(),
                    copies.len() == i,
                    forall|j: int| 0 <= j < i ==> (#[trigger] copies@[j])@ == whole->Array_0[j],
                decreases items.len() - i,
            {
                assert(whole->Array_0[i as int] == value_view(items@[i as int]));
                assert(decreases_to!(whole => whole->Array_0[i as int]));
                copies.push(from_value(&items[i]));
                i = i + 1;
            }
            let json = Json::Array(copies);
            assert(json@->Array_0 =~= whole->Array_0);
            json
        },
        Layer::Object(members) => {
            let mut object = JsonObject::new();
            let mut i: usize = 0;
            while i < members.len()
                invariant
                    whole == value_view(*value),
                    whole is Object,
                    whole->Object_0 == members@.map_values(
                        |member: (&String, &serde_json::Value)| (member.0@, value_view(*member.1)),
                    ),
                    ascending(whole->Object_0),
                    i <= members.len(),
                    object.entries() == whole->Object_0.take(i as int),
                decreases members.len() - i,
            {
                let member = members[i];
                assert(whole->Object_0[i as int] == (member.0@, value_view(*member.1)));
                assert(decreases_to!(whole => whole->Object_0[i as int].1));
                assert forall|j: int| 0 <= j < i implies precedes(
                    (#[trigger] object.entries()[j]).0,
                    member.0@,
                ) by {
                    assert(precedes(whole->Object_0[j].0, whole->Object_0[i as int].0));
                }
                object.push_last(member.0.clone(), from_value(member.1));
                assert(whole->Object_0.take(i + 1) =~= whole->Object_0.take(i as int).push(
                    whole->Object_0[i as int],
                ));
                i = i + 1;
            }
            assert(whole->Object_0.take(i as int) =~= whole->Object_0);
            Json::Object(object)
        },
    }
}

/// Writes a value as a `serde_json::Value`.
pub fn to_value(json: &Json) -> (value: serde_json::Value)
    ensures
        value_view(value) == json@,
    decreases json@, 1int,
{
    match json {
        Json::Null => close_value(Parts::Null),
        Json::Bool(b) => close_value(Parts::Bool(*b)),
        Json::Number(n) => close_value(Parts::Number(n.clone())),
        Json::String(s) => close_value(Parts::String(s.clone())),
        Json::Array(items) => {
            let mut copies: Vec<serde_json::Value> = Vec::new();
            let mut i: usize = 0;
            while i < items.len()
                invariant
                    *json is Array,
                    json->Array_0 == *items,
                    i <= items.len(),
                    copies.len() == i,
                    forall|j: int|
                        0 <= j < i ==> value_view(#[trigger] copies@[j]) == json@->Array_0[j],
                decreases items.len() - i,
            {
                assert(json@->Array_0[i as int] == items@[i as int]@);
                assert(decreases_to!(json@ => json@->Array_0[i as int]));
                copies.push(to_value(&items[i]));
                i = i + 1;
            }
            assert(copies@.map_values(|item: serde_json::Value| value_view(item))
                =~= json@->Array_0);
            close_value(Parts::Array(copies))
        },
        Json::Object(object) => object_to_value(object),
    }
}

/// Writes an object as a `serde_json::Value`.
pub fn object_to_value(object: &JsonObject) -> (value: serde_json::Value)
    ensures
        value_view(value) == JsonView::Object(object.entries()),
    decreases JsonView::Object(object.entries()), 0int,
{
    let ghost whole = JsonView::Object(object.entries());
    let ghost to_entry = |member: (String, serde_json::Value)|
        (member.0@, value_view(member.1));
    let n = object.len();
    let mut members: Vec<(String, serde_json::Value)> = Vec::new();
    let mut i: usize = 0;
    while i < n
        invariant
            whole == JsonView::Object(object.entries()),
            n == object.entries().len(),
            i <= n,
            members.len() == i,
            forall|j: int| 0 <= j < i ==> to_entry(#[trigger] members@[j]) == object.entries()[j],
            to_entry == (|member: (String, serde_json::Value)|
                (member.0@, value_view(member.1))),
        decreases n - i,
    {
        let key = object.key_at(i).clone();
        assert(decreases_to!(whole => whole->Object_0[i as int].1));
        let value = to_value(object.value_at(i));
        members.push((key, value));
        i = i + 1;
    }
    assert(members@.map_values(to_entry) =~= object.entries());
    close_value(Parts::Object(members))
}

/// The text that the `Display` impl of `serde_json::Error` gives.
pub uninterp spec fn json_error_message(error: serde_json::Error) -> Seq<char>;

/// `to_string` on a `serde_json::Error`, which goes through its `Display` impl: the text
/// depends on the error alone.
#[verifier::external_body]
fn json_error_text(error: &serde_json::Error) -> (shown: String)
    ensures
        shown@ == json_error_message(*error),
{
    error.to_string()
}

/// The value that `serde_json::from_str` reads from a text, or its error.
pub uninterp spec fn parsed_value(source: Seq<char>) -> Result<JsonView, serde_json::Error>;

/// `serde_json::from_str::<serde_json::Value>`: the outcome depends on the text alone.
#[verifier::external_body]
fn parse_value(source: &str) -> (outcome: Result<serde_json::Value, serde_json::Error>)
    ensures
        parsed_value(source@) == match outcome {
            Ok(value) => Ok(value_view(value)),
            Err(error) => Err(error),
        },
{
    serde_json::from_str::<serde_json::Value>(source)
}

/// The text that `serde_json::to_string` prints for a value, or its error.
pub uninterp spec fn printed_value(json: JsonView) -> Result<Seq<char>, serde_json::Error>;

/// `serde_json::to_string` on a `serde_json::Value`: the outcome depends on what the
/// value holds.
#[verifier::external_body]
fn print_value(value: &serde_json::Value) -> (outcome: Result<String, serde_json::Error>)
    ensures
        printed_value(value_view(*value)) == match outcome {
            Ok(printed) => Ok(printed@),
            Err(error) => Err(error),
        },
{
    serde_json::to_string(value)
}

/// The text that the `Display` impl of `serde_json::Value` gives.
pub uninterp spec fn displayed_json(json: JsonView) -> Seq<char>;

/// `to_string` on a `serde_json::Value`, which goes through its `Display` impl: the
/// text depends on what the value holds.
#[verifier::external_body]
fn display_value(value: &serde_json::Value) -> (shown: String)
    ensures
        shown@ == displayed_json(value_view(*value)),
{
    value.to_string()
}

/// The number that `serde_json::Number` makes of an integer.
pub uninterp spec fn integer_number(n: i64) -> serde_json::Number;

/// `serde_json::Number`'s conversion from `i64`: the number depends on the integer
/// alone.
#[verifier::external_body]
pub(crate) fn number_from_integer(n: i64) -> (number: serde_json::Number)
    ensures
        number == integer_number(n),
{
    serde_json::Number::from(n)
}

/// The value that a JSON text stands for, or what is wrong with the text.
pub open spec fn parsed_json(source: Seq<char>) -> Result<JsonView, Seq<char>> {
    match parsed_value(source) {
        Ok(json) => Ok(json),
        Err(error) => Err(json_error_message(error)),
    }
}

/// Reads a JSON text. There is a value exactly where the text is one; otherwise what is
/// wrong with it is said.
pub fn parse_json(source: &str) -> (outcome: Result<Json, String>)
    ensures
        parsed_json(source@) == match outcome {
            Ok(json) => Ok(json@),
            Err(reason) => Err(reason@),
        },
        match parsed_value(source@) {
            Ok(json) => outcome is Ok && outcome->Ok_0@ == json,
            Err(error) => outcome is Err && outcome->Err_0@ == json_error_message(error),
        },
{
    match parse_value(source) {
        Ok(value) => Ok(from_value(&value)),
        Err(error) => Err(json_error_text(&error)),
    }
}

/// The JSON text of a value, or why there is none.
pub open spec fn printed_json(json: JsonView) -> Result<Seq<char>, Seq<char>> {
    match printed_value(json) {
        Ok(printed) => Ok(printed),
        Err(error) => Err(json_error_message(error)),
    }
}

/// The JSON text of an object. There is one exactly where it can be printed; otherwise
/// the reason is said.
pub fn print_object(object: &JsonObject) -> (outcome: Result<String, String>)
    ensures
        printed_json(JsonView::Object(object.entries())) == match outcome {
            Ok(printed) => Ok(printed@),
            Err(reason) => Err(reason@),
        },
        match printed_value(JsonView::Object(object.entries())) {
            Ok(printed) => outcome is Ok && outcome->Ok_0@ == printed,
            Err(error) => outcome is Err && outcome->Err_0@ == json_error_message(error),
        },
{
    match print_value(&object_to_value(object)) {
        Ok(printed) => Ok(printed),
        Err(error) => Err(json_error_text(&error)),
    }
}

/// The JSON text of a value, for people to read.
pub fn display_json(json: &Json) -> (shown: String)
    ensures
        shown@ == displayed_json(json@),
{
    display_value(&to_value(json))
}

} // verus!
