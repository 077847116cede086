//! The JSON values that a product page embeds as schema.org metadata, and the
//! search for a product field in them.

use vstd::prelude::*;

use crate::text::str_equal;

verus! {

/// A JSON value. A number is held as the text that `serde_json` writes for it.
#[derive(Debug)]
pub enum JsonValue {
    Null,
    Bool(bool),
    Number(String),
    Str(String),
    Array(Vec<JsonValue>),
    Object(Vec<(String, JsonValue)>),
}

/// The product fields that can be looked up in schema.org metadata.
#[derive(Debug, Clone, Copy, PartialEq, Eq)]
pub enum JsonField {
    Name,
    Brand,
    Description,
    Image,
    Price,
}

/// An optional text, by its characters.
pub open spec fn opt_view(o: Option<String>) -> Option<Seq<char>> {
    match o {
        Some(s) => Some(s@),
        None => None,
    }
}

/// The value of the first member of `ms` named `key`.
pub open spec fn spec_member(ms: Seq<(String, JsonValue)>, key: Seq<char>) -> Option<JsonValue>
    decreases ms.len(),
{
    if ms.len() == 0 {
        None
    } else if ms[0].0@ == key {
        Some(ms[0].1)
    } else {
        spec_member(ms.drop_first(), key)
    }
}

/// `v.get(key)`: the member `key` of an object; nothing for other values.
pub open spec fn get(v: JsonValue, key: Seq<char>) -> Option<JsonValue> {
    match v {
        JsonValue::Object(ms) => spec_member(ms@, key),
        _ => None,
    }
}

/// `v.as_str()`.
pub open spec fn as_text(v: JsonValue) -> Option<Seq<char>> {
    match v {
        JsonValue::Str(s) => Some(s@),
        _ => None,
    }
}

pub open spec fn get_text(v: JsonValue, key: Seq<char>) -> Option<Seq<char>> {
    match get(v, key) {
        Some(x) => as_text(x),
        None => None,
    }
}

/// The first element of an array.
pub open spec fn first_element(v: JsonValue) -> Option<JsonValue> {
    match v {
        JsonValue::Array(items) => if items@.len() > 0 {
            Some(items@[0])
        } else {
            None
        },
        _ => None,
    }
}

/// A brand: a text, or an object whose `name` is a text.
pub open spec fn brand_of(b: JsonValue) -> Option<Seq<char>> {
    match as_text(b) {
        Some(s) => Some(s),
        None => get_text(b, "name"@),
    }
}

/// An image: a text, or an array whose first element is a text.
pub open spec fn image_of(i: JsonValue) -> Option<Seq<char>> {
    match as_text(i) {
        Some(s) => Some(s),
        None => match first_element(i) {
            Some(x) => as_text(x),
            None => None,
        },
    }
}

/// The rendering with two decimals (`format!("{:.2}", ..)`) of the value of a
/// JSON number, given by its text. A function of the text alone.
pub uninterp spec fn spec_two_decimals(number: Seq<char>) -> Seq<char>;

/// Reads a JSON number's text with `serde_json::from_str::<serde_json::Number>`
/// and formats its value (`Number::as_f64`) with two decimals; claims only that
/// the result is `spec_two_decimals` of the text.
#[verifier::external_body]
fn two_decimals(number: &str) -> (r: String)
    ensures
        r@ == spec_two_decimals(number@),
{
    let value = serde_json::from_str::<serde_json::Number>(number).ok().and_then(|n| n.as_f64());
    format!("{:.2}", value.unwrap_or_default())
}

/// A price: a text, or a number rendered with two decimals.
pub open spec fn price_text(p: JsonValue) -> Option<Seq<char>> {
    match p {
        JsonValue::Str(s) => Some(s@),
        JsonValue::Number(n) => Some(spec_two_decimals(n@)),
        _ => None,
    }
}

/// The price of `offers`: of its first element when it is an array, else of itself.
pub open spec fn offer_price(offers: JsonValue) -> Option<Seq<char>> {
    let offer = match offers {
        JsonValue::Array(_) => first_element(offers),
        _ => Some(offers),
    };
    match offer {
        Some(o) => match get(o, "price"@) {
            Some(p) => price_text(p),
            None => None,
        },
        None => None,
    }
}

/// A field read directly from the members of `v` (no search into nested values).
pub open spec fn direct_field(v: JsonValue, field: JsonField) -> Option<Seq<char>> {
    match field {
        JsonField::Name => get_text(v, "name"@),
        JsonField::Brand => match get(v, "brand"@) {
            Some(b) => brand_of(b),
            None => None,
        },
        JsonField::Description => get_text(v, "description"@),
        JsonField::Image => match get(v, "image"@) {
            Some(i) => image_of(i),
            None => None,
        },
        JsonField::Price => match get(v, "offers"@) {
            Some(o) => offer_price(o),
            None => None,
        },
    }
}

/// The field found in `v`: in an array, the first element that has it; in an
/// object, what its `@graph` member has, else the object's own member.
pub open spec fn spec_extract(v: JsonValue, field: JsonField) -> Option<Seq<char>>
    decreases v,
{
    match v {
        JsonValue::Array(items) => spec_extract_items(items@, field),
        JsonValue::Object(ms) => match spec_extract_graph(ms@, field) {
            Some(s) => Some(s),
            None => direct_field(v, field),
        },
        _ => None,
    }
}

/// The field found in the first of `items` that has it.
pub open spec fn spec_extract_items(items: Seq<JsonValue>, field: JsonField) -> Option<Seq<char>>
    decreases items,
{
    if items.len() == 0 {
        None
    } else {
        match spec_extract(items[0], field) {
            Some(s) => Some(s),
            None => spec_extract_items(items.drop_first(), field),
        }
    }
}

/// The field found in the first member of `ms` named `@graph`.
pub open spec fn spec_extract_graph(ms: Seq<(String, JsonValue)>, field: JsonField) -> Option<Seq<char>>
    decreases ms,
{
    if ms.len() == 0 {
        None
    } else if ms[0].0@ == "@graph"@ {
        spec_extract(ms[0].1, field)
    } else {
        spec_extract_graph(ms.drop_first(), field)
    }
}


proof fn lemma_member_at(ms: Seq<(String, JsonValue)>, key: Seq<char>, i: int)
    requires
        0 <= i < ms.len(),
        ms[i].0@ == key,
        forall|j: int| 0 <= j < i ==> ms[j].0@ != key,
    ensures
        spec_member(ms, key) == Some(ms[i].1),
    decreases i,
{
    if i > 0 {
        lemma_member_at(ms.drop_first(), key, i - 1);
    }
}

proof fn lemma_graph_at(ms: Seq<(String, JsonValue)>, f: JsonField, i: int)
    requires
        0 <= i < ms.len(),
        ms[i].0@ == "@graph"@,
        forall|j: int| 0 <= j < i ==> ms[j].0@ != "@graph"@,
    ensures
        spec_extract_graph(ms, f) == spec_extract(ms[i].1, f),
    decreases i,
{
    if i > 0 {
        lemma_graph_at(ms.drop_first(), f, i - 1);
    }
}

proof fn lemma_graph_absent(ms: Seq<(String, JsonValue)>, f: JsonField)
    requires
        forall|j: int| 0 <= j < ms.len() ==> ms[j].0@ != "@graph"@,
    ensures
        spec_extract_graph(ms, f) is None,
    decreases ms.len(),
{
    if ms.len() > 0 {
        lemma_graph_absent(ms.drop_first(), f);
    }
}

proof fn lemma_member_absent(ms: Seq<(String, JsonValue)>, key: Seq<char>)
    requires
        forall|j: int| 0 <= j < ms.len() ==> ms[j].0@ != key,
    ensures
        spec_member(ms, key) is None,
    decreases ms.len(),
{
    if ms.len() > 0 {
        lemma_member_absent(ms.drop_first(), key);
    }
}

/// The position of the first member of `ms` named `key`.
fn member_index(ms: &Vec<(String, JsonValue)>, key: &str) -> (r: Option<usize>)
    ensures
        match r {
            Some(i) => {
                &&& i < ms@.len()
                &&& ms@[i as int].0@ == key@
                &&& forall|j: int| 0 <= j < i ==> ms@[j].0@ != key@
            },
            None => forall|j: int| 0 <= j < ms@.len() ==> ms@[j].0@ != key@,
        },
{
    let mut i: usize = 0;
    while i < ms.len()
        invariant
            i <= ms@.len(),
            forall|j: int| 0 <= j < i ==> ms@[j].0@ != key@,
        decreases ms.len() - i,
    {
        if str_equal(ms[i].0.as_str(), key) {
            return Some(i);
        }
        i = i + 1;
    }
    None
}

/// `v.get(key)`.
fn get_value<'a>(v: &'a JsonValue, key: &str) -> (r: Option<&'a JsonValue>)
    ensures
        match r {
            Some(x) => get(*v, key@) == Some(*x),
            None => get(*v, key@) is None,
        },
{
    match v {
        JsonValue::Object(ms) => match member_index(ms, key) {
            Some(i) => {
                proof {
                    lemma_member_at(ms@, key@, i as int);
                }
                Some(&ms[i].1)
            },
            None => {
                proof {
                    lemma_member_absent(ms@, key@);
                }
                None
            },
        },
        _ => None,
    }
}

/// `v.as_str()`, owned.
fn text_of(v: &JsonValue) -> (r: Option<String>)
    ensures
        opt_view(r) == as_text(*v),
{
    match v {
        JsonValue::Str(s) => Some(s.clone()),
        _ => None,
    }
}

fn get_text_value(v: &JsonValue, key: &str) -> (r: Option<String>)
    ensures
        opt_view(r) == get_text(*v, key@),
{
    match get_value(v, key) {
        Some(x) => text_of(x),
        None => None,
    }
}

fn first_element_value(v: &JsonValue) -> (r: Option<&JsonValue>)
    ensures
        match r {
            Some(x) => first_element(*v) == Some(*x),
            None => first_element(*v) is None,
        },
{
    match v {
        JsonValue::Array(items) => if items.len() > 0 {
            Some(&items[0])
        } else {
            None
        },
        _ => None,
    }
}

fn offer_price_value(offers: &JsonValue) -> (r: Option<String>)
    ensures
        opt_view(r) == offer_price(*offers),
{
    let offer = match offers {
        JsonValue::Array(_) => first_element_value(offers),
        _ => Some(offers),
    };
    match offer {
        Some(o) => match get_value(o, "price") {
            Some(p) => match p {
                JsonValue::Str(s) => Some(s.clone()),
                JsonValue::Number(n) => Some(two_decimals(n.as_str())),
                _ => None,
            },
            None => None,
        },
        None => None,
    }
}

fn direct_field_value(v: &JsonValue, field: JsonField) -> (r: Option<String>)
    ensures
        opt_view(r) == direct_field(*v, field),
{
    match field {
        JsonField::Name => get_text_value(v, "name"),
        JsonField::Brand => match get_value(v, "brand") {
            Some(b) => match text_of(b) {
                Some(s) => Some(s),
                None => get_text_value(b, "name"),
            },
            None => None,
        },
        JsonField::Description => get_text_value(v, "description"),
        JsonField::Image => match get_value(v, "image") {
            Some(i) => match text_of(i) {
                Some(s) => Some(s),
                None => match first_element_value(i) {
                    Some(x) => text_of(x),
                    None => None,
                },
            },
            None => None,
        },
        JsonField::Price => match get_value(v, "offers") {
            Some(o) => offer_price_value(o),
            None => None,
        },
    }
}

/// In a JSON array a field comes from the first element that has it: when
/// element `k` has the field and no element before it does, the array's field is
/// element `k`'s, whatever later elements hold.
pub proof fn lemma_array_takes_first_element_with_field(json: JsonValue, field: JsonField, k: int)
    requires
        json is Array,
        0 <= k < json->Array_0@.len(),
        spec_extract(json->Array_0@[k], field) is Some,
        forall|j: int| 0 <= j < k ==> spec_extract(#[trigger] json->Array_0@[j], field) is None,
    ensures
        spec_extract(json, field) == spec_extract(json->Array_0@[k], field),
{
    lemma_items_first_hit(json->Array_0@, field, k);
}

/// In a JSON array whose elements all lack a field, the array lacks it too.
pub proof fn lemma_array_without_field(json: JsonValue, field: JsonField)
    requires
        json is Array,
        forall|j: int| 0 <= j < json->Array_0@.len() ==> spec_extract(#[trigger] json->Array_0@[j], field) is None,
    ensures
        spec_extract(json, field) is None,
{
    lemma_items_none(json->Array_0@, field);
}

proof fn lemma_items_first_hit(items: Seq<JsonValue>, field: JsonField, k: int)
    requires
        0 <= k < items.len(),
        spec_extract(items[k], field) is Some,
        forall|j: int| 0 <= j < k ==> spec_extract(#[trigger] items[j], field) is None,
    ensures
        spec_extract_items(items, field) == spec_extract(items[k], field),
    decreases k,
{
    if k > 0 {
        let rest = items.drop_first();
        assert(spec_extract(items[0], field) is None);
        assert forall|j: int| 0 <= j < k - 1 implies spec_extract(#[trigger] rest[j], field) is None by {
            assert(rest[j] == items[j + 1]);
        }
        assert(rest[k - 1] == items[k]);
        lemma_items_first_hit(rest, field, k - 1);
    }
}

proof fn lemma_items_none(items: Seq<JsonValue>, field: JsonField)
    requires
        forall|j: int| 0 <= j < items.len() ==> spec_extract(#[trigger] items[j], field) is None,
    ensures
        spec_extract_items(items, field) is None,
    decreases items.len(),
{
    if items.len() > 0 {
        let rest = items.drop_first();
        assert(spec_extract(items[0], field) is None);
        assert forall|j: int| 0 <= j < rest.len() implies spec_extract(#[trigger] rest[j], field) is None by {
            assert(rest[j] == items[j + 1]);
        }
        lemma_items_none(rest, field);
    }
}

/// Looks a product field up in schema.org metadata: in an array, the first
/// element that has it; in an object, its `@graph` member if that has it, else
/// the object's own member (`name`, `brand` or `brand.name`, `description`,
/// `image` or `image[0]`, `offers.price` or `offers[0].price`).
pub fn extract_json_field(json: &JsonValue, field: JsonField) -> (r: Option<String>)
    ensures
        opt_view(r) == spec_extract(*json, field),
    decreases json,
{
    match json {
        JsonValue::Array(items) => {
            let mut i: usize = 0;
            assert(items@.skip(0) == items@);
            while i < items.len()
                invariant
                    i <= items@.len(),
                    spec_extract(*json, field) == spec_extract_items(items@.skip(i as int), field),
                    *json == JsonValue::Array(*items),
                decreases items.len() - i,
            {
                assert(items@.skip(i as int)[0] == items@[i as int]);
                assert(items@.skip(i as int).drop_first() == items@.skip(i + 1));
                match extract_json_field(&items[i], field) {
                    Some(s) => {
                        return Some(s);
                    },
                    None => {},
                }
                i = i + 1;
            }
            None
        },
        JsonValue::Object(ms) => {
            match member_index(ms, "@graph") {
                Some(i) => {
                    proof {
                        lemma_graph_at(ms@, field, i as int);
                    }
                    match extract_json_field(&ms[i].1, field) {
                        Some(s) => {
                            return Some(s);
                        },
                        None => {},
                    }
                },
                None => {
                    proof {
                        lemma_graph_absent(ms@, field);
                    }
                },
            }
            direct_field_value(json, field)
        },
        _ => None,
    }
}


/// What `serde_json::from_str::<serde_json::Value>` makes of a text, as a
/// `JsonValue`; `None` when the text is not JSON. A function of the text alone.
pub uninterp spec fn spec_parse_json(text: Seq<char>) -> Option<JsonValue>;

#[verifier::external_type_specification]
#[verifier::external_body]
pub struct ExSerdeJsonValue(serde_json::Value);

/// Converts a `serde_json::Value` variant by variant; a number becomes the text
/// that `serde_json` writes for it. Nothing is claimed of it.
#[verifier::external_body]
fn json_from_serde(v: serde_json::Value) -> JsonValue {
    match v {
        serde_json::Value::Null => JsonValue::Null,
        serde_json::Value::Bool(b) => JsonValue::Bool(b),
        serde_json::Value::Number(n) => JsonValue::Number(n.to_string()),
        serde_json::Value::String(s) => JsonValue::Str(s),
        serde_json::Value::Array(a) => JsonValue::Array(a.into_iter().map(json_from_serde).collect()),
        serde_json::Value::Object(m) => JsonValue::Object(m.into_iter().map(|(k, x)| (k, json_from_serde(x))).collect()),
    }
}

/// Calls `serde_json::from_str::<serde_json::Value>`; claims that the result,
/// converted, is `spec_parse_json` of the text (a parse error gives `None`).
#[verifier::external_body]
pub(crate) fn parse_json(text: &str) -> (r: Option<JsonValue>)
    ensures
        r == spec_parse_json(text@),
{
    serde_json::from_str::<serde_json::Value>(text).ok().map(json_from_serde)
}

} // verus!
