//! Reading JSON values.
//!
//! The values themselves are those of `serde_json`. [`json_view`] says what a value holds; the
//! trusted functions below say how `serde_json` reads texts and takes values apart.
use vstd::prelude::*;

verus! {

/// What a JSON value holds. A number is given as `serde_json::Value::as_f64` reads it, as an
/// IEEE 754 bit pattern.
pub enum JsonView {
    Null,
    Bool(bool),
    Number(Option<u64>),
    Str(Seq<char>),
    Arr(Seq<JsonView>),
    Obj(Map<Seq<char>, JsonView>),
}

/// `serde_json::Value`, read only through the functions below.
#[verifier::external_type_specification]
#[verifier::external_body]
pub struct ExValue(serde_json::Value);

/// What a value holds.
pub uninterp spec fn json_view(v: serde_json::Value) -> JsonView;

/// What `serde_json::from_str` reads in a text, or the words of the error that it reports.
pub uninterp spec fn json_parse(text: Seq<char>) -> Result<JsonView, Seq<char>>;

/// The member of an object; null where there is none.
pub open spec fn member_of(v: JsonView, key: Seq<char>) -> JsonView {
    match v {
        JsonView::Obj(m) => if m.contains_key(key) {
            m[key]
        } else {
            JsonView::Null
        },
        _ => JsonView::Null,
    }
}

/// The element of an array; null where there is none.
pub open spec fn element_of(v: JsonView, i: int) -> JsonView {
    match v {
        JsonView::Arr(a) => if 0 <= i < a.len() {
            a[i]
        } else {
            JsonView::Null
        },
        _ => JsonView::Null,
    }
}

pub open spec fn text_of(v: JsonView) -> Option<Seq<char>> {
    match v {
        JsonView::Str(s) => Some(s),
        _ => None,
    }
}

pub open spec fn bool_of(v: JsonView) -> Option<bool> {
    match v {
        JsonView::Bool(b) => Some(b),
        _ => None,
    }
}

pub open spec fn number_of(v: JsonView) -> Option<u64> {
    match v {
        JsonView::Number(n) => n,
        _ => None,
    }
}

/// `serde_json::Value::as_str` gives the text of a string, and of nothing else.
pub assume_specification[ serde_json::Value::as_str ](v: &serde_json::Value) -> (r: Option<&str>)
    ensures
        match r {
            Some(t) => text_of(json_view(*v)) == Some(t@),
            None => text_of(json_view(*v)) is None,
        },
;

/// `serde_json::Value::as_bool` gives a boolean, and nothing else.
pub assume_specification[ serde_json::Value::as_bool ](v: &serde_json::Value) -> (r: Option<bool>)
    ensures
        r == bool_of(json_view(*v)),
;

/// `serde_json::Value::is_null` tells null from everything else.
pub assume_specification[ serde_json::Value::is_null ](v: &serde_json::Value) -> (r: bool)
    ensures
        r == (json_view(*v) is Null),
;

/// Reads a text with `serde_json::from_str`. An error is given in its own words, which depend on
/// the text alone.
#[verifier::external_body]
pub(crate) fn parse(text: &str) -> (r: Result<serde_json::Value, String>)
    ensures
        match r {
            Ok(v) => json_parse(text@) == Ok::<JsonView, Seq<char>>(json_view(v)),
            Err(why) => json_parse(text@) == Err::<JsonView, Seq<char>>(why@),
        },
{
    serde_json::from_str(text).map_err(|e: serde_json::Error| e.to_string())
}

/// Indexes with a string, as `serde_json` defines it for [`serde_json::Value`]: the member of that
/// name, and null where there is none or the value is no object.
#[verifier::external_body]
pub(crate) fn member<'a>(v: &'a serde_json::Value, key: &str) -> (r: &'a serde_json::Value)
    ensures
        json_view(*r) == member_of(json_view(*v), key@),
{
    &v[key]
}

/// Indexes with a number, as `serde_json` defines it for [`serde_json::Value`]: the element at that
/// place, and null where there is none or the value is no array.
#[verifier::external_body]
pub(crate) fn element<'a>(v: &'a serde_json::Value, i: usize) -> (r: &'a serde_json::Value)
    ensures
        json_view(*r) == element_of(json_view(*v), i as int),
{
    &v[i]
}

/// The number of a value by `serde_json::Value::as_f64`, as a bit pattern; `None` where the value
/// is no number.
#[verifier::external_body]
pub(crate) fn number(v: &serde_json::Value) -> (r: Option<u64>)
    ensures
        r == number_of(json_view(*v)),
{
    v.as_f64().map(|n| n.to_bits())
}

} // verus!
