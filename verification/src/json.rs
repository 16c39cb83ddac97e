//! The library's view of the JSON values that `serde_json` produces. A
//! parsed document is modelled as a `JTree`; the trusted items below name
//! what `serde_json` returns and relate each accessor to that model, and
//! everything that walks a document is verified against it.

use vstd::prelude::*;

verus! {

/// The mathematical shape of a JSON document. Numbers carry no payload:
/// nothing in this library reads one.
pub enum JTree {
    Null,
    Bool(bool),
    Num,
    Str(Seq<char>),
    Arr(Seq<JTree>),
    Obj(Map<Seq<char>, JTree>),
}

/// Declares `serde_json::Value`, the parsed-document type the trusted
/// items below pass around; its contents are reached only through them.
#[verifier::external_type_specification]
#[verifier::external_body]
pub struct ExValue(serde_json::Value);

/// The document held by a `serde_json::Value`.
pub uninterp spec fn jv_view(v: serde_json::Value) -> JTree;

/// What `serde_json::from_str::<Value>` returns on a given text: the
/// parsed document, or nothing when the text is not valid JSON. The
/// result depends on the characters alone.
pub uninterp spec fn json_of(s: Seq<char>) -> Option<JTree>;

/// Relies on `serde_json::from_str::<Value>`: parses a complete JSON
/// document from the text, deterministically; the error's text is not
/// relied upon.
#[verifier::external_body]
pub(crate) fn parse_json(s: &str) -> (r: Result<serde_json::Value, String>)
    ensures
        match r {
            Ok(v) => json_of(s@) == Some(jv_view(v)),
            Err(_) => json_of(s@) is None,
        },
{
    match serde_json::from_str::<serde_json::Value>(s) {
        Ok(v) => Ok(v),
        Err(e) => Err(format!("{}", e)),
    }
}

/// Relies on `serde_json::Value::as_array`: the elements exactly when the
/// value is an array.
#[verifier::external_body]
pub(crate) fn value_as_array(v: &serde_json::Value) -> (r: Option<&Vec<serde_json::Value>>)
    ensures
        match r {
            Some(a) => jv_view(*v) matches JTree::Arr(ts) && ts.len() == a@.len() && (forall|
                i: int,
            |
                0 <= i < a@.len() ==> jv_view(#[trigger] a@[i]) == ts[i]),
            None => !(jv_view(*v) is Arr),
        },
{
    v.as_array()
}

/// Relies on `serde_json::Value::get` with a string index: the member of
/// that name exactly when the value is an object holding it.
#[verifier::external_body]
pub(crate) fn value_get<'a>(v: &'a serde_json::Value, key: &str) -> (r: Option<
    &'a serde_json::Value,
>)
    ensures
        match r {
            Some(x) => jv_view(*v) matches JTree::Obj(m) && m.dom().contains(key@) && jv_view(*x)
                == m[key@],
            None => match jv_view(*v) {
                JTree::Obj(m) => !m.dom().contains(key@),
                _ => true,
            },
        },
{
    v.get(key)
}

/// Relies on `serde_json::Value::as_str`: the characters exactly when the
/// value is a string.
#[verifier::external_body]
pub(crate) fn value_as_str<'a>(v: &'a serde_json::Value) -> (r: Option<&'a str>)
    ensures
        match r {
            Some(s) => jv_view(*v) == JTree::Str(s@),
            None => !(jv_view(*v) is Str),
        },
{
    v.as_str()
}

} // verus!
