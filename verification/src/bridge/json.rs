//! JSON documents built for contract fields. A JSON value is carried in the
//! library as its compact text; the objects built here hold scalar members,
//! whose keys and values the library chooses and `serde_json` renders.

use vstd::prelude::*;
use crate::text::decimal;

verus! {

/// A JSON scalar: `null`, a whole number or a string.
#[derive(Debug)]
pub enum JsonScalar {
    Null,
    Int(u64),
    Text(String),
}

/// The value of a JSON scalar.
pub enum JsonScalarView {
    Null,
    Int(u64),
    Text(Seq<char>),
}

pub open spec fn scalar_view(v: JsonScalar) -> JsonScalarView {
    match v {
        JsonScalar::Null => JsonScalarView::Null,
        JsonScalar::Int(n) => JsonScalarView::Int(n),
        JsonScalar::Text(s) => JsonScalarView::Text(s@),
    }
}

/// The members of an object: each key with its value.
pub open spec fn members_view(ms: Seq<(String, JsonScalar)>) -> Seq<(Seq<char>, JsonScalarView)> {
    ms.map_values(|m: (String, JsonScalar)| (m.0@, scalar_view(m.1)))
}

/// The compact text that `serde_json` renders for the object holding these
/// members, inserted in order into a `serde_json::Map`.
pub uninterp spec fn json_object(members: Seq<(Seq<char>, JsonScalarView)>) -> Seq<char>;

/// A text that JSON writes between quotes as it is: no quote, no
/// backslash and no control character.
pub open spec fn json_plain(s: Seq<char>) -> bool {
    forall|i: int| 0 <= i < s.len() ==> #[trigger] s[i] != '"' && s[i] != '\\' && (s[i] as u32) >= 32
}

/// The JSON text of a scalar whose text, if any, needs no escape.
pub open spec fn scalar_json(v: JsonScalarView) -> Seq<char> {
    match v {
        JsonScalarView::Null => "null"@,
        JsonScalarView::Int(n) => decimal(n as nat),
        JsonScalarView::Text(t) => "\""@ + t + "\""@,
    }
}

/// A single member that needs no escape.
pub open spec fn plain_member(m: (Seq<char>, JsonScalarView)) -> bool {
    &&& json_plain(m.0)
    &&& (m.1 matches JsonScalarView::Text(t) ==> json_plain(t))
}

/// The compact JSON text of an object: `{}` with no members,
/// `{"key":value}` for one member that needs no escape, else what
/// `serde_json` renders.
pub open spec fn object_text(members: Seq<(Seq<char>, JsonScalarView)>) -> Seq<char> {
    if members.len() == 0 {
        "{}"@
    } else if members.len() == 1 && plain_member(members[0]) {
        "{\""@ + members[0].0 + "\":"@ + scalar_json(members[0].1) + "}"@
    } else {
        json_object(members)
    }
}

/// Builds a `serde_json::Map` from the members, each value turned into the
/// `serde_json::Value` of the same kind, and renders the object with
/// `Value`'s `Display`, which writes compact JSON. The contract claims that
/// the text is the named function of the members, that no members give
/// `{}`, and that one member whose key and text need no escape gives
/// `{"key":value}`; the order and escaping of several members are not
/// stated here.
#[verifier::external_body]
pub(crate) fn json_object_text(members: &Vec<(String, JsonScalar)>) -> (r: String)
    ensures
        r@ == json_object(members_view(members@)),
        r@ == object_text(members_view(members@)),
{
    let map: serde_json::Map<String, serde_json::Value> = members
        .iter()
        .map(|(k, v)| {
            let value = match v {
                JsonScalar::Null => serde_json::Value::Null,
                JsonScalar::Int(n) => serde_json::Value::from(*n),
                JsonScalar::Text(s) => serde_json::Value::from(s.clone()),
            };
            (k.clone(), value)
        })
        .collect();
    serde_json::Value::Object(map).to_string()
}

} // verus!
