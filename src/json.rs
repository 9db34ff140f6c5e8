use vstd::prelude::*;
use vstd::string::*;

verus! {

/// A JSON document as the library reads it. Objects keep their members in
/// the order the parser gives them; a number keeps its decimal text.
pub enum Json {
    Null,
    Bool(bool),
    Number(String),
    Str(String),
    Array(Vec<Json>),
    Object(Vec<(String, Json)>),
}

/// The document that `serde_json` parses from `text`, or `None` when `text`
/// is not JSON.
pub uninterp spec fn json_of(text: Seq<char>) -> Option<Json>;

#[verifier::external_type_specification]
#[verifier::external_body]
pub struct ExJsonValue(serde_json::Value);

/// Relies on `serde_json::from_str` to parse `text` into a `serde_json::Value`,
/// which `value_to_json` then moves into a `Json`. The result depends on the
/// text alone.
#[verifier::external_body]
pub fn parse_json(text: &str) -> (r: Option<Json>)
    ensures
        r == json_of(text@),
{
    serde_json::from_str::<serde_json::Value>(text).ok().map(value_to_json)
}

/// The conversion half of `parse_json`: relies on the variants of
/// `serde_json::Value`, moving each into the matching variant of `Json`
/// (a number through `Number`'s `Display`, an object's members in the
/// order that `Map::into_iter` yields them).
#[verifier::external_body]
fn value_to_json(v: serde_json::Value) -> Json {
    match v {
        serde_json::Value::Null => Json::Null,
        serde_json::Value::Bool(b) => Json::Bool(b),
        serde_json::Value::Number(n) => Json::Number(n.to_string()),
        serde_json::Value::String(s) => Json::Str(s),
        serde_json::Value::Array(a) => Json::Array(a.into_iter().map(value_to_json).collect()),
        serde_json::Value::Object(m) => {
            Json::Object(m.into_iter().map(|(k, x)| (k, value_to_json(x))).collect())
        },
    }
}

/// The first member named `key` among `members`.
pub open spec fn first_member(members: Seq<(String, Json)>, key: Seq<char>) -> Option<Json>
    decreases members.len(),
{
    if members.len() == 0 {
        None
    } else if members[0].0@ == key {
        Some(members[0].1)
    } else {
        first_member(members.drop_first(), key)
    }
}

/// The member `key` of `j`, if `j` is an object that has one.
pub open spec fn field(j: Json, key: Seq<char>) -> Option<Json> {
    match j {
        Json::Object(members) => first_member(members@, key),
        _ => None,
    }
}

/// The member `key` of `j`, if there is a `j` and it has one.
pub open spec fn field_in(j: Option<Json>, key: Seq<char>) -> Option<Json> {
    match j {
        Some(x) => field(x, key),
        None => None,
    }
}

/// The text of a string value; the empty text for anything else.
pub open spec fn text_or_empty(j: Option<Json>) -> Seq<char> {
    match j {
        Some(Json::Str(s)) => s@,
        _ => Seq::empty(),
    }
}

/// The items of an array value.
pub open spec fn items_of(j: Option<Json>) -> Option<Seq<Json>> {
    match j {
        Some(Json::Array(v)) => Some(v@),
        _ => None,
    }
}

/// The member `key` of `j`, if `j` is an object that has one.
pub fn field_of<'a>(j: &'a Json, key: &str) -> (r: Option<&'a Json>)
    ensures
        match r {
            Some(x) => field(*j, key@) == Some(*x),
            None => field(*j, key@) is None,
        },
{
    match j {
        Json::Object(members) => {
            let mut i: usize = 0;
            assert(members@.subrange(0, members@.len() as int) == members@);
            while i < members.len()
                invariant
                    i <= members@.len(),
                    field(*j, key@) == first_member(members@, key@),
                    first_member(members@, key@) == first_member(
                        members@.subrange(i as int, members@.len() as int),
                        key@,
                    ),
                decreases members@.len() - i,
            {
                let ghost rest = members@.subrange(i as int, members@.len() as int);
                assert(rest[0] == members@[i as int]);
                if crate::text::same_text(members[i].0.as_str(), key) {
                    assert(rest[0].0@ == key@);
                    assert(first_member(rest, key@) == Some(rest[0].1));
                    return Some(&members[i].1);
                }
                assert(rest.drop_first() == members@.subrange(i + 1, members@.len() as int));
                i += 1;
            }
            None
        },
        _ => None,
    }
}

/// The text of the member `key` of `j`, or the empty string when there is no
/// such member or it is not a string.
pub fn text_member(j: &Json, key: &str) -> (r: String)
    ensures
        r@ == text_or_empty(field(*j, key@)),
{
    match field_of(j, key) {
        Some(Json::Str(s)) => s.clone(),
        _ => String::new(),
    }
}

} // verus!
