//! JSON documents: the lines that the Elasticsearch output posts.
//!
//! Reading and writing JSON is `serde_json`'s work; the library holds the
//! document as plain values, `Json`, and names what `serde_json` makes of a
//! line (`json_of`) and of a document (`json_text`).

use vstd::prelude::*;

verus! {

/// A JSON document. Numbers keep the text that `serde_json` writes for them;
/// an object's members stand in the order in which `serde_json` keeps them.
pub enum Json {
    Null,
    Bool(bool),
    Number(String),
    Str(String),
    Array(Vec<Json>),
    Object(Vec<(String, Json)>),
}

/// A `Json` with its strings as character sequences.
pub enum JsonV {
    Null,
    Bool(bool),
    Number(Seq<char>),
    Str(Seq<char>),
    Array(Seq<JsonV>),
    Object(Seq<(Seq<char>, JsonV)>),
}

pub open spec fn json_view(j: Json) -> JsonV
    decreases j,
{
    match j {
        Json::Null => JsonV::Null,
        Json::Bool(b) => JsonV::Bool(b),
        Json::Number(n) => JsonV::Number(n@),
        Json::Str(s) => JsonV::Str(s@),
        Json::Array(a) => JsonV::Array(json_seq_view(a@)),
        Json::Object(m) => JsonV::Object(json_members_view(m@)),
    }
}

pub open spec fn json_seq_view(s: Seq<Json>) -> Seq<JsonV>
    decreases s,
{
    if s.len() == 0 {
        Seq::empty()
    } else {
        json_seq_view(s.drop_last()).push(json_view(s.last()))
    }
}

pub open spec fn json_members_view(s: Seq<(String, Json)>) -> Seq<(Seq<char>, JsonV)>
    decreases s,
{
    if s.len() == 0 {
        Seq::empty()
    } else {
        json_members_view(s.drop_last()).push((s.last().0@, json_view(s.last().1)))
    }
}

impl View for Json {
    type V = JsonV;

    open spec fn view(&self) -> JsonV {
        json_view(*self)
    }
}


#[verifier::external_type_specification]
#[verifier::external_body]
pub struct ExJsonValue(serde_json::Value);

/// What `serde_json::from_str::<serde_json::Value>` makes of a line, as a
/// `Json`; `None` where it returns an error.
pub uninterp spec fn json_of(line: Seq<char>) -> Option<JsonV>;

/// What `serde_json::to_string` writes for a document; `None` where it
/// returns an error, or where a number's text is not one that
/// `serde_json::Number` reads.
pub uninterp spec fn json_text(d: JsonV) -> Option<Seq<char>>;

/// Changes a `serde_json::Value` into a `Json`, variant for variant: a
/// number becomes the text that `serde_json` writes for it, and an object's
/// members keep the order of the map. It claims nothing; `decode_json`
/// states what the two together give.
#[verifier::external_body]
fn json_from_value(v: serde_json::Value) -> Json {
    match v {
        serde_json::Value::Null => Json::Null,
        serde_json::Value::Bool(b) => Json::Bool(b),
        serde_json::Value::Number(n) => Json::Number(n.to_string()),
        serde_json::Value::String(s) => Json::Str(s),
        serde_json::Value::Array(a) => Json::Array(a.into_iter().map(json_from_value).collect()),
        serde_json::Value::Object(m) => Json::Object(
            m.into_iter().map(|(k, x)| (k, json_from_value(x))).collect(),
        ),
    }
}

/// Changes a `Json` into a `serde_json::Value`, variant for variant; `None`
/// where a number's text is not one that `serde_json::Number` reads. It
/// claims nothing; `encode_json` states what the two together give.
#[verifier::external_body]
fn value_from_json(d: &Json) -> Option<serde_json::Value> {
    Some(match d {
        Json::Null => serde_json::Value::Null,
        Json::Bool(b) => serde_json::Value::Bool(*b),
        Json::Number(n) => serde_json::Value::Number(n.parse::<serde_json::Number>().ok()?),
        Json::Str(s) => serde_json::Value::String(s.clone()),
        Json::Array(a) => serde_json::Value::Array(a.iter().map(value_from_json).collect::<Option<_>>()?),
        Json::Object(m) => serde_json::Value::Object(
            m.iter().map(|(k, x)| Some((k.clone(), value_from_json(x)?))).collect::<Option<_>>()?,
        ),
    })
}

/// Reads a line as JSON.
///
/// Trusted: `serde_json::from_str::<serde_json::Value>` depends on the line
/// alone; its result, changed into a `Json`, is `json_of` of the line. Which
/// lines it accepts, and the document it builds, are not stated here.
#[verifier::external_body]
pub(crate) fn decode_json(line: &str) -> (res: Option<Json>)
    ensures
        match res {
            Some(d) => json_of(line@) == Some(d@),
            None => json_of(line@) is None,
        },
{
    match serde_json::from_str::<serde_json::Value>(line) {
        Ok(v) => Some(json_from_value(v)),
        Err(_) => None,
    }
}

/// Writes a document as JSON text.
///
/// Trusted: `serde_json::to_string` of the document, changed into a
/// `serde_json::Value`, depends on the document alone, and is `json_text`
/// of it. The text it writes is not stated here.
#[verifier::external_body]
pub(crate) fn encode_json(d: &Json) -> (res: Option<String>)
    ensures
        match res {
            Some(t) => json_text(d@) == Some(t@),
            None => json_text(d@) is None,
        },
{
    match value_from_json(d) {
        Some(v) => serde_json::to_string(&v).ok(),
        None => None,
    }
}

/// The value of the member `key` of the members `fields`: the first with
/// that name.
pub open spec fn member(fields: Seq<(Seq<char>, JsonV)>, key: Seq<char>) -> Option<JsonV>
    decreases fields.len(),
{
    if fields.len() == 0 {
        None
    } else if fields[0].0 == key {
        Some(fields[0].1)
    } else {
        member(fields.drop_first(), key)
    }
}

/// The value of the member `key` of a document that is an object; `None`
/// for any other document.
pub open spec fn find(d: JsonV, key: Seq<char>) -> Option<JsonV> {
    match d {
        JsonV::Object(fields) => member(fields, key),
        _ => None,
    }
}

proof fn lemma_members_view_index(s: Seq<(String, Json)>, i: int)
    requires
        0 <= i < s.len(),
    ensures
        json_members_view(s).len() == s.len(),
        json_members_view(s)[i] == (s[i].0@, json_view(s[i].1)),
    decreases s.len(),
{
    if i < s.len() - 1 {
        lemma_members_view_index(s.drop_last(), i);
    } else {
        lemma_members_view_len(s.drop_last());
    }
}

proof fn lemma_members_view_len(s: Seq<(String, Json)>)
    ensures
        json_members_view(s).len() == s.len(),
    decreases s.len(),
{
    if s.len() > 0 {
        lemma_members_view_len(s.drop_last());
    }
}

/// The member `key` of `d`, as `serde_json::Value::get` finds it in an
/// object; `None` where `d` is not an object or has no such member.
pub fn find_member<'a>(d: &'a Json, key: &str) -> (res: Option<&'a Json>)
    ensures
        match res {
            Some(v) => find(d@, key@) == Some(v@),
            None => find(d@, key@) is None,
        },
{
    match d {
        Json::Object(fields) => {
            let k = key.to_owned();
            let ghost mv = json_members_view(fields@);
            proof {
                lemma_members_view_len(fields@);
                assert(mv.skip(0) =~= mv);
            }
            assert(d@ == JsonV::Object(mv));
            let mut i: usize = 0;
            while i < fields.len()
                invariant
                    i <= fields@.len(),
                    mv == json_members_view(fields@),
                    d@ == JsonV::Object(mv),
                    mv.len() == fields@.len(),
                    k@ == key@,
                    member(mv, key@) == member(mv.skip(i as int), key@),
                decreases fields@.len() - i,
            {
                proof {
                    lemma_members_view_index(fields@, i as int);
                }
                let ghost rest = mv.skip(i as int);
                assert(rest.drop_first() =~= mv.skip(i + 1));
                assert(rest[0] == mv[i as int]);
                if fields[i].0 == k {
                    assert(member(rest, key@) == Some(rest[0].1));
                    return Some(&fields[i].1);
                }
                i = i + 1;
            }
            assert(mv.skip(i as int).len() == 0);
            None
        },
        _ => None,
    }
}

} // verus!
