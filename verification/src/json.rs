//! JSON documents as `serde_json` reads them.
use crate::text::{chars_of, same, skip_space, space_end, string_of};
use serde_json::Value;
use vstd::prelude::*;

verus! {

/// A JSON value. A number is kept as it prints; the members of an object come
/// in the order of the reader, each key once.
#[derive(Debug)]
pub enum Json {
    Null,
    Bool(bool),
    Number(String),
    Text(String),
    Array(Vec<Json>),
    Object(Vec<(String, Json)>),
}

/// A value as `serde_json` holds it.
#[verifier::external_type_specification]
#[verifier::external_body]
pub struct ExValue(serde_json::Value);

/// The value that `serde_json` reads from `text`; `None` if it is not JSON.
pub uninterp spec fn read_value(text: Seq<char>) -> Option<Value>;

/// What a value of `serde_json` holds.
pub uninterp spec fn held_value(v: Value) -> Json;

/// `serde_json::from_str` reads a JSON document. The result is a function of
/// the text; the grammar is left to that crate.
#[verifier::external_body]
fn value_from(text: &str) -> (r: Option<Value>)
    ensures
        r == read_value(text@),
{
    serde_json::from_str(text).ok()
}

/// Takes a `serde_json::Value` apart, variant by variant; `Number::to_string`
/// prints a number. The result is a function of the value.
#[verifier::external_body]
fn taken_apart(v: Value) -> (r: Json)
    ensures
        r == held_value(v),
{
    match v {
        Value::Null => Json::Null,
        Value::Bool(b) => Json::Bool(b),
        Value::Number(n) => Json::Number(n.to_string()),
        Value::String(s) => Json::Text(s),
        Value::Array(a) => Json::Array(a.into_iter().map(taken_apart).collect()),
        Value::Object(o) => Json::Object(
            o.into_iter().map(|(k, v)| (k, taken_apart(v))).collect(),
        ),
    }
}

/// The JSON document in `text`; `None` if there is none.
pub open spec fn json_value(text: Seq<char>) -> Option<Json> {
    match read_value(text) {
        Some(v) => Some(held_value(v)),
        None => None,
    }
}

/// Reads a JSON document.
pub fn parse_json(text: &str) -> (r: Option<Json>)
    ensures
        r == json_value(text@),
{
    match value_from(text) {
        Some(v) => Some(taken_apart(v)),
        None => None,
    }
}

/// The value of the last of `members` with this key.
pub open spec fn member_in(members: Seq<(String, Json)>, key: Seq<char>) -> Option<Json>
    decreases members.len(),
{
    if members.len() == 0 {
        None
    } else if members.last().0@ == key {
        Some(members.last().1)
    } else {
        member_in(members.drop_last(), key)
    }
}

/// The member of an object with this key; other values have no members.
pub open spec fn member(j: Json, key: Seq<char>) -> Option<Json> {
    match j {
        Json::Object(members) => member_in(members@, key),
        _ => None,
    }
}

/// The text of a string value.
pub open spec fn text_in(j: Json) -> Option<Seq<char>> {
    match j {
        Json::Text(s) => Some(s@),
        _ => None,
    }
}

// ---------------------------------------------------------------------------
// Repeated members
// ---------------------------------------------------------------------------

/// The position of the quote that ends a string whose inside is at `i`, or the
/// end of `s`. A backslash escapes what follows it.
pub open spec fn string_end(s: Seq<char>, i: int) -> int
    decreases s.len() - i,
{
    if i >= s.len() {
        s.len() as int
    } else if s[i] == '"' {
        i
    } else if s[i] == '\\' && i + 1 < s.len() {
        string_end(s, i + 2)
    } else {
        string_end(s, i + 1)
    }
}

/// The string literal from `i` up to `end` reads as `key`.
pub open spec fn spells(s: Seq<char>, i: int, end: int, key: Seq<char>) -> bool {
    json_value(s.subrange(i, end)) matches Some(Json::Text(t)) && t@ == key
}

/// How many members of the outermost object in `s` have this key, counted from
/// position `i` on, where `depth` brackets are open.
pub open spec fn key_count(s: Seq<char>, i: int, depth: nat, key: Seq<char>) -> nat
    decreases s.len() - i,
    when 0 <= i
{
    if i >= s.len() {
        0
    } else if s[i] == '"' {
        let end = string_end(s, i + 1);
        if end < i + 1 || end >= s.len() {
            0
        } else {
            let after = space_end(s, end + 1);
            key_count(s, end + 1, depth, key) + if depth == 1 && 0 <= after < s.len() && s[after]
                == ':' && spells(s, i, end + 1, key) {
                1nat
            } else {
                0
            }
        }
    } else if s[i] == '{' || s[i] == '[' {
        key_count(s, i + 1, depth + 1, key)
    } else if s[i] == '}' || s[i] == ']' {
        key_count(
            s,
            i + 1,
            if depth > 0 {
                (depth - 1) as nat
            } else {
                0
            },
            key,
        )
    } else {
        key_count(s, i + 1, depth, key)
    }
}

/// The outermost object of a document has more than one member with this key.
pub open spec fn repeats_key(text: Seq<char>, key: Seq<char>) -> bool {
    key_count(text, 0, 0, key) > 1
}

fn find_string_end(cs: &[char], from: usize) -> (r: usize)
    requires
        from <= cs@.len(),
    ensures
        r == string_end(cs@, from as int),
        from <= r <= cs@.len(),
{
    let mut i: usize = from;
    while i < cs.len()
        invariant
            from <= i <= cs@.len(),
            string_end(cs@, from as int) == string_end(cs@, i as int),
        decreases cs@.len() - i,
    {
        if cs[i] == '"' {
            return i;
        }
        if cs[i] == '\\' && i + 1 < cs.len() {
            i += 2;
        } else {
            i += 1;
        }
    }
    cs.len()
}

/// Whether the outermost object of a document has more than one member with this
/// key.
pub fn has_repeated_key(text: &str, key: &str) -> (r: bool)
    ensures
        r == repeats_key(text@, key@),
{
    let chars = chars_of(text);
    let cs = chars.as_slice();
    let mut i: usize = 0;
    let mut depth: usize = 0;
    let mut seen: usize = 0;
    while i < cs.len()
        invariant_except_break
            seen + key_count(cs@, i as int, depth as nat, key@) == key_count(cs@, 0, 0, key@),
        invariant
            cs@ == text@,
            i <= cs@.len(),
            depth <= i,
            seen <= i,
        ensures
            seen == key_count(cs@, 0, 0, key@),
        decreases cs@.len() - i,
    {
        if cs[i] == '"' {
            let end = find_string_end(cs, i + 1);
            if end >= cs.len() {
                break;
            }
            let after = skip_space(cs, end + 1);
            if depth == 1 && after < cs.len() && cs[after] == ':' {
                let spelled = match parse_json(string_of(cs, i, end + 1).as_str()) {
                    Some(Json::Text(t)) => same(t.as_str(), key),
                    _ => false,
                };
                if spelled {
                    seen += 1;
                }
            }
            i = end + 1;
        } else {
            if cs[i] == '{' || cs[i] == '[' {
                depth += 1;
            } else if (cs[i] == '}' || cs[i] == ']') && depth > 0 {
                depth -= 1;
            }
            i += 1;
        }
    }
    seen > 1
}

impl Json {
    /// The member with this key.
    pub fn get<'a>(&'a self, key: &str) -> (r: Option<&'a Json>)
        ensures
            match r {
                Some(j) => member(*self, key@) == Some(*j),
                None => member(*self, key@) is None,
            },
    {
        match self {
            Json::Object(members) => {
                let ghost all = members@;
                let mut n: usize = members.len();
                proof {
                    assert(all.take(n as int) =~= all);
                }
                while n > 0
                    invariant
                        all == members@,
                        n <= all.len(),
                        member(*self, key@) == member_in(all.take(n as int), key@),
                    decreases n,
                {
                    proof {
                        assert(all.take(n as int).drop_last() =~= all.take(n - 1));
                    }
                    if same(members[n - 1].0.as_str(), key) {
                        return Some(&members[n - 1].1);
                    }
                    n -= 1;
                }
                None
            },
            _ => None,
        }
    }

    /// The text of a string value.
    pub fn as_str<'a>(&'a self) -> (r: Option<&'a str>)
        ensures
            crate::text::opt_view(r) == text_in(*self),
    {
        match self {
            Json::Text(s) => Some(s.as_str()),
            _ => None,
        }
    }
}

} // verus!
