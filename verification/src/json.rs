//! A JSON document as the response handlers read it.
//!
//! Bodies are parsed at the transport edge; the decisions that read them work on this
//! tree. An object keeps its members in order, and a lookup takes the first member with
//! the key. A number is kept as its `u64` value when it is one.
use vstd::prelude::*;
use crate::text::{str_eq, chars_eq_str};

verus! {

pub enum Json {
    Null,
    Bool(bool),
    /// A number; `Some` when it is a non-negative integer that fits a `u64`.
    Number(Option<u64>),
    Str(String),
    Array(Vec<Json>),
    Object(Vec<(String, Json)>),
}

/// The first member of `members` named `key`.
pub open spec fn member(members: Seq<(String, Json)>, key: Seq<char>) -> Option<Json>
    decreases members.len(),
{
    if members.len() == 0 {
        None
    } else if members[0].0@ == key {
        Some(members[0].1)
    } else {
        member(members.drop_first(), key)
    }
}

/// `value.get(key)`: the member of an object, `None` for anything else.
pub open spec fn field(j: Json, key: Seq<char>) -> Option<Json> {
    match j {
        Json::Object(members) => member(members@, key),
        _ => None,
    }
}

/// `value.as_str()`.
pub open spec fn str_of(j: Option<Json>) -> Option<Seq<char>> {
    match j {
        Some(Json::Str(s)) => Some(s@),
        _ => None,
    }
}

/// `value.as_bool()`.
pub open spec fn bool_of(j: Option<Json>) -> Option<bool> {
    match j {
        Some(Json::Bool(b)) => Some(b),
        _ => None,
    }
}

/// `value.as_u64()`.
pub open spec fn u64_of(j: Option<Json>) -> Option<u64> {
    match j {
        Some(Json::Number(Some(n))) => Some(n),
        _ => None,
    }
}

/// `value.get(key).and_then(as_str)`.
pub open spec fn str_field(j: Json, key: Seq<char>) -> Option<Seq<char>> {
    str_of(field(j, key))
}

/// `value.get(key).and_then(as_str).unwrap_or("")`.
pub open spec fn str_field_or_empty(j: Json, key: Seq<char>) -> Seq<char> {
    match str_field(j, key) {
        Some(s) => s,
        None => seq![],
    }
}

/// `value.get(key).and_then(as_bool)`.
pub open spec fn bool_field(j: Json, key: Seq<char>) -> Option<bool> {
    bool_of(field(j, key))
}

/// `value.get(key).and_then(as_u64)`.
pub open spec fn u64_field(j: Json, key: Seq<char>) -> Option<u64> {
    u64_of(field(j, key))
}

/// An optional parse result's string member: `None` when the body did not parse.
pub open spec fn parsed_str_field(j: Option<Json>, key: Seq<char>) -> Option<Seq<char>> {
    match j {
        Some(v) => str_field(v, key),
        None => None,
    }
}

/// An optional parse result's string member or `""`.
pub open spec fn parsed_str_field_or_empty(j: Option<Json>, key: Seq<char>) -> Seq<char> {
    match parsed_str_field(j, key) {
        Some(s) => s,
        None => seq![],
    }
}

/// An optional parse result's boolean member.
pub open spec fn parsed_bool_field(j: Option<Json>, key: Seq<char>) -> Option<bool> {
    match j {
        Some(v) => bool_field(v, key),
        None => None,
    }
}

impl Json {
    /// The member named `key`, when `self` is an object that has one.
    pub fn get(&self, key: &str) -> (r: Option<&Json>)
        ensures
            match r {
                Some(v) => field(*self, key@) == Some(*v),
                None => field(*self, key@) is None,
            },
    {
        match self {
            Json::Object(members) => {
                let mut i: usize = 0;
                assert(members@.skip(0) =~= members@);
                while i < members.len()
                    invariant
                        i <= members@.len(),
                        field(*self, key@) == member(members@.skip(i as int), key@),
                    decreases members@.len() - i,
                {
                    let ghost rest = members@.skip(i as int);
                    assert(rest[0] == members@[i as int]);
                    assert(rest.drop_first() =~= members@.skip(i + 1));
                    if chars_eq_str_string(&members[i].0, key) {
                        return Some(&members[i].1);
                    }
                    i = i + 1;
                }
                None
            },
            _ => None,
        }
    }

    /// The string, when `self` is one.
    pub fn as_str(&self) -> (r: Option<&String>)
        ensures
            match r {
                Some(s) => *self == Json::Str(*s),
                None => !(*self is Str),
            },
    {
        match self {
            Json::Str(s) => Some(s),
            _ => None,
        }
    }

    /// The boolean, when `self` is one.
    pub fn as_bool(&self) -> (r: Option<bool>)
        ensures
            r == bool_of(Some(*self)),
    {
        match self {
            Json::Bool(b) => Some(*b),
            _ => None,
        }
    }

    /// The number as a `u64`, when it is one.
    pub fn as_u64(&self) -> (r: Option<u64>)
        ensures
            r == u64_of(Some(*self)),
    {
        match self {
            Json::Number(n) => *n,
            _ => None,
        }
    }

    /// The elements, when `self` is an array.
    pub fn as_array(&self) -> (r: Option<&Vec<Json>>)
        ensures
            match r {
                Some(v) => *self == Json::Array(*v),
                None => !(*self is Array),
            },
    {
        match self {
            Json::Array(v) => Some(v),
            _ => None,
        }
    }
}

/// The member named `key`, taken out of an object.
pub fn take_field(j: Json, key: &str) -> (r: Option<Json>)
    ensures
        r == field(j, key@),
{
    let ghost whole = j;
    match j {
        Json::Object(owned_members) => {
            let mut members = owned_members;
            let ghost ms = members@;
            assert(field(whole, key@) == member(ms, key@));
            let mut i: usize = 0;
            assert(ms.skip(0) =~= ms);
            while i < members.len()
                invariant
                    members@ == ms,
                    whole == j,
                    field(whole, key@) == member(ms, key@),
                    i <= ms.len(),
                    member(ms, key@) == member(ms.skip(i as int), key@),
                decreases ms.len() - i,
            {
                let ghost rest = ms.skip(i as int);
                assert(rest[0] == ms[i as int]);
                assert(rest.drop_first() =~= ms.skip(i + 1));
                if chars_eq_str_string(&members[i].0, key) {
                    assert(member(rest, key@) == Some(ms[i as int].1));
                    let m = members.remove(i);
                    assert(m == ms[i as int]);
                    let v = m.1;
                    assert(v == ms[i as int].1);
                    return Some(v);
                }
                i = i + 1;
            }
            None
        },
        _ => None,
    }
}


/// Whether `s` spells `t`.
fn chars_eq_str_string(s: &String, t: &str) -> (r: bool)
    ensures
        r == (s@ == t@),
{
    str_eq(s.as_str(), t)
}

/// `value.get(key).and_then(as_str)`, copied out.
pub fn str_field_exec(j: &Json, key: &str) -> (r: Option<String>)
    ensures
        match r {
            Some(s) => str_field(*j, key@) == Some(s@),
            None => str_field(*j, key@) is None,
        },
{
    match j.get(key) {
        Some(v) => match v.as_str() {
            Some(s) => Some(crate::text::owned(s.as_str())),
            None => None,
        },
        None => None,
    }
}

/// `value.get(key).and_then(as_str).unwrap_or("")`, copied out.
pub fn str_field_or_empty_exec(j: &Json, key: &str) -> (r: String)
    ensures
        r@ == str_field_or_empty(*j, key@),
{
    match str_field_exec(j, key) {
        Some(s) => s,
        None => String::new(),
    }
}

/// `value.get(key).and_then(as_bool)`.
pub fn bool_field_exec(j: &Json, key: &str) -> (r: Option<bool>)
    ensures
        r == bool_field(*j, key@),
{
    match j.get(key) {
        Some(v) => v.as_bool(),
        None => None,
    }
}

/// `value.get(key).and_then(as_u64)`.
pub fn u64_field_exec(j: &Json, key: &str) -> (r: Option<u64>)
    ensures
        r == u64_field(*j, key@),
{
    match j.get(key) {
        Some(v) => v.as_u64(),
        None => None,
    }
}

/// A string member of an optional parse result.
pub fn parsed_str_field_exec(j: &Option<Json>, key: &str) -> (r: Option<String>)
    ensures
        match r {
            Some(s) => parsed_str_field(*j, key@) == Some(s@),
            None => parsed_str_field(*j, key@) is None,
        },
{
    match j {
        Some(v) => str_field_exec(v, key),
        None => None,
    }
}

/// A string member of an optional parse result, or `""`.
pub fn parsed_str_field_or_empty_exec(j: &Option<Json>, key: &str) -> (r: String)
    ensures
        r@ == parsed_str_field_or_empty(*j, key@),
{
    match parsed_str_field_exec(j, key) {
        Some(s) => s,
        None => String::new(),
    }
}

/// A boolean member of an optional parse result.
pub fn parsed_bool_field_exec(j: &Option<Json>, key: &str) -> (r: Option<bool>)
    ensures
        r == parsed_bool_field(*j, key@),
{
    match j {
        Some(v) => bool_field_exec(v, key),
        None => None,
    }
}


/// A lowercase hexadecimal digit.
pub open spec fn hex_lower(d: u32) -> char {
    if d < 10 {
        (('0' as u32) + d) as char
    } else {
        (('a' as u32) + d - 10) as char
    }
}

/// How a JSON string literal writes `c`: a quote, a backslash and the control characters
/// with a short escape take it; the other control characters are written `\u00xx` in
/// lowercase hexadecimal; every other character stands for itself.
pub open spec fn json_char_escape(c: char) -> Seq<char> {
    if c == '"' {
        "\\\""@
    } else if c == '\\' {
        "\\\\"@
    } else if c == '\u{8}' {
        "\\b"@
    } else if c == '\t' {
        "\\t"@
    } else if c == '\n' {
        "\\n"@
    } else if c == '\u{c}' {
        "\\f"@
    } else if c == '\r' {
        "\\r"@
    } else if (c as u32) < 0x20 {
        "\\u00"@ + seq![hex_lower((c as u32) / 16), hex_lower((c as u32) % 16)]
    } else {
        seq![c]
    }
}

/// Every character of `s` as a JSON string literal writes it.
pub open spec fn json_escaped(s: Seq<char>) -> Seq<char>
    decreases s.len(),
{
    if s.len() == 0 {
        seq![]
    } else {
        json_escaped(s.drop_last()) + json_char_escape(s.last())
    }
}

/// The JSON string literal for `s`, quotes included, as `serde_json::to_string` writes
/// a string.
pub open spec fn json_quoted(s: Seq<char>) -> Seq<char> {
    "\""@ + json_escaped(s) + "\""@
}

/// `serde_json::to_string` of `s`: the JSON string literal for it (see
/// [`json_quoted`]). serde_json writes a string's bytes through its escape table, which
/// escapes a quote, a backslash and the bytes below 0x20, and cannot fail on a `str`.
#[verifier::external_body]
pub(crate) fn json_string(s: &str) -> (r: String)
    ensures
        r@ == json_quoted(s@),
{
    serde_json::to_string(s).unwrap_or_default()
}

} // verus!
