//! JSON documents as the AWS JSON 1.0 protocol exchanges them: the values
//! that requests carry and responses return, and their compact text.

use vstd::prelude::*;
use crate::sqs::response::bool_text;
use crate::sqs::types::hex_digit;
use crate::text::{push_char, push_str};

verus! {

/// A JSON number: its canonical text and, when it is a non-negative integer
/// that fits in 64 bits, that integer.
#[derive(Debug)]
pub struct JsonNumber {
    pub text: String,
    pub unsigned: Option<u64>,
}

/// A JSON value. An object holds its members in the order its reader gives
/// them; a lookup takes the first member with the key.
#[derive(Debug)]
pub enum JsonValue {
    Null,
    Bool(bool),
    Number(JsonNumber),
    Str(String),
    Array(Vec<JsonValue>),
    Object(Vec<(String, JsonValue)>),
}

// ---------------------------------------------------------------------------
// Text
// ---------------------------------------------------------------------------

/// How one character is written inside a JSON string literal.
pub open spec fn json_char_escape(c: char) -> Seq<char> {
    if c == '"' {
        seq!['\\', '"']
    } else if c == '\\' {
        seq!['\\', '\\']
    } else if c == '\u{8}' {
        seq!['\\', 'b']
    } else if c == '\u{c}' {
        seq!['\\', 'f']
    } else if c == '\n' {
        seq!['\\', 'n']
    } else if c == '\r' {
        seq!['\\', 'r']
    } else if c == '\t' {
        seq!['\\', 't']
    } else if (c as u32) < 0x20 {
        seq!['\\', 'u', '0', '0', hex_digit(((c as u32) / 16) as nat), hex_digit(((c as u32) % 16) as nat)]
    } else {
        seq![c]
    }
}

pub open spec fn json_escaped(s: Seq<char>) -> Seq<char>
    decreases s.len(),
{
    if s.len() == 0 {
        Seq::empty()
    } else {
        json_escaped(s.drop_last()) + json_char_escape(s.last())
    }
}

/// A JSON string literal holding `s`.
pub open spec fn json_quoted(s: Seq<char>) -> Seq<char> {
    seq!['"'] + json_escaped(s) + seq!['"']
}

/// Calls `serde_json::to_string` on a string slice. serde_json writes a
/// string between double quotes, with `"` and `\` escaped by a backslash,
/// the control characters backspace, form feed, line feed, carriage return
/// and tab as `\b`, `\f`, `\n`, `\r`, `\t`, the other characters below
/// U+0020 as `\u00` and two lowercase hex digits, and every other character
/// as itself; serialising a string does not fail.
#[verifier::external_body]
pub(crate) fn json_quote(s: &str) -> (r: String)
    ensures
        r@ == json_quoted(s@),
{
    serde_json::to_string(s).unwrap_or_default()
}

/// The compact JSON text of a value: no white space, members and elements
/// separated by commas.
pub open spec fn json_text(v: JsonValue) -> Seq<char>
    decreases v,
{
    match v {
        JsonValue::Null => seq!['n', 'u', 'l', 'l'],
        JsonValue::Bool(b) => bool_text(b),
        JsonValue::Number(n) => n.text@,
        JsonValue::Str(s) => json_quoted(s@),
        JsonValue::Array(items) => seq!['['] + elements_text(items@) + seq![']'],
        JsonValue::Object(members) => seq!['{'] + members_text(members@) + seq!['}'],
    }
}

pub open spec fn elements_text(s: Seq<JsonValue>) -> Seq<char>
    decreases s,
{
    if s.len() == 0 {
        Seq::empty()
    } else if s.len() == 1 {
        json_text(s[0])
    } else {
        elements_text(s.subrange(0, s.len() - 1)) + seq![','] + json_text(s[s.len() - 1])
    }
}

pub open spec fn member_text(k: Seq<char>, v: JsonValue) -> Seq<char> {
    json_quoted(k) + seq![':'] + json_text(v)
}

pub open spec fn members_text(s: Seq<(String, JsonValue)>) -> Seq<char>
    decreases s,
{
    if s.len() == 0 {
        Seq::empty()
    } else if s.len() == 1 {
        json_quoted(s[0].0@) + seq![':'] + json_text(s[0].1)
    } else {
        members_text(s.subrange(0, s.len() - 1)) + seq![','] + json_quoted(s[s.len() - 1].0@)
            + seq![':'] + json_text(s[s.len() - 1].1)
    }
}

proof fn lemma_elements_text_step(s: Seq<JsonValue>, i: int)
    requires
        0 <= i < s.len(),
    ensures
        elements_text(s.take(i + 1)) == if i == 0 {
            json_text(s[0])
        } else {
            elements_text(s.take(i)) + seq![','] + json_text(s[i])
        },
{
    let t = s.take(i + 1);
    assert(t.subrange(0, t.len() - 1) =~= s.take(i));
}

proof fn lemma_members_text_step(s: Seq<(String, JsonValue)>, i: int)
    requires
        0 <= i < s.len(),
    ensures
        members_text(s.take(i + 1)) == if i == 0 {
            member_text(s[0].0@, s[0].1)
        } else {
            members_text(s.take(i)) + seq![','] + member_text(s[i].0@, s[i].1)
        },
{
    let t = s.take(i + 1);
    assert(t.subrange(0, t.len() - 1) =~= s.take(i));
}

/// Appends the compact JSON text of `v`.
pub fn write_json(v: &JsonValue, out: &mut String)
    ensures
        final(out)@ == old(out)@ + json_text(*v),
    decreases v,
{
    match v {
        JsonValue::Null => {
            push_char(out, 'n');
            push_char(out, 'u');
            push_char(out, 'l');
            push_char(out, 'l');
            assert(final(out)@ =~= old(out)@ + json_text(*v));
        },
        JsonValue::Bool(b) => {
            if *b {
                push_char(out, 't');
                push_char(out, 'r');
                push_char(out, 'u');
                push_char(out, 'e');
            } else {
                push_char(out, 'f');
                push_char(out, 'a');
                push_char(out, 'l');
                push_char(out, 's');
                push_char(out, 'e');
            }
            proof {
                reveal_strlit("true");
                reveal_strlit("false");
            }
            assert(final(out)@ =~= old(out)@ + json_text(*v));
        },
        JsonValue::Number(n) => {
            push_str(out, n.text.as_str());
        },
        JsonValue::Str(s) => {
            let q = json_quote(s.as_str());
            push_str(out, q.as_str());
        },
        JsonValue::Array(items) => {
            let ghost start = out@;
            push_char(out, '[');
            let mut i: usize = 0;
            while i < items.len()
                invariant
                    i <= items.len(),
                    *v == JsonValue::Array(*items),
                    out@ == start + seq!['['] + elements_text(items@.take(i as int)),
                decreases items.len() - i,
            {
                let ghost before = out@;
                if i > 0 {
                    push_char(out, ',');
                }
                proof {
                    assert(decreases_to!(*v => (*v)->Array_0));
                    assert(decreases_to!(*items => items@));
                    assert(decreases_to!(items@ => items@[i as int]));
                    assert(decreases_to!(*v => items@[i as int]));
                }
                write_json(&items[i], out);
                proof {
                    lemma_elements_text_step(items@, i as int);
                }
                assert(out@ =~= start + seq!['['] + elements_text(items@.take(i + 1)));
                i = i + 1;
            }
            push_char(out, ']');
            assert(items@.take(items.len() as int) =~= items@);
            assert(final(out)@ =~= old(out)@ + json_text(*v));
        },
        JsonValue::Object(members) => {
            let ghost start = out@;
            push_char(out, '{');
            let mut i: usize = 0;
            while i < members.len()
                invariant
                    i <= members.len(),
                    *v == JsonValue::Object(*members),
                    out@ == start + seq!['{'] + members_text(members@.take(i as int)),
                decreases members.len() - i,
            {
                if i > 0 {
                    push_char(out, ',');
                }
                let q = json_quote(members[i].0.as_str());
                push_str(out, q.as_str());
                push_char(out, ':');
                proof {
                    assert(decreases_to!(*v => (*v)->Object_0));
                    assert(decreases_to!(*members => members@));
                    assert(decreases_to!(members@ => members@[i as int]));
                    assert(decreases_to!(members@[i as int] => members@[i as int].1));
                    assert(decreases_to!(*v => members@[i as int].1));
                }
                write_json(&members[i].1, out);
                proof {
                    lemma_members_text_step(members@, i as int);
                }
                assert(out@ =~= start + seq!['{'] + members_text(members@.take(i + 1)));
                i = i + 1;
            }
            push_char(out, '}');
            assert(members@.take(members.len() as int) =~= members@);
            assert(final(out)@ =~= old(out)@ + json_text(*v));
        },
    }
}

/// The compact JSON text of `v`.
pub fn to_json_text(v: &JsonValue) -> (r: String)
    ensures
        r@ == json_text(*v),
{
    let mut r = String::new();
    write_json(v, &mut r);
    assert(r@ =~= json_text(*v));
    r
}

// ---------------------------------------------------------------------------
// Reading values
// ---------------------------------------------------------------------------

/// The value of the first member named `k`, if any.
pub open spec fn member_value(s: Seq<(String, JsonValue)>, k: Seq<char>) -> Option<JsonValue>
    decreases s.len(),
{
    if s.len() == 0 {
        None
    } else if s[0].0@ == k {
        Some(s[0].1)
    } else {
        member_value(s.drop_first(), k)
    }
}

/// `value[k]`: the member `k` of an object, `null` otherwise.
pub open spec fn field(v: JsonValue, k: Seq<char>) -> JsonValue {
    match v {
        JsonValue::Object(members) => match member_value(members@, k) {
            Some(x) => x,
            None => JsonValue::Null,
        },
        _ => JsonValue::Null,
    }
}

/// The text of a string value.
pub open spec fn as_text(v: JsonValue) -> Option<Seq<char>> {
    match v {
        JsonValue::Str(s) => Some(s@),
        _ => None,
    }
}

/// The integer of a non-negative integral number that fits in 64 bits.
pub open spec fn as_unsigned(v: JsonValue) -> Option<u64> {
    match v {
        JsonValue::Number(n) => n.unsigned,
        _ => None,
    }
}

/// The first member of `members` named `key`.
pub fn find_member<'a>(members: &'a Vec<(String, JsonValue)>, key: &str) -> (r: Option<&'a JsonValue>)
    ensures
        match member_value(members@, key@) {
            Some(x) => r == Some(&x),
            None => r is None,
        },
{
    let mut i: usize = 0;
    assert(members@.skip(0) =~= members@);
    while i < members.len()
        invariant
            i <= members.len(),
            member_value(members@, key@) == member_value(members@.skip(i as int), key@),
        decreases members.len() - i,
    {
        let ghost rest = members@.skip(i as int);
        assert(rest.drop_first() =~= members@.skip(i + 1));
        if crate::text::str_eq(members[i].0.as_str(), key) {
            return Some(&members[i].1);
        }
        i = i + 1;
    }
    None
}

/// `value[key]` when it holds a string: that string.
pub fn field_text<'a>(v: &'a JsonValue, key: &str) -> (r: Option<&'a String>)
    ensures
        match as_text(field(*v, key@)) {
            Some(t) => r is Some && r.unwrap()@ == t,
            None => r is None,
        },
{
    match v {
        JsonValue::Object(members) => match find_member(members, key) {
            Some(JsonValue::Str(s)) => Some(s),
            _ => None,
        },
        _ => None,
    }
}

/// `value[key]` when it holds a non-negative integer that fits in 64 bits.
pub fn field_unsigned(v: &JsonValue, key: &str) -> (r: Option<u64>)
    ensures
        r == as_unsigned(field(*v, key@)),
{
    match v {
        JsonValue::Object(members) => match find_member(members, key) {
            Some(JsonValue::Number(n)) => n.unsigned,
            _ => None,
        },
        _ => None,
    }
}

} // verus!
