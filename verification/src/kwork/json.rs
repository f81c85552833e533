//! JSON documents as the Kwork API returns them, the field lookups the
//! client makes, and their compact text rendering.
use vstd::prelude::*;

use crate::textops::{push_char, char_vec, str_eq};
use crate::util::hex_lower;

verus! {

/// A JSON number: its text as the decoder renders it, and its value where it
/// is an integer in the `i64` or `u64` range.
#[derive(Debug)]
pub struct JsonNumber {
    pub text: String,
    pub as_i64: Option<i64>,
    pub as_u64: Option<u64>,
}

/// A decoded JSON value; object members keep the decoder's (key) order.
#[derive(Debug)]
pub enum Json {
    Null,
    Bool(bool),
    Number(JsonNumber),
    Str(String),
    Array(Vec<Json>),
    Object(Vec<(String, Json)>),
}

// ---------------------------------------------------------------------------
// Compact rendering (what `Value::to_string` prints)
// ---------------------------------------------------------------------------

/// One character inside a JSON string literal: quote, backslash and control
/// characters escaped, everything else as is.
pub open spec fn escape_char(c: char) -> Seq<char> {
    if c == '"' {
        seq!['\\', '"']
    } else if c == '\\' {
        seq!['\\', '\\']
    } else if c == '\u{8}' {
        seq!['\\', 'b']
    } else if c == '\u{c}' {
        seq!['\\', 'f']
    } else if c == '\n' {
        seq!['\\', 'n']
    } else if c == '\r' {
        seq!['\\', 'r']
    } else if c == '\t' {
        seq!['\\', 't']
    } else if (c as int) < 0x20 {
        seq![
            '\\',
            'u',
            '0',
            '0',
            hex_lower(((c as int) / 16) as u64),
            hex_lower(((c as int) % 16) as u64),
        ]
    } else {
        seq![c]
    }
}

pub open spec fn escape_str(s: Seq<char>) -> Seq<char>
    decreases s.len(),
{
    if s.len() == 0 {
        Seq::empty()
    } else {
        escape_str(s.drop_last()) + escape_char(s.last())
    }
}

/// A JSON string literal.
pub open spec fn string_text(s: Seq<char>) -> Seq<char> {
    seq!['"'] + escape_str(s) + seq!['"']
}

/// The compact JSON text of a value.
pub open spec fn json_text(j: Json) -> Seq<char>
    decreases j,
{
    match j {
        Json::Null => seq!['n', 'u', 'l', 'l'],
        Json::Bool(b) => if b {
            seq!['t', 'r', 'u', 'e']
        } else {
            seq!['f', 'a', 'l', 's', 'e']
        },
        Json::Number(n) => n.text@,
        Json::Str(s) => string_text(s@),
        Json::Array(v) => seq!['['] + items_text(v@) + seq![']'],
        Json::Object(v) => seq!['{'] + members_text(v@) + seq!['}'],
    }
}

/// Array elements separated by commas.
pub open spec fn items_text(items: Seq<Json>) -> Seq<char>
    decreases items,
{
    if items.len() == 0 {
        Seq::empty()
    } else if items.len() == 1 {
        json_text(items[0])
    } else {
        items_text(items.drop_last()) + seq![','] + json_text(items.last())
    }
}

/// Object members `"key":value` separated by commas.
pub open spec fn members_text(members: Seq<(String, Json)>) -> Seq<char>
    decreases members,
{
    if members.len() == 0 {
        Seq::empty()
    } else if members.len() == 1 {
        string_text(members[0].0@) + seq![':'] + json_text(members[0].1)
    } else {
        members_text(members.drop_last()) + seq![','] + string_text(members.last().0@) + seq![':']
            + json_text(members.last().1)
    }
}

fn hex_digit(d: u32) -> (c: char)
    requires
        d < 16,
    ensures
        c == hex_lower(d as u64),
{
    if d < 10 {
        ((d as u8) + 48u8) as char
    } else {
        ((d as u8) + 87u8) as char
    }
}

fn write_escaped_char(out: &mut String, c: char)
    ensures
        final(out)@ == old(out)@ + escape_char(c),
{
    let ghost before = out@;
    if c == '"' {
        push_char(out, '\\');
        push_char(out, '"');
    } else if c == '\\' {
        push_char(out, '\\');
        push_char(out, '\\');
    } else if c == '\u{8}' {
        push_char(out, '\\');
        push_char(out, 'b');
    } else if c == '\u{c}' {
        push_char(out, '\\');
        push_char(out, 'f');
    } else if c == '\n' {
        push_char(out, '\\');
        push_char(out, 'n');
    } else if c == '\r' {
        push_char(out, '\\');
        push_char(out, 'r');
    } else if c == '\t' {
        push_char(out, '\\');
        push_char(out, 't');
    } else if (c as u32) < 0x20 {
        let u = c as u32;
        push_char(out, '\\');
        push_char(out, 'u');
        push_char(out, '0');
        push_char(out, '0');
        push_char(out, hex_digit(u / 16));
        push_char(out, hex_digit(u % 16));
    } else {
        push_char(out, c);
    }
    assert(out@ =~= before + escape_char(c));
}

/// Appends a JSON string literal for `s`.
pub fn write_string(out: &mut String, s: &str)
    ensures
        final(out)@ == old(out)@ + string_text(s@),
{
    let cs = char_vec(s);
    let ghost start = out@;
    push_char(out, '"');
    let n = cs.len();
    for i in 0..n
        invariant
            n == cs@.len(),
            cs@ == s@,
            out@ == start + seq!['"'] + escape_str(cs@.take(i as int)),
    {
        write_escaped_char(out, cs[i]);
        assert(cs@.take(i + 1).drop_last() =~= cs@.take(i as int));
        assert(out@ =~= start + seq!['"'] + escape_str(cs@.take(i + 1)));
    }
    assert(cs@.take(n as int) =~= cs@);
    push_char(out, '"');
    assert(out@ =~= start + string_text(s@));
}

/// Appends the compact JSON text of `j`.
pub fn write_json(out: &mut String, j: &Json)
    ensures
        final(out)@ == old(out)@ + json_text(*j),
    decreases j,
{
    let ghost start = out@;
    match j {
        Json::Null => {
            out.append("null");
            proof {
                reveal_strlit("null");
            }
            assert(out@ =~= start + json_text(*j));
        },
        Json::Bool(b) => {
            if *b {
                out.append("true");
                proof {
                    reveal_strlit("true");
                }
            } else {
                out.append("false");
                proof {
                    reveal_strlit("false");
                }
            }
            assert(out@ =~= start + json_text(*j));
        },
        Json::Number(n) => {
            out.append(n.text.as_str());
        },
        Json::Str(s) => {
            write_string(out, s.as_str());
        },
        Json::Array(v) => {
            push_char(out, '[');
            let n = v.len();
            for i in 0..n
                invariant
                    n == v@.len(),
                    out@ == start + seq!['['] + items_text(v@.take(i as int)),
                    *j == Json::Array(*v),
            {
                assert(v@.take(i + 1).drop_last() =~= v@.take(i as int));
                if i > 0 {
                    push_char(out, ',');
                }
                assert(*v == (*j)->Array_0);
                assert(decreases_to!(*j => (*j)->Array_0));
                assert(decreases_to!(*v => v@));
                assert(decreases_to!(v@ => v@[i as int]));
                assert(decreases_to!(*j => v@[i as int]));
                write_json(out, &v[i]);
                assert(out@ =~= start + seq!['['] + items_text(v@.take(i + 1)));
            }
            assert(v@.take(n as int) =~= v@);
            push_char(out, ']');
            assert(out@ =~= start + json_text(*j));
        },
        Json::Object(v) => {
            push_char(out, '{');
            let n = v.len();
            for i in 0..n
                invariant
                    n == v@.len(),
                    out@ == start + seq!['{'] + members_text(v@.take(i as int)),
                    *j == Json::Object(*v),
            {
                assert(v@.take(i + 1).drop_last() =~= v@.take(i as int));
                if i > 0 {
                    push_char(out, ',');
                }
                write_string(out, v[i].0.as_str());
                push_char(out, ':');
                assert(*v == (*j)->Object_0);
                assert(decreases_to!(*j => (*j)->Object_0));
                assert(decreases_to!(*v => v@));
                assert(decreases_to!(v@ => v@[i as int]));
                assert(decreases_to!(v@[i as int] => v@[i as int].1));
                assert(decreases_to!(*j => v@[i as int].1));
                write_json(out, &v[i].1);
                assert(out@ =~= start + seq!['{'] + members_text(v@.take(i + 1)));
            }
            assert(v@.take(n as int) =~= v@);
            push_char(out, '}');
            assert(out@ =~= start + json_text(*j));
        },
    }
}

/// The compact JSON text of `j`: the rendering `serde_json` gives a decoded
/// value (`Value::to_string`), written here as the short specification
/// `json_text` and proved against it, because `Json` is this crate's own type
/// and the decoder's `Value` is gone once a document is converted.
pub fn json_to_string(j: &Json) -> (r: String)
    ensures
        r@ == json_text(*j),
{
    let mut out = String::new();
    write_json(&mut out, j);
    out
}

// ---------------------------------------------------------------------------
// Lookups (`Value::get`, `as_*`)
// ---------------------------------------------------------------------------

/// The first member named `key`.
pub open spec fn member(members: Seq<(String, Json)>, key: Seq<char>) -> Option<Json>
    decreases members.len(),
{
    if members.len() == 0 {
        None
    } else if members[0].0@ == key {
        Some(members[0].1)
    } else {
        member(members.drop_first(), key)
    }
}

/// `value.get(key)`: a member of an object; nothing for other values.
pub open spec fn get_field(j: Json, key: Seq<char>) -> Option<Json> {
    match j {
        Json::Object(v) => member(v@, key),
        _ => None,
    }
}

pub open spec fn field_of(o: Option<Json>, key: Seq<char>) -> Option<Json> {
    match o {
        Some(j) => get_field(j, key),
        None => None,
    }
}

pub open spec fn i64_of(o: Option<Json>) -> Option<i64> {
    match o {
        Some(Json::Number(n)) => n.as_i64,
        _ => None,
    }
}

pub open spec fn u64_of(o: Option<Json>) -> Option<u64> {
    match o {
        Some(Json::Number(n)) => n.as_u64,
        _ => None,
    }
}

pub open spec fn bool_of(o: Option<Json>) -> Option<bool> {
    match o {
        Some(Json::Bool(b)) => Some(b),
        _ => None,
    }
}

pub open spec fn str_of(o: Option<Json>) -> Option<Seq<char>> {
    match o {
        Some(Json::Str(s)) => Some(s@),
        _ => None,
    }
}

pub open spec fn opt_json(o: Option<&Json>) -> Option<Json> {
    match o {
        Some(j) => Some(*j),
        None => None,
    }
}

/// `value.get(key)`.
pub fn get<'a>(j: &'a Json, key: &str) -> (r: Option<&'a Json>)
    ensures
        opt_json(r) == get_field(*j, key@),
{
    match j {
        Json::Object(v) => {
            let n = v.len();
            assert(v@.skip(0) =~= v@);
            for i in 0..n
                invariant
                    n == v@.len(),
                    get_field(*j, key@) == member(v@, key@),
                    member(v@, key@) == member(v@.skip(i as int), key@),
            {
                assert(v@.skip(i as int).drop_first() =~= v@.skip(i + 1));
                assert(v@.skip(i as int)[0] == v@[i as int]);
                if str_eq(v[i].0.as_str(), key) {
                    assert(member(v@.skip(i as int), key@) == Some(v@[i as int].1));
                    return Some(&v[i].1);
                }
            }
            None
        },
        _ => None,
    }
}

/// `o.and_then(|v| v.get(key))`.
pub fn get_in<'a>(o: Option<&'a Json>, key: &str) -> (r: Option<&'a Json>)
    ensures
        opt_json(r) == field_of(opt_json(o), key@),
{
    match o {
        Some(j) => get(j, key),
        None => None,
    }
}

/// `o.and_then(Value::as_i64)`.
pub fn as_i64(o: Option<&Json>) -> (r: Option<i64>)
    ensures
        r == i64_of(opt_json(o)),
{
    match o {
        Some(Json::Number(n)) => n.as_i64,
        _ => None,
    }
}

/// `o.and_then(Value::as_u64)`.
pub fn as_u64(o: Option<&Json>) -> (r: Option<u64>)
    ensures
        r == u64_of(opt_json(o)),
{
    match o {
        Some(Json::Number(n)) => n.as_u64,
        _ => None,
    }
}

/// `o.and_then(Value::as_bool)`.
pub fn as_bool(o: Option<&Json>) -> (r: Option<bool>)
    ensures
        r == bool_of(opt_json(o)),
{
    match o {
        Some(Json::Bool(b)) => Some(*b),
        _ => None,
    }
}

/// `o.and_then(Value::as_str)`.
pub fn as_str<'a>(o: Option<&'a Json>) -> (r: Option<&'a str>)
    ensures
        match r {
            Some(s) => str_of(opt_json(o)) == Some(s@),
            None => str_of(opt_json(o)) is None,
        },
{
    match o {
        Some(Json::Str(s)) => Some(s.as_str()),
        _ => None,
    }
}

} // verus!

verus! {

proof fn lemma_member_index(ms: Seq<(String, Json)>, key: Seq<char>)
    requires
        member(ms, key) is Some,
    ensures
        exists|i: int| 0 <= i < ms.len() && ms[i].1 == member(ms, key)->0,
    decreases ms.len(),
{
    if ms[0].0@ != key {
        lemma_member_index(ms.drop_first(), key);
        let i = choose|i: int|
            0 <= i < ms.drop_first().len() && ms.drop_first()[i].1 == member(ms, key)->0;
        assert(ms[i + 1].1 == member(ms, key)->0);
    } else {
        assert(ms[0].1 == member(ms, key)->0);
    }
}

/// A member of an object is smaller than the object.
pub proof fn lemma_field_decreases(j: Json, key: Seq<char>)
    ensures
        get_field(j, key) matches Some(x) ==> decreases_to!(j => x),
{
    if let Json::Object(v) = j {
        if member(v@, key) is Some {
            lemma_member_index(v@, key);
            let i = choose|i: int| 0 <= i < v@.len() && v@[i].1 == member(v@, key)->0;
            assert(decreases_to!(j => j->Object_0));
            assert(decreases_to!(v => v@));
            assert(decreases_to!(v@ => v@[i]));
            assert(decreases_to!(v@[i] => v@[i].1));
        }
    }
}

} // verus!
