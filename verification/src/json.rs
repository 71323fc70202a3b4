//! JSON values as the library sees them.
//!
//! `JsonValue` is the executable tree; its view `Json` is the mathematical
//! value the contracts speak of. Numbers keep their canonical decimal text,
//! so that no floating point enters the library. Objects keep their entries
//! in order; values converted from `serde_json` arrive with their keys in
//! sorted order, as `serde_json`'s map keeps them, and the library builds
//! its own objects with sorted keys, so that the textual form below is the
//! compact `serde_json` serialization.
use vstd::prelude::*;
use crate::text::{all_digits, chars_of, digits_value, lemma_split_on_nonempty, parse_u64, push_all, split_on, string_from_chars};

verus! {

/// The mathematical JSON value.
#[verifier::ext_equal]
pub enum Json {
    Null,
    Bool(bool),
    Number(Seq<char>),
    Str(Seq<char>),
    Array(Seq<Json>),
    Object(Seq<(Seq<char>, Json)>),
}

/// An executable JSON value.
#[derive(Debug, PartialEq)]
pub enum JsonValue {
    Null,
    Bool(bool),
    Number(String),
    Str(String),
    Array(Vec<JsonValue>),
    Object(Vec<(String, JsonValue)>),
}

/// The view of an executable value.
pub open spec fn value_view(v: JsonValue) -> Json
    decreases v,
{
    match v {
        JsonValue::Null => Json::Null,
        JsonValue::Bool(b) => Json::Bool(b),
        JsonValue::Number(n) => Json::Number(n@),
        JsonValue::Str(s) => Json::Str(s@),
        JsonValue::Array(items) => Json::Array(
            Seq::new(
                items.len() as nat,
                |i: int|
                    if 0 <= i < items.len() {
                        value_view(items[i])
                    } else {
                        Json::Null
                    },
            ),
        ),
        JsonValue::Object(entries) => Json::Object(
            Seq::new(
                entries.len() as nat,
                |i: int|
                    if 0 <= i < entries.len() {
                        (entries[i].0@, value_view(entries[i].1))
                    } else {
                        (Seq::empty(), Json::Null)
                    },
            ),
        ),
    }
}

impl View for JsonValue {
    type V = Json;

    open spec fn view(&self) -> Json {
        value_view(*self)
    }
}

/// First value stored under `key` in an object's entries.
pub open spec fn entries_get(entries: Seq<(Seq<char>, Json)>, key: Seq<char>) -> Option<Json>
    decreases entries.len(),
{
    if entries.len() == 0 {
        None
    } else if entries[0].0 == key {
        Some(entries[0].1)
    } else {
        entries_get(entries.drop_first(), key)
    }
}

impl Json {
    /// `Value::get(key)` on an object; `None` for any other value.
    pub open spec fn get(self, key: Seq<char>) -> Option<Json> {
        match self {
            Json::Object(entries) => entries_get(entries, key),
            _ => None,
        }
    }

    pub open spec fn as_str(self) -> Option<Seq<char>> {
        match self {
            Json::Str(s) => Some(s),
            _ => None,
        }
    }

    pub open spec fn as_bool(self) -> Option<bool> {
        match self {
            Json::Bool(b) => Some(b),
            _ => None,
        }
    }

    /// `Value::as_u64`: a number whose text is a plain decimal within `u64`.
    pub open spec fn as_u64(self) -> Option<u64> {
        match self {
            Json::Number(t) => if t.len() > 0 && all_digits(t) && digits_value(t) <= u64::MAX {
                Some(digits_value(t) as u64)
            } else {
                None
            },
            _ => None,
        }
    }

    pub open spec fn as_array(self) -> Option<Seq<Json>> {
        match self {
            Json::Array(items) => Some(items),
            _ => None,
        }
    }
}

/// Follow a sequence of object keys.
pub open spec fn walk_keys(v: Json, keys: Seq<Seq<char>>) -> Option<Json>
    decreases keys.len(),
{
    if keys.len() == 0 {
        Some(v)
    } else {
        match v.get(keys[0]) {
            Some(next) => walk_keys(next, keys.drop_first()),
            None => None,
        }
    }
}

/// A dotted path such as `claim.id`, each segment an object key.
pub open spec fn path_get(v: Json, path: Seq<char>) -> Option<Json> {
    walk_keys(v, split_on(path, '.'))
}

pub open spec fn hex_digit(n: int) -> char {
    if n < 10 {
        ('0' as int + n) as char
    } else {
        ('a' as int + n - 10) as char
    }
}

/// How `serde_json` escapes one character of a string.
pub open spec fn escape_char(c: char) -> Seq<char> {
    if c == '"' {
        seq!['\\', '"']
    } else if c == '\\' {
        seq!['\\', '\\']
    } else if c == '\n' {
        seq!['\\', 'n']
    } else if c == '\r' {
        seq!['\\', 'r']
    } else if c == '\t' {
        seq!['\\', 't']
    } else if c == '\u{8}' {
        seq!['\\', 'b']
    } else if c == '\u{c}' {
        seq!['\\', 'f']
    } else if (c as u32) < 0x20 {
        seq!['\\', 'u', '0', '0', hex_digit((c as u32) as int / 16), hex_digit((c as u32) as int % 16)]
    } else {
        seq![c]
    }
}

pub open spec fn escape(s: Seq<char>) -> Seq<char>
    decreases s.len(),
{
    if s.len() == 0 {
        Seq::empty()
    } else {
        escape(s.drop_last()) + escape_char(s.last())
    }
}

/// A JSON string literal.
pub open spec fn quoted(s: Seq<char>) -> Seq<char> {
    seq!['"'] + escape(s) + seq!['"']
}

/// The compact text of a JSON value (`Value::to_string`).
pub open spec fn json_text(v: Json) -> Seq<char>
    decreases v, 0int,
{
    match v {
        Json::Null => seq!['n', 'u', 'l', 'l'],
        Json::Bool(b) => if b {
            seq!['t', 'r', 'u', 'e']
        } else {
            seq!['f', 'a', 'l', 's', 'e']
        },
        Json::Number(t) => t,
        Json::Str(s) => quoted(s),
        Json::Array(items) => seq!['['] + items_text(items) + seq![']'],
        Json::Object(entries) => seq!['{'] + entries_text(entries) + seq!['}'],
    }
}

/// Comma-separated texts of array items.
pub open spec fn items_text(items: Seq<Json>) -> Seq<char>
    decreases items, 1int,
{
    if items.len() == 0 {
        Seq::empty()
    } else if items.len() == 1 {
        json_text(items[0])
    } else {
        items_text(items.drop_last()) + seq![','] + json_text(items.last())
    }
}

/// Comma-separated `"key":value` texts of object entries.
pub open spec fn entries_text(entries: Seq<(Seq<char>, Json)>) -> Seq<char>
    decreases entries, 1int,
{
    if entries.len() == 0 {
        Seq::empty()
    } else if entries.len() == 1 {
        quoted(entries[0].0) + seq![':'] + json_text(entries[0].1)
    } else {
        entries_text(entries.drop_last()) + seq![','] + quoted(entries.last().0) + seq![':']
            + json_text(entries.last().1)
    }
}

/// Text of a value where a string stands for itself (the `value_text`
/// used when a claim or a template substitution needs plain text).
pub open spec fn plain_text(v: Json) -> Seq<char> {
    match v {
        Json::Str(s) => s,
        _ => json_text(v),
    }
}

/// Decimal digits of a natural number.
pub open spec fn decimal(n: nat) -> Seq<char>
    decreases n,
{
    if n < 10 {
        seq![hex_digit(n as int)]
    } else {
        decimal(n / 10).push(hex_digit((n % 10) as int))
    }
}

/// Decimal text of an integer, with a leading `-` when negative.
pub open spec fn int_text(n: int) -> Seq<char> {
    if n < 0 {
        seq!['-'] + decimal((0 - n) as nat)
    } else {
        decimal(n as nat)
    }
}

/// A copy of a value.
#[verifier::loop_isolation(false)]
pub fn clone_json(v: &JsonValue) -> (r: JsonValue)
    ensures
        r@ == v@,
    decreases v,
{
    match v {
        JsonValue::Null => JsonValue::Null,
        JsonValue::Bool(b) => JsonValue::Bool(*b),
        JsonValue::Number(n) => JsonValue::Number(n.clone()),
        JsonValue::Str(s) => JsonValue::Str(s.clone()),
        JsonValue::Array(items) => {
            let mut out: Vec<JsonValue> = Vec::new();
            let mut i: usize = 0;
            while i < items.len()
                invariant
                    i <= items.len(),
                    out.len() == i,
                    forall|j: int| 0 <= j < i ==> out[j]@ == items[j]@,
                decreases items.len() - i,
            {
                proof {
                    assert(decreases_to!(*v => *items));
                    assert(decreases_to!(*items => items@));
                    assert(decreases_to!(items@ => items@[i as int]));
                }
                let c = clone_json(&items[i]);
                out.push(c);
                i += 1;
            }
            let r = JsonValue::Array(out);
            assert(r@->Array_0 =~= v@->Array_0);
            assert(r@ =~= v@);
            r
        },
        JsonValue::Object(entries) => {
            let mut out: Vec<(String, JsonValue)> = Vec::new();
            let mut i: usize = 0;
            while i < entries.len()
                invariant
                    i <= entries.len(),
                    out.len() == i,
                    forall|j: int|
                        0 <= j < i ==> out[j].0@ == entries[j].0@ && out[j].1@ == entries[j].1@,
                decreases entries.len() - i,
            {
                proof {
                    assert(decreases_to!(*v => *entries));
                    assert(decreases_to!(*entries => entries@));
                    assert(decreases_to!(entries@ => entries@[i as int]));
                    assert(decreases_to!(entries@[i as int] => entries@[i as int].1));
                }
                let k = entries[i].0.clone();
                let c = clone_json(&entries[i].1);
                out.push((k, c));
                i += 1;
            }
            let r = JsonValue::Object(out);
            assert(r@->Object_0 =~= v@->Object_0);
            assert(r@ =~= v@);
            r
        },
    }
}

/// Structural equality of two values (`Value == Value`).
#[verifier::loop_isolation(false)]
pub fn json_eq(a: &JsonValue, b: &JsonValue) -> (r: bool)
    ensures
        r == (a@ == b@),
    decreases a,
{
    match (a, b) {
        (JsonValue::Null, JsonValue::Null) => {
            assert(a@ == Json::Null && b@ == Json::Null);
            true
        },
        (JsonValue::Bool(x), JsonValue::Bool(y)) => {
            assert(a@ == Json::Bool(*x) && b@ == Json::Bool(*y));
            *x == *y
        },
        (JsonValue::Number(x), JsonValue::Number(y)) => {
            assert(a@ == Json::Number(x@) && b@ == Json::Number(y@));
            *x == *y
        },
        (JsonValue::Str(x), JsonValue::Str(y)) => {
            assert(a@ == Json::Str(x@) && b@ == Json::Str(y@));
            *x == *y
        },
        (JsonValue::Array(xs), JsonValue::Array(ys)) => {
            if xs.len() != ys.len() {
                assert(a@->Array_0.len() != b@->Array_0.len());
                return false;
            }
            let mut i: usize = 0;
            while i < xs.len()
                invariant
                    i <= xs.len(),
                    xs.len() == ys.len(),
                    forall|j: int| 0 <= j < i ==> xs[j]@ == ys[j]@,
                decreases xs.len() - i,
            {
                proof {
                    assert(decreases_to!(*a => *xs));
                    assert(decreases_to!(*xs => xs@));
                    assert(decreases_to!(xs@ => xs@[i as int]));
                }
                if !json_eq(&xs[i], &ys[i]) {
                    assert(a@->Array_0[i as int] != b@->Array_0[i as int]);
                    return false;
                }
                i += 1;
            }
            assert(a@->Array_0 =~= b@->Array_0);
            assert(a@ is Array && b@ is Array);
            assert(a@ =~= b@);
            true
        },
        (JsonValue::Object(xs), JsonValue::Object(ys)) => {
            if xs.len() != ys.len() {
                assert(a@->Object_0.len() != b@->Object_0.len());
                return false;
            }
            let mut i: usize = 0;
            while i < xs.len()
                invariant
                    i <= xs.len(),
                    xs.len() == ys.len(),
                    forall|j: int| 0 <= j < i ==> xs[j].0@ == ys[j].0@ && xs[j].1@ == ys[j].1@,
                decreases xs.len() - i,
            {
                proof {
                    assert(decreases_to!(*a => *xs));
                    assert(decreases_to!(*xs => xs@));
                    assert(decreases_to!(xs@ => xs@[i as int]));
                    assert(decreases_to!(xs@[i as int] => xs@[i as int].1));
                }
                if xs[i].0 != ys[i].0 {
                    assert(a@->Object_0[i as int] != b@->Object_0[i as int]);
                    return false;
                }
                if !json_eq(&xs[i].1, &ys[i].1) {
                    assert(a@->Object_0[i as int] != b@->Object_0[i as int]);
                    return false;
                }
                i += 1;
            }
            assert(a@->Object_0 =~= b@->Object_0);
            assert(a@ is Object && b@ is Object);
            assert(a@ =~= b@);
            true
        },
        _ => {
            proof {
                match (a, b) {
                    (JsonValue::Null, _) => assert(!(b@ is Null)),
                    (JsonValue::Bool(_), _) => assert(!(b@ is Bool)),
                    (JsonValue::Number(_), _) => assert(!(b@ is Number)),
                    (JsonValue::Str(_), _) => assert(!(b@ is Str)),
                    (JsonValue::Array(_), _) => assert(!(b@ is Array)),
                    (JsonValue::Object(_), _) => assert(!(b@ is Object)),
                }
            }
            false
        },
    }
}

impl JsonValue {
    /// `Value::get(key)`: the first value stored under `key` when this is an
    /// object.
    pub fn get(&self, key: &str) -> (r: Option<&JsonValue>)
        ensures
            match r {
                Some(x) => self@.get(key@) == Some(x@),
                None => self@.get(key@) is None,
            },
    {
        match self {
            JsonValue::Object(entries) => {
                let ghost es = self@->Object_0;
                let k = key.to_owned();
                let mut i: usize = 0;
                assert(es.subrange(0, es.len() as int) =~= es);
                while i < entries.len()
                    invariant
                        i <= entries.len(),
                        es == self@->Object_0,
                        es.len() == entries.len(),
                        *self == JsonValue::Object(*entries),
                        k@ == key@,
                        entries_get(es, key@) == entries_get(es.subrange(i as int, es.len() as int), key@),
                    decreases entries.len() - i,
                {
                    let ghost rest = es.subrange(i as int, es.len() as int);
                    assert(rest[0] == es[i as int]);
                    assert(rest.drop_first() =~= es.subrange(i + 1, es.len() as int));
                    if entries[i].0 == k {
                        return Some(&entries[i].1);
                    }
                    i += 1;
                }
                None
            },
            _ => None,
        }
    }

    pub fn as_str(&self) -> (r: Option<&String>)
        ensures
            match r {
                Some(s) => self@.as_str() == Some(s@),
                None => self@.as_str() is None,
            },
    {
        match self {
            JsonValue::Str(s) => Some(s),
            _ => None,
        }
    }

    pub fn as_bool(&self) -> (r: Option<bool>)
        ensures
            r == self@.as_bool(),
    {
        match self {
            JsonValue::Bool(b) => Some(*b),
            _ => None,
        }
    }

    pub fn is_null(&self) -> (r: bool)
        ensures
            r == (self@ == Json::Null),
    {
        match self {
            JsonValue::Null => true,
            _ => false,
        }
    }

    pub fn as_u64(&self) -> (r: Option<u64>)
        ensures
            r == self@.as_u64(),
    {
        match self {
            JsonValue::Number(t) => {
                let cs = chars_of(t.as_str());
                if cs.len() > 0 && cs[0] == '+' {
                    assert(!('0' <= cs@[0] && cs@[0] <= '9'));
                    return None;
                }
                parse_u64(cs.as_slice())
            },
            _ => None,
        }
    }

    pub fn as_array(&self) -> (r: Option<&Vec<JsonValue>>)
        ensures
            match r {
                Some(items) => self@.as_array() == Some(items@.map_values(|x: JsonValue| x@)),
                None => self@.as_array() is None,
            },
    {
        match self {
            JsonValue::Array(items) => {
                assert(self@->Array_0 =~= items@.map_values(|x: JsonValue| x@));
                Some(items)
            },
            _ => None,
        }
    }

    /// A string value.
    pub fn string(s: &str) -> (r: JsonValue)
        ensures
            r@ == Json::Str(s@),
    {
        JsonValue::Str(s.to_owned())
    }

    /// A non-negative integer value.
    pub fn number_u64(n: u64) -> (r: JsonValue)
        ensures
            r@ == Json::Number(decimal(n as nat)),
    {
        let d = decimal_chars(n);
        JsonValue::Number(string_from_chars(d.as_slice()))
    }

    /// An integer value.
    pub fn number_i64(n: i64) -> (r: JsonValue)
        ensures
            r@ == Json::Number(int_text(n as int)),
    {
        let t = int_chars(n);
        JsonValue::Number(string_from_chars(t.as_slice()))
    }
}

/// Decimal digits of `n`.
pub fn decimal_chars(n: u64) -> (r: Vec<char>)
    ensures
        r@ == decimal(n as nat),
    decreases n,
{
    let d = (n % 10) as u8;
    let c = (48u8 + d) as char;
    if n < 10 {
        let mut r = Vec::new();
        r.push(c);
        r
    } else {
        let mut r = decimal_chars(n / 10);
        r.push(c);
        r
    }
}

/// Decimal text of `n`, with a leading `-` when negative.
pub fn int_chars(n: i64) -> (r: Vec<char>)
    ensures
        r@ == int_text(n as int),
{
    if n < 0 {
        let m: u64 = if n == i64::MIN {
            0x8000_0000_0000_0000
        } else {
            (-n) as u64
        };
        let d = decimal_chars(m);
        let mut r = Vec::new();
        r.push('-');
        let mut i: usize = 0;
        while i < d.len()
            invariant
                i <= d.len(),
                r@ == seq!['-'] + d@.subrange(0, i as int),
            decreases d.len() - i,
        {
            r.push(d[i]);
            i += 1;
        }
        assert(d@.subrange(0, d@.len() as int) =~= d@);
        r
    } else {
        decimal_chars(n as u64)
    }
}

fn hex_digit_exec(n: u32) -> (c: char)
    requires
        n < 16,
    ensures
        c == hex_digit(n as int),
{
    if n < 10 {
        ((48 + n) as u8) as char
    } else {
        ((97 + n - 10) as u8) as char
    }
}

/// Appends the escaped form of one character.
fn push_escaped_char(out: &mut String, c: char)
    ensures
        final(out)@ == old(out)@ + escape_char(c),
{
    if c == '"' {
        out.push('\\');
        out.push('"');
    } else if c == '\\' {
        out.push('\\');
        out.push('\\');
    } else if c == '\n' {
        out.push('\\');
        out.push('n');
    } else if c == '\r' {
        out.push('\\');
        out.push('r');
    } else if c == '\t' {
        out.push('\\');
        out.push('t');
    } else if c == '\u{8}' {
        out.push('\\');
        out.push('b');
    } else if c == '\u{c}' {
        out.push('\\');
        out.push('f');
    } else if (c as u32) < 0x20 {
        out.push('\\');
        out.push('u');
        out.push('0');
        out.push('0');
        out.push(hex_digit_exec((c as u32) / 16));
        out.push(hex_digit_exec((c as u32) % 16));
    } else {
        out.push(c);
    }
    assert(final(out)@ =~= old(out)@ + escape_char(c));
}

/// Appends a JSON string literal for `s`.
pub fn push_quoted(out: &mut String, s: &str)
    ensures
        final(out)@ == old(out)@ + quoted(s@),
{
    let cs = chars_of(s);
    out.push('"');
    let ghost start = out@;
    let mut i: usize = 0;
    while i < cs.len()
        invariant
            i <= cs.len(),
            cs@ == s@,
            out@ == start + escape(cs@.subrange(0, i as int)),
        decreases cs.len() - i,
    {
        let ghost pre = cs@.subrange(0, i as int);
        assert(cs@.subrange(0, i + 1).drop_last() =~= pre);
        push_escaped_char(out, cs[i]);
        assert(out@ =~= start + escape(cs@.subrange(0, i + 1)));
        i += 1;
    }
    assert(cs@.subrange(0, cs@.len() as int) =~= s@);
    out.push('"');
    assert(out@ =~= old(out)@ + quoted(s@));
}

/// Appends the compact text of `v`.
#[verifier::loop_isolation(false)]
#[verifier::spinoff_prover]
#[verifier::rlimit(40)]
pub fn write_json(v: &JsonValue, out: &mut String)
    ensures
        final(out)@ == old(out)@ + json_text(v@),
    decreases v,
{
    let ghost o0 = out@;
    match v {
        JsonValue::Null => {
            out.push('n');
            out.push('u');
            out.push('l');
            out.push('l');
        },
        JsonValue::Bool(b) => {
            if *b {
                out.push('t');
                out.push('r');
                out.push('u');
                out.push('e');
            } else {
                out.push('f');
                out.push('a');
                out.push('l');
                out.push('s');
                out.push('e');
            }
        },
        JsonValue::Number(t) => {
            push_all(out, t.as_str());
        },
        JsonValue::Str(s) => {
            push_quoted(out, s.as_str());
        },
        JsonValue::Array(items) => {
            let ghost xs = v@->Array_0;
            out.push('[');
            let mut i: usize = 0;
            while i < items.len()
                invariant
                    i <= items.len(),
                    xs == v@->Array_0,
                    xs.len() == items.len(),
                    forall|j: int| 0 <= j < items.len() ==> #[trigger] xs[j] == items[j]@,
                    out@ == o0 + seq!['['] + items_text(xs.subrange(0, i as int)),
                decreases items.len() - i,
            {
                proof {
                    assert(decreases_to!(*v => *items));
                    assert(decreases_to!(*items => items@));
                    assert(decreases_to!(items@ => items@[i as int]));
                    assert(xs.subrange(0, i + 1).drop_last() =~= xs.subrange(0, i as int));
                    assert(xs[i as int] == items[i as int]@);
                }
                if i > 0 {
                    out.push(',');
                }
                write_json(&items[i], out);
                assert(out@ =~= o0 + seq!['['] + items_text(xs.subrange(0, i + 1)));
                i += 1;
            }
            assert(xs.subrange(0, xs.len() as int) =~= xs);
            out.push(']');
        },
        JsonValue::Object(entries) => {
            let ghost es = v@->Object_0;
            out.push('{');
            let mut i: usize = 0;
            while i < entries.len()
                invariant
                    i <= entries.len(),
                    es == v@->Object_0,
                    es.len() == entries.len(),
                    forall|j: int|
                        0 <= j < entries.len() ==> #[trigger] es[j] == (
                        entries[j].0@,
                        entries[j].1@,
                    ),
                    out@ == o0 + seq!['{'] + entries_text(es.subrange(0, i as int)),
                decreases entries.len() - i,
            {
                proof {
                    assert(decreases_to!(*v => *entries));
                    assert(decreases_to!(*entries => entries@));
                    assert(decreases_to!(entries@ => entries@[i as int]));
                    assert(decreases_to!(entries@[i as int] => entries@[i as int].1));
                    assert(es.subrange(0, i + 1).drop_last() =~= es.subrange(0, i as int));
                    assert(es[i as int] == (entries[i as int].0@, entries[i as int].1@));
                }
                if i > 0 {
                    out.push(',');
                }
                push_quoted(out, entries[i].0.as_str());
                out.push(':');
                write_json(&entries[i].1, out);
                assert(out@ =~= o0 + seq!['{'] + entries_text(es.subrange(0, i + 1)));
                i += 1;
            }
            assert(es.subrange(0, es.len() as int) =~= es);
            out.push('}');
        },
    }
    assert(out@ =~= o0 + json_text(v@));
}

impl JsonValue {
    /// The compact text of this value (`Value::to_string`).
    pub fn to_json_string(&self) -> (r: String)
        ensures
            r@ == json_text(self@),
    {
        let mut out = String::new();
        write_json(self, &mut out);
        assert(out@ =~= json_text(self@));
        out
    }

    /// The text of this value, a string standing for itself.
    pub fn plain_text(&self) -> (r: String)
        ensures
            r@ == plain_text(self@),
    {
        match self {
            JsonValue::Str(s) => s.clone(),
            _ => self.to_json_string(),
        }
    }

    /// The value at a dotted path of object keys (`a.b.c`).
    pub fn path_get(&self, path: &str) -> (r: Option<&JsonValue>)
        ensures
            match r {
                Some(x) => path_get(self@, path@) == Some(x@),
                None => path_get(self@, path@) is None,
            },
    {
        let segs = split_dots(path);
        let ghost keys = split_on(path@, '.');
        let mut cur: &JsonValue = self;
        let mut i: usize = 0;
        assert(keys.subrange(0, keys.len() as int) =~= keys);
        while i < segs.len()
            invariant
                i <= segs.len(),
                keys == split_on(path@, '.'),
                segs@.len() == keys.len(),
                forall|j: int| 0 <= j < segs@.len() ==> #[trigger] segs@[j]@ == keys[j],
                walk_keys(self@, keys) == walk_keys(cur@, keys.subrange(i as int, keys.len() as int)),
            decreases segs.len() - i,
        {
            let ghost rest = keys.subrange(i as int, keys.len() as int);
            assert(rest[0] == keys[i as int]);
            assert(rest.drop_first() =~= keys.subrange(i + 1, keys.len() as int));
            assert(segs@[i as int]@ == keys[i as int]);
            assert(rest.len() > 0);
            match cur.get(segs[i].as_str()) {
                Some(next) => {
                    cur = next;
                },
                None => {
                    assert(walk_keys(cur@, rest) is None);
                    return None;
                },
            }
            i += 1;
        }
        assert(keys.subrange(i as int, keys.len() as int) =~= Seq::<Seq<char>>::empty());
        Some(cur)
    }
}

/// `path.split('.')`.
pub fn split_dots(path: &str) -> (r: Vec<String>)
    ensures
        r@.len() == split_on(path@, '.').len(),
        forall|j: int| 0 <= j < r@.len() ==> #[trigger] r@[j]@ == split_on(path@, '.')[j],
{
    let cs = chars_of(path);
    let mut done: Vec<String> = Vec::new();
    let mut cur: Vec<char> = Vec::new();
    let mut i: usize = 0;
    while i < cs.len()
        invariant
            i <= cs.len(),
            cs@ == path@,
            split_on(cs@.subrange(0, i as int), '.').len() == done@.len() + 1,
            forall|j: int|
                0 <= j < done@.len() ==> #[trigger] done@[j]@ == split_on(
                    cs@.subrange(0, i as int),
                    '.',
                )[j],
            split_on(cs@.subrange(0, i as int), '.').last() == cur@,
        decreases cs.len() - i,
    {
        let ghost pre = cs@.subrange(0, i as int);
        let ghost next = cs@.subrange(0, i + 1);
        assert(next.drop_last() =~= pre);
        assert(next.last() == cs@[i as int]);
        proof {
            lemma_split_on_nonempty(pre, '.');
        }
        if cs[i] == '.' {
            let piece = string_from_chars(cur.as_slice());
            done.push(piece);
            cur = Vec::new();
        } else {
            cur.push(cs[i]);
        }
        i += 1;
    }
    assert(cs@.subrange(0, cs@.len() as int) =~= path@);
    let last = string_from_chars(cur.as_slice());
    done.push(last);
    done
}

// ── Parsing ─────────────────────────────────────────────────────────────

/// `serde_json::Value`, the parser's output, carried opaquely until it is
/// converted.
#[verifier::external_type_specification]
#[verifier::external_body]
pub struct ExSerdeValue(serde_json::Value);

/// Moves a parsed `serde_json::Value` into the library's tree, variant for
/// variant: numbers keep their `serde_json` text and objects their (sorted)
/// entry order. Nothing is stated of the result; it is what the parser gave.
#[verifier::external_body]
fn from_serde(v: serde_json::Value) -> JsonValue {
    match v {
        serde_json::Value::Null => JsonValue::Null,
        serde_json::Value::Bool(b) => JsonValue::Bool(b),
        serde_json::Value::Number(n) => JsonValue::Number(n.to_string()),
        serde_json::Value::String(s) => JsonValue::Str(s),
        serde_json::Value::Array(a) => JsonValue::Array(a.into_iter().map(from_serde).collect()),
        serde_json::Value::Object(o) => JsonValue::Object(o.into_iter().map(|(k, v)| (k, from_serde(v))).collect()),
    }
}

/// What `serde_json` makes of a byte string: the value, or its error
/// message.
pub uninterp spec fn parsed_json(bytes: Seq<u8>) -> Result<Json, Seq<char>>;

/// `serde_json::from_slice::<Value>`, its error rendered with `to_string`.
/// The contract names the outcome (`parsed_json`), a function of the bytes
/// alone; nothing else about the parser is assumed.
#[verifier::external_body]
fn parse_json_slice(bytes: &[u8]) -> (r: Result<JsonValue, String>)
    ensures
        match r {
            Ok(v) => parsed_json(bytes@) == Ok::<Json, Seq<char>>(v@),
            Err(e) => parsed_json(bytes@) == Err::<Json, Seq<char>>(e@),
        },
{
    serde_json::from_slice::<serde_json::Value>(bytes).map(from_serde).map_err(|e| e.to_string())
}

impl JsonValue {
    /// Parses JSON bytes.
    pub fn parse_bytes(bytes: &[u8]) -> (r: Result<JsonValue, String>)
        ensures
            match r {
                Ok(v) => parsed_json(bytes@) == Ok::<Json, Seq<char>>(v@),
                Err(e) => parsed_json(bytes@) == Err::<Json, Seq<char>>(e@),
            },
    {
        parse_json_slice(bytes)
    }

    /// Parses JSON text.
    pub fn parse(text: &str) -> (r: Result<JsonValue, String>)
        ensures
            match r {
                Ok(v) => parsed_json(vstd::utf8::encode_utf8(text@)) == Ok::<Json, Seq<char>>(v@),
                Err(e) => parsed_json(vstd::utf8::encode_utf8(text@)) == Err::<Json, Seq<char>>(e@),
            },
    {
        parse_json_slice(text.as_bytes())
    }
}

} // verus!
