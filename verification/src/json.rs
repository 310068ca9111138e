//! A model of JSON values, with the lookups the runtime makes on input
//! snapshots, script commands and scene records.

use vstd::prelude::*;
use crate::strmap::StrMap;
use crate::text::str_chars;

verus! {

/// A JSON number, as `serde_json` classifies it: a non-negative integer, a
/// negative integer, or a number with a fraction or exponent, kept as its
/// JSON text (which reads back to the same number).
#[derive(Clone, Debug, PartialEq, Eq)]
pub enum JsonNumber {
    PosInt(u64),
    NegInt(i64),
    Float(String),
}

/// A JSON value. Object keys are unique and kept in byte order.
pub enum JsonValue {
    Null,
    Bool(bool),
    Number(JsonNumber),
    Str(String),
    Array(Vec<JsonValue>),
    Object(StrMap<JsonValue>),
}

impl JsonValue {
    /// `Value::as_u64`: a non-negative integer.
    pub open spec fn spec_as_u64(self) -> Option<u64> {
        match self {
            JsonValue::Number(JsonNumber::PosInt(n)) => Some(n),
            _ => None,
        }
    }

    pub fn as_u64(&self) -> (r: Option<u64>)
        ensures
            r == self.spec_as_u64(),
    {
        match self {
            JsonValue::Number(JsonNumber::PosInt(n)) => Some(*n),
            _ => None,
        }
    }

    /// `Value::as_bool`.
    pub open spec fn spec_as_bool(self) -> Option<bool> {
        match self {
            JsonValue::Bool(b) => Some(b),
            _ => None,
        }
    }

    pub fn as_bool(&self) -> (r: Option<bool>)
        ensures
            r == self.spec_as_bool(),
    {
        match self {
            JsonValue::Bool(b) => Some(*b),
            _ => None,
        }
    }

    /// `Value::as_str`: the text of a string.
    pub open spec fn spec_as_str(self) -> Option<Seq<char>> {
        match self {
            JsonValue::Str(s) => Some(s@),
            _ => None,
        }
    }

    pub fn as_str(&self) -> (r: Option<&str>)
        ensures
            match self.spec_as_str() {
                Some(s) => r matches Some(x) && x@ == s,
                None => r is None,
            },
    {
        match self {
            JsonValue::Str(s) => Some(s.as_str()),
            _ => None,
        }
    }

    /// `Value::get` with a string key: the member of an object.
    pub open spec fn spec_get(self, key: Seq<char>) -> Option<JsonValue> {
        match self {
            JsonValue::Object(m) => if m@.contains_key(key) {
                Some(m@[key])
            } else {
                None
            },
            _ => None,
        }
    }

    pub fn get(&self, key: &str) -> (r: Option<&JsonValue>)
        ensures
            match self.spec_get(key@) {
                Some(v) => r matches Some(x) && *x == v,
                None => r is None,
            },
    {
        match self {
            JsonValue::Object(m) => m.get(key),
            _ => None,
        }
    }
}

// ---------------------------------------------------------------------------
// JSON pointers (RFC 6901), as `serde_json::Value::pointer` reads them.

/// `t` with every `a b` pair of chars, taken left to right, replaced by `c`.
pub open spec fn replace_pair(t: Seq<char>, a: char, b: char, c: char) -> Seq<char>
    decreases t.len(),
{
    if t.len() >= 2 && t[0] == a && t[1] == b {
        seq![c] + replace_pair(t.skip(2), a, b, c)
    } else if t.len() == 0 {
        t
    } else {
        seq![t[0]] + replace_pair(t.skip(1), a, b, c)
    }
}

/// A reference token with its escapes undone: `~1` becomes `/`, then `~0`
/// becomes `~`.
pub open spec fn unescape_token(t: Seq<char>) -> Seq<char> {
    replace_pair(replace_pair(t, '~', '1', '/'), '~', '0', '~')
}

pub open spec fn is_digit(c: char) -> bool {
    '0' <= c && c <= '9'
}

/// The decimal value of a string of digits.
pub open spec fn decimal_value(t: Seq<char>) -> nat
    decreases t.len(),
{
    if t.len() == 0 {
        0
    } else {
        decimal_value(t.drop_last()) * 10 + ((t.last() as u32) - ('0' as u32)) as nat
    }
}

/// An array index token: digits without a leading zero (but `0` itself),
/// whose value fits in `usize`.
pub open spec fn parse_index_spec(t: Seq<char>) -> Option<usize> {
    if t.len() == 0 || (t[0] == '0' && t.len() != 1) || exists|i: int| 0 <= i < t.len() && !is_digit(#[trigger] t[i]) {
        None
    } else if decimal_value(t) > usize::MAX {
        None
    } else {
        Some(decimal_value(t) as usize)
    }
}

/// One step of a pointer: the member or element that `token` names.
pub open spec fn pointer_step(v: JsonValue, token: Seq<char>) -> Option<JsonValue> {
    match v {
        JsonValue::Object(m) => if m@.contains_key(token) {
            Some(m@[token])
        } else {
            None
        },
        JsonValue::Array(l) => match parse_index_spec(token) {
            Some(i) => if i < l@.len() {
                Some(l@[i as int])
            } else {
                None
            },
            None => None,
        },
        _ => None,
    }
}

/// The index of the first `/` of `s`, or its length.
pub open spec fn first_slash(s: Seq<char>) -> int
    decreases s.len(),
{
    if s.len() == 0 {
        0
    } else if s[0] == '/' {
        0
    } else {
        1 + first_slash(s.skip(1))
    }
}

/// Following the tokens of `s` (the pointer after a `/`) from `v`.
pub open spec fn pointer_walk(v: JsonValue, s: Seq<char>) -> Option<JsonValue>
    decreases s.len(),
{
    let k = first_slash(s);
    if 0 <= k <= s.len() {
        match pointer_step(v, unescape_token(s.take(k))) {
            Some(c) => if k >= s.len() {
                Some(c)
            } else {
                pointer_walk(c, s.skip(k + 1))
            },
            None => None,
        }
    } else {
        None
    }
}

/// `Value::pointer`: the empty pointer names the value itself; any other must
/// start with `/`.
pub open spec fn pointer_spec(v: JsonValue, p: Seq<char>) -> Option<JsonValue> {
    if p.len() == 0 {
        Some(v)
    } else if p[0] != '/' {
        None
    } else {
        pointer_walk(v, p.skip(1))
    }
}

proof fn lemma_first_slash(s: Seq<char>)
    ensures
        0 <= first_slash(s) <= s.len(),
        forall|i: int| 0 <= i < first_slash(s) ==> s[i] != '/',
        first_slash(s) < s.len() ==> s[first_slash(s)] == '/',
    decreases s.len(),
{
    if s.len() > 0 && s[0] != '/' {
        lemma_first_slash(s.skip(1));
        assert forall|i: int| 0 <= i < first_slash(s) implies s[i] != '/' by {
            if i > 0 {
                assert(s[i] == s.skip(1)[i - 1]);
            }
        }
    }
}

/// Replaces each `a b` pair, left to right, by `c`.
fn replace_pair_exec(t: &Vec<char>, a: char, b: char, c: char) -> (r: Vec<char>)
    ensures
        r@ == replace_pair(t@, a, b, c),
{
    let mut out: Vec<char> = Vec::new();
    let mut i: usize = 0;
    proof {
        assert(t@.skip(0) =~= t@);
        assert(out@ + replace_pair(t@, a, b, c) =~= replace_pair(t@, a, b, c));
    }
    while i < t.len()
        invariant
            i <= t@.len(),
            out@ + replace_pair(t@.skip(i as int), a, b, c) == replace_pair(t@, a, b, c),
        decreases t@.len() - i,
    {
        let ghost rest = t@.skip(i as int);
        if i + 1 < t.len() && t[i] == a && t[i + 1] == b {
            out.push(c);
            proof {
                assert(rest[0] == a && rest[1] == b);
                assert(rest.skip(2) =~= t@.skip(i + 2));
                assert(out@ + replace_pair(t@.skip(i + 2), a, b, c) =~= (out@.drop_last() + (seq![c] + replace_pair(rest.skip(2), a, b, c))));
            }
            i = i + 2;
        } else {
            let x = t[i];
            out.push(x);
            proof {
                assert(rest[0] == x);
                assert(!(rest.len() >= 2 && rest[0] == a && rest[1] == b));
                assert(rest.skip(1) =~= t@.skip(i + 1));
                assert(out@ + replace_pair(t@.skip(i + 1), a, b, c) =~= (out@.drop_last() + (seq![x] + replace_pair(rest.skip(1), a, b, c))));
            }
            i = i + 1;
        }
    }
    proof {
        assert(t@.skip(i as int) =~= Seq::<char>::empty());
        assert(out@ + Seq::<char>::empty() =~= out@);
    }
    out
}

/// The array index a token names, as `serde_json` parses it.
fn parse_index(t: &Vec<char>) -> (r: Option<usize>)
    ensures
        r == parse_index_spec(t@),
{
    if t.len() == 0 || (t[0] == '0' && t.len() != 1) {
        return None;
    }
    let mut value: usize = 0;
    let mut i: usize = 0;
    let mut overflow = false;
    while i < t.len()
        invariant
            0 < t@.len(),
            i <= t@.len(),
            forall|j: int| 0 <= j < i ==> is_digit(#[trigger] t@[j]),
            !overflow ==> value == decimal_value(t@.take(i as int)),
            overflow ==> decimal_value(t@.take(i as int)) > usize::MAX,
        decreases t@.len() - i,
    {
        let ch = t[i];
        if !('0' <= ch && ch <= '9') {
            proof {
                assert(!is_digit(t@[i as int]));
            }
            return None;
        }
        let d = (ch as u32 - '0' as u32) as usize;
        proof {
            assert(t@.take(i + 1).drop_last() =~= t@.take(i as int));
            assert(t@.take(i + 1).last() == ch);
        }
        if !overflow {
            match value.checked_mul(10) {
                Some(v10) => match v10.checked_add(d) {
                    Some(v) => {
                        value = v;
                    },
                    None => {
                        overflow = true;
                    },
                },
                None => {
                    overflow = true;
                },
            }
        }
        i = i + 1;
    }
    proof {
        assert(t@.take(t@.len() as int) =~= t@);
    }
    if overflow {
        None
    } else {
        Some(value)
    }
}

impl JsonValue {
    /// `Value::pointer`: the value that a JSON pointer names.
    pub fn pointer(&self, pointer: &str) -> (r: Option<&JsonValue>)
        ensures
            match pointer_spec(*self, pointer@) {
                Some(v) => r matches Some(x) && *x == v,
                None => r is None,
            },
    {
        let chars = str_chars(pointer);
        if chars.len() == 0 {
            return Some(self);
        }
        if chars[0] != '/' {
            return None;
        }
        let mut cur: &JsonValue = self;
        let mut start: usize = 1;
        let ghost whole = chars@.skip(1);
        loop
            invariant
                1 <= start <= chars@.len(),
                chars@ == pointer@,
                chars@[0] == '/',
                pointer_walk(*cur, chars@.skip(start as int)) == pointer_spec(*self, pointer@),
            decreases chars@.len() - start,
        {
            let ghost s = chars@.skip(start as int);
            proof {
                lemma_first_slash(s);
            }
            let mut end: usize = start;
            while end < chars.len() && chars[end] != '/'
                invariant
                    start <= end <= chars@.len(),
                    s == chars@.skip(start as int),
                    forall|j: int| start <= j < end ==> chars@[j] != '/',
                    end - start <= first_slash(s),
                    0 <= first_slash(s) <= s.len(),
                    first_slash(s) < s.len() ==> s[first_slash(s)] == '/',
                    s.len() == chars@.len() - start,
                decreases chars@.len() - end,
            {
                proof {
                    assert(s[end - start] == chars@[end as int]);
                }
                end = end + 1;
            }
            proof {
                if end < chars@.len() {
                    assert(s[end - start] == '/');
                }
                if end - start < first_slash(s) {
                    assert(s[end - start] != '/');
                }
                assert(end - start == first_slash(s));
            }
            let mut token: Vec<char> = Vec::new();
            let mut j: usize = start;
            while j < end
                invariant
                    start <= j <= end,
                    end <= chars@.len(),
                    token@ == chars@.subrange(start as int, j as int),
                decreases end - j,
            {
                token.push(chars[j]);
                proof {
                    assert(chars@.subrange(start as int, j + 1) =~= chars@.subrange(start as int, j as int).push(chars@[j as int]));
                }
                j = j + 1;
            }
            proof {
                assert(token@ =~= s.take(end - start));
            }
            let t1 = replace_pair_exec(&token, '~', '1', '/');
            let t2 = replace_pair_exec(&t1, '~', '0', '~');
            let next: Option<&JsonValue> = match cur {
                JsonValue::Object(m) => {
                    let key = crate::text::string_from_chars(&t2);
                    m.get(key.as_str())
                },
                JsonValue::Array(l) => match parse_index(&t2) {
                    Some(i) => if i < l.len() {
                        Some(&l[i])
                    } else {
                        None
                    },
                    None => None,
                },
                _ => None,
            };
            match next {
                None => {
                    return None;
                },
                Some(c) => {
                    if end >= chars.len() {
                        return Some(c);
                    }
                    proof {
                        assert(s.skip(end - start + 1) =~= chars@.skip(end + 1));
                    }
                    cur = c;
                    start = end + 1;
                },
            }
        }
    }
}

} // verus!
