//! Text primitives shared by the codec and the validators: Unicode trimming,
//! ASCII case folding, UTF-8 byte order of strings.

use vstd::prelude::*;
use vstd::utf8::*;

verus! {

broadcast use vstd::utf8::encode_utf8_decode_utf8;

/// The characters with the Unicode `White_Space` property, which `char::is_whitespace`
/// and `str::trim` use.
pub open spec fn is_unicode_whitespace(c: char) -> bool {
    let u = c as u32;
    ||| 0x09 <= u <= 0x0d
    ||| u == 0x20
    ||| u == 0x85
    ||| u == 0xa0
    ||| u == 0x1680
    ||| 0x2000 <= u <= 0x200a
    ||| u == 0x2028
    ||| u == 0x2029
    ||| u == 0x202f
    ||| u == 0x205f
    ||| u == 0x3000
}

/// `s` without its leading whitespace.
pub open spec fn trim_start_chars(s: Seq<char>) -> Seq<char>
    decreases s.len(),
{
    if s.len() > 0 && is_unicode_whitespace(s[0]) {
        trim_start_chars(s.drop_first())
    } else {
        s
    }
}

/// `s` without its trailing whitespace.
pub open spec fn trim_end_chars(s: Seq<char>) -> Seq<char>
    decreases s.len(),
{
    if s.len() > 0 && is_unicode_whitespace(s.last()) {
        trim_end_chars(s.drop_last())
    } else {
        s
    }
}

/// `s` without leading and trailing whitespace.
pub open spec fn trim_chars(s: Seq<char>) -> Seq<char> {
    trim_end_chars(trim_start_chars(s))
}

/// ASCII upper-case letters become lower-case; every other char is kept.
pub open spec fn ascii_lower_char(c: char) -> char {
    if 'A' <= c && c <= 'Z' {
        ((c as u32) + 32) as char
    } else {
        c
    }
}

pub open spec fn ascii_lower_chars(s: Seq<char>) -> Seq<char> {
    s.map_values(|c: char| ascii_lower_char(c))
}

/// The normal form of a case-insensitive key: trimmed, ASCII lower-cased.
pub open spec fn normalized_key(s: Seq<char>) -> Seq<char> {
    ascii_lower_chars(trim_chars(s))
}

/// The UTF-8 bytes of a string given by its chars.
pub open spec fn utf8_bytes(s: Seq<char>) -> Seq<u8> {
    encode_utf8(s)
}

/// Lexicographic order of byte strings; a proper prefix is smaller.
pub open spec fn bytes_lt(a: Seq<u8>, b: Seq<u8>) -> bool
    decreases a.len(),
{
    if a.len() == 0 {
        b.len() > 0
    } else if b.len() == 0 {
        false
    } else if a[0] != b[0] {
        a[0] < b[0]
    } else {
        bytes_lt(a.drop_first(), b.drop_first())
    }
}

/// Strings ordered as `str`'s `Ord` orders them: by their UTF-8 bytes.
pub open spec fn str_lt(a: Seq<char>, b: Seq<char>) -> bool {
    bytes_lt(utf8_bytes(a), utf8_bytes(b))
}

pub proof fn lemma_bytes_lt_irreflexive(a: Seq<u8>)
    ensures
        !bytes_lt(a, a),
    decreases a.len(),
{
    if a.len() > 0 {
        lemma_bytes_lt_irreflexive(a.drop_first());
    }
}

pub proof fn lemma_bytes_lt_transitive(a: Seq<u8>, b: Seq<u8>, c: Seq<u8>)
    requires
        bytes_lt(a, b),
        bytes_lt(b, c),
    ensures
        bytes_lt(a, c),
    decreases a.len(),
{
    if a.len() > 0 && b.len() > 0 && c.len() > 0 && a[0] == b[0] && b[0] == c[0] {
        lemma_bytes_lt_transitive(a.drop_first(), b.drop_first(), c.drop_first());
    }
}

pub proof fn lemma_bytes_lt_total(a: Seq<u8>, b: Seq<u8>)
    ensures
        a == b || bytes_lt(a, b) || bytes_lt(b, a),
    decreases a.len(),
{
    if a.len() > 0 && b.len() > 0 && a[0] == b[0] {
        lemma_bytes_lt_total(a.drop_first(), b.drop_first());
        if a.drop_first() == b.drop_first() {
            assert(a =~= seq![a[0]] + a.drop_first());
            assert(b =~= seq![b[0]] + b.drop_first());
        }
    } else if a.len() == 0 && b.len() == 0 {
        assert(a =~= b);
    }
}

pub proof fn lemma_bytes_lt_asymmetric(a: Seq<u8>, b: Seq<u8>)
    requires
        bytes_lt(a, b),
    ensures
        !bytes_lt(b, a),
{
    if bytes_lt(b, a) {
        lemma_bytes_lt_transitive(a, b, a);
        lemma_bytes_lt_irreflexive(a);
    }
}

pub proof fn lemma_str_lt_irreflexive(a: Seq<char>)
    ensures
        !str_lt(a, a),
{
    lemma_bytes_lt_irreflexive(utf8_bytes(a));
}

pub proof fn lemma_str_lt_transitive(a: Seq<char>, b: Seq<char>, c: Seq<char>)
    requires
        str_lt(a, b),
        str_lt(b, c),
    ensures
        str_lt(a, c),
{
    lemma_bytes_lt_transitive(utf8_bytes(a), utf8_bytes(b), utf8_bytes(c));
}

pub proof fn lemma_str_lt_total(a: Seq<char>, b: Seq<char>)
    ensures
        a == b || str_lt(a, b) || str_lt(b, a),
{
    lemma_bytes_lt_total(utf8_bytes(a), utf8_bytes(b));
    if utf8_bytes(a) == utf8_bytes(b) {
        assert(decode_utf8(encode_utf8(a)) == a);
        assert(decode_utf8(encode_utf8(b)) == b);
    }
}

/// The result of comparing two strings.
#[derive(Clone, Copy, Debug, PartialEq, Eq, Structural)]
pub enum KeyOrder {
    Less,
    Equal,
    Greater,
}

/// Compares two strings by their UTF-8 bytes, as `str`'s `Ord` does.
pub fn compare_str(a: &str, b: &str) -> (r: KeyOrder)
    ensures
        r is Less <==> str_lt(a@, b@),
        r is Equal <==> a@ == b@,
        r is Greater <==> str_lt(b@, a@),
{
    let x = a.as_bytes();
    let y = b.as_bytes();
    let ghost xa = x@;
    let ghost yb = y@;
    let mut i: usize = 0;
    while i < x.len() && i < y.len() && x[i] == y[i]
        invariant
            x@ == utf8_bytes(a@),
            y@ == utf8_bytes(b@),
            i <= x@.len(),
            i <= y@.len(),
            x@.take(i as int) == y@.take(i as int),
        decreases x@.len() - i,
    {
        assert(x@.take(i + 1) =~= x@.take(i as int).push(x@[i as int]));
        assert(y@.take(i + 1) =~= y@.take(i as int).push(y@[i as int]));
        i = i + 1;
    }
    proof {
        lemma_bytes_lt_skip_common(x@, y@, i as int);
        lemma_bytes_lt_total(x@, y@);
        lemma_bytes_lt_irreflexive(x@);
        if bytes_lt(x@, y@) {
            lemma_bytes_lt_asymmetric(x@, y@);
        }
        if bytes_lt(y@, x@) {
            lemma_bytes_lt_asymmetric(y@, x@);
        }
        assert(decode_utf8(encode_utf8(a@)) == a@);
        assert(decode_utf8(encode_utf8(b@)) == b@);
    }
    if i < x.len() && i < y.len() {
        if x[i] < y[i] {
            KeyOrder::Less
        } else {
            KeyOrder::Greater
        }
    } else if x.len() == y.len() {
        proof {
            assert(x@ =~= x@.take(i as int));
            assert(y@ =~= y@.take(i as int));
        }
        KeyOrder::Equal
    } else if x.len() < y.len() {
        KeyOrder::Less
    } else {
        KeyOrder::Greater
    }
}

/// Past a common prefix of length `i`, the order is decided by what follows.
proof fn lemma_bytes_lt_skip_common(a: Seq<u8>, b: Seq<u8>, i: int)
    requires
        0 <= i <= a.len(),
        i <= b.len(),
        a.take(i) == b.take(i),
    ensures
        bytes_lt(a, b) == bytes_lt(a.skip(i), b.skip(i)),
    decreases i,
{
    if i > 0 {
        assert(a[0] == a.take(i)[0]);
        assert(b[0] == b.take(i)[0]);
        assert(a.drop_first().take(i - 1) =~= a.take(i).drop_first());
        assert(b.drop_first().take(i - 1) =~= b.take(i).drop_first());
        lemma_bytes_lt_skip_common(a.drop_first(), b.drop_first(), i - 1);
        assert(a.drop_first().skip(i - 1) =~= a.skip(i));
        assert(b.drop_first().skip(i - 1) =~= b.skip(i));
    } else {
        assert(a.skip(0) =~= a);
        assert(b.skip(0) =~= b);
    }
}

/// Whether `c` has the Unicode `White_Space` property.
fn is_whitespace_char(c: char) -> (b: bool)
    ensures
        b == is_unicode_whitespace(c),
{
    let u = c as u32;
    (0x09 <= u && u <= 0x0d) || u == 0x20 || u == 0x85 || u == 0xa0 || u == 0x1680 || (0x2000 <= u && u
        <= 0x200a) || u == 0x2028 || u == 0x2029 || u == 0x202f || u == 0x205f || u == 0x3000
}

/// Removes leading and trailing `White_Space` characters, as `str::trim`
/// does.
pub fn trim_str(s: &str) -> (r: &str)
    ensures
        r@ == trim_chars(s@),
{
    let n = s.unicode_len();
    let mut start: usize = 0;
    proof {
        assert(s@.subrange(0, n as int) =~= s@);
    }
    while start < n && is_whitespace_char(s.get_char(start))
        invariant
            n == s@.len(),
            start <= n,
            trim_start_chars(s@) == trim_start_chars(s@.subrange(start as int, n as int)),
        decreases n - start,
    {
        proof {
            let t = s@.subrange(start as int, n as int);
            assert(t.drop_first() =~= s@.subrange(start + 1, n as int));
        }
        start = start + 1;
    }
    let ghost head = s@.subrange(start as int, n as int);
    assert(trim_start_chars(head) == head);
    let mut end: usize = n;
    while end > start && is_whitespace_char(s.get_char(end - 1))
        invariant
            n == s@.len(),
            start <= end <= n,
            head == s@.subrange(start as int, n as int),
            trim_end_chars(head) == trim_end_chars(s@.subrange(start as int, end as int)),
        decreases end - start,
    {
        proof {
            let t = s@.subrange(start as int, end as int);
            assert(t.drop_last() =~= s@.subrange(start as int, end - 1));
            assert(t.last() == s@[end - 1]);
        }
        end = end - 1;
    }
    let ghost body = s@.subrange(start as int, end as int);
    proof {
        if body.len() > 0 {
            assert(body.last() == s@[end - 1]);
        }
    }
    assert(trim_end_chars(body) == body);
    s.substring_char(start, end)
}

/// The chars of a string, in order.
pub fn str_chars(s: &str) -> (v: Vec<char>)
    ensures
        v@ == s@,
{
    let mut v: Vec<char> = Vec::new();
    for c in it: s.chars()
        invariant
            v@ == it.seq().take(it.index() as int),
            it.seq() == s@,
    {
        v.push(c);
    }
    v
}

/// `String::from_iter` over chars: the string made of the given chars.
#[verifier::external_body]
pub fn string_from_chars(chars: &Vec<char>) -> (s: String)
    ensures
        s@ == chars@,
{
    chars.iter().collect()
}

/// ASCII lower-casing of one char, as `char::to_ascii_lowercase`.
pub fn ascii_lower(c: char) -> (r: char)
    ensures
        r == ascii_lower_char(c),
{
    if 'A' <= c && c <= 'Z' {
        ((c as u8) + 32) as char
    } else {
        c
    }
}

/// Trims `s` and lower-cases its ASCII letters.
pub fn normalize_key(s: &str) -> (r: String)
    ensures
        r@ == normalized_key(s@),
{
    let t = trim_str(s);
    let chars = str_chars(t);
    let mut out: Vec<char> = Vec::new();
    let mut i: usize = 0;
    while i < chars.len()
        invariant
            i <= chars@.len(),
            chars@ == trim_chars(s@),
            out@ == ascii_lower_chars(chars@.take(i as int)),
        decreases chars@.len() - i,
    {
        let c = ascii_lower(chars[i]);
        out.push(c);
        proof {
            assert(chars@.take(i + 1) =~= chars@.take(i as int).push(chars@[i as int]));
            assert(ascii_lower_chars(chars@.take(i + 1)) =~= ascii_lower_chars(chars@.take(i as int)).push(c));
        }
        i = i + 1;
    }
    proof {
        assert(chars@.take(chars@.len() as int) =~= chars@);
    }
    string_from_chars(&out)
}

/// The byte length of a string.
pub fn str_byte_len(s: &str) -> (n: usize)
    ensures
        n == utf8_bytes(s@).len(),
{
    s.as_bytes().len()
}

} // verus!
