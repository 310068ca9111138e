//! Script values bound into UI text: every `{{key}}` token of a string is
//! replaced by the text of the binding named `key`.

use vstd::prelude::*;
use crate::strmap::{lemma_map_value_decreases, StrMap, sorted_pairs};
use crate::json::{JsonNumber, JsonValue};
use crate::text::{str_chars, string_from_chars};

verus! {

/// `s` with each occurrence of `pat`, found from left to right without
/// overlap, replaced by `rep`, as `str::replace` does for a non-empty `pat`.
pub open spec fn replace_all(s: Seq<char>, pat: Seq<char>, rep: Seq<char>) -> Seq<char>
    decreases s.len(),
{
    if pat.len() == 0 || s.len() < pat.len() {
        s
    } else if s.take(pat.len() as int) == pat {
        rep + replace_all(s.skip(pat.len() as int), pat, rep)
    } else {
        seq![s[0]] + replace_all(s.skip(1), pat, rep)
    }
}

/// The token that names a binding in a template: `{{key}}`.
pub open spec fn token_of(key: Seq<char>) -> Seq<char> {
    seq!['{', '{'] + key + seq!['}', '}']
}

/// `s` with the tokens of the bindings replaced one binding after the other,
/// in the order of the bindings.
pub open spec fn bind_all(s: Seq<char>, bindings: Seq<(Seq<char>, String)>) -> Seq<char>
    decreases bindings.len(),
{
    if bindings.len() == 0 {
        s
    } else {
        replace_all(bind_all(s, bindings.drop_last()), token_of(bindings.last().0), bindings.last().1@)
    }
}

/// Whether `pat` occurs in `s` at position `i`.
fn matches_at(s: &Vec<char>, i: usize, pat: &Vec<char>) -> (b: bool)
    requires
        i <= s@.len(),
    ensures
        b == (pat@.len() <= s@.len() - i && s@.skip(i as int).take(pat@.len() as int) == pat@),
{
    if pat.len() > s.len() - i {
        return false;
    }
    let mut j: usize = 0;
    while j < pat.len()
        invariant
            j <= pat@.len(),
            i <= s@.len(),
            pat@.len() <= s@.len() - i,
            forall|k: int| 0 <= k < j ==> s@[i + k] == pat@[k],
        decreases pat@.len() - j,
    {
        let slen = s.len();
        assert(i + j < slen);
        if s[i + j] != pat[j] {
            proof {
                assert(s@.skip(i as int).take(pat@.len() as int)[j as int] == s@[i + j]);
            }
            return false;
        }
        j = j + 1;
    }
    proof {
        assert(s@.skip(i as int).take(pat@.len() as int) =~= pat@);
    }
    true
}

/// `s` with every `pat` replaced by `rep`.
fn replace_chars(s: &Vec<char>, pat: &Vec<char>, rep: &Vec<char>) -> (r: Vec<char>)
    requires
        pat@.len() > 0,
    ensures
        r@ == replace_all(s@, pat@, rep@),
{
    let mut out: Vec<char> = Vec::new();
    let mut i: usize = 0;
    proof {
        assert(s@.skip(0) =~= s@);
    }
    while i < s.len()
        invariant
            pat@.len() > 0,
            i <= s@.len(),
            out@ + replace_all(s@.skip(i as int), pat@, rep@) == replace_all(s@, pat@, rep@),
        decreases s@.len() - i,
    {
        let ghost t = s@.skip(i as int);
        if matches_at(s, i, pat) {
            let mut k: usize = 0;
            let ghost before = out@;
            while k < rep.len()
                invariant
                    k <= rep@.len(),
                    out@ == before + rep@.take(k as int),
                decreases rep@.len() - k,
            {
                out.push(rep[k]);
                proof {
                    assert(rep@.take(k + 1) =~= rep@.take(k as int).push(rep@[k as int]));
                }
                k = k + 1;
            }
            proof {
                assert(rep@.take(rep@.len() as int) =~= rep@);
                assert(t.skip(pat@.len() as int) =~= s@.skip(i + pat@.len()));
                assert(out@ + replace_all(s@.skip(i + pat@.len()), pat@, rep@) =~= before + replace_all(t, pat@, rep@));
            }
            i = i + pat.len();
        } else {
            let ghost before = out@;
            out.push(s[i]);
            proof {
                assert(t.skip(1) =~= s@.skip(i + 1));
                if t.len() < pat@.len() {
                    assert(replace_all(t.skip(1), pat@, rep@) == t.skip(1));
                    assert(t =~= seq![t[0]] + t.skip(1));
                }
                assert(out@ + replace_all(s@.skip(i + 1), pat@, rep@) =~= before + replace_all(t, pat@, rep@));
            }
            i = i + 1;
        }
    }
    proof {
        assert(s@.skip(s@.len() as int) =~= Seq::<char>::empty());
        assert(out@ + Seq::<char>::empty() =~= out@);
    }
    out
}

/// Replaces in `source` the token `{{key}}` of each binding by its text,
/// binding after binding in key order.
pub fn apply_string_bindings(source: &str, texts: &StrMap<String>) -> (r: String)
    ensures
        r@ == bind_all(source@, texts.pairs()),
{
    let mut chars = str_chars(source);
    let n = texts.len();
    let mut i: usize = 0;
    proof {
        assert(texts.pairs().take(0) =~= Seq::<(Seq<char>, String)>::empty());
    }
    while i < n
        invariant
            n == texts.pairs().len(),
            i <= n,
            chars@ == bind_all(source@, texts.pairs().take(i as int)),
        decreases n - i,
    {
        let (key, text) = texts.entry(i);
        let mut token: Vec<char> = Vec::new();
        token.push('{');
        token.push('{');
        let key_chars = str_chars(key.as_str());
        let mut k: usize = 0;
        while k < key_chars.len()
            invariant
                k <= key_chars@.len(),
                token@ == seq!['{', '{'] + key_chars@.take(k as int),
            decreases key_chars@.len() - k,
        {
            token.push(key_chars[k]);
            proof {
                assert(key_chars@.take(k + 1) =~= key_chars@.take(k as int).push(key_chars@[k as int]));
            }
            k = k + 1;
        }
        token.push('}');
        token.push('}');
        proof {
            assert(key_chars@.take(key_chars@.len() as int) =~= key_chars@);
            assert(token@ =~= token_of(texts.pairs()[i as int].0));
            assert(texts.pairs().take(i + 1).drop_last() =~= texts.pairs().take(i as int));
            assert(texts.pairs().take(i + 1).last() == texts.pairs()[i as int]);
        }
        let rep = str_chars(text.as_str());
        chars = replace_chars(&chars, &token, &rep);
        i = i + 1;
    }
    proof {
        assert(texts.pairs().take(n as int) =~= texts.pairs());
    }
    string_from_chars(&chars)
}

} // verus!
verus! {
/// Whether `r` is the template `t` with every string's tokens replaced by
/// the bindings `texts`, and all else kept.
pub open spec fn materializes(t: JsonValue, r: JsonValue, texts: Seq<(Seq<char>, String)>) -> bool
    decreases t,
{
    match t {
        JsonValue::Str(s) => r matches JsonValue::Str(x) && x@ == bind_all(s@, texts),
        JsonValue::Array(items) => r matches JsonValue::Array(out) && out@.len() == items@.len() && forall|i: int|
            0 <= i < items@.len() ==> materializes(#[trigger] items@[i], out@[i], texts),
        JsonValue::Object(m) => r matches JsonValue::Object(m2) && m2@.dom() == m@.dom() && forall|k: Seq<char>|
            #[trigger] m@.contains_key(k) ==> {
                proof {
                    lemma_map_value_decreases(m, k);
                }
                materializes(m@[k], m2@[k], texts)
            },
        _ => r == t,
    }
}

/// A UI template with every string's `{{key}}` tokens replaced by the text
/// of the binding `key`, through arrays and objects; numbers, booleans and
/// null are kept.
pub fn materialize_template(t: &JsonValue, texts: &StrMap<String>) -> (r: JsonValue)
    ensures
        materializes(*t, r, texts.pairs()),
    decreases t,
{
    match t {
        JsonValue::Str(s) => JsonValue::Str(apply_string_bindings(s.as_str(), texts)),
        JsonValue::Array(items) => {
            let mut out: Vec<JsonValue> = Vec::new();
            let mut i: usize = 0;
            while i < items.len()
                invariant
                    *t == JsonValue::Array(*items),
                    i <= items@.len(),
                    out@.len() == i,
                    forall|j: int| 0 <= j < i ==> materializes(#[trigger] items@[j], out@[j], texts.pairs()),
                decreases items@.len() - i,
            {
                proof {
                    lemma_array_item_decreases(*t, *items, i as int);
                }
                let v = materialize_template(&items[i], texts);
                out.push(v);
                i = i + 1;
            }
            JsonValue::Array(out)
        },
        JsonValue::Object(m) => {
            let n = m.len();
            let ghost p = m.pairs();
            proof {
                crate::strmap::lemma_pairs_map(p);
            }
            let mut out: StrMap<JsonValue> = StrMap::new();
            let mut i: usize = 0;
            while i < n
                invariant
                    *t == JsonValue::Object(*m),
                    p == m.pairs(),
                    n == p.len(),
                    i <= n,
                    sorted_pairs(p),
                    forall|x: int| 0 <= x < p.len() ==> #[trigger] m@.contains_key(p[x].0) && m@[p[x].0] == p[x].1,
                    forall|k: Seq<char>| #[trigger] out@.contains_key(k) <==> exists|x: int| 0 <= x < i && #[trigger] p[x].0 == k,
                    forall|x: int| 0 <= x < i ==> materializes(#[trigger] p[x].1, out@[p[x].0], texts.pairs()),
                decreases n - i,
            {
                let (k, v) = m.entry(i);
                proof {
                    lemma_object_value_decreases(*t, *m, i as int);
                }
                let w = materialize_template(v, texts);
                let ghost before = out@;
                out.insert(k.clone(), w);
                proof {
                    assert forall|x: int| 0 <= x < i + 1 implies materializes(#[trigger] p[x].1, out@[p[x].0], texts.pairs()) by {
                        if x < i {
                            if p[x].0 == p[i as int].0 {
                                crate::text::lemma_str_lt_irreflexive(p[x].0);
                            }
                        }
                    }
                    assert forall|kk: Seq<char>| #[trigger] out@.contains_key(kk) <==> exists|x: int| 0 <= x < i + 1 && #[trigger] p[x].0 == kk by {
                        if kk == p[i as int].0 {
                            assert(p[i as int].0 == kk);
                        }
                        if before.contains_key(kk) {
                            let x = choose|x: int| 0 <= x < i && #[trigger] p[x].0 == kk;
                            assert(p[x].0 == kk);
                        }
                    }
                }
                i = i + 1;
            }
            proof {
                let r = JsonValue::Object(out);
                assert(out@.dom() =~= m@.dom()) by {
                    assert forall|k: Seq<char>| #[trigger] m@.contains_key(k) implies out@.contains_key(k) by {
                        let x = choose|x: int| 0 <= x < p.len() && #[trigger] p[x].0 == k;
                        assert(p[x].0 == k);
                    }
                    assert forall|k: Seq<char>| #[trigger] out@.contains_key(k) implies m@.contains_key(k) by {
                        let x = choose|x: int| 0 <= x < i && #[trigger] p[x].0 == k;
                        assert(m@.contains_key(p[x].0));
                    }
                }
                assert forall|k: Seq<char>| #[trigger] m@.contains_key(k) implies materializes(m@[k], out@[k], texts.pairs()) by {
                    let x = choose|x: int| 0 <= x < p.len() && #[trigger] p[x].0 == k;
                    assert(materializes(p[x].1, out@[p[x].0], texts.pairs()));
                }
            }
            JsonValue::Object(out)
        },
        JsonValue::Null => JsonValue::Null,
        JsonValue::Bool(b) => JsonValue::Bool(*b),
        JsonValue::Number(JsonNumber::PosInt(u)) => JsonValue::Number(JsonNumber::PosInt(*u)),
        JsonValue::Number(JsonNumber::NegInt(x)) => JsonValue::Number(JsonNumber::NegInt(*x)),
        JsonValue::Number(JsonNumber::Float(text)) => JsonValue::Number(JsonNumber::Float(text.clone())),
    }
}

/// A value of an object lies below the object in the order that recursion
/// descends.
proof fn lemma_object_value_decreases(t: JsonValue, m: StrMap<JsonValue>, i: int)
    requires
        t == JsonValue::Object(m),
        0 <= i < m.pairs().len(),
    ensures
        decreases_to!(t => m.pairs()[i].1),
{
    crate::strmap::lemma_value_decreases(m, i);
    assert(t is Object);
    assert(t->Object_0 == m);
    assert(decreases_to!(t => t->Object_0));
}

/// An item of an array lies below the array in the order that recursion
/// descends.
proof fn lemma_array_item_decreases(t: JsonValue, items: Vec<JsonValue>, i: int)
    requires
        t == JsonValue::Array(items),
        0 <= i < items@.len(),
    ensures
        decreases_to!(t => items@[i]),
{
    assert(t->Array_0 == items);
    assert(decreases_to!(t => t->Array_0));
    assert(decreases_to!(items => items@));
    assert(decreases_to!(items@ => items@[i]));
}
} // verus!
