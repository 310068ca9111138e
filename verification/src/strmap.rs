//! A map from strings to values that keeps its entries in the byte order of
//! their keys, as a `BTreeMap<String, V>` does.

use vstd::prelude::*;
use crate::text::{compare_str, lemma_str_lt_irreflexive, lemma_str_lt_total, lemma_str_lt_transitive, str_lt, KeyOrder};

verus! {

/// Entries whose keys strictly increase in byte order.
pub open spec fn sorted_pairs<V>(s: Seq<(Seq<char>, V)>) -> bool {
    forall|i: int, j: int| 0 <= i < j < s.len() ==> str_lt(#[trigger] s[i].0, #[trigger] s[j].0)
}

/// Whether `k` is the key of an entry of `s`.
pub open spec fn pairs_have_key<V>(s: Seq<(Seq<char>, V)>, k: Seq<char>) -> bool {
    exists|i: int| 0 <= i < s.len() && #[trigger] s[i].0 == k
}

/// The map that a sequence of entries with distinct keys stands for.
pub open spec fn pairs_map<V>(s: Seq<(Seq<char>, V)>) -> Map<Seq<char>, V> {
    Map::new(
        |k: Seq<char>| pairs_have_key(s, k),
        |k: Seq<char>| s[pairs_index_of(s, k)].1,
    )
}

/// An index of an entry of `s` whose key is `k`, where there is one.
pub open spec fn pairs_index_of<V>(s: Seq<(Seq<char>, V)>, k: Seq<char>) -> int {
    choose|i: int| 0 <= i < s.len() && #[trigger] s[i].0 == k
}

/// In sorted entries, each key maps to the value stored beside it, and the map
/// has no other keys.
pub proof fn lemma_pairs_map<V>(s: Seq<(Seq<char>, V)>)
    requires
        sorted_pairs(s),
    ensures
        forall|i: int|
            0 <= i < s.len() ==> #[trigger] pairs_map(s).contains_key(s[i].0) && pairs_map(s)[s[i].0]
                == s[i].1,
        forall|k: Seq<char>| #[trigger] pairs_map(s).contains_key(k) <==> pairs_have_key(s, k),
{
    assert forall|i: int| 0 <= i < s.len() implies #[trigger] pairs_map(s).contains_key(s[i].0)
        && pairs_map(s)[s[i].0] == s[i].1 by {
        let k = s[i].0;
        assert(pairs_have_key(s, k));
        assert(pairs_map(s).dom().contains(k));
        let j = pairs_index_of(s, k);
        if j < i {
            assert(str_lt(s[j].0, s[i].0));
            lemma_str_lt_irreflexive(k);
        } else if i < j {
            assert(str_lt(s[i].0, s[j].0));
            lemma_str_lt_irreflexive(k);
        }
        assert(pairs_map(s)[k] == s[j].1);
    }
    assert forall|k: Seq<char>| #[trigger] pairs_map(s).contains_key(k) <==> pairs_have_key(s, k) by {
        assert(pairs_map(s).dom().contains(k) == pairs_have_key(s, k));
    }
}

/// A map from strings to `V`, ordered by the UTF-8 bytes of its keys.
pub struct StrMap<V> {
    entries: Vec<(String, V)>,
}

impl<V> View for StrMap<V> {
    type V = Map<Seq<char>, V>;

    open spec fn view(&self) -> Map<Seq<char>, V> {
        pairs_map(self.pairs())
    }
}

impl<V: Copy> StrMap<V> {
    /// A copy of the map, entry for entry.
    pub fn copy(&self) -> (r: Self)
        ensures
            r.pairs() == self.pairs(),
            r@ == self@,
    {
        proof {
            use_type_invariant(self);
        }
        let mut entries: Vec<(String, V)> = Vec::new();
        let mut i: usize = 0;
        while i < self.entries.len()
            invariant
                i <= self.entries@.len(),
                sorted_pairs(self.pairs()),
                entries@.map_values(|e: (String, V)| (e.0@, e.1)) == self.pairs().take(i as int),
            decreases self.entries@.len() - i,
        {
            let key = self.entries[i].0.clone();
            let value = self.entries[i].1;
            let ghost prev = entries@;
            entries.push((key, value));
            proof {
                assert(key == self.entries@[i as int].0);
                assert(value == self.entries@[i as int].1);
                assert(self.pairs()[i as int] == (self.entries@[i as int].0@, self.entries@[i as int].1));
                assert(self.pairs().take(i + 1) =~= self.pairs().take(i as int).push(self.pairs()[i as int]));
                assert(entries@.map_values(|e: (String, V)| (e.0@, e.1)) =~= prev.map_values(
                    |e: (String, V)| (e.0@, e.1),
                ).push((key@, value)));
                assert(entries@.map_values(|e: (String, V)| (e.0@, e.1)) =~= self.pairs().take(i + 1));
            }
            i = i + 1;
        }
        proof {
            assert(self.pairs().take(i as int) =~= self.pairs());
        }
        StrMap { entries }
    }
}

impl<V> StrMap<V> {
    /// The entries in key order, keys taken by their chars.
    pub closed spec fn pairs(self) -> Seq<(Seq<char>, V)> {
        self.entries@.map_values(|e: (String, V)| (e.0@, e.1))
    }

    #[verifier::type_invariant]
    spec fn keys_sorted(self) -> bool {
        sorted_pairs(self.pairs())
    }

    /// The empty map.
    pub fn new() -> (m: Self)
        ensures
            m.pairs() == Seq::<(Seq<char>, V)>::empty(),
            m@ == Map::<Seq<char>, V>::empty(),
    {
        let m = StrMap { entries: Vec::new() };
        proof {
            assert(m.pairs() =~= Seq::<(Seq<char>, V)>::empty());
            assert(m@ =~= Map::<Seq<char>, V>::empty());
        }
        m
    }

    /// The number of entries.
    pub fn len(&self) -> (n: usize)
        ensures
            n == self.pairs().len(),
            sorted_pairs(self.pairs()),
    {
        proof {
            use_type_invariant(self);
        }
        self.entries.len()
    }

    /// Whether the map is empty.
    pub fn is_empty(&self) -> (b: bool)
        ensures
            b == (self.pairs().len() == 0),
            b == (self@ == Map::<Seq<char>, V>::empty()),
    {
        proof {
            use_type_invariant(self);
            lemma_pairs_map(self.pairs());
            if self.pairs().len() > 0 {
                assert(self@.contains_key(self.pairs()[0].0));
            } else {
                assert(self@ =~= Map::<Seq<char>, V>::empty());
            }
        }
        self.entries.len() == 0
    }

    /// The `i`-th entry in key order.
    pub fn entry(&self, i: usize) -> (r: (&String, &V))
        requires
            i < self.pairs().len(),
        ensures
            (r.0@, *r.1) == self.pairs()[i as int],
            sorted_pairs(self.pairs()),
    {
        proof {
            use_type_invariant(self);
        }
        let e = &self.entries[i];
        (&e.0, &e.1)
    }

    /// The index of the first entry whose key is not below `key`.
    fn lower_bound(&self, key: &str) -> (r: (usize, bool))
        ensures
            r.0 <= self.pairs().len(),
            forall|j: int| 0 <= j < r.0 ==> str_lt(#[trigger] self.pairs()[j].0, key@),
            forall|j: int| r.0 <= j < self.pairs().len() ==> !str_lt(#[trigger] self.pairs()[j].0, key@),
            r.1 <==> (r.0 < self.pairs().len() && self.pairs()[r.0 as int].0 == key@),
            !r.1 ==> forall|j: int| r.0 <= j < self.pairs().len() ==> str_lt(key@, #[trigger] self.pairs()[j].0),
    {
        proof {
            use_type_invariant(self);
        }
        let ghost p = self.pairs();
        let mut i: usize = 0;
        while i < self.entries.len()
            invariant
                p == self.pairs(),
                sorted_pairs(p),
                i <= p.len(),
                p.len() == self.entries@.len(),
                forall|j: int| 0 <= j < i ==> str_lt(#[trigger] p[j].0, key@),
            decreases p.len() - i,
        {
            let c = compare_str(self.entries[i].0.as_str(), key);
            assert(p[i as int].0 == self.entries@[i as int].0@);
            match c {
                KeyOrder::Less => {
                    i = i + 1;
                },
                _ => {
                    proof {
                        lemma_lower_bound_rest(p, i as int, key@);
                    }
                    let found = matches!(c, KeyOrder::Equal);
                    return (i, found);
                },
            }
        }
        (i, false)
    }

    /// The keys, in byte order.
    pub fn keys(&self) -> (r: Vec<String>)
        ensures
            r@.len() == self.pairs().len(),
            forall|j: int| 0 <= j < r@.len() ==> #[trigger] r@[j]@ == self.pairs()[j].0,
            sorted_pairs(self.pairs()),
    {
        proof {
            use_type_invariant(self);
        }
        let n = self.entries.len();
        let mut out: Vec<String> = Vec::new();
        let mut i: usize = 0;
        while i < n
            invariant
                n == self.pairs().len(),
                n == self.entries@.len(),
                i <= n,
                out@.len() == i,
                forall|j: int| 0 <= j < i ==> #[trigger] out@[j]@ == self.pairs()[j].0,
            decreases n - i,
        {
            out.push(self.entries[i].0.clone());
            i = i + 1;
        }
        out
    }

    /// The value stored under `key`.
    pub fn get(&self, key: &str) -> (r: Option<&V>)
        ensures
            r is Some <==> self@.contains_key(key@),
            r matches Some(v) ==> *v == self@[key@],
    {
        proof {
            use_type_invariant(self);
            lemma_pairs_map(self.pairs());
        }
        let (i, found) = self.lower_bound(key);
        if found {
            Some(&self.entries[i].1)
        } else {
            proof {
                if self@.contains_key(key@) {
                    let j = choose|j: int| 0 <= j < self.pairs().len() && #[trigger] self.pairs()[j].0 == key@;
                    lemma_str_lt_irreflexive(key@);
                    if j >= i {
                        assert(str_lt(key@, self.pairs()[j].0));
                    }
                }
            }
            None
        }
    }

    /// Whether `key` has an entry.
    pub fn contains_key(&self, key: &str) -> (b: bool)
        ensures
            b == self@.contains_key(key@),
    {
        self.get(key).is_some()
    }

    /// Stores `value` under `key`, replacing and returning any earlier value.
    pub fn insert(&mut self, key: String, value: V) -> (prev: Option<V>)
        ensures
            final(self)@ == old(self)@.insert(key@, value),
            prev is Some <==> old(self)@.contains_key(key@),
            prev matches Some(v) ==> v == old(self)@[key@],
    {
        proof {
            use_type_invariant(&*self);
            lemma_pairs_map(self.pairs());
        }
        let ghost p = self.pairs();
        let (i, found) = self.lower_bound(key.as_str());
        let mut entries: Vec<(String, V)> = Vec::new();
        std::mem::swap(&mut entries, &mut self.entries);
        assert(entries@.map_values(|e: (String, V)| (e.0@, e.1)) == p);
        if found {
            let (k, old_value) = entries.remove(i);
            entries.insert(i, (k, value));
            let ghost q = entries@.map_values(|e: (String, V)| (e.0@, e.1));
            proof {
                assert(q =~= p.update(i as int, (key@, value)));
                lemma_update_sorted(p, i as int, value);
                lemma_pairs_map(q);
                assert(pairs_map(q) =~= pairs_map(p).insert(key@, value)) by {
                    assert forall|k: Seq<char>| #[trigger] pairs_map(q).contains_key(k) <==> pairs_map(p).insert(key@, value).contains_key(k) by {
                        if pairs_have_key(q, k) {
                            let j = choose|j: int| 0 <= j < q.len() && #[trigger] q[j].0 == k;
                            assert(p[j].0 == k);
                        }
                        if pairs_have_key(p, k) {
                            let j = choose|j: int| 0 <= j < p.len() && #[trigger] p[j].0 == k;
                            assert(q[j].0 == k);
                        }
                    }
                    assert forall|k: Seq<char>| #[trigger] pairs_map(q).contains_key(k) implies pairs_map(q)[k] == pairs_map(p).insert(key@, value)[k] by {
                        let j = choose|j: int| 0 <= j < q.len() && #[trigger] q[j].0 == k;
                        assert(p[j].0 == k);
                    }
                }
            }
            self.entries = entries;
            Some(old_value)
        } else {
            let ghost kv = (key@, value);
            entries.insert(i, (key, value));
            let ghost q = entries@.map_values(|e: (String, V)| (e.0@, e.1));
            proof {
                assert(q =~= p.insert(i as int, kv));
                lemma_insert_sorted(p, i as int, kv);
                lemma_pairs_map(q);
                assert(!pairs_have_key(p, key@)) by {
                    if pairs_have_key(p, key@) {
                        let j = choose|j: int| 0 <= j < p.len() && #[trigger] p[j].0 == key@;
                        lemma_str_lt_irreflexive(key@);
                        if j >= i {
                            assert(str_lt(key@, p[j].0));
                        }
                    }
                }
                assert(pairs_map(q) =~= pairs_map(p).insert(key@, value)) by {
                    assert forall|k: Seq<char>| #[trigger] pairs_map(q).contains_key(k) <==> pairs_map(p).insert(key@, value).contains_key(k) by {
                        if pairs_have_key(q, k) {
                            let j = choose|j: int| 0 <= j < q.len() && #[trigger] q[j].0 == k;
                            if j < i {
                                assert(p[j].0 == k);
                            } else if j > i {
                                assert(p[j - 1].0 == k);
                            }
                        }
                        if pairs_have_key(p, k) {
                            let j = choose|j: int| 0 <= j < p.len() && #[trigger] p[j].0 == k;
                            if j < i {
                                assert(q[j].0 == k);
                            } else {
                                assert(q[j + 1].0 == k);
                            }
                        }
                        if k == key@ {
                            assert(q[i as int].0 == k);
                        }
                    }
                    assert forall|k: Seq<char>| #[trigger] pairs_map(q).contains_key(k) implies pairs_map(q)[k] == pairs_map(p).insert(key@, value)[k] by {
                        let j = choose|j: int| 0 <= j < q.len() && #[trigger] q[j].0 == k;
                        if j < i {
                            assert(p[j].0 == k);
                        } else if j > i {
                            assert(p[j - 1].0 == k);
                        }
                    }
                }
            }
            self.entries = entries;
            None
        }
    }

    /// Removes the entry of `key`, returning its value.
    pub fn remove(&mut self, key: &str) -> (prev: Option<V>)
        ensures
            final(self)@ == old(self)@.remove(key@),
            prev is Some <==> old(self)@.contains_key(key@),
            prev matches Some(v) ==> v == old(self)@[key@],
    {
        proof {
            use_type_invariant(&*self);
            lemma_pairs_map(self.pairs());
        }
        let ghost p = self.pairs();
        let (i, found) = self.lower_bound(key);
        if !found {
            proof {
                assert(!pairs_have_key(p, key@)) by {
                    if pairs_have_key(p, key@) {
                        let j = choose|j: int| 0 <= j < p.len() && #[trigger] p[j].0 == key@;
                        lemma_str_lt_irreflexive(key@);
                        if j >= i {
                            assert(str_lt(key@, p[j].0));
                        }
                    }
                }
                assert(self@ =~= self@.remove(key@));
            }
            return None;
        }
        let mut entries: Vec<(String, V)> = Vec::new();
        std::mem::swap(&mut entries, &mut self.entries);
        assert(entries@.map_values(|e: (String, V)| (e.0@, e.1)) == p);
        let (_k, old_value) = entries.remove(i);
        let ghost q = entries@.map_values(|e: (String, V)| (e.0@, e.1));
        proof {
            assert(q =~= p.remove(i as int));
            assert(sorted_pairs(q)) by {
                assert forall|a: int, b: int| 0 <= a < b < q.len() implies str_lt(#[trigger] q[a].0, #[trigger] q[b].0) by {
                    let a2 = if a < i { a } else { a + 1 };
                    let b2 = if b < i { b } else { b + 1 };
                    assert(q[a] == p[a2]);
                    assert(q[b] == p[b2]);
                }
            }
            lemma_pairs_map(q);
            assert(pairs_map(q) =~= pairs_map(p).remove(key@)) by {
                assert forall|k: Seq<char>| #[trigger] pairs_map(q).contains_key(k) <==> pairs_map(p).remove(key@).contains_key(k) by {
                    if pairs_have_key(q, k) {
                        let j = choose|j: int| 0 <= j < q.len() && #[trigger] q[j].0 == k;
                        let j2 = if j < i { j } else { j + 1 };
                        assert(p[j2].0 == k);
                        assert(str_lt(p[i as int].0, p[j2].0) || str_lt(p[j2].0, p[i as int].0));
                        if k == key@ {
                            lemma_str_lt_irreflexive(k);
                        }
                    }
                    if pairs_have_key(p, k) && k != key@ {
                        let j = choose|j: int| 0 <= j < p.len() && #[trigger] p[j].0 == k;
                        if j < i {
                            assert(q[j].0 == k);
                        } else {
                            assert(j != i);
                            assert(q[j - 1].0 == k);
                        }
                    }
                }
                assert forall|k: Seq<char>| #[trigger] pairs_map(q).contains_key(k) implies pairs_map(q)[k] == pairs_map(p).remove(key@)[k] by {
                    let j = choose|j: int| 0 <= j < q.len() && #[trigger] q[j].0 == k;
                    let j2 = if j < i { j } else { j + 1 };
                    assert(p[j2].0 == k);
                }
            }
        }
        self.entries = entries;
        Some(old_value)
    }
}

impl<V> StrMap<V> {
    /// Moves every entry of `other` into this map, as `BTreeMap::append`
    /// does: an entry of `other` replaces one stored under the same key.
    pub fn append(&mut self, other: StrMap<V>)
        ensures
            final(self)@ == old(self)@.union_prefer_right(other@),
    {
        proof {
            use_type_invariant(&other);
        }
        let ghost p = other.pairs();
        let StrMap { entries: mut entries } = other;
        proof {
            assert(p.skip(p.len() as int) =~= Seq::<(Seq<char>, V)>::empty());
            assert(pairs_map(Seq::<(Seq<char>, V)>::empty()) =~= Map::<Seq<char>, V>::empty());
            assert(self@ =~= old(self)@.union_prefer_right(Map::<Seq<char>, V>::empty()));
            assert(entries@.map_values(|e: (String, V)| (e.0@, e.1)) =~= p.take(entries@.len() as int));
        }
        while entries.len() > 0
            invariant
                sorted_pairs(p),
                entries@.len() <= p.len(),
                entries@.map_values(|e: (String, V)| (e.0@, e.1)) == p.take(entries@.len() as int),
                self@ == old(self)@.union_prefer_right(pairs_map(p.skip(entries@.len() as int))),
            decreases entries@.len(),
        {
            let ghost j = entries@.len() - 1;
            let ghost before = entries@;
            let last = entries.pop();
            match last {
                Some((k, v)) => {
                    proof {
                        assert(before.map_values(|e: (String, V)| (e.0@, e.1))[j] == (k@, v));
                        assert(p.take(j + 1)[j] == p[j]);
                        lemma_pairs_map_skip(p, j);
                        assert(entries@.map_values(|e: (String, V)| (e.0@, e.1)) =~= p.take(j));
                    }
                    self.insert(k, v);
                    proof {
                        assert(self@ =~= old(self)@.union_prefer_right(pairs_map(p.skip(j))));
                    }
                },
                None => {},
            }
        }
        proof {
            assert(p.skip(0) =~= p);
        }
    }
}

/// The keys of the entries of `s`, from index `from` on, whose flag in `keep`
/// is set.
pub open spec fn flagged_keys<V>(s: Seq<(Seq<char>, V)>, keep: Seq<bool>, from: int) -> Set<Seq<char>> {
    Set::new(|k: Seq<char>| exists|i: int| from <= i < s.len() && #[trigger] s[i].0 == k && keep[i])
}

impl<V> StrMap<V> {
    /// Keeps the entries whose flag is set, the flags taken in key order,
    /// and drops the others, as `BTreeMap::retain` does.
    pub fn retain_flagged(&mut self, keep: &Vec<bool>)
        requires
            keep@.len() == old(self).pairs().len(),
        ensures
            final(self)@ == old(self)@.restrict(flagged_keys(old(self).pairs(), keep@, 0)),
    {
        proof {
            use_type_invariant(&*self);
            lemma_pairs_map(self.pairs());
        }
        let ghost p = self.pairs();
        let ghost m = self@;
        let mut entries: Vec<(String, V)> = Vec::new();
        std::mem::swap(&mut entries, &mut self.entries);
        proof {
            assert(entries@.map_values(|e: (String, V)| (e.0@, e.1)) == p);
            assert(p.take(p.len() as int) =~= p);
            assert(self.pairs() =~= Seq::<(Seq<char>, V)>::empty());
            assert(pairs_map(Seq::<(Seq<char>, V)>::empty()) =~= Map::<Seq<char>, V>::empty());
            assert(flagged_keys(p, keep@, p.len() as int) =~= Set::<Seq<char>>::empty());
            assert(m.restrict(flagged_keys(p, keep@, p.len() as int)) =~= Map::<Seq<char>, V>::empty());
        }
        while entries.len() > 0
            invariant
                sorted_pairs(p),
                m == pairs_map(p),
                forall|i: int| 0 <= i < p.len() ==> #[trigger] m.contains_key(p[i].0) && m[p[i].0] == p[i].1,
                keep@.len() == p.len(),
                entries@.len() <= p.len(),
                entries@.map_values(|e: (String, V)| (e.0@, e.1)) == p.take(entries@.len() as int),
                self@ == m.restrict(flagged_keys(p, keep@, entries@.len() as int)),
            decreases entries@.len(),
        {
            let ghost j = entries@.len() - 1;
            let ghost before = entries@;
            let last = entries.pop();
            match last {
                Some((k, v)) => {
                    proof {
                        assert(before.map_values(|e: (String, V)| (e.0@, e.1))[j] == (k@, v));
                        assert(p.take(j + 1)[j] == p[j]);
                        assert(entries@.map_values(|e: (String, V)| (e.0@, e.1)) =~= p.take(j));
                    }
                    let n = entries.len();
                    if keep[n] {
                        self.insert(k, v);
                        proof {
                            assert(flagged_keys(p, keep@, j) =~= flagged_keys(p, keep@, j + 1).insert(p[j].0));
                            assert(self@ =~= m.restrict(flagged_keys(p, keep@, j)));
                        }
                    } else {
                        proof {
                            assert(flagged_keys(p, keep@, j) =~= flagged_keys(p, keep@, j + 1));
                        }
                    }
                },
                None => {},
            }
        }
    }
}

/// Dropping the first `j` entries of sorted entries leaves the map of the
/// entries past `j` with the `j`-th entry added.
proof fn lemma_pairs_map_skip<V>(p: Seq<(Seq<char>, V)>, j: int)
    requires
        sorted_pairs(p),
        0 <= j < p.len(),
    ensures
        pairs_map(p.skip(j)) == pairs_map(p.skip(j + 1)).insert(p[j].0, p[j].1),
{
    let a = p.skip(j);
    let b = p.skip(j + 1);
    assert(sorted_pairs(a)) by {
        assert forall|x: int, y: int| 0 <= x < y < a.len() implies str_lt(#[trigger] a[x].0, #[trigger] a[y].0) by {
            assert(a[x] == p[x + j] && a[y] == p[y + j]);
        }
    }
    assert(sorted_pairs(b)) by {
        assert forall|x: int, y: int| 0 <= x < y < b.len() implies str_lt(#[trigger] b[x].0, #[trigger] b[y].0) by {
            assert(b[x] == p[x + j + 1] && b[y] == p[y + j + 1]);
        }
    }
    lemma_pairs_map(a);
    lemma_pairs_map(b);
    let k0 = p[j].0;
    assert(a[0] == p[j]);
    assert(pairs_map(a) =~= pairs_map(b).insert(k0, p[j].1)) by {
        assert forall|k: Seq<char>| #[trigger] pairs_map(a).contains_key(k) <==> pairs_map(b).insert(k0, p[j].1).contains_key(k) by {
            if pairs_have_key(a, k) {
                let i = choose|i: int| 0 <= i < a.len() && #[trigger] a[i].0 == k;
                if i > 0 {
                    assert(b[i - 1] == a[i]);
                }
            }
            if pairs_have_key(b, k) {
                let i = choose|i: int| 0 <= i < b.len() && #[trigger] b[i].0 == k;
                assert(a[i + 1] == b[i]);
            }
        }
        assert forall|k: Seq<char>| #[trigger] pairs_map(a).contains_key(k) implies pairs_map(a)[k] == pairs_map(b).insert(k0, p[j].1)[k] by {
            let i = choose|i: int| 0 <= i < a.len() && #[trigger] a[i].0 == k;
            if i > 0 {
                assert(b[i - 1] == a[i]);
                assert(str_lt(a[0].0, a[i].0));
                lemma_str_lt_irreflexive(k0);
            }
        }
    }
}

/// Past the lower bound of `key`, no entry is below `key`.
proof fn lemma_lower_bound_rest<V>(p: Seq<(Seq<char>, V)>, i: int, key: Seq<char>)
    requires
        sorted_pairs(p),
        0 <= i < p.len(),
        !str_lt(p[i].0, key),
    ensures
        forall|j: int| i <= j < p.len() ==> !str_lt(#[trigger] p[j].0, key),
        p[i].0 != key ==> forall|j: int| i <= j < p.len() ==> str_lt(key, #[trigger] p[j].0),
{
    lemma_str_lt_total(p[i].0, key);
    assert forall|j: int| i <= j < p.len() implies !str_lt(#[trigger] p[j].0, key) by {
        if j > i && str_lt(p[j].0, key) {
            assert(str_lt(p[i].0, p[j].0));
            lemma_str_lt_transitive(p[i].0, p[j].0, key);
        }
    }
    if p[i].0 != key {
        assert forall|j: int| i <= j < p.len() implies str_lt(key, #[trigger] p[j].0) by {
            if j > i {
                assert(str_lt(p[i].0, p[j].0));
                lemma_str_lt_transitive(key, p[i].0, p[j].0);
            }
        }
    }
}

proof fn lemma_update_sorted<V>(p: Seq<(Seq<char>, V)>, i: int, v: V)
    requires
        sorted_pairs(p),
        0 <= i < p.len(),
    ensures
        sorted_pairs(p.update(i, (p[i].0, v))),
{
    let q = p.update(i, (p[i].0, v));
    assert forall|a: int, b: int| 0 <= a < b < q.len() implies str_lt(#[trigger] q[a].0, #[trigger] q[b].0) by {
        assert(q[a].0 == p[a].0);
        assert(q[b].0 == p[b].0);
    }
}

proof fn lemma_insert_sorted<V>(p: Seq<(Seq<char>, V)>, i: int, kv: (Seq<char>, V))
    requires
        sorted_pairs(p),
        0 <= i <= p.len(),
        forall|j: int| 0 <= j < i ==> str_lt(#[trigger] p[j].0, kv.0),
        forall|j: int| i <= j < p.len() ==> str_lt(kv.0, #[trigger] p[j].0),
    ensures
        sorted_pairs(p.insert(i, kv)),
{
    let q = p.insert(i, kv);
    assert forall|a: int, b: int| 0 <= a < b < q.len() implies str_lt(#[trigger] q[a].0, #[trigger] q[b].0) by {
        if a < i && b < i {
            assert(q[a] == p[a] && q[b] == p[b]);
        } else if a < i && b == i {
            assert(q[a] == p[a]);
        } else if a < i {
            assert(q[a] == p[a] && q[b] == p[b - 1]);
        } else if a == i {
            assert(q[b] == p[b - 1]);
        } else {
            assert(q[a] == p[a - 1] && q[b] == p[b - 1]);
        }
    }
}

/// Sorted entries have as many keys as entries.
pub proof fn lemma_sorted_pairs_len<V>(s: Seq<(Seq<char>, V)>)
    requires
        sorted_pairs(s),
    ensures
        pairs_map(s).dom().len() == s.len(),
        pairs_map(s).dom().finite(),
    decreases s.len(),
{
    lemma_pairs_map(s);
    if s.len() == 0 {
        assert(pairs_map(s).dom() =~= Set::<Seq<char>>::empty());
    } else {
        let d = s.drop_last();
        assert(sorted_pairs(d));
        lemma_sorted_pairs_len(d);
        lemma_pairs_map(d);
        let k = s.last().0;
        assert(!pairs_map(d).dom().contains(k)) by {
            if pairs_have_key(d, k) {
                let j = choose|j: int| 0 <= j < d.len() && #[trigger] d[j].0 == k;
                assert(str_lt(s[j].0, s[s.len() - 1].0));
                lemma_str_lt_irreflexive(k);
            }
        }
        assert(pairs_map(s).dom() =~= pairs_map(d).dom().insert(k)) by {
            assert forall|x: Seq<char>| pairs_map(s).dom().contains(x) <==> pairs_map(d).dom().insert(k).contains(x) by {
                if pairs_have_key(s, x) {
                    let j = choose|j: int| 0 <= j < s.len() && #[trigger] s[j].0 == x;
                    if j < s.len() - 1 {
                        assert(d[j].0 == x);
                    }
                }
                if pairs_have_key(d, x) {
                    let j = choose|j: int| 0 <= j < d.len() && #[trigger] d[j].0 == x;
                    assert(s[j].0 == x);
                }
                if x == k {
                    assert(s[s.len() - 1].0 == x);
                }
            }
        }
    }
}

} // verus!
verus! {
/// A map's value lies below the map in the order that recursion descends.
pub proof fn lemma_value_decreases<V>(m: StrMap<V>, i: int)
    requires
        0 <= i < m.pairs().len(),
    ensures
        decreases_to!(m => m.pairs()[i].1),
{
    assert(m.pairs()[i].1 == m.entries@[i].1);
    assert(decreases_to!(m => m.entries));
    assert(decreases_to!(m.entries => m.entries@));
    assert(decreases_to!(m.entries@ => m.entries@[i]));
    assert(decreases_to!(m.entries@[i] => m.entries@[i].1));
    assert(decreases_to!(m => m.entries@[i].1));
}
} // verus!
verus! {
/// A value of a map lies below the map in the order that recursion descends.
pub proof fn lemma_map_value_decreases<V>(m: StrMap<V>, k: Seq<char>)
    requires
        m@.contains_key(k),
    ensures
        decreases_to!(m => m@[k]),
{
    let p = m.pairs();
    assert(pairs_have_key(p, k));
    let i = pairs_index_of(p, k);
    assert(0 <= i < p.len());
    assert(m@[k] == p[i].1);
    lemma_value_decreases(m, i);
}
} // verus!
