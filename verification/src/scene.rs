//! Scene bookkeeping values: visibility channels, dirty flags of mutations,
//! multi-owner process claims, and the plain descriptor types of the scene.

use vstd::prelude::*;
use crate::strmap::{StrMap, sorted_pairs, pairs_map, lemma_pairs_map};
use crate::text::{normalize_key, normalized_key, utf8_bytes, str_byte_len};

verus! {

// ---------------------------------------------------------------------------
// Visibility channels.

/// Per-channel visibility of an entity. A channel is named case- and
/// whitespace-insensitively; only hidden channels are stored.
pub struct VisibilityMask {
    channels: StrMap<bool>,
}

impl VisibilityMask {
    /// The hidden channels, by their normalized names.
    pub closed spec fn hidden(self) -> Set<Seq<char>> {
        self.channels@.dom()
    }

    #[verifier::type_invariant]
    spec fn only_hidden_stored(self) -> bool {
        forall|c: Seq<char>| #[trigger] self.channels@.contains_key(c) ==> self.channels@[c] == false && c.len() > 0
    }

    /// A copy of the mask.
    pub fn copy(&self) -> (m: Self)
        ensures
            m.hidden() == self.hidden(),
    {
        proof {
            use_type_invariant(self);
        }
        VisibilityMask { channels: self.channels.copy() }
    }

    /// A mask in which every channel is visible.
    pub fn new() -> (m: Self)
        ensures
            m.hidden() == Set::<Seq<char>>::empty(),
    {
        let m = VisibilityMask { channels: StrMap::new() };
        proof {
            assert(m.hidden() =~= Set::<Seq<char>>::empty());
        }
        m
    }

    /// Shows or hides `channel`, named case- and whitespace-insensitively;
    /// a channel that is empty once trimmed is ignored.
    pub fn set(&mut self, channel: &str, visible: bool)
        ensures
            normalized_key(channel@).len() == 0 ==> final(self).hidden() == old(self).hidden(),
            normalized_key(channel@).len() > 0 ==> final(self).hidden() == if visible {
                old(self).hidden().remove(normalized_key(channel@))
            } else {
                old(self).hidden().insert(normalized_key(channel@))
            },
    {
        proof {
            use_type_invariant(&*self);
        }
        let channel = normalize_key(channel);
        if channel.as_str().is_empty() {
            return;
        }
        let ghost c = channel@;
        let mut channels: StrMap<bool> = StrMap::new();
        std::mem::swap(&mut channels, &mut self.channels);
        if visible {
            let _ = channels.remove(channel.as_str());
        } else {
            let _ = channels.insert(channel, false);
        }
        self.channels = channels;
        proof {
            if visible {
                assert(self.hidden() =~= old(self).hidden().remove(c));
            } else {
                assert(self.hidden() =~= old(self).hidden().insert(c));
            }
        }
    }

    /// Whether `channel` is visible: not hidden under its normalized name.
    pub fn visible_for(&self, channel: &str) -> (b: bool)
        ensures
            b == !self.hidden().contains(normalized_key(channel@)),
    {
        proof {
            use_type_invariant(self);
        }
        let channel = normalize_key(channel);
        match self.channels.get(channel.as_str()) {
            Some(v) => *v,
            None => true,
        }
    }

    /// Whether no channel is hidden.
    pub fn all_visible(&self) -> (b: bool)
        ensures
            b == (self.hidden() == Set::<Seq<char>>::empty()),
    {
        proof {
            use_type_invariant(self);
        }
        let b = self.channels.is_empty();
        proof {
            if !b {
                if self.hidden() == Set::<Seq<char>>::empty() {
                    assert(self.channels@ =~= Map::<Seq<char>, bool>::empty());
                }
            } else {
                assert(self.hidden() =~= Set::<Seq<char>>::empty());
            }
        }
        b
    }

    /// The stored channels: each hidden channel, mapped to `false`.
    pub fn raw(&self) -> (r: &StrMap<bool>)
        ensures
            r@.dom() == self.hidden(),
            forall|c: Seq<char>| #[trigger] r@.contains_key(c) ==> r@[c] == false,
    {
        proof {
            use_type_invariant(self);
        }
        &self.channels
    }
}

/// Hiding a channel and then showing it again gives back the mask as it was,
/// where the channel was visible before; the name is matched after
/// normalization, so " Camera " and "camera" are the same channel.
pub proof fn lemma_visibility_hide_then_show(before: Set<Seq<char>>, channel: Seq<char>)
    requires
        normalized_key(channel).len() > 0,
        !before.contains(normalized_key(channel)),
    ensures
        before.insert(normalized_key(channel)).remove(normalized_key(channel)) == before,
{
    assert(before.insert(normalized_key(channel)).remove(normalized_key(channel)) =~= before);
}

// ---------------------------------------------------------------------------
// Dirty flags.

/// What a scene mutation changed, as a bit set.
#[derive(Clone, Copy, Debug, PartialEq, Eq, Structural)]
pub struct SceneDirtyFlags(pub u16);

pub const DIRTY_EMPTY: u16 = 0;
pub const DIRTY_TRANSFORM: u16 = 1;
pub const DIRTY_BOUNDS: u16 = 2;
pub const DIRTY_VISIBILITY: u16 = 4;
pub const DIRTY_HIERARCHY: u16 = 8;
pub const DIRTY_LIFECYCLE: u16 = 16;
pub const DIRTY_RESIDENCY: u16 = 32;
pub const DIRTY_LIGHT: u16 = 64;
pub const DIRTY_PROCESS_CONTROL: u16 = 128;

/// The label of the `i`-th flag.
pub open spec fn dirty_label(i: int) -> Seq<char> {
    if i == 0 {
        "transform"@
    } else if i == 1 {
        "bounds"@
    } else if i == 2 {
        "visibility"@
    } else if i == 3 {
        "hierarchy"@
    } else if i == 4 {
        "lifecycle"@
    } else if i == 5 {
        "residency"@
    } else if i == 6 {
        "light"@
    } else {
        "process_control"@
    }
}

/// The eight change flags have eight distinct labels.
pub proof fn lemma_dirty_labels_distinct(i: int, j: int)
    requires
        0 <= i < 8,
        0 <= j < 8,
        dirty_label(i) == dirty_label(j),
    ensures
        i == j,
{
    reveal_strlit("transform");
    reveal_strlit("bounds");
    reveal_strlit("visibility");
    reveal_strlit("hierarchy");
    reveal_strlit("lifecycle");
    reveal_strlit("residency");
    reveal_strlit("light");
    reveal_strlit("process_control");
    assert("transform"@[0] == 't' && "bounds"@[0] == 'b' && "visibility"@[0] == 'v' && "hierarchy"@[0] == 'h');
    assert("lifecycle"@[0] == 'l' && "residency"@[0] == 'r' && "light"@[0] == 'l' && "process_control"@[0] == 'p');
    assert("lifecycle"@.len() == 9 && "light"@.len() == 5);
}

pub open spec fn dirty_bit(i: int) -> u16 {
    (1u16 << (i as u16)) as u16
}

/// The labels of the flags among the first `n` that `bits` sets, in flag order.
pub open spec fn dirty_labels_upto(bits: u16, n: nat) -> Seq<Seq<char>>
    decreases n,
{
    if n == 0 {
        Seq::empty()
    } else {
        let rest = dirty_labels_upto(bits, (n - 1) as nat);
        if bits & dirty_bit(n - 1) != 0 {
            rest.push(dirty_label(n - 1))
        } else {
            rest
        }
    }
}

impl SceneDirtyFlags {
    /// The flags set in either.
    pub fn union(self, other: Self) -> (r: Self)
        ensures
            r.0 == self.0 | other.0,
    {
        SceneDirtyFlags(self.0 | other.0)
    }

    /// Whether the two share a flag.
    pub fn contains(self, other: Self) -> (b: bool)
        ensures
            b == (self.0 & other.0 != 0),
    {
        self.0 & other.0 != 0
    }

    /// The labels of the set flags, in flag order: transform, bounds,
    /// visibility, hierarchy, lifecycle, residency, light, process_control.
    pub fn labels(self) -> (r: Vec<&'static str>)
        ensures
            r@.map_values(|s: &str| s@) == dirty_labels_upto(self.0, 8),
    {
        let mut out: Vec<&'static str> = Vec::new();
        let bits = self.0;
        let names: [&'static str; 8] = ["transform", "bounds", "visibility", "hierarchy", "lifecycle", "residency", "light", "process_control"];
        let mut i: usize = 0;
        proof {
            assert(out@.map_values(|s: &str| s@) =~= dirty_labels_upto(bits, 0));
        }
        while i < 8
            invariant
                i <= 8,
                bits == self.0,
                names@.map_values(|s: &str| s@) == seq![dirty_label(0), dirty_label(1), dirty_label(2), dirty_label(3), dirty_label(4), dirty_label(5), dirty_label(6), dirty_label(7)],
                out@.map_values(|s: &str| s@) == dirty_labels_upto(bits, i as nat),
            decreases 8 - i,
        {
            let bit: u16 = 1u16 << (i as u16);
            assert(bit == dirty_bit(i as int));
            if bits & bit != 0 {
                let ghost before = out@;
                out.push(names[i]);
                proof {
                    assert(names@.map_values(|s: &str| s@)[i as int] == names@[i as int]@);
                    assert(out@.map_values(|s: &str| s@) =~= before.map_values(|s: &str| s@).push(dirty_label(i as int)));
                }
            }
            i = i + 1;
        }
        out
    }
}

/// Union of dirty flags is commutative and associative, and a flag is in a
/// union exactly when it is in one of its parts.
pub proof fn lemma_dirty_flags_union(a: u16, b: u16, c: u16, f: u16)
    ensures
        a | b == b | a,
        (a | b) | c == a | (b | c),
        ((a | b) & f != 0) == ((a & f != 0) || (b & f != 0)),
{
    assert(a | b == b | a) by (bit_vector);
    assert((a | b) | c == a | (b | c)) by (bit_vector);
    assert(((a | b) & f != 0) == ((a & f != 0) || (b & f != 0))) by (bit_vector);
}

// ---------------------------------------------------------------------------
// Mutation sources.

/// Who made a scene mutation.
#[derive(Clone, Copy, Debug, PartialEq, Eq, Structural)]
pub enum SceneMutationSource {
    Engine,
    Script,
    Physics,
    Animation,
    Parent,
    Streaming,
}

pub open spec fn mutation_source_name(s: SceneMutationSource) -> Seq<char> {
    match s {
        SceneMutationSource::Engine => "engine"@,
        SceneMutationSource::Script => "script"@,
        SceneMutationSource::Physics => "physics"@,
        SceneMutationSource::Animation => "animation"@,
        SceneMutationSource::Parent => "parent"@,
        SceneMutationSource::Streaming => "streaming"@,
    }
}

/// Distinct sources of a change have distinct names.
pub proof fn lemma_mutation_source_names_distinct(a: SceneMutationSource, b: SceneMutationSource)
    ensures
        mutation_source_name(a) == mutation_source_name(b) ==> a == b,
{
    reveal_strlit("engine");
    reveal_strlit("script");
    reveal_strlit("physics");
    reveal_strlit("animation");
    reveal_strlit("parent");
    reveal_strlit("streaming");
    assert("engine"@[0] == 'e' && "script"@[0] == 's' && "physics"@[0] == 'p' && "animation"@[0] == 'a');
    assert("parent"@[0] == 'p' && "streaming"@[0] == 's' && "parent"@[1] == 'a' && "physics"@[1] == 'h');
    assert("script"@[1] == 'c' && "streaming"@[1] == 't');
}

impl SceneMutationSource {
    pub fn as_str(self) -> (r: &'static str)
        ensures
            r@ == mutation_source_name(self),
    {
        match self {
            SceneMutationSource::Engine => "engine",
            SceneMutationSource::Script => "script",
            SceneMutationSource::Physics => "physics",
            SceneMutationSource::Animation => "animation",
            SceneMutationSource::Parent => "parent",
            SceneMutationSource::Streaming => "streaming",
        }
    }
}

// ---------------------------------------------------------------------------
// Process claims.

/// The owners of one claim reason.
pub open spec fn owner_set(m: StrMap<()>) -> Set<Seq<char>> {
    m@.dom()
}

/// Which owners keep an entity in process control, and why: for each reason,
/// the owners that claim it. A reason without owners is not kept.
pub struct SceneProcessClaims {
    claims: StrMap<StrMap<()>>,
}

/// The owners that claim `reason`, none where it is not claimed.
pub open spec fn owners_of(m: Map<Seq<char>, Set<Seq<char>>>, reason: Seq<char>) -> Set<Seq<char>> {
    if m.contains_key(reason) {
        m[reason]
    } else {
        Set::empty()
    }
}

/// The claims after `owner` claims (`active`) or releases `reason`.
pub open spec fn claims_after_set(
    m: Map<Seq<char>, Set<Seq<char>>>,
    owner: Seq<char>,
    reason: Seq<char>,
    active: bool,
) -> Map<Seq<char>, Set<Seq<char>>> {
    if active {
        m.insert(reason, owners_of(m, reason).insert(owner))
    } else if owners_of(m, reason).remove(owner) == Set::<Seq<char>>::empty() {
        m.remove(reason)
    } else {
        m.insert(reason, owners_of(m, reason).remove(owner))
    }
}

impl SceneProcessClaims {
    /// For each claimed reason, its owners.
    pub closed spec fn model(self) -> Map<Seq<char>, Set<Seq<char>>> {
        self.claims@.map_values(|m: StrMap<()>| owner_set(m))
    }

    #[verifier::type_invariant]
    spec fn no_empty_reason(self) -> bool {
        forall|r: Seq<char>| #[trigger] self.claims@.contains_key(r) ==> self.claims@[r]@ != Map::<Seq<char>, ()>::empty()
    }

    /// No claims.
    pub fn new() -> (c: Self)
        ensures
            c.model() == Map::<Seq<char>, Set<Seq<char>>>::empty(),
    {
        let c = SceneProcessClaims { claims: StrMap::new() };
        proof {
            assert(c.model() =~= Map::<Seq<char>, Set<Seq<char>>>::empty());
        }
        c
    }

    /// `owner` claims (`active`) or releases `reason`; returns whether that
    /// changed anything.
    pub fn set(&mut self, owner: String, reason: String, active: bool) -> (changed: bool)
        ensures
            final(self).model() == claims_after_set(old(self).model(), owner@, reason@, active),
            reasons_have_owners(old(self).model()),
            reasons_have_owners(final(self).model()),
            changed == if active {
                !owners_of(old(self).model(), reason@).contains(owner@)
            } else {
                owners_of(old(self).model(), reason@).contains(owner@)
            },
    {
        proof {
            use_type_invariant(&*self);
            lemma_model_reasons_have_owners(self.claims);
        }
        let ghost m0 = self.model();
        let ghost o = owner@;
        let ghost r = reason@;
        let mut claims: StrMap<StrMap<()>> = StrMap::new();
        std::mem::swap(&mut claims, &mut self.claims);
        let ghost c0 = claims@;
        let current = claims.remove(reason.as_str());
        if active {
            let mut owners = match current {
                Some(o) => o,
                None => StrMap::new(),
            };
            let ghost before = owners@;
            let prev = owners.insert(owner, ());
            let ghost after = owners@;
            claims.insert(reason, owners);
            proof {
                assert(owner_set_of(before) == owners_of(m0, r));
                assert(after.dom() =~= before.dom().insert(o));
                assert(claims@.map_values(|m: StrMap<()>| owner_set(m)) =~= claims_after_set(m0, o, r, active));
                assert forall|k: Seq<char>| #[trigger] claims@.contains_key(k) implies claims@[k]@ != Map::<Seq<char>, ()>::empty() by {
                    if k == r {
                        assert(after.contains_key(o));
                    } else {
                        assert(c0.contains_key(k));
                    }
                }
            }
            proof {
                lemma_model_reasons_have_owners(claims);
            }
            self.claims = claims;
            prev.is_none()
        } else {
            match current {
                None => {
                    proof {
                        assert(claims@ =~= c0);
                        assert(owners_of(m0, r) == Set::<Seq<char>>::empty());
                        assert(owners_of(m0, r).remove(o) =~= Set::<Seq<char>>::empty());
                        assert(m0.remove(r) =~= m0);
                    }
                    self.claims = claims;
                    proof {
                        lemma_model_reasons_have_owners(self.claims);
                    }
                    false
                },
                Some(owners) => {
                    let mut owners = owners;
                    let ghost before = owners@;
                    let prev = owners.remove(owner.as_str());
                    let ghost after = owners@;
                    let keep = !owners.is_empty();
                    proof {
                        assert(before.dom() == owners_of(m0, r));
                        assert(after.dom() =~= before.dom().remove(o));
                        if !keep {
                            assert(after.dom() =~= Set::<Seq<char>>::empty());
                        } else if after.dom() == Set::<Seq<char>>::empty() {
                            assert(after =~= Map::<Seq<char>, ()>::empty());
                        }
                    }
                    if keep {
                        claims.insert(reason, owners);
                    }
                    proof {
                        assert(claims@.map_values(|m: StrMap<()>| owner_set(m)) =~= claims_after_set(m0, o, r, active));
                        assert forall|k: Seq<char>| #[trigger] claims@.contains_key(k) implies claims@[k]@ != Map::<Seq<char>, ()>::empty() by {
                            if k != r {
                                assert(c0.contains_key(k));
                            }
                        }
                    }
                    proof {
                        lemma_model_reasons_have_owners(claims);
                    }
                    self.claims = claims;
                    prev.is_some()
                },
            }
        }
    }

    /// Whether any reason is claimed.
    pub fn active(&self) -> (b: bool)
        ensures
            b == (self.model() != Map::<Seq<char>, Set<Seq<char>>>::empty()),
    {
        let e = self.claims.is_empty();
        proof {
            if e {
                assert(self.model() =~= Map::<Seq<char>, Set<Seq<char>>>::empty());
            } else if self.model() == Map::<Seq<char>, Set<Seq<char>>>::empty() {
                assert(self.claims@.dom() =~= self.model().dom());
                assert(self.claims@ =~= Map::<Seq<char>, StrMap<()>>::empty());
            }
        }
        !e
    }

    /// Drops every claim; returns whether there was any.
    pub fn clear(&mut self) -> (changed: bool)
        ensures
            final(self).model() == Map::<Seq<char>, Set<Seq<char>>>::empty(),
            changed == (old(self).model() != Map::<Seq<char>, Set<Seq<char>>>::empty()),
    {
        let had = self.active();
        self.claims = StrMap::new();
        proof {
            assert(self.model() =~= Map::<Seq<char>, Set<Seq<char>>>::empty());
        }
        had
    }

    /// The claimed reasons, in byte order.
    pub fn reasons(&self) -> (r: Vec<String>)
        ensures
            sorted_names(r@, self.model().dom()),
    {
        let r = self.claims.keys();
        proof {
            lemma_key_list(self.claims, r@);
            assert(self.model().dom() =~= self.claims@.dom());
        }
        r
    }

    /// For each claimed reason, its owners in byte order.
    pub fn snapshot(&self) -> (r: StrMap<Vec<String>>)
        ensures
            r@.dom() == self.model().dom(),
            forall|reason: Seq<char>| #[trigger] r@.contains_key(reason) ==> sorted_names(r@[reason]@, self.model()[reason]),
    {
        let n = self.claims.len();
        let ghost p = self.claims.pairs();
        let mut out: StrMap<Vec<String>> = StrMap::new();
        let mut i: usize = 0;
        proof {
            lemma_pairs_map(p);
        }
        while i < n
            invariant
                n == p.len(),
                p == self.claims.pairs(),
                sorted_pairs(p),
                forall|j: int| 0 <= j < p.len() ==> #[trigger] self.claims@.contains_key(p[j].0) && self.claims@[p[j].0] == p[j].1,
                i <= n,
                forall|k: Seq<char>| #[trigger] out@.contains_key(k) ==> exists|j: int| 0 <= j < i && p[j].0 == k,
                forall|j: int| 0 <= j < i ==> #[trigger] out@.contains_key(p[j].0),
                forall|j: int| 0 <= j < i ==> sorted_names(#[trigger] out@[p[j].0]@, owner_set(p[j].1)),
            decreases n - i,
        {
            let (k, owners) = self.claims.entry(i);
            let list = owners.keys();
            proof {
                lemma_key_list(*owners, list@);
            }
            let ghost before = out@;
            out.insert(k.clone(), list);
            proof {
                assert forall|j: int| 0 <= j < i + 1 implies sorted_names(#[trigger] out@[p[j].0]@, owner_set(p[j].1)) by {
                    if j < i {
                        if p[j].0 == p[i as int].0 {
                            assert(crate::text::str_lt(p[j].0, p[i as int].0));
                            crate::text::lemma_str_lt_irreflexive(p[j].0);
                        }
                    }
                }
                assert forall|kk: Seq<char>| #[trigger] out@.contains_key(kk) implies exists|j: int| 0 <= j < i + 1 && p[j].0 == kk by {
                    if kk != p[i as int].0 {
                        assert(before.contains_key(kk));
                    }
                }
            }
            i = i + 1;
        }
        proof {
            assert(out@.dom() =~= self.model().dom()) by {
                assert forall|kk: Seq<char>| out@.dom().contains(kk) <==> self.model().dom().contains(kk) by {
                    if self.claims@.contains_key(kk) {
                        let j = choose|j: int| 0 <= j < p.len() && #[trigger] p[j].0 == kk;
                        assert(out@.contains_key(p[j].0));
                    }
                }
            }
            assert forall|reason: Seq<char>| #[trigger] out@.contains_key(reason) implies sorted_names(out@[reason]@, self.model()[reason]) by {
                let j = choose|j: int| 0 <= j < i && p[j].0 == reason;
                assert(out@.contains_key(p[j].0));
            }
        }
        out
    }
}

/// A list of names in strictly increasing byte order that holds exactly the
/// names of `names`.
pub open spec fn sorted_names(list: Seq<String>, names: Set<Seq<char>>) -> bool {
    &&& list.len() == names.len()
    &&& forall|i: int| 0 <= i < list.len() ==> #[trigger] names.contains(list[i]@)
    &&& forall|i: int, j: int| 0 <= i < j < list.len() ==> crate::text::str_lt(#[trigger] list[i]@, #[trigger] list[j]@)
}

/// The keys of a map, listed in order, are its names in byte order.
proof fn lemma_key_list<V>(m: StrMap<V>, list: Seq<String>)
    requires
        sorted_pairs(m.pairs()),
        list.len() == m.pairs().len(),
        forall|j: int| 0 <= j < list.len() ==> #[trigger] list[j]@ == m.pairs()[j].0,
    ensures
        sorted_names(list, m@.dom()),
{
    lemma_pairs_map(m.pairs());
    crate::strmap::lemma_sorted_pairs_len(m.pairs());
    assert forall|i: int| 0 <= i < list.len() implies #[trigger] m@.dom().contains(list[i]@) by {
        assert(m@.contains_key(m.pairs()[i].0));
    }
    assert forall|i: int, j: int| 0 <= i < j < list.len() implies crate::text::str_lt(#[trigger] list[i]@, #[trigger] list[j]@) by {
        assert(list[i]@ == m.pairs()[i].0 && list[j]@ == m.pairs()[j].0);
    }
}

spec fn owner_set_of(m: Map<Seq<char>, ()>) -> Set<Seq<char>> {
    m.dom()
}

/// Every claimed reason has at least one owner.
pub open spec fn reasons_have_owners(m: Map<Seq<char>, Set<Seq<char>>>) -> bool {
    forall|r: Seq<char>| #[trigger] m.contains_key(r) ==> m[r] != Set::<Seq<char>>::empty()
}

proof fn lemma_model_reasons_have_owners(claims: StrMap<StrMap<()>>)
    requires
        forall|r: Seq<char>| #[trigger] claims@.contains_key(r) ==> claims@[r]@ != Map::<Seq<char>, ()>::empty(),
    ensures
        reasons_have_owners(claims@.map_values(|m: StrMap<()>| owner_set(m))),
{
    let model = claims@.map_values(|m: StrMap<()>| owner_set(m));
    assert forall|r: Seq<char>| #[trigger] model.contains_key(r) implies model[r] != Set::<Seq<char>>::empty() by {
        let m = claims@[r];
        if owner_set(m) == Set::<Seq<char>>::empty() {
            assert(m@ =~= Map::<Seq<char>, ()>::empty());
        }
    }
}

/// Claiming a reason and releasing it again gives back the claims as they
/// were, where the owner did not hold that reason before.
pub proof fn lemma_claim_then_release(m: Map<Seq<char>, Set<Seq<char>>>, owner: Seq<char>, reason: Seq<char>)
    requires
        reasons_have_owners(m),
        !owners_of(m, reason).contains(owner),
    ensures
        claims_after_set(claims_after_set(m, owner, reason, true), owner, reason, false) == m,
{
    let m1 = claims_after_set(m, owner, reason, true);
    assert(owners_of(m1, reason) == owners_of(m, reason).insert(owner));
    assert(owners_of(m1, reason).remove(owner) =~= owners_of(m, reason));
    if owners_of(m, reason) == Set::<Seq<char>>::empty() {
        assert(!m.contains_key(reason));
        assert(m1.remove(reason) =~= m);
    } else {
        assert(m.contains_key(reason));
        assert(m1.insert(reason, owners_of(m, reason)) =~= m);
    }
}

/// With several owners on one reason, one owner's release keeps the reason
/// claimed by the others.
pub proof fn lemma_claims_multi_owner(m: Map<Seq<char>, Set<Seq<char>>>, a: Seq<char>, b: Seq<char>, reason: Seq<char>)
    requires
        a != b,
    ensures
        ({
            let m2 = claims_after_set(claims_after_set(m, a, reason, true), b, reason, true);
            let m3 = claims_after_set(m2, a, reason, false);
            &&& m3.contains_key(reason)
            &&& m3[reason].contains(b)
            &&& !m3[reason].contains(a)
        }),
{
    let m1 = claims_after_set(m, a, reason, true);
    let m2 = claims_after_set(m1, b, reason, true);
    assert(owners_of(m2, reason).remove(a).contains(b));
}

// ---------------------------------------------------------------------------
// Process labels.

/// Why an owner or reason label was refused.
#[derive(Clone, Debug, PartialEq, Eq)]
pub enum ProcessLabelError {
    /// Empty, or longer than 96 bytes, once normalized.
    Length { field: String },
    /// A byte other than an ASCII letter, digit, `.`, `_`, `-`, `:` or `/`.
    UnsupportedCharacters { field: String, value: String },
}

pub open spec fn label_byte_allowed(b: u8) -> bool {
    ||| 48 <= b <= 57
    ||| 65 <= b <= 90
    ||| 97 <= b <= 122
    ||| b == 46
    ||| b == 95
    ||| b == 45
    ||| b == 58
    ||| b == 47
}

/// The normalized form of a process owner or reason label, or why it is refused.
pub open spec fn process_label(value: Seq<char>) -> Option<Seq<char>> {
    let v = normalized_key(value);
    let b = utf8_bytes(v);
    if b.len() == 0 || b.len() > 96 {
        None
    } else if exists|i: int| 0 <= i < b.len() && !label_byte_allowed(#[trigger] b[i]) {
        None
    } else {
        Some(v)
    }
}

/// Trims and lower-cases a process owner or reason label, and checks that it
/// is 1 to 96 bytes of ASCII letters, digits, `.`, `_`, `-`, `:` and `/`.
/// `field` names the label in the error.
pub fn normalize_process_label(value: &str, field: &str) -> (r: Result<String, ProcessLabelError>)
    ensures
        match process_label(value@) {
            Some(v) => r matches Ok(s) && s@ == v,
            None => r is Err,
        },
        r matches Err(e) ==> (e is Length <==> ({
            let b = utf8_bytes(normalized_key(value@));
            b.len() == 0 || b.len() > 96
        })),
        r matches Err(e) ==> match e {
            ProcessLabelError::Length { field: f } => f@ == field@,
            ProcessLabelError::UnsupportedCharacters { field: f, value: v } => f@ == field@ && v@ == normalized_key(value@),
        },
{
    let norm = normalize_key(value);
    let n = str_byte_len(norm.as_str());
    if n == 0 || n > 96 {
        return Err(ProcessLabelError::Length { field: field.to_owned() });
    }
    let bytes = norm.as_str().as_bytes();
    let mut i: usize = 0;
    while i < bytes.len()
        invariant
            bytes@ == utf8_bytes(norm@),
            norm@ == normalized_key(value@),
            1 <= bytes@.len() <= 96,
            i <= bytes@.len(),
            forall|j: int| 0 <= j < i ==> label_byte_allowed(#[trigger] bytes@[j]),
        decreases bytes@.len() - i,
    {
        let b = bytes[i];
        let ok = (b >= 48 && b <= 57) || (b >= 65 && b <= 90) || (b >= 97 && b <= 122) || b == 46 || b == 95 || b == 45
            || b == 58 || b == 47;
        if !ok {
            proof {
                assert(!label_byte_allowed(bytes@[i as int]));
            }
            return Err(ProcessLabelError::UnsupportedCharacters { field: field.to_owned(), value: norm });
        }
        i = i + 1;
    }
    Ok(norm)
}

// ---------------------------------------------------------------------------
// Descriptor types.

/// What a runtime-created entity shows.
#[derive(Clone, Copy, Debug, PartialEq, Eq, Structural)]
pub enum SceneRuntimeVisualKind {
    /// Nothing is drawn (`None` in the engine's scene data).
    NoVisual,
    Cube,
}

/// The kinds of scene lights.
#[derive(Clone, Copy, Debug, PartialEq, Eq, Structural)]
pub enum SceneLightType {
    Directional,
    Point,
    Spot,
    Area,
}

/// How a sky body (sun, moon) is drawn.
#[derive(Clone, Copy, Debug, PartialEq, Eq, Structural)]
pub enum SkyVisualKind {
    Disc,
    Billboard,
}

/// The kinds of lens-flare elements.
#[derive(Clone, Copy, Debug, PartialEq, Eq, Structural)]
pub enum LensFlareElementKind {
    Halo,
    /// A ghost reflection (`Ghost` in the engine's scene data).
    LensGhost,
    Streak,
}

/// The index width of a sky mesh.
#[derive(Clone, Copy, Debug, PartialEq, Eq, Structural)]
pub enum SkyIndexFormat {
    U16,
    U32,
}

/// A decoded sky texture: RGBA8 texels, row by row.
#[derive(Clone, Debug)]
pub struct SkyTextureResources {
    pub name: String,
    pub width: u32,
    pub height: u32,
    pub srgb: bool,
    pub rgba8: Vec<u8>,
}

/// The format label under which sky texels are uploaded.
pub open spec fn sky_format_label(srgb: bool) -> Seq<char> {
    if srgb {
        "Rgba8Srgb"@
    } else {
        "Rgba8Unorm"@
    }
}

/// How a sky texture is handed to the renderer: one mip level holding all of
/// its texels.
#[derive(Clone, Copy, Debug, PartialEq, Eq)]
pub struct SkyTextureUpload {
    pub format: &'static str,
    pub width: u32,
    pub height: u32,
    pub byte_len: u64,
}

/// Why a sky texture cannot be uploaded.
#[derive(Clone, Debug, PartialEq, Eq)]
pub enum SkyTextureError {
    /// A width or height of zero.
    ZeroExtent { name: String },
    /// Texel bytes other than four per texel.
    ByteLength { name: String, actual: usize, width: u32, height: u32, expected: usize },
}

/// Checks that a sky texture holds four bytes for each of its texels, and
/// describes its upload.
pub fn sky_texture_upload(texture: &SkyTextureResources) -> (r: Result<SkyTextureUpload, SkyTextureError>)
    requires
        texture.width * texture.height * 4 <= usize::MAX,
    ensures
        (texture.width == 0 || texture.height == 0) <==> r matches Err(SkyTextureError::ZeroExtent { name }),
        r matches Err(SkyTextureError::ZeroExtent { name }) ==> name@ == texture.name@,
        r matches Err(SkyTextureError::ByteLength { name, actual, width, height, expected }) ==> {
            &&& name@ == texture.name@
            &&& actual == texture.rgba8@.len()
            &&& width == texture.width && height == texture.height
            &&& expected == texture.width * texture.height * 4
        },
        texture.width > 0 && texture.height > 0 ==> (r is Ok <==> texture.rgba8@.len() == texture.width * texture.height * 4),
        r matches Ok(u) ==> {
            &&& u.format@ == sky_format_label(texture.srgb)
            &&& u.width == texture.width && u.height == texture.height
            &&& u.byte_len == texture.rgba8@.len()
        },
{
    if texture.width == 0 || texture.height == 0 {
        return Err(SkyTextureError::ZeroExtent { name: texture.name.clone() });
    }
    let w = texture.width as usize;
    let h = texture.height as usize;
    proof {
        assert(w * h <= w * h * 4) by (nonlinear_arith)
            requires w * h * 4 <= usize::MAX;
    }
    let expected = w * h * 4;
    let actual = texture.rgba8.len();
    if actual != expected {
        return Err(SkyTextureError::ByteLength {
            name: texture.name.clone(),
            actual,
            width: texture.width,
            height: texture.height,
            expected,
        });
    }
    let format = if texture.srgb {
        "Rgba8Srgb"
    } else {
        "Rgba8Unorm"
    };
    Ok(SkyTextureUpload { format, width: texture.width, height: texture.height, byte_len: actual as u64 })
}

/// What loading a scene produced.
#[derive(Clone, Debug)]
pub struct Scene3dLoadReport {
    pub title: String,
    pub entity_count: usize,
    pub camera_name: String,
    pub mesh_name: String,
}

} // verus!
