//! Rules of the living world that need no clock: labels and ids, the
//! population streaming policy, simulation tiers.

use vstd::prelude::*;
use crate::text::{trim_chars, trim_str, utf8_bytes, str_byte_len};

verus! {

/// The longest label, in bytes once trimmed.
pub const MAX_LABEL_BYTES: usize = 128;

/// A label is non-empty and at most 128 bytes once trimmed.
pub open spec fn valid_label_spec(value: Seq<char>) -> bool {
    let n = utf8_bytes(trim_chars(value)).len();
    0 < n && n <= 128
}

pub fn valid_label(value: &str) -> (b: bool)
    ensures
        b == valid_label_spec(value@),
{
    let t = trim_str(value);
    let n = str_byte_len(t);
    n != 0 && n <= MAX_LABEL_BYTES
}

/// An id refused as a label; `kind` names what it identifies.
#[derive(Clone, Debug, PartialEq, Eq)]
pub struct InvalidId {
    pub kind: String,
}

/// Checks that `value` is a valid label, to be used as the id of a `kind`.
pub fn validate_id(kind: &str, value: &str) -> (r: Result<(), InvalidId>)
    ensures
        r is Ok <==> valid_label_spec(value@),
        r matches Err(e) ==> e.kind@ == kind@,
{
    if valid_label(value) {
        Ok(())
    } else {
        Err(InvalidId { kind: kind.to_owned() })
    }
}

/// A checkpoint record stored under a key other than its own id.
#[derive(Clone, Copy, Debug, PartialEq, Eq, Structural)]
pub struct KeyMismatch;

/// Checks that a checkpoint map key is the id of the record stored under it.
pub fn keyed(key: &str, id: &str) -> (r: Result<(), KeyMismatch>)
    ensures
        r is Ok <==> key@ == id@,
{
    match crate::text::compare_str(key, id) {
        crate::text::KeyOrder::Equal => Ok(()),
        _ => Err(KeyMismatch),
    }
}

/// How many ambient model sets stay resident and how fast they change.
#[derive(Clone, Debug, PartialEq)]
pub struct PopulationStreamingPolicyDesc {
    pub max_resident_sets: u32,
    pub request_budget_per_tick: u32,
    pub eviction_budget_per_tick: u32,
    pub fallback_set: Option<String>,
}

/// The highest resident-set count and per-tick budget a policy may ask for.
pub const MAX_POPULATION_BUDGET: u32 = 65_536;

impl Default for PopulationStreamingPolicyDesc {
    /// 32 resident sets, 4 requests and 2 evictions per tick, no fallback.
    fn default() -> (d: Self)
        ensures
            d.max_resident_sets == 32,
            d.request_budget_per_tick == 4,
            d.eviction_budget_per_tick == 2,
            d.fallback_set is None,
    {
        PopulationStreamingPolicyDesc {
            max_resident_sets: 32,
            request_budget_per_tick: 4,
            eviction_budget_per_tick: 2,
            fallback_set: None,
        }
    }
}

impl PopulationStreamingPolicyDesc {
    /// Whether the world accepts this policy: 1 to 65536 resident sets,
    /// budgets of at most 65536, and a fallback set that is a valid label.
    pub open spec fn spec_is_valid(&self) -> bool {
        &&& 1 <= self.max_resident_sets <= 65_536
        &&& self.request_budget_per_tick <= 65_536
        &&& self.eviction_budget_per_tick <= 65_536
        &&& (self.fallback_set matches Some(id) ==> valid_label_spec(id@))
    }

    pub fn is_valid(&self) -> (b: bool)
        ensures
            b == self.spec_is_valid(),
    {
        if self.max_resident_sets == 0 || self.max_resident_sets > MAX_POPULATION_BUDGET
            || self.request_budget_per_tick > MAX_POPULATION_BUDGET
            || self.eviction_budget_per_tick > MAX_POPULATION_BUDGET {
            return false;
        }
        match &self.fallback_set {
            Some(id) => valid_label(id.as_str()),
            None => true,
        }
    }
}

/// The default policy is accepted.
pub proof fn lemma_default_population_policy_valid(d: PopulationStreamingPolicyDesc)
    requires
        d.max_resident_sets == 32,
        d.request_budget_per_tick == 4,
        d.eviction_budget_per_tick == 2,
        d.fallback_set is None,
    ensures
        d.spec_is_valid(),
{
}

/// How closely an actor is simulated, by its distance to observers.
#[derive(Clone, Copy, Debug, PartialEq, Eq, Structural)]
pub enum SimulationTier {
    Full,
    Reduced,
    Background,
}

pub open spec fn tier_name(t: SimulationTier) -> Seq<char> {
    match t {
        SimulationTier::Full => "full"@,
        SimulationTier::Reduced => "reduced"@,
        SimulationTier::Background => "background"@,
    }
}

pub open spec fn tier_rank(t: SimulationTier) -> u8 {
    match t {
        SimulationTier::Full => 0,
        SimulationTier::Reduced => 1,
        SimulationTier::Background => 2,
    }
}

/// How an actor of a tier is represented: physical, proxy or abstract.
pub open spec fn tier_representation(t: SimulationTier) -> Seq<char> {
    match t {
        SimulationTier::Full => "physical"@,
        SimulationTier::Reduced => "proxy"@,
        SimulationTier::Background => "abstract"@,
    }
}

/// Distinct tiers have distinct names and distinct representations.
pub proof fn lemma_tier_names_distinct(a: SimulationTier, b: SimulationTier)
    ensures
        tier_name(a) == tier_name(b) ==> a == b,
        tier_representation(a) == tier_representation(b) ==> a == b,
{
    reveal_strlit("full");
    reveal_strlit("reduced");
    reveal_strlit("background");
    reveal_strlit("physical");
    reveal_strlit("proxy");
    reveal_strlit("abstract");
    assert("full"@.len() == 4 && "reduced"@.len() == 7 && "background"@.len() == 10);
    assert("physical"@[0] == 'p' && "proxy"@.len() == 5 && "abstract"@[0] == 'a' && "physical"@.len() == 8);
}

impl SimulationTier {
    pub fn as_str(self) -> (r: &'static str)
        ensures
            r@ == tier_name(self),
    {
        match self {
            SimulationTier::Full => "full",
            SimulationTier::Reduced => "reduced",
            SimulationTier::Background => "background",
        }
    }

    /// 0 for the closest simulation, 2 for the coarsest.
    pub fn rank(self) -> (r: u8)
        ensures
            r == tier_rank(self),
    {
        match self {
            SimulationTier::Full => 0,
            SimulationTier::Reduced => 1,
            SimulationTier::Background => 2,
        }
    }
}

pub fn representation_for_tier(tier: SimulationTier) -> (r: &'static str)
    ensures
        r@ == tier_representation(tier),
{
    match tier {
        SimulationTier::Full => "physical",
        SimulationTier::Reduced => "proxy",
        SimulationTier::Background => "abstract",
    }
}

/// Ranks order the tiers: distinct tiers have distinct ranks.
pub proof fn lemma_tier_rank_injective(a: SimulationTier, b: SimulationTier)
    ensures
        tier_rank(a) == tier_rank(b) <==> a == b,
{
}


// ---------------------------------------------------------------------------
// Facts, event history and navigation bookkeeping.

/// The revision a fact takes when it is set: 1 for a new fact, one more than
/// before for a known one, wrapping past `u64::MAX` to 1.
pub fn next_fact_revision(previous: Option<u64>) -> (r: u64)
    ensures
        r != 0,
        r == match previous {
            None => 1,
            Some(p) => if p == u64::MAX {
                1
            } else {
                (p + 1) as u64
            },
        },
{
    match previous {
        None => 1,
        Some(p) => {
            let n = p.wrapping_add(1);
            if n < 1 {
                1
            } else {
                n
            }
        },
    }
}

/// The sequence numbers of a history are strictly increasing, start above 0
/// and stay below the next number to hand out.
pub open spec fn sequences_valid(sequences: Seq<u64>, next: u64) -> bool {
    &&& forall|i: int| 0 <= i < sequences.len() ==> 0 < #[trigger] sequences[i] && sequences[i] < next
    &&& forall|i: int, j: int| 0 <= i < j < sequences.len() ==> #[trigger] sequences[i] < #[trigger] sequences[j]
}

/// Checks the sequence numbers of a checkpointed event history.
pub fn valid_event_sequences(sequences: &[u64], next: u64) -> (b: bool)
    ensures
        b == sequences_valid(sequences@, next),
{
    let mut previous: u64 = 0;
    let mut i: usize = 0;
    while i < sequences.len()
        invariant
            i <= sequences@.len(),
            i == 0 ==> previous == 0,
            i > 0 ==> previous == sequences@[i - 1],
            forall|j: int| 0 <= j < i ==> 0 < #[trigger] sequences@[j] && sequences@[j] < next && sequences@[j] <= previous,
            forall|j: int, k: int| 0 <= j < k < i ==> #[trigger] sequences@[j] < #[trigger] sequences@[k],
        decreases sequences@.len() - i,
    {
        let s = sequences[i];
        if s <= previous || s >= next {
            proof {
                if s >= next || i == 0 {
                    assert(!(0 < sequences@[i as int] && sequences@[i as int] < next));
                } else {
                    assert(!(sequences@[i - 1] < sequences@[i as int]));
                }
            }
            return false;
        }
        previous = s;
        i = i + 1;
    }
    true
}

/// A travel route is sound: it is not empty, its next waypoint lies inside
/// it, it ends at the destination, and each of its nodes is known.
pub open spec fn route_valid(route: Seq<String>, next_waypoint: usize, destination: Seq<char>, nodes: Set<Seq<char>>) -> bool {
    &&& route.len() > 0
    &&& next_waypoint < route.len()
    &&& route.last()@ == destination
    &&& forall|i: int| 0 <= i < route.len() ==> nodes.contains(#[trigger] route[i]@)
}

/// Checks the route of a checkpointed travel record.
pub fn valid_travel_route<V>(
    route: &[String],
    next_waypoint: usize,
    destination: &str,
    nodes: &crate::strmap::StrMap<V>,
) -> (b: bool)
    ensures
        b == route_valid(route@, next_waypoint, destination@, nodes@.dom()),
{
    if route.len() == 0 || next_waypoint >= route.len() {
        return false;
    }
    if crate::text::compare_str(route[route.len() - 1].as_str(), destination) != crate::text::KeyOrder::Equal {
        return false;
    }
    let mut i: usize = 0;
    while i < route.len()
        invariant
            i <= route@.len(),
            forall|j: int| 0 <= j < i ==> nodes@.dom().contains(#[trigger] route@[j]@),
        decreases route@.len() - i,
    {
        if !nodes.contains_key(route[i].as_str()) {
            return false;
        }
        i = i + 1;
    }
    true
}

/// Why a navigation node cannot be removed.
#[derive(Clone, Copy, Debug, PartialEq, Eq, Structural)]
pub enum NavNodeInUse {
    /// An edge starts or ends at it.
    ByEdge,
    /// A travelling actor's route passes it.
    ByTravel,
}

/// Whether an edge, given by its two ends, starts or ends at `node`.
pub open spec fn edge_touches(edge: (String, String), node: Seq<char>) -> bool {
    edge.0@ == node || edge.1@ == node
}

/// Whether a route passes `node`.
pub open spec fn route_passes(route: Vec<String>, node: Seq<char>) -> bool {
    exists|j: int| 0 <= j < route@.len() && #[trigger] route@[j]@ == node
}

/// Whether a navigation node, named by its trimmed id, may be removed: no
/// edge may start or end at it, and no active route may pass it.
pub fn nav_node_removal(id: &str, edge_ends: &[(String, String)], routes: &[Vec<String>]) -> (r: Result<(), NavNodeInUse>)
    ensures
        ({
            let t = trim_chars(id@);
            let by_edge = exists|i: int| 0 <= i < edge_ends@.len() && edge_touches(#[trigger] edge_ends@[i], t);
            let by_travel = exists|i: int| 0 <= i < routes@.len() && route_passes(#[trigger] routes@[i], t);
            &&& by_edge ==> r == Err::<(), NavNodeInUse>(NavNodeInUse::ByEdge)
            &&& !by_edge && by_travel ==> r == Err::<(), NavNodeInUse>(NavNodeInUse::ByTravel)
            &&& !by_edge && !by_travel ==> r is Ok
        }),
{
    let t = trim_str(id);
    let mut i: usize = 0;
    while i < edge_ends.len()
        invariant
            t@ == trim_chars(id@),
            i <= edge_ends@.len(),
            forall|k: int| 0 <= k < i ==> !edge_touches(#[trigger] edge_ends@[k], t@),
        decreases edge_ends@.len() - i,
    {
        let e = &edge_ends[i];
        if crate::text::compare_str(e.0.as_str(), t) == crate::text::KeyOrder::Equal || crate::text::compare_str(e.1.as_str(), t)
            == crate::text::KeyOrder::Equal {
            return Err(NavNodeInUse::ByEdge);
        }
        i = i + 1;
    }
    let mut r: usize = 0;
    while r < routes.len()
        invariant
            t@ == trim_chars(id@),
            r <= routes@.len(),
            forall|k: int| 0 <= k < edge_ends@.len() ==> !edge_touches(#[trigger] edge_ends@[k], t@),
            forall|k: int| 0 <= k < r ==> !route_passes(#[trigger] routes@[k], t@),
        decreases routes@.len() - r,
    {
        let route = &routes[r];
        let mut j: usize = 0;
        while j < route.len()
            invariant
                t@ == trim_chars(id@),
                r < routes@.len(),
                *route == routes@[r as int],
                forall|k: int| 0 <= k < edge_ends@.len() ==> !edge_touches(#[trigger] edge_ends@[k], t@),
                j <= route@.len(),
                forall|jj: int| 0 <= jj < j ==> #[trigger] route@[jj]@ != t@,
            decreases route@.len() - j,
        {
            if crate::text::compare_str(route[j].as_str(), t) == crate::text::KeyOrder::Equal {
                proof {
                    assert(route_passes(routes@[r as int], t@));
                }
                return Err(NavNodeInUse::ByTravel);
            }
            j = j + 1;
        }
        r = r + 1;
    }
    Ok(())
}

} // verus!
