//! Validation of a living-world checkpoint before it replaces the live
//! world: every record is stored under its own id, references point at
//! records that exist, counters are live and event sequences are ordered.
//! The checks on floating-point values (times, positions, distances) and on
//! each record's own description are made by the caller and handed in as
//! flags; the order of all checks is the one the world makes.

use vstd::prelude::*;
use crate::reality::MAX_REALITY_HISTORY;
use crate::strmap::StrMap;
use crate::text::{compare_str, KeyOrder};
use crate::world::{route_valid, valid_label, valid_label_spec, valid_travel_route, PopulationStreamingPolicyDesc};

verus! {

/// The record collections of a checkpoint, in the order they are checked.
#[derive(Clone, Copy, Debug, PartialEq, Eq, Structural)]
pub enum CheckpointGroup {
    Observers,
    Actors,
    Processes,
    ScheduledEvents,
    Facts,
    PopulationChannels,
    Zones,
    ModelSets,
    ScenarioPoints,
    Relationships,
    Stimuli,
    NavNodes,
    NavEdges,
    Travel,
    Reservations,
    History,
    Pending,
}

/// The first check a checkpoint fails; `index` counts the records of the
/// group in key order.
#[derive(Clone, Copy, Debug, PartialEq, Eq, Structural)]
pub enum CheckpointError {
    /// The clock policy, the world time or the backlog is refused.
    Clock,
    /// The simulation policy is refused.
    Simulation,
    /// The population streaming policy is refused.
    StreamingPolicy,
    /// A record is stored under a key other than its own id.
    KeyMismatch { group: CheckpointGroup, index: usize },
    /// A record's own checks (its description, its times) fail.
    Record { group: CheckpointGroup, index: usize },
    /// A fact's key is not a valid label.
    FactId { index: usize },
    /// A fact has revision 0 or a payload out of bounds.
    Fact { index: usize },
    /// A navigation edge starts or ends at an unknown node.
    EdgeEndpoint { index: usize },
    /// A travel record belongs to no actor or has an unsound route.
    Route { index: usize },
    /// A reservation names an unknown actor or point, or ends before it starts.
    Reservation { index: usize },
    /// Two reservations of a point overlap where one of them is exclusive.
    ReservationOverlap,
    /// The history is too long or a counter is 0.
    CountersOrHistory,
    /// An event's sequence number is not above the previous one or not below
    /// the next one to hand out.
    EventSequence { group: CheckpointGroup, index: usize },
}

/// A record stored under a key: its own id, and whether its own checks pass.
pub struct KeyedRecord {
    pub id: String,
    pub valid: bool,
}

/// A fact stored under its key.
pub struct FactRecord {
    pub revision: u64,
    /// Its update time is a valid world time.
    pub time_ok: bool,
    /// Its value is within the payload bounds.
    pub payload_ok: bool,
}

/// A relationship rule stored under its source and target groups.
pub struct RelationshipRecord {
    pub source_key: String,
    pub target_key: String,
    pub source_group: String,
    pub target_group: String,
    pub valid: bool,
}

/// A navigation edge stored under a key.
pub struct EdgeRecord {
    pub id: String,
    pub from: String,
    pub to: String,
    pub valid: bool,
}

/// An actor's travel, stored under the actor's id.
pub struct TravelRecord {
    pub actor_id: String,
    /// The travel request and its times pass their checks.
    pub valid: bool,
    pub route: Vec<String>,
    pub next_waypoint: usize,
    pub destination: String,
    /// The distance travelled is finite and not negative.
    pub distance_ok: bool,
}

/// A scenario reservation stored under a key.
pub struct ReservationRecord {
    pub id: String,
    pub actor_id: String,
    pub point_id: String,
    /// The description and its times pass their checks.
    pub valid: bool,
    /// It ends after it starts.
    pub interval_ok: bool,
}

/// A reality event of the history or of the pending queue.
pub struct SequencedRecord {
    pub sequence: u64,
    /// Its description and its time pass their checks.
    pub valid: bool,
}

/// What a checkpoint holds, as the checks read it.
pub struct CheckpointModel {
    pub clock_ok: bool,
    pub simulation_ok: bool,
    pub streaming: PopulationStreamingPolicyDesc,
    pub observers: StrMap<KeyedRecord>,
    pub actors: StrMap<KeyedRecord>,
    pub processes: StrMap<KeyedRecord>,
    pub scheduled_events: StrMap<KeyedRecord>,
    pub facts: StrMap<FactRecord>,
    pub population_channels: StrMap<KeyedRecord>,
    pub zones: StrMap<KeyedRecord>,
    pub model_sets: StrMap<KeyedRecord>,
    pub scenario_points: StrMap<KeyedRecord>,
    pub relationships: Vec<RelationshipRecord>,
    pub stimuli: StrMap<KeyedRecord>,
    pub nav_nodes: StrMap<KeyedRecord>,
    pub nav_edges: StrMap<EdgeRecord>,
    pub travel: StrMap<TravelRecord>,
    pub reservations: StrMap<ReservationRecord>,
    /// No two reservations of a point overlap where one is exclusive.
    pub reservations_disjoint: bool,
    pub history: Vec<SequencedRecord>,
    pub pending: Vec<SequencedRecord>,
    pub next_stimulus_id: u64,
    pub next_event_id: u64,
    pub next_reality_event_id: u64,
    pub next_reality_sequence: u64,
}

/// The first failing keyed record of `p` from index `i` on.
pub open spec fn keyed_failure(p: Seq<(Seq<char>, KeyedRecord)>, group: CheckpointGroup, i: int) -> Option<
    CheckpointError,
>
    decreases p.len() - i,
{
    if i < 0 || i >= p.len() {
        None
    } else if p[i].0 != p[i].1.id@ {
        Some(CheckpointError::KeyMismatch { group, index: i as usize })
    } else if !p[i].1.valid {
        Some(CheckpointError::Record { group, index: i as usize })
    } else {
        keyed_failure(p, group, i + 1)
    }
}

/// The first failing fact of `p` from index `i` on.
pub open spec fn fact_failure(p: Seq<(Seq<char>, FactRecord)>, i: int) -> Option<CheckpointError>
    decreases p.len() - i,
{
    if i < 0 || i >= p.len() {
        None
    } else if !valid_label_spec(p[i].0) {
        Some(CheckpointError::FactId { index: i as usize })
    } else if !p[i].1.time_ok {
        Some(CheckpointError::Record { group: CheckpointGroup::Facts, index: i as usize })
    } else if p[i].1.revision == 0 || !p[i].1.payload_ok {
        Some(CheckpointError::Fact { index: i as usize })
    } else {
        fact_failure(p, i + 1)
    }
}

/// The first failing relationship of `rs` from index `i` on.
pub open spec fn relationship_failure(rs: Seq<RelationshipRecord>, i: int) -> Option<CheckpointError>
    decreases rs.len() - i,
{
    if i < 0 || i >= rs.len() {
        None
    } else if rs[i].source_key@ != rs[i].source_group@ || rs[i].target_key@ != rs[i].target_group@ {
        Some(CheckpointError::KeyMismatch { group: CheckpointGroup::Relationships, index: i as usize })
    } else if !rs[i].valid {
        Some(CheckpointError::Record { group: CheckpointGroup::Relationships, index: i as usize })
    } else {
        relationship_failure(rs, i + 1)
    }
}

/// The first failing navigation edge of `p` from index `i` on; `nodes` are
/// the keys of the navigation nodes.
pub open spec fn edge_failure(p: Seq<(Seq<char>, EdgeRecord)>, nodes: Set<Seq<char>>, i: int) -> Option<
    CheckpointError,
>
    decreases p.len() - i,
{
    if i < 0 || i >= p.len() {
        None
    } else if p[i].0 != p[i].1.id@ {
        Some(CheckpointError::KeyMismatch { group: CheckpointGroup::NavEdges, index: i as usize })
    } else if !p[i].1.valid {
        Some(CheckpointError::Record { group: CheckpointGroup::NavEdges, index: i as usize })
    } else if !nodes.contains(p[i].1.from@) || !nodes.contains(p[i].1.to@) {
        Some(CheckpointError::EdgeEndpoint { index: i as usize })
    } else {
        edge_failure(p, nodes, i + 1)
    }
}

/// The first failing travel record of `p` from index `i` on.
pub open spec fn travel_failure(
    p: Seq<(Seq<char>, TravelRecord)>,
    actors: Set<Seq<char>>,
    nodes: Set<Seq<char>>,
    i: int,
) -> Option<CheckpointError>
    decreases p.len() - i,
{
    if i < 0 || i >= p.len() {
        None
    } else if p[i].0 != p[i].1.actor_id@ {
        Some(CheckpointError::KeyMismatch { group: CheckpointGroup::Travel, index: i as usize })
    } else if !p[i].1.valid {
        Some(CheckpointError::Record { group: CheckpointGroup::Travel, index: i as usize })
    } else if !actors.contains(p[i].0) || !route_valid(
        p[i].1.route@,
        p[i].1.next_waypoint,
        p[i].1.destination@,
        nodes,
    ) || !p[i].1.distance_ok {
        Some(CheckpointError::Route { index: i as usize })
    } else {
        travel_failure(p, actors, nodes, i + 1)
    }
}

/// The first failing reservation of `p` from index `i` on.
pub open spec fn reservation_failure(
    p: Seq<(Seq<char>, ReservationRecord)>,
    actors: Set<Seq<char>>,
    points: Set<Seq<char>>,
    i: int,
) -> Option<CheckpointError>
    decreases p.len() - i,
{
    if i < 0 || i >= p.len() {
        None
    } else if p[i].0 != p[i].1.id@ {
        Some(CheckpointError::KeyMismatch { group: CheckpointGroup::Reservations, index: i as usize })
    } else if !p[i].1.valid {
        Some(CheckpointError::Record { group: CheckpointGroup::Reservations, index: i as usize })
    } else if !actors.contains(p[i].1.actor_id@) || !points.contains(p[i].1.point_id@) || !p[i].1.interval_ok {
        Some(CheckpointError::Reservation { index: i as usize })
    } else {
        reservation_failure(p, actors, points, i + 1)
    }
}

/// The first failing event of `rs` from index `i` on, `previous` being the
/// sequence number of the event before it (0 before the first).
pub open spec fn sequence_failure(rs: Seq<SequencedRecord>, group: CheckpointGroup, next: u64, i: int, previous: u64) -> Option<
    CheckpointError,
>
    decreases rs.len() - i,
{
    if i < 0 || i >= rs.len() {
        None
    } else if !rs[i].valid {
        Some(CheckpointError::Record { group, index: i as usize })
    } else if rs[i].sequence <= previous || rs[i].sequence >= next {
        Some(CheckpointError::EventSequence { group, index: i as usize })
    } else {
        sequence_failure(rs, group, next, i + 1, rs[i].sequence)
    }
}

/// `first` where it names a failure, else `rest`.
pub open spec fn or_then(first: Option<CheckpointError>, rest: Result<(), CheckpointError>) -> Result<(), CheckpointError> {
    match first {
        Some(e) => Err(e),
        None => rest,
    }
}

/// Whether the history size and the counters are acceptable.
pub open spec fn counters_ok(c: CheckpointModel) -> bool {
    &&& c.history@.len() <= MAX_REALITY_HISTORY
    &&& c.next_stimulus_id != 0
    &&& c.next_event_id != 0
    &&& c.next_reality_event_id != 0
    &&& c.next_reality_sequence != 0
}

/// The outcome of validating a checkpoint: its first failing check, in the
/// order the world checks them, or `Ok`.
pub open spec fn checkpoint_check(c: CheckpointModel) -> Result<(), CheckpointError> {
    if !c.clock_ok {
        Err(CheckpointError::Clock)
    } else if !c.simulation_ok {
        Err(CheckpointError::Simulation)
    } else if !c.streaming.spec_is_valid() {
        Err(CheckpointError::StreamingPolicy)
    } else {
        or_then(keyed_failure(c.observers.pairs(), CheckpointGroup::Observers, 0),
        or_then(keyed_failure(c.actors.pairs(), CheckpointGroup::Actors, 0),
        or_then(keyed_failure(c.processes.pairs(), CheckpointGroup::Processes, 0),
        or_then(keyed_failure(c.scheduled_events.pairs(), CheckpointGroup::ScheduledEvents, 0),
        or_then(fact_failure(c.facts.pairs(), 0),
        or_then(keyed_failure(c.population_channels.pairs(), CheckpointGroup::PopulationChannels, 0),
        or_then(keyed_failure(c.zones.pairs(), CheckpointGroup::Zones, 0),
        or_then(keyed_failure(c.model_sets.pairs(), CheckpointGroup::ModelSets, 0),
        or_then(keyed_failure(c.scenario_points.pairs(), CheckpointGroup::ScenarioPoints, 0),
        or_then(relationship_failure(c.relationships@, 0),
        or_then(keyed_failure(c.stimuli.pairs(), CheckpointGroup::Stimuli, 0),
        or_then(keyed_failure(c.nav_nodes.pairs(), CheckpointGroup::NavNodes, 0),
        or_then(edge_failure(c.nav_edges.pairs(), c.nav_nodes@.dom(), 0),
        or_then(travel_failure(c.travel.pairs(), c.actors@.dom(), c.nav_nodes@.dom(), 0),
        or_then(reservation_failure(c.reservations.pairs(), c.actors@.dom(), c.scenario_points@.dom(), 0),
        if !c.reservations_disjoint {
            Err(CheckpointError::ReservationOverlap)
        } else if !counters_ok(c) {
            Err(CheckpointError::CountersOrHistory)
        } else {
            or_then(sequence_failure(c.history@, CheckpointGroup::History, c.next_reality_sequence, 0, 0),
            or_then(sequence_failure(c.pending@, CheckpointGroup::Pending, c.next_reality_sequence, 0, 0),
            Ok(())))
        })))))))))))))))
    }
}

/// Whether two strings are equal.
fn same_text(a: &str, b: &str) -> (r: bool)
    ensures
        r == (a@ == b@),
{
    match compare_str(a, b) {
        KeyOrder::Equal => true,
        _ => false,
    }
}

fn check_keyed(m: &StrMap<KeyedRecord>, group: CheckpointGroup) -> (r: Option<CheckpointError>)
    ensures
        r == keyed_failure(m.pairs(), group, 0),
{
    let n = m.len();
    let ghost p = m.pairs();
    let mut i: usize = 0;
    while i < n
        invariant
            p == m.pairs(),
            n == p.len(),
            i <= n,
            keyed_failure(p, group, 0) == keyed_failure(p, group, i as int),
        decreases n - i,
    {
        let (k, r) = m.entry(i);
        if !same_text(k.as_str(), r.id.as_str()) {
            return Some(CheckpointError::KeyMismatch { group, index: i });
        }
        if !r.valid {
            return Some(CheckpointError::Record { group, index: i });
        }
        i = i + 1;
    }
    None
}

fn check_facts(m: &StrMap<FactRecord>) -> (r: Option<CheckpointError>)
    ensures
        r == fact_failure(m.pairs(), 0),
{
    let n = m.len();
    let ghost p = m.pairs();
    let mut i: usize = 0;
    while i < n
        invariant
            p == m.pairs(),
            n == p.len(),
            i <= n,
            fact_failure(p, 0) == fact_failure(p, i as int),
        decreases n - i,
    {
        let (k, r) = m.entry(i);
        if !valid_label(k.as_str()) {
            return Some(CheckpointError::FactId { index: i });
        }
        if !r.time_ok {
            return Some(CheckpointError::Record { group: CheckpointGroup::Facts, index: i });
        }
        if r.revision == 0 || !r.payload_ok {
            return Some(CheckpointError::Fact { index: i });
        }
        i = i + 1;
    }
    None
}

fn check_relationships(rs: &Vec<RelationshipRecord>) -> (r: Option<CheckpointError>)
    ensures
        r == relationship_failure(rs@, 0),
{
    let mut i: usize = 0;
    while i < rs.len()
        invariant
            i <= rs@.len(),
            relationship_failure(rs@, 0) == relationship_failure(rs@, i as int),
        decreases rs@.len() - i,
    {
        let r = &rs[i];
        if !same_text(r.source_key.as_str(), r.source_group.as_str()) || !same_text(
            r.target_key.as_str(),
            r.target_group.as_str(),
        ) {
            return Some(CheckpointError::KeyMismatch { group: CheckpointGroup::Relationships, index: i });
        }
        if !r.valid {
            return Some(CheckpointError::Record { group: CheckpointGroup::Relationships, index: i });
        }
        i = i + 1;
    }
    None
}

fn check_edges(m: &StrMap<EdgeRecord>, nodes: &StrMap<KeyedRecord>) -> (r: Option<CheckpointError>)
    ensures
        r == edge_failure(m.pairs(), nodes@.dom(), 0),
{
    let n = m.len();
    let ghost p = m.pairs();
    let mut i: usize = 0;
    while i < n
        invariant
            p == m.pairs(),
            n == p.len(),
            i <= n,
            edge_failure(p, nodes@.dom(), 0) == edge_failure(p, nodes@.dom(), i as int),
        decreases n - i,
    {
        let (k, r) = m.entry(i);
        if !same_text(k.as_str(), r.id.as_str()) {
            return Some(CheckpointError::KeyMismatch { group: CheckpointGroup::NavEdges, index: i });
        }
        if !r.valid {
            return Some(CheckpointError::Record { group: CheckpointGroup::NavEdges, index: i });
        }
        if !nodes.contains_key(r.from.as_str()) || !nodes.contains_key(r.to.as_str()) {
            return Some(CheckpointError::EdgeEndpoint { index: i });
        }
        i = i + 1;
    }
    None
}

fn check_travel(m: &StrMap<TravelRecord>, actors: &StrMap<KeyedRecord>, nodes: &StrMap<KeyedRecord>) -> (r: Option<
    CheckpointError,
>)
    ensures
        r == travel_failure(m.pairs(), actors@.dom(), nodes@.dom(), 0),
{
    let n = m.len();
    let ghost p = m.pairs();
    let mut i: usize = 0;
    while i < n
        invariant
            p == m.pairs(),
            n == p.len(),
            i <= n,
            travel_failure(p, actors@.dom(), nodes@.dom(), 0) == travel_failure(p, actors@.dom(), nodes@.dom(), i as int),
        decreases n - i,
    {
        let (k, r) = m.entry(i);
        if !same_text(k.as_str(), r.actor_id.as_str()) {
            return Some(CheckpointError::KeyMismatch { group: CheckpointGroup::Travel, index: i });
        }
        if !r.valid {
            return Some(CheckpointError::Record { group: CheckpointGroup::Travel, index: i });
        }
        if !actors.contains_key(k.as_str()) || !valid_travel_route(
            r.route.as_slice(),
            r.next_waypoint,
            r.destination.as_str(),
            nodes,
        ) || !r.distance_ok {
            return Some(CheckpointError::Route { index: i });
        }
        i = i + 1;
    }
    None
}

fn check_reservations(m: &StrMap<ReservationRecord>, actors: &StrMap<KeyedRecord>, points: &StrMap<KeyedRecord>) -> (r:
    Option<CheckpointError>)
    ensures
        r == reservation_failure(m.pairs(), actors@.dom(), points@.dom(), 0),
{
    let n = m.len();
    let ghost p = m.pairs();
    let mut i: usize = 0;
    while i < n
        invariant
            p == m.pairs(),
            n == p.len(),
            i <= n,
            reservation_failure(p, actors@.dom(), points@.dom(), 0) == reservation_failure(
                p,
                actors@.dom(),
                points@.dom(),
                i as int,
            ),
        decreases n - i,
    {
        let (k, r) = m.entry(i);
        if !same_text(k.as_str(), r.id.as_str()) {
            return Some(CheckpointError::KeyMismatch { group: CheckpointGroup::Reservations, index: i });
        }
        if !r.valid {
            return Some(CheckpointError::Record { group: CheckpointGroup::Reservations, index: i });
        }
        if !actors.contains_key(r.actor_id.as_str()) || !points.contains_key(r.point_id.as_str()) || !r.interval_ok {
            return Some(CheckpointError::Reservation { index: i });
        }
        i = i + 1;
    }
    None
}

fn check_sequences(rs: &Vec<SequencedRecord>, group: CheckpointGroup, next: u64) -> (r: Option<CheckpointError>)
    ensures
        r == sequence_failure(rs@, group, next, 0, 0),
{
    let mut previous: u64 = 0;
    let mut i: usize = 0;
    while i < rs.len()
        invariant
            i <= rs@.len(),
            sequence_failure(rs@, group, next, 0, 0) == sequence_failure(rs@, group, next, i as int, previous),
        decreases rs@.len() - i,
    {
        let r = &rs[i];
        if !r.valid {
            return Some(CheckpointError::Record { group, index: i });
        }
        if r.sequence <= previous || r.sequence >= next {
            return Some(CheckpointError::EventSequence { group, index: i });
        }
        previous = r.sequence;
        i = i + 1;
    }
    None
}

/// Validates a checkpoint before it replaces the live world, and names its
/// first failing check.
pub fn validate_checkpoint(c: &CheckpointModel) -> (r: Result<(), CheckpointError>)
    ensures
        r == checkpoint_check(*c),
{
    if !c.clock_ok {
        return Err(CheckpointError::Clock);
    }
    if !c.simulation_ok {
        return Err(CheckpointError::Simulation);
    }
    if !c.streaming.is_valid() {
        return Err(CheckpointError::StreamingPolicy);
    }
    if let Some(e) = check_keyed(&c.observers, CheckpointGroup::Observers) {
        return Err(e);
    }
    if let Some(e) = check_keyed(&c.actors, CheckpointGroup::Actors) {
        return Err(e);
    }
    if let Some(e) = check_keyed(&c.processes, CheckpointGroup::Processes) {
        return Err(e);
    }
    if let Some(e) = check_keyed(&c.scheduled_events, CheckpointGroup::ScheduledEvents) {
        return Err(e);
    }
    if let Some(e) = check_facts(&c.facts) {
        return Err(e);
    }
    if let Some(e) = check_keyed(&c.population_channels, CheckpointGroup::PopulationChannels) {
        return Err(e);
    }
    if let Some(e) = check_keyed(&c.zones, CheckpointGroup::Zones) {
        return Err(e);
    }
    if let Some(e) = check_keyed(&c.model_sets, CheckpointGroup::ModelSets) {
        return Err(e);
    }
    if let Some(e) = check_keyed(&c.scenario_points, CheckpointGroup::ScenarioPoints) {
        return Err(e);
    }
    if let Some(e) = check_relationships(&c.relationships) {
        return Err(e);
    }
    if let Some(e) = check_keyed(&c.stimuli, CheckpointGroup::Stimuli) {
        return Err(e);
    }
    if let Some(e) = check_keyed(&c.nav_nodes, CheckpointGroup::NavNodes) {
        return Err(e);
    }
    if let Some(e) = check_edges(&c.nav_edges, &c.nav_nodes) {
        return Err(e);
    }
    if let Some(e) = check_travel(&c.travel, &c.actors, &c.nav_nodes) {
        return Err(e);
    }
    if let Some(e) = check_reservations(&c.reservations, &c.actors, &c.scenario_points) {
        return Err(e);
    }
    if !c.reservations_disjoint {
        return Err(CheckpointError::ReservationOverlap);
    }
    if c.history.len() > MAX_REALITY_HISTORY || c.next_stimulus_id == 0 || c.next_event_id == 0
        || c.next_reality_event_id == 0 || c.next_reality_sequence == 0 {
        return Err(CheckpointError::CountersOrHistory);
    }
    if let Some(e) = check_sequences(&c.history, CheckpointGroup::History, c.next_reality_sequence) {
        return Err(e);
    }
    if let Some(e) = check_sequences(&c.pending, CheckpointGroup::Pending, c.next_reality_sequence) {
        return Err(e);
    }
    Ok(())
}


proof fn lemma_keyed_ok(p: Seq<(Seq<char>, KeyedRecord)>, group: CheckpointGroup, i: int)
    requires
        0 <= i,
        keyed_failure(p, group, i) is None,
    ensures
        forall|j: int| i <= j < p.len() ==> (#[trigger] p[j]).0 == p[j].1.id@ && p[j].1.valid,
    decreases p.len() - i,
{
    if i < p.len() {
        assert(p[i].0 == p[i].1.id@ && p[i].1.valid);
        lemma_keyed_ok(p, group, i + 1);
    }
}

proof fn lemma_facts_ok(p: Seq<(Seq<char>, FactRecord)>, i: int)
    requires
        0 <= i,
        fact_failure(p, i) is None,
    ensures
        forall|j: int| i <= j < p.len() ==> valid_label_spec((#[trigger] p[j]).0) && p[j].1.time_ok && p[j].1.revision != 0
            && p[j].1.payload_ok,
    decreases p.len() - i,
{
    if i < p.len() {
        lemma_facts_ok(p, i + 1);
    }
}

proof fn lemma_relationships_ok(rs: Seq<RelationshipRecord>, i: int)
    requires
        0 <= i,
        relationship_failure(rs, i) is None,
    ensures
        forall|j: int| i <= j < rs.len() ==> (#[trigger] rs[j]).source_key@ == rs[j].source_group@ && rs[j].target_key@
            == rs[j].target_group@ && rs[j].valid,
    decreases rs.len() - i,
{
    if i < rs.len() {
        lemma_relationships_ok(rs, i + 1);
    }
}

proof fn lemma_edges_ok(p: Seq<(Seq<char>, EdgeRecord)>, nodes: Set<Seq<char>>, i: int)
    requires
        0 <= i,
        edge_failure(p, nodes, i) is None,
    ensures
        forall|j: int| i <= j < p.len() ==> (#[trigger] p[j]).0 == p[j].1.id@ && p[j].1.valid && nodes.contains(p[j].1.from@)
            && nodes.contains(p[j].1.to@),
    decreases p.len() - i,
{
    if i < p.len() {
        lemma_edges_ok(p, nodes, i + 1);
    }
}

proof fn lemma_travel_ok(p: Seq<(Seq<char>, TravelRecord)>, actors: Set<Seq<char>>, nodes: Set<Seq<char>>, i: int)
    requires
        0 <= i,
        travel_failure(p, actors, nodes, i) is None,
    ensures
        forall|j: int| i <= j < p.len() ==> (#[trigger] p[j]).0 == p[j].1.actor_id@ && p[j].1.valid && actors.contains(p[j].0)
            && route_valid(p[j].1.route@, p[j].1.next_waypoint, p[j].1.destination@, nodes) && p[j].1.distance_ok,
    decreases p.len() - i,
{
    if i < p.len() {
        lemma_travel_ok(p, actors, nodes, i + 1);
    }
}

proof fn lemma_reservations_ok(p: Seq<(Seq<char>, ReservationRecord)>, actors: Set<Seq<char>>, points: Set<Seq<char>>, i: int)
    requires
        0 <= i,
        reservation_failure(p, actors, points, i) is None,
    ensures
        forall|j: int| i <= j < p.len() ==> (#[trigger] p[j]).0 == p[j].1.id@ && p[j].1.valid && actors.contains(p[j].1.actor_id@)
            && points.contains(p[j].1.point_id@) && p[j].1.interval_ok,
    decreases p.len() - i,
{
    if i < p.len() {
        lemma_reservations_ok(p, actors, points, i + 1);
    }
}

proof fn lemma_sequences_ok(rs: Seq<SequencedRecord>, group: CheckpointGroup, next: u64, i: int, previous: u64)
    requires
        0 <= i,
        sequence_failure(rs, group, next, i, previous) is None,
    ensures
        forall|j: int| i <= j < rs.len() ==> (#[trigger] rs[j]).valid && rs[j].sequence < next,
        i < rs.len() ==> previous < rs[i].sequence,
        forall|j: int, k: int| i <= j < k < rs.len() ==> (#[trigger] rs[j]).sequence < (#[trigger] rs[k]).sequence,
    decreases rs.len() - i,
{
    if i < rs.len() {
        lemma_sequences_ok(rs, group, next, i + 1, rs[i].sequence);
        assert forall|j: int, k: int| i <= j < k < rs.len() implies (#[trigger] rs[j]).sequence < (#[trigger] rs[k]).sequence by {
            if j == i && k > i + 1 {
                assert(rs[i].sequence < rs[i + 1].sequence);
                assert(rs[i + 1].sequence < rs[k].sequence);
            }
        }
    }
}

/// A checkpoint that passes validation is sound throughout: its policies
/// are accepted; every record is stored under its own id and passes its own
/// checks; every fact has a label key, a revision and a bounded payload;
/// every navigation edge joins two navigation nodes; every travel belongs to
/// an actor and follows a sound route; every reservation is held by an
/// actor of the checkpoint, at one of its scenario points, and ends after
/// it starts; no two reservations overlap where one is exclusive; the
/// history fits and the counters are live; and the sequence numbers of the
/// history and of the pending events rise strictly, from above 0 to below
/// the next number.
pub proof fn lemma_accepted_checkpoint_is_sound(c: CheckpointModel)
    requires
        checkpoint_check(c) is Ok,
    ensures
        c.clock_ok && c.simulation_ok && c.streaming.spec_is_valid(),
        forall|j: int| 0 <= j < c.actors.pairs().len() ==> #[trigger] c.actors.pairs()[j].0 == c.actors.pairs()[j].1.id@
            && c.actors.pairs()[j].1.valid,
        forall|j: int| 0 <= j < c.scenario_points.pairs().len() ==> #[trigger] c.scenario_points.pairs()[j].0
            == c.scenario_points.pairs()[j].1.id@ && c.scenario_points.pairs()[j].1.valid,
        forall|j: int| 0 <= j < c.nav_nodes.pairs().len() ==> #[trigger] c.nav_nodes.pairs()[j].0
            == c.nav_nodes.pairs()[j].1.id@ && c.nav_nodes.pairs()[j].1.valid,
        forall|j: int| 0 <= j < c.facts.pairs().len() ==> valid_label_spec(#[trigger] c.facts.pairs()[j].0)
            && c.facts.pairs()[j].1.time_ok && c.facts.pairs()[j].1.revision != 0 && c.facts.pairs()[j].1.payload_ok,
        forall|j: int| 0 <= j < c.relationships@.len() ==> #[trigger] c.relationships@[j].source_key@
            == c.relationships@[j].source_group@ && c.relationships@[j].target_key@ == c.relationships@[j].target_group@,
        forall|j: int| 0 <= j < c.nav_edges.pairs().len() ==> c.nav_nodes@.contains_key(
            (#[trigger] c.nav_edges.pairs()[j]).1.from@,
        ) && c.nav_nodes@.contains_key(c.nav_edges.pairs()[j].1.to@),
        forall|j: int| 0 <= j < c.travel.pairs().len() ==> c.actors@.contains_key((#[trigger] c.travel.pairs()[j]).0)
            && c.travel.pairs()[j].0 == c.travel.pairs()[j].1.actor_id@ && route_valid(
            c.travel.pairs()[j].1.route@,
            c.travel.pairs()[j].1.next_waypoint,
            c.travel.pairs()[j].1.destination@,
            c.nav_nodes@.dom(),
        ) && c.travel.pairs()[j].1.distance_ok,
        forall|j: int| 0 <= j < c.reservations.pairs().len() ==> c.actors@.contains_key(
            (#[trigger] c.reservations.pairs()[j]).1.actor_id@,
        ) && c.scenario_points@.contains_key(c.reservations.pairs()[j].1.point_id@)
            && c.reservations.pairs()[j].1.interval_ok && c.reservations.pairs()[j].0 == c.reservations.pairs()[j].1.id@,
        c.reservations_disjoint,
        c.history@.len() <= MAX_REALITY_HISTORY && c.next_stimulus_id != 0 && c.next_event_id != 0
            && c.next_reality_event_id != 0 && c.next_reality_sequence != 0,
        forall|j: int| 0 <= j < c.history@.len() ==> 0 < (#[trigger] c.history@[j]).sequence && c.history@[j].sequence
            < c.next_reality_sequence,
        forall|j: int, k: int| 0 <= j < k < c.history@.len() ==> (#[trigger] c.history@[j]).sequence
            < (#[trigger] c.history@[k]).sequence,
        forall|j: int| 0 <= j < c.pending@.len() ==> 0 < (#[trigger] c.pending@[j]).sequence && c.pending@[j].sequence
            < c.next_reality_sequence,
        forall|j: int, k: int| 0 <= j < k < c.pending@.len() ==> (#[trigger] c.pending@[j]).sequence
            < (#[trigger] c.pending@[k]).sequence,
{
    lemma_keyed_ok(c.actors.pairs(), CheckpointGroup::Actors, 0);
    lemma_keyed_ok(c.scenario_points.pairs(), CheckpointGroup::ScenarioPoints, 0);
    lemma_keyed_ok(c.nav_nodes.pairs(), CheckpointGroup::NavNodes, 0);
    lemma_facts_ok(c.facts.pairs(), 0);
    lemma_relationships_ok(c.relationships@, 0);
    lemma_edges_ok(c.nav_edges.pairs(), c.nav_nodes@.dom(), 0);
    lemma_travel_ok(c.travel.pairs(), c.actors@.dom(), c.nav_nodes@.dom(), 0);
    lemma_reservations_ok(c.reservations.pairs(), c.actors@.dom(), c.scenario_points@.dom(), 0);
    lemma_sequences_ok(c.history@, CheckpointGroup::History, c.next_reality_sequence, 0, 0);
    lemma_sequences_ok(c.pending@, CheckpointGroup::Pending, c.next_reality_sequence, 0, 0);
    assert forall|j: int| 0 <= j < c.history@.len() implies 0 < (#[trigger] c.history@[j]).sequence by {
        if j > 0 {
            assert(c.history@[0].sequence < c.history@[j].sequence);
        }
    }
    assert forall|j: int| 0 <= j < c.pending@.len() implies 0 < (#[trigger] c.pending@[j]).sequence by {
        if j > 0 {
            assert(c.pending@[0].sequence < c.pending@[j].sequence);
        }
    }
}
} // verus!
