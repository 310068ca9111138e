//! Reservations of scenario points by world actors: who may hold a point,
//! when a request is refused, and what removing an actor or a point frees.

use vstd::prelude::*;
use crate::reality::{counter_next, counter_text, id_or_generated};
use crate::strmap::{flagged_keys, lemma_pairs_map, StrMap};
use crate::text::{compare_str, trim_chars, trim_str, KeyOrder};
use crate::world::{valid_label_spec, validate_id, InvalidId};

verus! {

/// Who holds a reservation, and whether it keeps every other holder off the
/// point while their times overlap.
pub struct ReservationHold {
    pub point_id: String,
    pub actor_id: String,
    pub exclusive: bool,
}

/// A request to reserve a scenario point; a blank id asks for a generated one.
pub struct ReservationRequest {
    pub id: String,
    pub point_id: String,
    pub actor_id: String,
    pub exclusive: bool,
}

/// Why a reservation request is refused.
#[derive(Debug)]
pub enum ReservationError {
    /// The reservation id, the point id or the actor id is not a valid label.
    InvalidId(InvalidId),
    /// The delay, the duration or the payload is out of range.
    InvalidParameters,
    /// No scenario point has this id.
    UnknownPoint { point_id: String },
    /// No actor has this id.
    UnknownActor { actor_id: String },
    /// Another reservation of the point overlaps in time, and one of the two
    /// is exclusive.
    Conflict { point_id: String },
}

/// The first check that a request fails.
#[derive(Clone, Copy, Debug, PartialEq, Eq, Structural)]
pub enum ReservationRefusal {
    ReservationId,
    PointId,
    ActorId,
    Parameters,
    UnknownPoint,
    UnknownActor,
    Conflict,
}

/// A hold as plain values: point, actor, exclusive.
pub type HoldView = (Seq<char>, Seq<char>, bool);

/// The id a request is stored under: its own, or one generated from the
/// counter when it is blank.
pub open spec fn reservation_id(id: Seq<char>, counter: u64) -> Seq<char> {
    if trim_chars(id).len() == 0 {
        "scenario.reservation."@ + counter_text(counter)
    } else {
        id
    }
}

/// The counter after a request: it advances only when an id was generated.
pub open spec fn counter_after_request(id: Seq<char>, counter: u64) -> u64 {
    if trim_chars(id).len() == 0 {
        counter_next(counter)
    } else {
        counter
    }
}

/// Whether the reservation `k`, holding `h`, stands in the way of a request
/// for `point` under `id`: it is another reservation of the point, its time
/// overlaps the requested one, and one of the two is exclusive.
pub open spec fn hold_blocks(
    k: Seq<char>,
    h: HoldView,
    id: Seq<char>,
    point: Seq<char>,
    exclusive: bool,
    overlapping: Set<Seq<char>>,
) -> bool {
    k != id && (h.2 || exclusive) && h.0 == point && overlapping.contains(k)
}

/// Whether some stored reservation stands in the way of the request.
pub open spec fn conflicts(
    holds: Map<Seq<char>, HoldView>,
    id: Seq<char>,
    point: Seq<char>,
    exclusive: bool,
    overlapping: Set<Seq<char>>,
) -> bool {
    exists|k: Seq<char>| #[trigger] holds.contains_key(k) && hold_blocks(k, holds[k], id, point, exclusive, overlapping)
}

/// The first check a request fails, in the order they are made, or `None`
/// when it is granted.
pub open spec fn refusal(
    holds: Map<Seq<char>, HoldView>,
    id: Seq<char>,
    point: Seq<char>,
    actor: Seq<char>,
    exclusive: bool,
    parameters_valid: bool,
    points: Set<Seq<char>>,
    actors: Set<Seq<char>>,
    overlapping: Set<Seq<char>>,
) -> Option<ReservationRefusal> {
    if !valid_label_spec(id) {
        Some(ReservationRefusal::ReservationId)
    } else if !valid_label_spec(point) {
        Some(ReservationRefusal::PointId)
    } else if !valid_label_spec(actor) {
        Some(ReservationRefusal::ActorId)
    } else if !parameters_valid {
        Some(ReservationRefusal::Parameters)
    } else if !points.contains(point) {
        Some(ReservationRefusal::UnknownPoint)
    } else if !actors.contains(actor) {
        Some(ReservationRefusal::UnknownActor)
    } else if conflicts(holds, id, point, exclusive, overlapping) {
        Some(ReservationRefusal::Conflict)
    } else {
        None
    }
}

/// A request for a point that another reservation holds at an overlapping
/// time is refused whenever either of the two is exclusive: an exclusive
/// hold keeps out shared and exclusive requests alike, and an exclusive
/// request is kept out by any hold. Where every earlier check passes, the
/// refusal is the conflict.
pub proof fn lemma_exclusive_blocks(
    holds: Map<Seq<char>, HoldView>,
    other: Seq<char>,
    id: Seq<char>,
    point: Seq<char>,
    actor: Seq<char>,
    exclusive: bool,
    parameters_valid: bool,
    points: Set<Seq<char>>,
    actors: Set<Seq<char>>,
    overlapping: Set<Seq<char>>,
)
    requires
        holds.contains_key(other),
        other != id,
        holds[other].0 == point,
        holds[other].2 || exclusive,
        overlapping.contains(other),
    ensures
        refusal(holds, id, point, actor, exclusive, parameters_valid, points, actors, overlapping) is Some,
        valid_label_spec(id) && valid_label_spec(point) && valid_label_spec(actor) && parameters_valid
            && points.contains(point) && actors.contains(actor) ==> refusal(
            holds,
            id,
            point,
            actor,
            exclusive,
            parameters_valid,
            points,
            actors,
            overlapping,
        ) == Some(ReservationRefusal::Conflict),
{
    assert(hold_blocks(other, holds[other], id, point, exclusive, overlapping));
    assert(conflicts(holds, id, point, exclusive, overlapping));
}

/// The ids listed in `ids`.
pub open spec fn id_set(ids: Seq<String>) -> Set<Seq<char>> {
    Set::new(|k: Seq<char>| exists|j: int| 0 <= j < ids.len() && #[trigger] ids[j]@ == k)
}

impl ReservationError {
    /// Whether this error reports the failed check `why`.
    pub open spec fn reports(self, why: ReservationRefusal) -> bool {
        match self {
            ReservationError::InvalidId(e) => (why == ReservationRefusal::ReservationId && e.kind@
                == "world scenario reservation"@) || (why == ReservationRefusal::PointId && e.kind@
                == "world scenario reservation point"@) || (why == ReservationRefusal::ActorId && e.kind@
                == "world scenario reservation actor"@),
            ReservationError::InvalidParameters => why == ReservationRefusal::Parameters,
            ReservationError::UnknownPoint { .. } => why == ReservationRefusal::UnknownPoint,
            ReservationError::UnknownActor { .. } => why == ReservationRefusal::UnknownActor,
            ReservationError::Conflict { .. } => why == ReservationRefusal::Conflict,
        }
    }
}

/// The reservations of scenario points, by reservation id.
pub struct ScenarioReservations {
    holds: StrMap<ReservationHold>,
}

impl View for ScenarioReservations {
    type V = Map<Seq<char>, HoldView>;

    closed spec fn view(&self) -> Map<Seq<char>, HoldView> {
        self.holds@.map_values(|h: ReservationHold| (h.point_id@, h.actor_id@, h.exclusive))
    }
}

/// Whether two strings are equal.
fn same_text(a: &str, b: &str) -> (r: bool)
    ensures
        r == (a@ == b@),
{
    match compare_str(a, b) {
        KeyOrder::Equal => true,
        _ => false,
    }
}

/// Whether `id` is listed in `ids`.
fn listed(ids: &Vec<String>, id: &str) -> (r: bool)
    ensures
        r == id_set(ids@).contains(id@),
{
    let mut j: usize = 0;
    while j < ids.len()
        invariant
            j <= ids@.len(),
            forall|i: int| 0 <= i < j ==> #[trigger] ids@[i]@ != id@,
        decreases ids@.len() - j,
    {
        if same_text(ids[j].as_str(), id) {
            assert(ids@[j as int]@ == id@);
            return true;
        }
        j = j + 1;
    }
    false
}

impl ScenarioReservations {
    /// No reservations.
    pub fn new() -> (r: Self)
        ensures
            r@ == Map::<Seq<char>, HoldView>::empty(),
    {
        let r = ScenarioReservations { holds: StrMap::new() };
        assert(r@ =~= Map::<Seq<char>, HoldView>::empty());
        r
    }

    /// The number of reservations.
    pub fn len(&self) -> (n: usize)
        ensures
            n == self@.len(),
    {
        let n = self.holds.len();
        proof {
            crate::strmap::lemma_sorted_pairs_len(self.holds.pairs());
            assert(self@.dom() =~= self.holds@.dom());
        }
        n
    }

    /// Whether a reservation has this id.
    pub fn contains(&self, id: &str) -> (b: bool)
        ensures
            b == self@.contains_key(id@),
    {
        self.holds.contains_key(id)
    }

    /// The hold stored under `id`, as point, actor and exclusive.
    pub fn hold(&self, id: &str) -> (r: Option<(String, String, bool)>)
        ensures
            r is Some <==> self@.contains_key(id@),
            r matches Some(h) ==> (h.0@, h.1@, h.2) == self@[id@],
    {
        match self.holds.get(id) {
            Some(h) => Some((h.point_id.clone(), h.actor_id.clone(), h.exclusive)),
            None => None,
        }
    }

    /// Whether another overlapping reservation of the point conflicts with
    /// the request.
    fn has_conflict(&self, id: &str, point: &str, exclusive: bool, overlapping: &Vec<String>) -> (r: bool)
        ensures
            r == conflicts(self@, id@, point@, exclusive, id_set(overlapping@)),
    {
        let n = self.holds.len();
        let ghost p = self.holds.pairs();
        proof {
            lemma_pairs_map(p);
        }
        let mut i: usize = 0;
        while i < n
            invariant
                n == p.len(),
                p == self.holds.pairs(),
                i <= n,
                forall|x: int| 0 <= x < p.len() ==> #[trigger] self.holds@.contains_key(p[x].0)
                    && self.holds@[p[x].0] == p[x].1,
                forall|k: Seq<char>| #[trigger] self.holds@.contains_key(k) ==> exists|x: int| 0 <= x < p.len() && #[trigger] p[x].0 == k,
                forall|x: int| 0 <= x < i ==> !hold_blocks(
                    #[trigger] p[x].0,
                    (p[x].1.point_id@, p[x].1.actor_id@, p[x].1.exclusive),
                    id@,
                    point@,
                    exclusive,
                    id_set(overlapping@),
                ),
            decreases n - i,
        {
            let (k, h) = self.holds.entry(i);
            if !same_text(k.as_str(), id) && (h.exclusive || exclusive) && same_text(h.point_id.as_str(), point)
                && listed(overlapping, k.as_str()) {
                proof {
                    let kk = p[i as int].0;
                    assert(self@.contains_key(kk));
                }
                return true;
            }
            i = i + 1;
        }
        proof {
            if conflicts(self@, id@, point@, exclusive, id_set(overlapping@)) {
                let k = choose|k: Seq<char>|
                    #[trigger] self@.contains_key(k) && hold_blocks(k, self@[k], id@, point@, exclusive, id_set(overlapping@));
                assert(self.holds@.contains_key(k));
                let x = choose|x: int| 0 <= x < p.len() && #[trigger] p[x].0 == k;
                assert(p[x].0 == k);
            }
        }
        false
    }

    /// Reserves a scenario point for an actor. A blank id is replaced by
    /// one generated from `counter`, which then advances; the returned
    /// counter is the one to keep, whether or not the request is granted.
    /// `parameters_valid` says whether the delay, the duration and the
    /// payload are in range; `overlapping` lists the reservations whose
    /// times overlap the requested one. A granted request replaces any
    /// reservation stored under the same id.
    pub fn reserve_scenario<P, A>(
        &mut self,
        request: ReservationRequest,
        parameters_valid: bool,
        counter: u64,
        points: &StrMap<P>,
        actors: &StrMap<A>,
        overlapping: &Vec<String>,
    ) -> (r: (Result<String, ReservationError>, u64))
        ensures
            r.1 == counter_after_request(request.id@, counter),
            ({
                let id = reservation_id(request.id@, counter);
                let why = refusal(
                    old(self)@,
                    id,
                    request.point_id@,
                    request.actor_id@,
                    request.exclusive,
                    parameters_valid,
                    points@.dom(),
                    actors@.dom(),
                    id_set(overlapping@),
                );
                match r.0 {
                    Ok(s) => why is None && s@ == id && final(self)@ == old(self)@.insert(
                        id,
                        (request.point_id@, request.actor_id@, request.exclusive),
                    ),
                    Err(e) => why matches Some(w) && e.reports(w) && final(self)@ == old(self)@,
                }
            }),
            r.0 matches Err(ReservationError::UnknownPoint { point_id }) ==> point_id@ == request.point_id@,
            r.0 matches Err(ReservationError::UnknownActor { actor_id }) ==> actor_id@ == request.actor_id@,
            r.0 matches Err(ReservationError::Conflict { point_id }) ==> point_id@ == request.point_id@,
    {
        let ReservationRequest { id, point_id, actor_id, exclusive } = request;
        let (id, next) = id_or_generated(id, "scenario.reservation.", counter);
        if let Err(e) = validate_id("world scenario reservation", id.as_str()) {
            return (Err(ReservationError::InvalidId(e)), next);
        }
        if let Err(e) = validate_id("world scenario reservation point", point_id.as_str()) {
            return (Err(ReservationError::InvalidId(e)), next);
        }
        if let Err(e) = validate_id("world scenario reservation actor", actor_id.as_str()) {
            return (Err(ReservationError::InvalidId(e)), next);
        }
        if !parameters_valid {
            return (Err(ReservationError::InvalidParameters), next);
        }
        if !points.contains_key(point_id.as_str()) {
            return (Err(ReservationError::UnknownPoint { point_id }), next);
        }
        if !actors.contains_key(actor_id.as_str()) {
            return (Err(ReservationError::UnknownActor { actor_id }), next);
        }
        if self.has_conflict(id.as_str(), point_id.as_str(), exclusive, overlapping) {
            return (Err(ReservationError::Conflict { point_id }), next);
        }
        let key = id.clone();
        self.holds.insert(key, ReservationHold { point_id, actor_id, exclusive });
        proof {
            assert(self@ =~= old(self)@.insert(id@, (point_id@, actor_id@, exclusive)));
        }
        (Ok(id), next)
    }
}

impl ScenarioReservations {
    /// Releases the reservation stored under `id`, trimmed.
    pub fn release_scenario_reservation(&mut self, id: &str)
        ensures
            final(self)@ == old(self)@.remove(trim_chars(id@)),
    {
        let key = trim_str(id);
        self.holds.remove(key);
        assert(self@ =~= old(self)@.remove(trim_chars(id@)));
    }

    /// Releases every reservation held by the actor `actor_id`, trimmed, as
    /// removing the actor does; the others stay as they were.
    pub fn release_actor(&mut self, actor_id: &str)
        ensures
            final(self)@ == old(self)@.restrict(
                Set::new(|k: Seq<char>| old(self)@[k].1 != trim_chars(actor_id@)),
            ),
    {
        let actor = trim_str(actor_id);
        let n = self.holds.len();
        let ghost p = self.holds.pairs();
        proof {
            lemma_pairs_map(p);
        }
        let mut keep: Vec<bool> = Vec::new();
        let mut i: usize = 0;
        while i < n
            invariant
                n == p.len(),
                p == self.holds.pairs(),
                i <= n,
                keep@.len() == i,
                forall|x: int| 0 <= x < i ==> #[trigger] keep@[x] == (p[x].1.actor_id@ != actor@),
            decreases n - i,
        {
            let (_k, h) = self.holds.entry(i);
            keep.push(!same_text(h.actor_id.as_str(), actor));
            i = i + 1;
        }
        let ghost before = self.holds@;
        self.holds.retain_flagged(&keep);
        proof {
            let a = trim_chars(actor_id@);
            let f = flagged_keys(p, keep@, 0);
            assert forall|k: Seq<char>| #[trigger] before.contains_key(k) implies (f.contains(k) <==> before[k].actor_id@ != a) by {
                let x = choose|x: int| 0 <= x < p.len() && #[trigger] p[x].0 == k;
                if f.contains(k) {
                    let y = choose|y: int| 0 <= y < p.len() && #[trigger] p[y].0 == k && keep@[y];
                    assert(before[p[y].0] == p[y].1);
                }
                assert(before[p[x].0] == p[x].1);
            }
            assert(self@ =~= old(self)@.restrict(Set::new(|k: Seq<char>| old(self)@[k].1 != a)));
        }
    }

    /// Releases every reservation of the scenario point `point_id`, trimmed,
    /// as removing the point does; the others stay as they were.
    pub fn release_point(&mut self, point_id: &str)
        ensures
            final(self)@ == old(self)@.restrict(
                Set::new(|k: Seq<char>| old(self)@[k].0 != trim_chars(point_id@)),
            ),
    {
        let point = trim_str(point_id);
        let n = self.holds.len();
        let ghost p = self.holds.pairs();
        proof {
            lemma_pairs_map(p);
        }
        let mut keep: Vec<bool> = Vec::new();
        let mut i: usize = 0;
        while i < n
            invariant
                n == p.len(),
                p == self.holds.pairs(),
                i <= n,
                keep@.len() == i,
                forall|x: int| 0 <= x < i ==> #[trigger] keep@[x] == (p[x].1.point_id@ != point@),
            decreases n - i,
        {
            let (_k, h) = self.holds.entry(i);
            keep.push(!same_text(h.point_id.as_str(), point));
            i = i + 1;
        }
        let ghost before = self.holds@;
        self.holds.retain_flagged(&keep);
        proof {
            let a = trim_chars(point_id@);
            let f = flagged_keys(p, keep@, 0);
            assert forall|k: Seq<char>| #[trigger] before.contains_key(k) implies (f.contains(k) <==> before[k].point_id@ != a) by {
                let x = choose|x: int| 0 <= x < p.len() && #[trigger] p[x].0 == k;
                if f.contains(k) {
                    let y = choose|y: int| 0 <= y < p.len() && #[trigger] p[y].0 == k && keep@[y];
                    assert(before[p[y].0] == p[y].1);
                }
                assert(before[p[x].0] == p[x].1);
            }
            assert(self@ =~= old(self)@.restrict(Set::new(|k: Seq<char>| old(self)@[k].0 != a)));
        }
    }
}

} // verus!
