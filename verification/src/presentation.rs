//! How world actors are presented by scene entities: the checks on a binding,
//! and the decisions of each synchronization step (whether the actor is
//! shown, and what the scene must do to follow).

use vstd::prelude::*;
use crate::strmap::StrMap;
use crate::text::{compare_str, str_byte_len, trim_chars, trim_str, utf8_bytes, KeyOrder};

verus! {

/// The representations a binding may ask to be materialized in.
pub open spec fn known_representation(r: Seq<char>) -> bool {
    r == "physical"@ || r == "proxy"@ || r == "abstract"@
}

/// Why a presentation binding was refused.
#[derive(Clone, Copy, Debug, PartialEq, Eq, Structural)]
pub enum PresentationError {
    /// The actor id or the scene key is empty once trimmed.
    EmptyName,
    /// No representation, or one other than physical, proxy and abstract.
    Representations,
}

fn is_blank(s: &str) -> (b: bool)
    ensures
        b == (utf8_bytes(trim_chars(s@)).len() == 0),
{
    str_byte_len(trim_str(s)) == 0
}

/// Checks the names of a binding: the actor and the scene key are not blank,
/// and every representation is physical, proxy or abstract, with at least one.
pub fn validate_presentation_names(actor_id: &str, scene_key: &str, representations: &[String]) -> (r: Result<
    (),
    PresentationError,
>)
    ensures
        ({
            let blank = utf8_bytes(trim_chars(actor_id@)).len() == 0 || utf8_bytes(trim_chars(scene_key@)).len() == 0;
            let bad = representations@.len() == 0 || exists|i: int|
                0 <= i < representations@.len() && !known_representation(#[trigger] representations@[i]@);
            &&& blank ==> r == Err::<(), PresentationError>(PresentationError::EmptyName)
            &&& !blank && bad ==> r == Err::<(), PresentationError>(PresentationError::Representations)
            &&& !blank && !bad ==> r is Ok
        }),
{
    if is_blank(actor_id) || is_blank(scene_key) {
        return Err(PresentationError::EmptyName);
    }
    if representations.len() == 0 {
        return Err(PresentationError::Representations);
    }
    let mut i: usize = 0;
    while i < representations.len()
        invariant
            utf8_bytes(trim_chars(actor_id@)).len() != 0,
            utf8_bytes(trim_chars(scene_key@)).len() != 0,
            representations@.len() > 0,
            i <= representations@.len(),
            forall|j: int| 0 <= j < i ==> known_representation(#[trigger] representations@[j]@),
        decreases representations@.len() - i,
    {
        let r = representations[i].as_str();
        if !(compare_str(r, "physical") == KeyOrder::Equal || compare_str(r, "proxy") == KeyOrder::Equal || compare_str(
            r,
            "abstract",
        ) == KeyOrder::Equal) {
            proof {
                assert(!known_representation(representations@[i as int]@));
            }
            return Err(PresentationError::Representations);
        }
        i = i + 1;
    }
    Ok(())
}

/// Whether `representation` is among those a binding materializes.
pub open spec fn materializes(representations: Seq<String>, representation: Seq<char>) -> bool {
    exists|i: int| 0 <= i < representations.len() && #[trigger] representations[i]@ == representation
}

/// An actor is shown when it exists, is enabled, and its current
/// representation is one that its binding materializes. `actor` is the
/// actor's enabled flag and representation, where it exists.
pub fn presentation_active(actor: Option<(bool, &str)>, representations: &[String]) -> (b: bool)
    ensures
        b == match actor {
            Some((enabled, representation)) => enabled && materializes(representations@, representation@),
            None => false,
        },
{
    match actor {
        None => false,
        Some((enabled, representation)) => {
            if !enabled {
                return false;
            }
            let mut i: usize = 0;
            while i < representations.len()
                invariant
                    enabled,
                    actor == Some((enabled, representation)),
                    i <= representations@.len(),
                    forall|j: int| 0 <= j < i ==> #[trigger] representations@[j]@ != representation@,
                decreases representations@.len() - i,
            {
                if compare_str(representations[i].as_str(), representation) == KeyOrder::Equal {
                    proof {
                        assert(representations@[i as int]@ == representation@);
                    }
                    return true;
                }
                i = i + 1;
            }
            false
        },
    }
}

/// Whether another actor than `actor_id` already presents itself through
/// `scene_key`; `bindings` maps each bound actor to its scene key.
pub fn scene_key_taken(bindings: &StrMap<String>, actor_id: &str, scene_key: &str) -> (b: bool)
    ensures
        b == exists|a: Seq<char>| #[trigger] bindings@.contains_key(a) && a != actor_id@ && bindings@[a]@ == scene_key@,
{
    let n = bindings.len();
    let mut i: usize = 0;
    while i < n
        invariant
            n == bindings.pairs().len(),
            crate::strmap::sorted_pairs(bindings.pairs()),
            i <= n,
            forall|j: int| 0 <= j < i ==> !(#[trigger] bindings.pairs()[j].0 != actor_id@ && bindings.pairs()[j].1@ == scene_key@),
        decreases n - i,
    {
        let (actor, key) = bindings.entry(i);
        if compare_str(actor.as_str(), actor_id) != KeyOrder::Equal && compare_str(key.as_str(), scene_key) == KeyOrder::Equal {
            proof {
                crate::strmap::lemma_pairs_map(bindings.pairs());
                assert(bindings@.contains_key(bindings.pairs()[i as int].0));
            }
            return true;
        }
        i = i + 1;
    }
    proof {
        crate::strmap::lemma_pairs_map(bindings.pairs());
        assert forall|a: Seq<char>| #[trigger] bindings@.contains_key(a) implies !(a != actor_id@ && bindings@[a]@ == scene_key@) by {
            let j = choose|j: int| 0 <= j < bindings.pairs().len() && #[trigger] bindings.pairs()[j].0 == a;
            assert(bindings@[bindings.pairs()[j].0] == bindings.pairs()[j].1);
        }
    }
    false
}

/// The presentation state of one actor between synchronization steps.
#[derive(Clone, Copy, Debug, PartialEq, Eq, Structural)]
pub struct PresentationState {
    pub materialized: bool,
    pub entity_id: Option<u64>,
    pub materializations: u64,
    pub dematerializations: u64,
}

/// What the scene must do for one actor in a synchronization step.
#[derive(Clone, Copy, Debug, PartialEq, Eq, Structural)]
pub struct PresentationPlan {
    /// Hide the actor's entity.
    pub dematerialize: bool,
    /// Create (or re-create) the actor's entity.
    pub upsert: bool,
    /// Move the existing entity to the actor's position.
    pub move_entity: bool,
    /// Show the actor's entity.
    pub materialize: bool,
}

/// Decides one synchronization step for an actor: `active` says whether it
/// is shown now, `entity_exists` whether its scene entity exists, and
/// `position_changed` whether its position moved since the last step. The
/// returned state holds the counters after the step; the entity id of a new
/// entity is the runtime's to record.
pub fn presentation_step(state: PresentationState, active: bool, entity_exists: bool, position_changed: bool) -> (r: (
    PresentationPlan,
    PresentationState,
))
    requires
        state.materializations < u64::MAX,
        state.dematerializations < u64::MAX,
    ensures
        !active ==> {
            let hide = state.materialized && entity_exists;
            &&& r.0 == PresentationPlan { dematerialize: hide, upsert: false, move_entity: false, materialize: false }
            &&& r.1 == PresentationState {
                materialized: false,
                dematerializations: if hide {
                    (state.dematerializations + 1) as u64
                } else {
                    state.dematerializations
                },
                ..state
            }
        },
        active ==> {
            let upsert = state.entity_id is None || !entity_exists;
            &&& r.0 == PresentationPlan {
                dematerialize: false,
                upsert,
                move_entity: !upsert && position_changed,
                materialize: !state.materialized,
            }
            &&& r.1 == PresentationState {
                materialized: true,
                materializations: if !state.materialized {
                    (state.materializations + 1) as u64
                } else {
                    state.materializations
                },
                ..state
            }
        },
{
    if !active {
        let hide = state.materialized && entity_exists;
        let dematerializations = if hide {
            state.dematerializations + 1
        } else {
            state.dematerializations
        };
        return (
            PresentationPlan { dematerialize: hide, upsert: false, move_entity: false, materialize: false },
            PresentationState { materialized: false, dematerializations, ..state },
        );
    }
    let upsert = state.entity_id.is_none() || !entity_exists;
    let materialize = !state.materialized;
    let materializations = if materialize {
        state.materializations + 1
    } else {
        state.materializations
    };
    (
        PresentationPlan { dematerialize: false, upsert, move_entity: !upsert && position_changed, materialize },
        PresentationState { materialized: true, materializations, ..state },
    )
}

} // verus!
