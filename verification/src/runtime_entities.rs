//! The decisions of creating or updating a runtime entity of the scene by
//! its key: which checks refuse it, which entity it updates, which render
//! slot it draws from, and whether its asset must be loaded again.
//! Positions, scales and colours are floating point and are checked and
//! applied by the renderer; the checks on them reach this module as one
//! flag.

use vstd::prelude::*;
use crate::scene::SceneRuntimeVisualKind;
use crate::scene::{SceneProcessClaims, VisibilityMask};
use crate::scene_world::{
    named_live, same_state, taken_over, SceneEntityRecord, SceneLedger, SceneLifecycle, SceneMobility, SceneResidency, SceneWorldError,
};
use crate::strmap::StrMap;
use crate::text::{str_byte_len, trim_chars, trim_str, utf8_bytes};

verus! {

/// The longest asset reference a runtime entity may name, in bytes.
pub const MAX_ASSET_REF_BYTES: usize = 2048;

/// An asset reference that is blank once trimmed, or too long.
pub open spec fn asset_ref_invalid(a: Seq<char>) -> bool {
    trim_chars(a).len() == 0 || utf8_bytes(a).len() > MAX_ASSET_REF_BYTES
}

/// Why a runtime entity was refused.
#[derive(Clone, Debug, PartialEq, Eq)]
pub enum RuntimeEntityError {
    /// The key is blank once trimmed.
    EmptyKey,
    /// A position, rotation, scale, bound, colour or distance is out of range.
    InvalidParameters,
    /// The asset reference is blank or longer than its limit.
    InvalidAssetRef,
    /// A cube visual and an asset reference were both given.
    CubeWithAsset,
    /// An entity of another kind already bears the key.
    NotDynamic { key: String },
    /// Every cube slot of the renderer is taken.
    CubeCapacity { capacity: usize },
}

/// The entity that already bears a key, as the scene knows it.
#[derive(Clone, Debug)]
pub struct ExistingRuntimeEntity {
    pub id: u64,
    /// Whether it is a dynamic entity or of unknown kind, which an upsert
    /// may take over.
    pub replaceable: bool,
    pub render_slot: Option<usize>,
    pub asset_ref: Option<String>,
}

/// What the scene does for an accepted upsert.
#[derive(Clone, Copy, Debug, PartialEq, Eq, Structural)]
pub struct RuntimeEntityPlan {
    /// The slot the entity draws from; a new cube goes to the slot after the
    /// last cube.
    pub render_slot: Option<usize>,
    /// Whether a new cube is appended for it.
    pub new_cube: bool,
    /// The residency it takes; `None` keeps the current one.
    pub residency: Option<SceneResidency>,
}

/// The residency an upsert gives an entity: one with a cube or without an
/// asset is resident; a new entity with an asset, or an existing one whose
/// asset changed, must load it; an existing one keeps its state otherwise.
pub open spec fn upsert_residency(
    visual: SceneRuntimeVisualKind,
    asset_ref: Option<Seq<char>>,
    previous_asset: Option<Option<Seq<char>>>,
) -> Option<SceneResidency> {
    if visual == SceneRuntimeVisualKind::Cube || asset_ref is None {
        Some(SceneResidency::Resident)
    } else {
        match previous_asset {
            None => Some(SceneResidency::Unloaded),
            Some(previous) => if previous != asset_ref {
                Some(SceneResidency::Unloaded)
            } else {
                None
            },
        }
    }
}

/// The entity bearing a key, as an upsert reads it: its render slot and
/// its asset reference.
pub open spec fn existing_view(existing: Option<&ExistingRuntimeEntity>) -> Option<(Option<usize>, Option<Seq<char>>)> {
    match existing {
        Some(e) => Some((e.render_slot, stored_asset_view(e.asset_ref))),
        None => None,
    }
}

/// The plan of an accepted upsert: a cube visual without a slot gets the
/// slot after the last cube, anything else keeps its slot; the residency is
/// `upsert_residency`.
pub open spec fn upsert_plan(
    visual: SceneRuntimeVisualKind,
    asset: Option<Seq<char>>,
    existing: Option<(Option<usize>, Option<Seq<char>>)>,
    cube_count: usize,
) -> RuntimeEntityPlan {
    let needs_cube = visual == SceneRuntimeVisualKind::Cube && match existing {
        Some(e) => e.0 is None,
        None => true,
    };
    RuntimeEntityPlan {
        render_slot: if needs_cube {
            Some(cube_count)
        } else {
            match existing {
                Some(e) => e.0,
                None => None,
            }
        },
        new_cube: needs_cube,
        residency: upsert_residency(
            visual,
            asset,
            match existing {
                Some(e) => Some(e.1),
                None => None,
            },
        ),
    }
}

/// Upserting an entity a second time with the same visual and asset, once
/// the first upsert is applied (the entity has the slot and the asset the
/// first plan gave it), appends no cube, keeps the render slot, and asks
/// for no reload: the residency is kept, or set to resident where the
/// first upsert already made it resident.
pub proof fn lemma_repeated_upsert_plan(
    visual: SceneRuntimeVisualKind,
    asset: Option<Seq<char>>,
    existing: Option<(Option<usize>, Option<Seq<char>>)>,
    cube_count: usize,
    later_cube_count: usize,
)
    requires
        !(visual == SceneRuntimeVisualKind::Cube && asset is Some),
    ensures
        ({
            let first = upsert_plan(visual, asset, existing, cube_count);
            let second = upsert_plan(visual, asset, Some((first.render_slot, asset)), later_cube_count);
            &&& !second.new_cube
            &&& second.render_slot == first.render_slot
            &&& second.residency is None || (second.residency == Some(SceneResidency::Resident) && first.residency
                == Some(SceneResidency::Resident))
        }),
{
}

/// An asset reference as plain chars.
pub open spec fn asset_view(a: Option<&str>) -> Option<Seq<char>> {
    match a {
        Some(s) => Some(s@),
        None => None,
    }
}

/// A stored asset reference as plain chars.
pub open spec fn stored_asset_view(a: Option<String>) -> Option<Seq<char>> {
    match a {
        Some(s) => Some(s@),
        None => None,
    }
}

fn same_asset(a: &Option<String>, b: Option<&str>) -> (r: bool)
    ensures
        r == (stored_asset_view(*a) == asset_view(b)),
{
    match (a, b) {
        (Some(x), Some(y)) => crate::text::compare_str(x.as_str(), y) == crate::text::KeyOrder::Equal,
        (None, None) => true,
        _ => false,
    }
}

/// Which check refused an upsert.
#[derive(Clone, Copy, Debug, PartialEq, Eq, Structural)]
pub enum RuntimeRefusal {
    EmptyKey,
    InvalidParameters,
    InvalidAssetRef,
    CubeWithAsset,
    NotDynamic,
    CubeCapacity,
}

impl RuntimeEntityError {
    /// The check this error reports.
    pub open spec fn refusal(&self) -> RuntimeRefusal {
        match self {
            RuntimeEntityError::EmptyKey => RuntimeRefusal::EmptyKey,
            RuntimeEntityError::InvalidParameters => RuntimeRefusal::InvalidParameters,
            RuntimeEntityError::InvalidAssetRef => RuntimeRefusal::InvalidAssetRef,
            RuntimeEntityError::CubeWithAsset => RuntimeRefusal::CubeWithAsset,
            RuntimeEntityError::NotDynamic { .. } => RuntimeRefusal::NotDynamic,
            RuntimeEntityError::CubeCapacity { .. } => RuntimeRefusal::CubeCapacity,
        }
    }
}

/// The entity bearing a key as the upsert checks read it: whether its kind
/// may be taken over, its render slot and its asset reference.
pub open spec fn existing_entity_view(existing: Option<&ExistingRuntimeEntity>) -> Option<(bool, Option<usize>, Option<Seq<char>>)> {
    match existing {
        Some(e) => Some((e.replaceable, e.render_slot, stored_asset_view(e.asset_ref))),
        None => None,
    }
}

/// The decision on an upsert: the first check that refuses it, or its plan.
pub open spec fn plan_decision(
    key: Seq<char>,
    parameters_valid: bool,
    visual: SceneRuntimeVisualKind,
    asset: Option<Seq<char>>,
    existing: Option<(bool, Option<usize>, Option<Seq<char>>)>,
    cube_count: usize,
    cube_capacity: Option<usize>,
) -> Result<RuntimeEntityPlan, RuntimeRefusal> {
    let needs_cube = visual == SceneRuntimeVisualKind::Cube && match existing {
        Some(e) => e.1 is None,
        None => true,
    };
    let full = match cube_capacity {
        Some(c) => cube_count >= c,
        None => false,
    };
    if trim_chars(key).len() == 0 {
        Err(RuntimeRefusal::EmptyKey)
    } else if !parameters_valid {
        Err(RuntimeRefusal::InvalidParameters)
    } else if asset matches Some(a) && asset_ref_invalid(a) {
        Err(RuntimeRefusal::InvalidAssetRef)
    } else if visual == SceneRuntimeVisualKind::Cube && asset is Some {
        Err(RuntimeRefusal::CubeWithAsset)
    } else if existing matches Some(e) && !e.0 {
        Err(RuntimeRefusal::NotDynamic)
    } else if needs_cube && full {
        Err(RuntimeRefusal::CubeCapacity)
    } else {
        Ok(
            upsert_plan(
                visual,
                asset,
                match existing {
                    Some(e) => Some((e.1, e.2)),
                    None => None,
                },
                cube_count,
            ),
        )
    }
}

/// Decides an upsert of the runtime entity `key`. The checks come in this
/// order: a blank key, the floating-point parameters (`parameters_valid`),
/// the asset reference, a cube with an asset, an existing entity of another
/// kind, and, where a new cube is needed, the renderer's cube capacity.
/// `cube_count` is the number of cubes the scene holds, `cube_capacity` the
/// renderer's limit where a renderer is running.
pub fn plan_runtime_entity(
    key: &str,
    parameters_valid: bool,
    visual: SceneRuntimeVisualKind,
    asset_ref: Option<&str>,
    existing: Option<&ExistingRuntimeEntity>,
    cube_count: usize,
    cube_capacity: Option<usize>,
) -> (r: Result<RuntimeEntityPlan, RuntimeEntityError>)
    ensures
        ({
            let asset_bad = match asset_ref {
                Some(a) => asset_ref_invalid(a@),
                None => false,
            };
            let needs_cube = visual == SceneRuntimeVisualKind::Cube && match existing {
                Some(e) => e.render_slot is None,
                None => true,
            };
            let full = match cube_capacity {
                Some(c) => cube_count >= c,
                None => false,
            };
            if trim_chars(key@).len() == 0 {
                r == Err::<RuntimeEntityPlan, RuntimeEntityError>(RuntimeEntityError::EmptyKey)
            } else if !parameters_valid {
                r == Err::<RuntimeEntityPlan, RuntimeEntityError>(RuntimeEntityError::InvalidParameters)
            } else if asset_bad {
                r == Err::<RuntimeEntityPlan, RuntimeEntityError>(RuntimeEntityError::InvalidAssetRef)
            } else if visual == SceneRuntimeVisualKind::Cube && asset_ref is Some {
                r == Err::<RuntimeEntityPlan, RuntimeEntityError>(RuntimeEntityError::CubeWithAsset)
            } else if existing matches Some(e) && !e.replaceable {
                r matches Err(RuntimeEntityError::NotDynamic { key: k }) && k@ == trim_chars(key@)
            } else if needs_cube && full {
                r == Err::<RuntimeEntityPlan, RuntimeEntityError>(
                    RuntimeEntityError::CubeCapacity { capacity: cube_capacity.unwrap() },
                )
            } else {
                r == Ok::<RuntimeEntityPlan, RuntimeEntityError>(
                    upsert_plan(visual, asset_view(asset_ref), existing_view(existing), cube_count),
                )
            }
        }),
        match plan_decision(
            key@,
            parameters_valid,
            visual,
            asset_view(asset_ref),
            existing_entity_view(existing),
            cube_count,
            cube_capacity,
        ) {
            Ok(p) => r == Ok::<RuntimeEntityPlan, RuntimeEntityError>(p),
            Err(k) => r matches Err(e) && e.refusal() == k,
        },
{
    let key = trim_str(key);
    if key.unicode_len() == 0 {
        return Err(RuntimeEntityError::EmptyKey);
    }
    if !parameters_valid {
        return Err(RuntimeEntityError::InvalidParameters);
    }
    match asset_ref {
        Some(a) => {
            if trim_str(a).unicode_len() == 0 || str_byte_len(a) > MAX_ASSET_REF_BYTES {
                return Err(RuntimeEntityError::InvalidAssetRef);
            }
        },
        None => {},
    }
    if visual == SceneRuntimeVisualKind::Cube && asset_ref.is_some() {
        return Err(RuntimeEntityError::CubeWithAsset);
    }
    match existing {
        Some(e) => {
            if !e.replaceable {
                return Err(RuntimeEntityError::NotDynamic { key: key.to_owned() });
            }
        },
        None => {},
    }
    let needs_cube = visual == SceneRuntimeVisualKind::Cube && match existing {
        Some(e) => e.render_slot.is_none(),
        None => true,
    };
    if needs_cube {
        match cube_capacity {
            Some(c) => {
                if cube_count >= c {
                    return Err(RuntimeEntityError::CubeCapacity { capacity: c });
                }
            },
            None => {},
        }
    }
    let render_slot = if needs_cube {
        Some(cube_count)
    } else {
        match existing {
            Some(e) => e.render_slot,
            None => None,
        }
    };
    let residency = if visual == SceneRuntimeVisualKind::Cube || asset_ref.is_none() {
        Some(SceneResidency::Resident)
    } else {
        match existing {
            None => Some(SceneResidency::Unloaded),
            Some(e) => if !same_asset(&e.asset_ref, asset_ref) {
                Some(SceneResidency::Unloaded)
            } else {
                None
            },
        }
    };
    Ok(RuntimeEntityPlan { render_slot, new_cube: needs_cube, residency })
}

/// The entity an upsert of `key` updates: the one recorded for the key,
/// else the first entity that is not removed and bears the key as its name.
pub fn find_runtime_entity(runtime_ids: &StrMap<u64>, scene: &SceneLedger, key: &str) -> (r: Option<u64>)
    requires
        scene.wf(),
    ensures
        ({
            let k = trim_chars(key@);
            if runtime_ids@.contains_key(k) {
                r == Some(runtime_ids@[k])
            } else {
                match r {
                    Some(id) => exists|i: int|
                        0 <= i < scene.order().len() && scene.order()[i] == id && #[trigger] named_live(
                            scene.model()[scene.order()[i]],
                            k,
                        ) && forall|j: int| 0 <= j < i ==> !named_live(#[trigger] scene.model()[scene.order()[j]], k),
                    None => forall|i: int|
                        0 <= i < scene.order().len() ==> !named_live(#[trigger] scene.model()[scene.order()[i]], k),
                }
            }
        }),
{
    let key = trim_str(key);
    match runtime_ids.get(key) {
        Some(id) => Some(*id),
        None => scene.entity_id_by_name(key),
    }
}


/// Whether the entity at position `i` of the scene is the first one not
/// removed that bears the name `k`.
pub open spec fn first_named(scene: SceneLedger, k: Seq<char>, i: int) -> bool {
    &&& 0 <= i < scene.order().len()
    &&& named_live(scene.model()[scene.order()[i]], k)
    &&& forall|j: int| 0 <= j < i ==> !named_live(#[trigger] scene.model()[scene.order()[j]], k)
}

/// The entity an upsert of the trimmed key `k` updates, if any.
pub open spec fn runtime_target(ids: Map<Seq<char>, u64>, scene: SceneLedger, k: Seq<char>) -> Option<u64> {
    if ids.contains_key(k) {
        Some(ids[k])
    } else if exists|i: int| first_named(scene, k, i) {
        Some(scene.order()[choose|i: int| first_named(scene, k, i)])
    } else {
        None
    }
}

/// Whether the runtime entity of key `k` is already as an upsert with this
/// visual and asset leaves it: recorded under the key, active, dynamic,
/// with this asset, a render slot where it is a cube, and resident where it
/// is a cube or has no asset.
pub open spec fn settled(
    ids: Map<Seq<char>, u64>,
    scene: SceneLedger,
    k: Seq<char>,
    visual: SceneRuntimeVisualKind,
    asset: Option<Seq<char>>,
) -> bool {
    &&& ids.contains_key(k)
    &&& scene.model().contains_key(ids[k])
    &&& scene.model()[ids[k]].lifecycle == SceneLifecycle::Active
    &&& scene.model()[ids[k]].mobility == SceneMobility::Dynamic
    &&& scene.model()[ids[k]].asset == asset
    &&& (visual == SceneRuntimeVisualKind::Cube ==> scene.model()[ids[k]].render_slot is Some)
    &&& (visual == SceneRuntimeVisualKind::Cube || asset is None ==> scene.model()[ids[k]].residency
        == SceneResidency::Resident)
}

/// Why an upsert of a runtime entity failed.
#[derive(Debug)]
pub enum RuntimeUpsertError {
    /// A check refused the upsert before anything changed.
    Refused(RuntimeEntityError),
    /// The key is recorded for an entity the scene no longer holds.
    Disappeared { key: String },
    /// The scene refused to add or activate the entity.
    World(SceneWorldError),
}

fn clone_asset(a: &Option<String>) -> (r: Option<String>)
    ensures
        stored_asset_view(r) == stored_asset_view(*a),
{
    match a {
        Some(s) => Some(s.clone()),
        None => None,
    }
}

fn owned_asset(a: Option<&str>) -> (r: Option<String>)
    ensures
        stored_asset_view(r) == asset_view(a),
{
    match a {
        Some(s) => Some(s.to_owned()),
        None => None,
    }
}

/// Upserts the runtime entity `key` into the scene: decides it with
/// `plan_runtime_entity`, then takes over the entity bearing the key (its
/// kind may be taken over where `replaceable`) or adds a new one under the
/// id `next_id`, activates it and records it under the trimmed key. The
/// returned counter is the next id to hand out. Positions, bounds and cubes
/// are the renderer's, which applies the plan.
pub fn upsert_runtime_entity(
    scene: &mut SceneLedger,
    runtime_ids: &mut StrMap<u64>,
    key: &str,
    parameters_valid: bool,
    visual: SceneRuntimeVisualKind,
    asset_ref: Option<&str>,
    replaceable: bool,
    cube_count: usize,
    cube_capacity: Option<usize>,
    next_id: u64,
) -> (r: (Result<(u64, RuntimeEntityPlan), RuntimeUpsertError>, u64))
    requires
        old(scene).wf(),
    ensures
        final(scene).wf(),
        ({
            let k = trim_chars(key@);
            let asset = asset_view(asset_ref);
            let m0 = old(scene).model();
            match runtime_target(old(runtime_ids)@, *old(scene), k) {
                Some(id) => if !m0.contains_key(id) {
                    &&& r.1 == next_id
                    &&& same_state(*final(scene), *old(scene))
                    &&& final(runtime_ids)@ == old(runtime_ids)@
                    &&& match plan_decision(key@, parameters_valid, visual, asset, None, cube_count, cube_capacity) {
                        Err(x) => if x != RuntimeRefusal::CubeCapacity {
                            r.0 matches Err(RuntimeUpsertError::Refused(e)) && e.refusal() == x
                        } else {
                            r.0 matches Err(RuntimeUpsertError::Disappeared { key: kk }) && kk@ == k
                        },
                        Ok(_) => r.0 matches Err(RuntimeUpsertError::Disappeared { key: kk }) && kk@ == k,
                    }
                } else {
                    let e = m0[id];
                    &&& r.1 == next_id
                    &&& match plan_decision(
                        key@,
                        parameters_valid,
                        visual,
                        asset,
                        Some((replaceable, e.render_slot, e.asset)),
                        cube_count,
                        cube_capacity,
                    ) {
                        Err(x) => r.0 matches Err(RuntimeUpsertError::Refused(er)) && er.refusal() == x && same_state(
                            *final(scene),
                            *old(scene),
                        ) && final(runtime_ids)@ == old(runtime_ids)@,
                        Ok(p) => {
                            let t = taken_over(e, asset, p.render_slot, p.residency);
                            if e.lifecycle == SceneLifecycle::PendingRemove || e.lifecycle == SceneLifecycle::Removed {
                                &&& r.0 matches Err(RuntimeUpsertError::World(w)) && w == SceneWorldError::ReactivateRemoved(id)
                                &&& final(scene).model() == m0.insert(id, t)
                                &&& final(runtime_ids)@ == old(runtime_ids)@
                            } else {
                                &&& r.0 matches Ok(v) && v == (id, p)
                                &&& final(scene).model().contains_key(id)
                                &&& final(scene).model()[id].lifecycle == SceneLifecycle::Active
                                &&& final(scene).model()[id].mobility == SceneMobility::Dynamic
                                &&& final(scene).model()[id].asset == asset
                                &&& final(scene).model()[id].render_slot == p.render_slot
                                &&& final(scene).model()[id].residency == t.residency
                                &&& forall|x: u64| x != id ==> #[trigger] final(scene).model().contains_key(x) == m0.contains_key(x)
                                    && (m0.contains_key(x) ==> final(scene).model()[x] == m0[x])
                                &&& final(runtime_ids)@ == old(runtime_ids)@.insert(k, id)
                            }
                        },
                    }
                },
                None => match plan_decision(key@, parameters_valid, visual, asset, None, cube_count, cube_capacity) {
                    Err(x) => r.0 matches Err(RuntimeUpsertError::Refused(er)) && er.refusal() == x && r.1 == next_id
                        && same_state(*final(scene), *old(scene)) && final(runtime_ids)@ == old(runtime_ids)@,
                    Ok(p) => {
                        &&& r.1 == (if next_id == u64::MAX { 0 } else { next_id + 1 })
                        &&& if m0.contains_key(next_id) {
                            &&& r.0 matches Err(RuntimeUpsertError::World(w)) && w == SceneWorldError::DuplicateEntity(next_id)
                            &&& same_state(*final(scene), *old(scene))
                            &&& final(runtime_ids)@ == old(runtime_ids)@
                        } else {
                            &&& r.0 matches Ok(v) && v == (next_id, p)
                            &&& final(scene).order() == old(scene).order().push(next_id)
                            &&& final(scene).model().contains_key(next_id)
                            &&& final(scene).model()[next_id].name == k
                            &&& final(scene).model()[next_id].lifecycle == SceneLifecycle::Active
                            &&& final(scene).model()[next_id].mobility == SceneMobility::Dynamic
                            &&& final(scene).model()[next_id].asset == asset
                            &&& final(scene).model()[next_id].render_slot == p.render_slot
                            &&& Some(final(scene).model()[next_id].residency) == p.residency
                            &&& final(scene).model()[next_id].parent is None
                            &&& forall|x: u64| x != next_id ==> #[trigger] final(scene).model().contains_key(x) == m0.contains_key(x)
                                && (m0.contains_key(x) ==> final(scene).model()[x] == m0[x])
                            &&& final(runtime_ids)@ == old(runtime_ids)@.insert(k, next_id)
                        }
                    },
                },
            }
        }),
        r.0 is Ok ==> settled(final(runtime_ids)@, *final(scene), trim_chars(key@), visual, asset_view(asset_ref)),
        settled(old(runtime_ids)@, *old(scene), trim_chars(key@), visual, asset_view(asset_ref)) && trim_chars(key@).len() > 0
            && parameters_valid && !(asset_ref matches Some(a) && asset_ref_invalid(a@)) && !(visual
            == SceneRuntimeVisualKind::Cube && asset_ref is Some) && replaceable ==> {
            &&& r.0 is Ok
            &&& r.0 matches Ok(v) && v.0 == old(runtime_ids)@[trim_chars(key@)]
            &&& same_state(*final(scene), *old(scene))
            &&& final(runtime_ids)@ == old(runtime_ids)@
            &&& r.1 == next_id
        },
{
    let ghost k = trim_chars(key@);
    let ghost ids0 = runtime_ids@;
    let ghost s0 = *scene;
    let target = find_runtime_entity(runtime_ids, scene, key);
    proof {
        lemma_target_found(ids0, s0, k, target);
    }
    let tkey = trim_str(key);
    match target {
        Some(id) => {
            let found = match scene.entity(id) {
                None => None,
                Some(e) => Some((e.render_slot, clone_asset(&e.asset_ref))),
            };
            match found {
                None => {
                    match plan_runtime_entity(key, parameters_valid, visual, asset_ref, None, cube_count, cube_capacity) {
                        Err(RuntimeEntityError::CubeCapacity { .. }) => (
                            Err(RuntimeUpsertError::Disappeared { key: tkey.to_owned() }),
                            next_id,
                        ),
                        Err(e) => (Err(RuntimeUpsertError::Refused(e)), next_id),
                        Ok(_) => (Err(RuntimeUpsertError::Disappeared { key: tkey.to_owned() }), next_id),
                    }
                },
                Some((slot, current_asset)) => {
                    let existing = ExistingRuntimeEntity { id, replaceable, render_slot: slot, asset_ref: current_asset };
                    let plan = match plan_runtime_entity(
                        key,
                        parameters_valid,
                        visual,
                        asset_ref,
                        Some(&existing),
                        cube_count,
                        cube_capacity,
                    ) {
                        Err(e) => {
                            return (Err(RuntimeUpsertError::Refused(e)), next_id);
                        },
                        Ok(p) => p,
                    };
                    let ghost before = scene.model();
                    let _ = scene.take_over_runtime_entity(id, owned_asset(asset_ref), plan.render_slot, plan.residency);
                    let ghost mid = scene.model();
                    match scene.activate_entity(id) {
                        Err(e) => {
                            return (Err(RuntimeUpsertError::World(e)), next_id);
                        },
                        Ok(()) => {},
                    }
                    let ghost ids_before = runtime_ids@;
                    runtime_ids.insert(tkey.to_owned(), id);
                    proof {
                        assert(runtime_ids@ =~= ids_before.insert(k, id));
                        if s0.model()[id].lifecycle == SceneLifecycle::Active {
                            assert(scene.model() == mid);
                        }
                        if settled(ids0, s0, k, visual, asset_view(asset_ref)) && trim_chars(key@).len() > 0
                            && parameters_valid && !(asset_ref matches Some(a) && asset_ref_invalid(a@)) && !(visual
                            == SceneRuntimeVisualKind::Cube && asset_ref is Some) && replaceable {
                            let e = s0.model()[id];
                            assert(taken_over(e, asset_view(asset_ref), plan.render_slot, plan.residency) =~= e);
                            assert(mid =~= before);
                            assert(runtime_ids@ =~= ids0);
                        }
                    }
                    (Ok((id, plan)), next_id)
                },
            }
        },
        None => {
            let plan = match plan_runtime_entity(key, parameters_valid, visual, asset_ref, None, cube_count, cube_capacity) {
                Err(e) => {
                    return (Err(RuntimeUpsertError::Refused(e)), next_id);
                },
                Ok(p) => p,
            };
            let id = next_id;
            let next = if next_id == u64::MAX {
                0
            } else {
                next_id + 1
            };
            let residency = match plan.residency {
                Some(r) => r,
                None => SceneResidency::Resident,
            };
            let record = SceneEntityRecord {
                id,
                name: tkey.to_owned(),
                lifecycle: SceneLifecycle::Constructed,
                parent: None,
                children: Vec::new(),
                visibility: VisibilityMask::new(),
                asset_ref: owned_asset(asset_ref),
                render_slot: plan.render_slot,
                residency,
                mobility: SceneMobility::Dynamic,
                revision: 0,
                last_mutation_frame: 0,
                process_claims: SceneProcessClaims::new(),
                last_process_frame: None,
            };
            if let Err(e) = scene.add_entity(record) {
                return (Err(RuntimeUpsertError::World(e)), next);
            }
            if let Err(e) = scene.activate_entity(id) {
                return (Err(RuntimeUpsertError::World(e)), next);
            }
            let ghost ids_before = runtime_ids@;
            runtime_ids.insert(tkey.to_owned(), id);
            proof {
                assert(runtime_ids@ =~= ids_before.insert(k, id));
            }
            (Ok((id, plan)), next)
        },
    }
}

/// The entity `find_runtime_entity` returns is the upsert's target.
proof fn lemma_target_found(ids: Map<Seq<char>, u64>, scene: SceneLedger, k: Seq<char>, found: Option<u64>)
    requires
        ids.contains_key(k) ==> found == Some(ids[k]),
        !ids.contains_key(k) ==> match found {
            Some(id) => exists|i: int|
                0 <= i < scene.order().len() && scene.order()[i] == id && #[trigger] named_live(
                    scene.model()[scene.order()[i]],
                    k,
                ) && forall|j: int| 0 <= j < i ==> !named_live(#[trigger] scene.model()[scene.order()[j]], k),
            None => forall|i: int| 0 <= i < scene.order().len() ==> !named_live(#[trigger] scene.model()[scene.order()[i]], k),
        },
    ensures
        found == runtime_target(ids, scene, k),
{
    if !ids.contains_key(k) {
        match found {
            Some(id) => {
                let i = choose|i: int|
                    0 <= i < scene.order().len() && scene.order()[i] == id && #[trigger] named_live(
                        scene.model()[scene.order()[i]],
                        k,
                    ) && forall|j: int| 0 <= j < i ==> !named_live(#[trigger] scene.model()[scene.order()[j]], k);
                assert(first_named(scene, k, i));
                let c = choose|c: int| first_named(scene, k, c);
                if c < i {
                    assert(!named_live(scene.model()[scene.order()[c]], k));
                } else if i < c {
                    assert(!named_live(scene.model()[scene.order()[i]], k));
                }
            },
            None => {
                if exists|i: int| first_named(scene, k, i) {
                    let c = choose|c: int| first_named(scene, k, c);
                    assert(named_live(scene.model()[scene.order()[c]], k));
                }
            },
        }
    }
}
} // verus!
