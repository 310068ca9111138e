//! Physics bodies as scripts declare them, and which of the physics
//! provider's per-frame updates reach the scene. Shapes' sizes, positions,
//! velocities and materials are floating point and are read by the runtime
//! once the body's entity, kind and shape are known.

use vstd::prelude::*;
use std::collections::BTreeMap;
use crate::json::JsonValue;
use crate::readers::{command_u64, CommandFieldError};
use crate::text::{compare_str, normalize_key, normalized_key, KeyOrder};

verus! {

broadcast use {vstd::std_specs::btree::group_btree_axioms, vstd::laws_cmp::group_laws_cmp};

/// Entities from this id up are the engine's own static colliders.
pub const STATIC_COLLIDER_ID_BASE: u64 = 0x8000_0000_0000_0000;

/// How a physics body moves.
#[derive(Clone, Copy, Debug, PartialEq, Eq, Structural)]
pub enum PhysicsBodyKind {
    Static,
    Dynamic,
    Kinematic,
}

/// The shape a physics body collides with.
#[derive(Clone, Copy, Debug, PartialEq, Eq, Structural)]
pub enum CollisionShapeKind {
    Sphere,
    Box,
    Capsule,
    Cylinder,
}

/// The entity, kind and shape a body command declares.
#[derive(Clone, Copy, Debug, PartialEq, Eq, Structural)]
pub struct BodyHeader {
    pub entity: u64,
    pub kind: PhysicsBodyKind,
    pub shape: CollisionShapeKind,
}

/// Why a body command was refused; `index` is its position in the buffer.
#[derive(Clone, Debug, PartialEq, Eq)]
pub enum BodyCommandError {
    /// The command has no unsigned `entity`.
    Entity(CommandFieldError),
    /// The entity lies in the engine's reserved range.
    ReservedEntity { index: usize, entity: u64 },
    /// A body kind other than static, dynamic and kinematic.
    BodyKind { index: usize, kind: String },
    /// The command has no `shape`.
    MissingShape { index: usize },
    /// The shape has no string `kind`.
    MissingShapeKind { index: usize },
    /// A shape other than sphere, box, capsule and cylinder.
    ShapeKind { index: usize, kind: String },
}

/// The body kind a command names, trimmed and lower-cased: its `body_kind`,
/// else where that is absent its `kind`; `dynamic` where the one found is no
/// string or neither is there.
pub open spec fn body_kind_text(c: JsonValue) -> Seq<char> {
    let found = if c.spec_get("body_kind"@) is Some {
        c.spec_get("body_kind"@)
    } else {
        c.spec_get("kind"@)
    };
    let raw = match found {
        Some(v) => match v.spec_as_str() {
            Some(s) => s,
            None => "dynamic"@,
        },
        None => "dynamic"@,
    };
    normalized_key(raw)
}

/// The body kind of a normalized name.
pub open spec fn body_kind_of(name: Seq<char>) -> Option<PhysicsBodyKind> {
    if name == "static"@ {
        Some(PhysicsBodyKind::Static)
    } else if name == "dynamic"@ {
        Some(PhysicsBodyKind::Dynamic)
    } else if name == "kinematic"@ {
        Some(PhysicsBodyKind::Kinematic)
    } else {
        None
    }
}

/// The shape of a normalized name.
pub open spec fn shape_kind_of(name: Seq<char>) -> Option<CollisionShapeKind> {
    if name == "sphere"@ {
        Some(CollisionShapeKind::Sphere)
    } else if name == "box"@ {
        Some(CollisionShapeKind::Box)
    } else if name == "capsule"@ {
        Some(CollisionShapeKind::Capsule)
    } else if name == "cylinder"@ {
        Some(CollisionShapeKind::Cylinder)
    } else {
        None
    }
}

/// The shape kind text of a command: its shape's string `kind`.
pub open spec fn shape_kind_text(c: JsonValue) -> Option<Seq<char>> {
    match c.spec_get("shape"@) {
        Some(s) => match s.spec_get("kind"@) {
            Some(k) => match k.spec_as_str() {
                Some(t) => Some(normalized_key(t)),
                None => None,
            },
            None => None,
        },
        None => None,
    }
}

/// Each shape is named by exactly one name: `sphere`, `box`, `capsule` and
/// `cylinder` give the sphere, the box, the capsule and the cylinder, and
/// no other name gives a shape. So distinct names give distinct shapes.
pub proof fn lemma_shape_names(name: Seq<char>)
    ensures
        (shape_kind_of(name) == Some(CollisionShapeKind::Sphere)) == (name == "sphere"@),
        (shape_kind_of(name) == Some(CollisionShapeKind::Box)) == (name == "box"@),
        (shape_kind_of(name) == Some(CollisionShapeKind::Capsule)) == (name == "capsule"@),
        (shape_kind_of(name) == Some(CollisionShapeKind::Cylinder)) == (name == "cylinder"@),
        shape_kind_of(name) is Some <==> (name == "sphere"@ || name == "box"@ || name == "capsule"@ || name
            == "cylinder"@),
{
    reveal_strlit("sphere");
    reveal_strlit("box");
    reveal_strlit("capsule");
    reveal_strlit("cylinder");
    assert("sphere"@.len() == 6 && "box"@.len() == 3 && "capsule"@.len() == 7 && "cylinder"@.len() == 8);
}

/// Each body kind is named by exactly one name: `static`, `dynamic` and
/// `kinematic`, and no other name gives a body kind.
pub proof fn lemma_body_kind_names(name: Seq<char>)
    ensures
        (body_kind_of(name) == Some(PhysicsBodyKind::Static)) == (name == "static"@),
        (body_kind_of(name) == Some(PhysicsBodyKind::Dynamic)) == (name == "dynamic"@),
        (body_kind_of(name) == Some(PhysicsBodyKind::Kinematic)) == (name == "kinematic"@),
        body_kind_of(name) is Some <==> (name == "static"@ || name == "dynamic"@ || name == "kinematic"@),
{
    reveal_strlit("static");
    reveal_strlit("dynamic");
    reveal_strlit("kinematic");
    assert("static"@.len() == 6 && "dynamic"@.len() == 7 && "kinematic"@.len() == 9);
}

fn body_kind_exec(name: &str) -> (k: Option<PhysicsBodyKind>)
    ensures
        k == body_kind_of(name@),
{
    if compare_str(name, "static") == KeyOrder::Equal {
        Some(PhysicsBodyKind::Static)
    } else if compare_str(name, "dynamic") == KeyOrder::Equal {
        Some(PhysicsBodyKind::Dynamic)
    } else if compare_str(name, "kinematic") == KeyOrder::Equal {
        Some(PhysicsBodyKind::Kinematic)
    } else {
        None
    }
}

fn shape_kind_exec(name: &str) -> (k: Option<CollisionShapeKind>)
    ensures
        k == shape_kind_of(name@),
{
    if compare_str(name, "sphere") == KeyOrder::Equal {
        Some(CollisionShapeKind::Sphere)
    } else if compare_str(name, "box") == KeyOrder::Equal {
        Some(CollisionShapeKind::Box)
    } else if compare_str(name, "capsule") == KeyOrder::Equal {
        Some(CollisionShapeKind::Capsule)
    } else if compare_str(name, "cylinder") == KeyOrder::Equal {
        Some(CollisionShapeKind::Cylinder)
    } else {
        None
    }
}

/// Reads the entity, body kind and shape of the `index`-th script command
/// `physics.body.upsert`, refusing, in this order, a missing entity, an
/// entity in the reserved range, an unknown body kind, a missing shape, a
/// shape without a kind and an unknown shape.
pub fn body_command_header(command: &JsonValue, index: usize) -> (r: Result<BodyHeader, BodyCommandError>)
    ensures
        match command.spec_get("entity"@) {
            Some(v) if v.spec_as_u64() is Some => {
                let entity = v.spec_as_u64().unwrap();
                if entity >= STATIC_COLLIDER_ID_BASE {
                    r == Err::<BodyHeader, BodyCommandError>(BodyCommandError::ReservedEntity { index, entity })
                } else if body_kind_of(body_kind_text(*command)) is None {
                    r matches Err(BodyCommandError::BodyKind { index: i, kind }) && i == index && kind@ == body_kind_text(
                        *command,
                    )
                } else if command.spec_get("shape"@) is None {
                    r == Err::<BodyHeader, BodyCommandError>(BodyCommandError::MissingShape { index })
                } else if shape_kind_text(*command) is None {
                    r == Err::<BodyHeader, BodyCommandError>(BodyCommandError::MissingShapeKind { index })
                } else if shape_kind_of(shape_kind_text(*command).unwrap()) is None {
                    r matches Err(BodyCommandError::ShapeKind { index: i, kind }) && i == index && kind@
                        == shape_kind_text(*command).unwrap()
                } else {
                    r == Ok::<BodyHeader, BodyCommandError>(
                        BodyHeader {
                            entity,
                            kind: body_kind_of(body_kind_text(*command)).unwrap(),
                            shape: shape_kind_of(shape_kind_text(*command).unwrap()).unwrap(),
                        },
                    )
                }
            },
            _ => r matches Err(BodyCommandError::Entity(e)) && e.index == index && e.key@ == "entity"@,
        },
{
    let entity = match command_u64(command, "entity", index) {
        Ok(n) => n,
        Err(e) => {
            return Err(BodyCommandError::Entity(e));
        },
    };
    if entity >= STATIC_COLLIDER_ID_BASE {
        return Err(BodyCommandError::ReservedEntity { index, entity });
    }
    let found = match command.get("body_kind") {
        Some(v) => Some(v),
        None => command.get("kind"),
    };
    let raw = match found {
        Some(v) => match v.as_str() {
            Some(s) => s,
            None => "dynamic",
        },
        None => "dynamic",
    };
    let kind_name = normalize_key(raw);
    let kind = match body_kind_exec(kind_name.as_str()) {
        Some(k) => k,
        None => {
            return Err(BodyCommandError::BodyKind { index, kind: kind_name });
        },
    };
    let shape_value = match command.get("shape") {
        Some(s) => s,
        None => {
            return Err(BodyCommandError::MissingShape { index });
        },
    };
    let shape_raw = match shape_value.get("kind") {
        Some(k) => match k.as_str() {
            Some(t) => t,
            None => {
                return Err(BodyCommandError::MissingShapeKind { index });
            },
        },
        None => {
            return Err(BodyCommandError::MissingShapeKind { index });
        },
    };
    let shape_name = normalize_key(shape_raw);
    let shape = match shape_kind_exec(shape_name.as_str()) {
        Some(s) => s,
        None => {
            return Err(BodyCommandError::ShapeKind { index, kind: shape_name });
        },
    };
    Ok(BodyHeader { entity, kind, shape })
}

/// The updates that reach the scene: those of bodies known to the runtime
/// whose kind is one of `kinds`.
pub open spec fn scene_updates<D>(updates: Seq<(u64, D)>, bodies: Map<u64, PhysicsBodyKind>, kinds: Set<PhysicsBodyKind>) -> Seq<
    (u64, D),
> {
    updates.filter(|u: (u64, D)| bodies.contains_key(u.0) && kinds.contains(bodies[u.0]))
}

fn keep_updates<D: Copy>(updates: &Vec<(u64, D)>, bodies: &BTreeMap<u64, PhysicsBodyKind>, kinematic: bool) -> (r: Vec<(u64, D)>)
    ensures
        r@ == scene_updates(
            updates@,
            bodies@,
            if kinematic {
                set![PhysicsBodyKind::Dynamic, PhysicsBodyKind::Kinematic]
            } else {
                set![PhysicsBodyKind::Dynamic]
            },
        ),
{
    let ghost kinds = if kinematic {
        set![PhysicsBodyKind::Dynamic, PhysicsBodyKind::Kinematic]
    } else {
        set![PhysicsBodyKind::Dynamic]
    };
    let mut out: Vec<(u64, D)> = Vec::new();
    let mut i: usize = 0;
    while i < updates.len()
        invariant
            i <= updates@.len(),
            kinds == (if kinematic {
                set![PhysicsBodyKind::Dynamic, PhysicsBodyKind::Kinematic]
            } else {
                set![PhysicsBodyKind::Dynamic]
            }),
            out@ == scene_updates(updates@.take(i as int), bodies@, kinds),
        decreases updates@.len() - i,
    {
        let u = updates[i];
        let keep = match bodies.get(&u.0) {
            Some(kind) => match kind {
                PhysicsBodyKind::Dynamic => true,
                PhysicsBodyKind::Kinematic => kinematic,
                PhysicsBodyKind::Static => false,
            },
            None => false,
        };
        proof {
            let f = |x: (u64, D)| bodies@.contains_key(x.0) && kinds.contains(bodies@[x.0]);
            assert(updates@.take(i + 1) =~= updates@.take(i as int).push(updates@[i as int]));
            reveal(Seq::filter);
            assert(updates@.take(i + 1).drop_last() =~= updates@.take(i as int));
            assert(updates@.take(i + 1).last() == updates@[i as int]);
            assert(keep == f(u));
        }
        if keep {
            out.push(u);
        }
        i = i + 1;
    }
    proof {
        assert(updates@.take(updates@.len() as int) =~= updates@);
    }
    out
}

/// The activity changes that reach the scene: those of dynamic and
/// kinematic bodies the runtime knows.
pub fn scene_activity_updates(updates: &Vec<(u64, bool)>, bodies: &BTreeMap<u64, PhysicsBodyKind>) -> (r: Vec<(u64, bool)>)
    ensures
        r@ == scene_updates(updates@, bodies@, set![PhysicsBodyKind::Dynamic, PhysicsBodyKind::Kinematic]),
{
    keep_updates(updates, bodies, true)
}

/// The poses that reach the scene: those of dynamic bodies the runtime
/// knows.
pub fn scene_pose_updates<D: Copy>(updates: &Vec<(u64, D)>, bodies: &BTreeMap<u64, PhysicsBodyKind>) -> (r: Vec<(u64, D)>)
    ensures
        r@ == scene_updates(updates@, bodies@, set![PhysicsBodyKind::Dynamic]),
{
    keep_updates(updates, bodies, false)
}

} // verus!
