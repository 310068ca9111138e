use newviso::json::{JsonNumber, JsonValue};
use newviso::physics::{
    body_command_header, scene_activity_updates, scene_pose_updates, BodyCommandError, BodyHeader,
    CollisionShapeKind, PhysicsBodyKind, STATIC_COLLIDER_ID_BASE,
};
use newviso::strmap::StrMap;
use std::collections::BTreeMap;

fn obj(pairs: Vec<(&str, JsonValue)>) -> JsonValue {
    let mut m = StrMap::new();
    for (k, v) in pairs {
        m.insert(k.to_string(), v);
    }
    JsonValue::Object(m)
}

fn num(n: u64) -> JsonValue {
    JsonValue::Number(JsonNumber::PosInt(n))
}

fn text(s: &str) -> JsonValue {
    JsonValue::Str(s.to_string())
}

fn sphere() -> JsonValue {
    obj(vec![("kind", text("Sphere "))])
}

#[test]
fn body_header_reads_entity_kind_and_shape() {
    let c = obj(vec![("entity", num(7)), ("body_kind", text(" Kinematic")), ("shape", sphere())]);
    assert_eq!(
        body_command_header(&c, 3),
        Ok(BodyHeader { entity: 7, kind: PhysicsBodyKind::Kinematic, shape: CollisionShapeKind::Sphere })
    );
    let defaulted = obj(vec![("entity", num(7)), ("shape", obj(vec![("kind", text("box"))]))]);
    assert_eq!(body_command_header(&defaulted, 0).unwrap().kind, PhysicsBodyKind::Dynamic);
    let by_kind = obj(vec![("entity", num(7)), ("kind", text("static")), ("shape", sphere())]);
    assert_eq!(body_command_header(&by_kind, 0).unwrap().kind, PhysicsBodyKind::Static);
    let not_text = obj(vec![("entity", num(7)), ("body_kind", num(1)), ("kind", text("static")), ("shape", sphere())]);
    assert_eq!(body_command_header(&not_text, 0).unwrap().kind, PhysicsBodyKind::Dynamic);
}

#[test]
fn body_header_refusals_come_in_order() {
    match body_command_header(&obj(vec![]), 4) {
        Err(BodyCommandError::Entity(e)) => {
            assert_eq!(e.index, 4);
            assert_eq!(e.key, "entity");
        }
        other => panic!("unexpected {other:?}"),
    }
    let reserved = obj(vec![("entity", num(STATIC_COLLIDER_ID_BASE)), ("body_kind", text("bogus"))]);
    assert_eq!(
        body_command_header(&reserved, 1),
        Err(BodyCommandError::ReservedEntity { index: 1, entity: STATIC_COLLIDER_ID_BASE })
    );
    let kind = obj(vec![("entity", num(2)), ("body_kind", text(" Floating "))]);
    assert_eq!(
        body_command_header(&kind, 1),
        Err(BodyCommandError::BodyKind { index: 1, kind: "floating".to_string() })
    );
    assert_eq!(
        body_command_header(&obj(vec![("entity", num(2))]), 1),
        Err(BodyCommandError::MissingShape { index: 1 })
    );
    let no_kind = obj(vec![("entity", num(2)), ("shape", obj(vec![("kind", num(1))]))]);
    assert_eq!(body_command_header(&no_kind, 1), Err(BodyCommandError::MissingShapeKind { index: 1 }));
    let shape = obj(vec![("entity", num(2)), ("shape", obj(vec![("kind", text("Cone"))]))]);
    assert_eq!(
        body_command_header(&shape, 1),
        Err(BodyCommandError::ShapeKind { index: 1, kind: "cone".to_string() })
    );
}

#[test]
fn only_moving_known_bodies_reach_the_scene() {
    let mut bodies = BTreeMap::new();
    bodies.insert(1u64, PhysicsBodyKind::Dynamic);
    bodies.insert(2u64, PhysicsBodyKind::Kinematic);
    bodies.insert(3u64, PhysicsBodyKind::Static);
    let activity = vec![(3, true), (1, false), (9, true), (2, true)];
    assert_eq!(scene_activity_updates(&activity, &bodies), vec![(1, false), (2, true)]);
    let poses = vec![(2, [0.5f32; 3]), (1, [1.0f32; 3]), (4, [2.0f32; 3])];
    assert_eq!(scene_pose_updates(&poses, &bodies), vec![(1, [1.0f32; 3])]);
}
