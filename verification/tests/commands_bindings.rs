use newviso::bindings::{apply_string_bindings, materialize_template};
use newviso::commands::{
    cursor_capture, decode_script_command, CommandError, EventPhase, FieldKind, RecordKind, ScriptCommand,
};
use newviso::json::{JsonNumber, JsonValue};
use newviso::strmap::StrMap;

fn obj(pairs: Vec<(&str, JsonValue)>) -> JsonValue {
    let mut m = StrMap::new();
    for (k, v) in pairs {
        m.insert(k.to_string(), v);
    }
    JsonValue::Object(m)
}

fn text(s: &str) -> JsonValue {
    JsonValue::Str(s.to_string())
}

fn num(n: u64) -> JsonValue {
    JsonValue::Number(JsonNumber::PosInt(n))
}

fn texts(pairs: &[(&str, &str)]) -> StrMap<String> {
    let mut m = StrMap::new();
    for (k, v) in pairs {
        m.insert(k.to_string(), v.to_string());
    }
    m
}

#[test]
fn template_tokens_take_binding_text() {
    let bindings = texts(&[
        ("camera.yaw", "32.10\u{b0}"),
        ("camera.x", "4.200"),
        ("camera.y", "3.000"),
        ("camera.z", "6.000"),
    ]);
    assert_eq!(apply_string_bindings("Yaw: {{camera.yaw}}", &bindings), "Yaw: 32.10\u{b0}");
    assert_eq!(
        apply_string_bindings("Position: {{camera.x}}, {{camera.y}}, {{camera.z}}", &bindings),
        "Position: 4.200, 3.000, 6.000"
    );
}

#[test]
fn unknown_tokens_and_plain_text_stay() {
    let bindings = texts(&[("hp", "10")]);
    assert_eq!(apply_string_bindings("{{mp}} {hp} {{hp}}{{hp}}", &bindings), "{{mp}} {hp} 1010");
    assert_eq!(apply_string_bindings("", &bindings), "");
    assert_eq!(apply_string_bindings("{{hp}}", &texts(&[])), "{{hp}}");
}

#[test]
fn bindings_apply_in_key_order() {
    let bindings = texts(&[("a", "{{b}}"), ("b", "x")]);
    assert_eq!(apply_string_bindings("{{a}}", &bindings), "x");
    let reversed = texts(&[("b", "{{a}}"), ("a", "y")]);
    assert_eq!(apply_string_bindings("{{b}}", &reversed), "{{a}}");
}

#[test]
fn command_without_op_is_refused() {
    assert_eq!(decode_script_command(obj(vec![("op", num(1))]), 4).err(), Some(CommandError::MissingOp { index: 4 }));
    assert_eq!(decode_script_command(JsonValue::Null, 0).err(), Some(CommandError::MissingOp { index: 0 }));
}

#[test]
fn emit_event_defaults() {
    let command = obj(vec![("op", text("events.emit")), ("topic", text("game.score"))]);
    match decode_script_command(command, 0) {
        Ok(ScriptCommand::EmitEvent { topic, source, payload, cancelable, phase, metadata }) => {
            assert_eq!(topic, "game.score");
            assert_eq!(source, "project.script");
            assert!(matches!(payload, JsonValue::Null));
            assert!(!cancelable);
            assert_eq!(phase, EventPhase::Observe);
            assert_eq!(metadata.len(), 1);
            assert_eq!(metadata.get("script_echo").and_then(|v| v.as_bool()), Some(false));
        }
        _ => panic!("events.emit should decode"),
    }
}

#[test]
fn emit_event_keeps_given_fields() {
    let command = obj(vec![
        ("op", text("events.emit")),
        ("topic", text("door.open")),
        ("source", text("level")),
        ("payload", num(7)),
        ("cancelable", JsonValue::Bool(true)),
        ("phase", text("before")),
        ("metadata", obj(vec![("script_echo", JsonValue::Bool(true)), ("tag", text("x"))])),
    ]);
    match decode_script_command(command, 1) {
        Ok(ScriptCommand::EmitEvent { topic, source, payload, cancelable, phase, metadata }) => {
            assert_eq!(topic, "door.open");
            assert_eq!(source, "level");
            assert_eq!(payload.as_u64(), Some(7));
            assert!(cancelable);
            assert_eq!(phase, EventPhase::Before);
            assert_eq!(metadata.get("script_echo").and_then(|v| v.as_bool()), Some(true));
            assert_eq!(metadata.get("tag").and_then(|v| v.as_str()), Some("x"));
        }
        _ => panic!("events.emit should decode"),
    }
}

#[test]
fn emit_event_errors() {
    let no_topic = obj(vec![("op", text("events.emit"))]);
    assert_eq!(
        decode_script_command(no_topic, 2).err(),
        Some(CommandError::Field {
            index: 2,
            op: "events.emit".to_string(),
            field: "topic".to_string(),
            expected: FieldKind::Text
        })
    );
    let bad_phase = obj(vec![("op", text("events.emit")), ("topic", text("t")), ("phase", text("later"))]);
    assert_eq!(
        decode_script_command(bad_phase, 3).err(),
        Some(CommandError::InvalidPhase { index: 3, phase: "later".to_string() })
    );
}

#[test]
fn entity_commands_check_fields_in_order() {
    let claim = obj(vec![
        ("op", text("scene.entity.process_claim.set")),
        ("entity", num(50)),
        ("reason", text("gameplay")),
        ("active", JsonValue::Bool(true)),
    ]);
    match decode_script_command(claim, 0) {
        Ok(ScriptCommand::SetProcessClaim { entity, reason, active }) => {
            assert_eq!(entity, 50);
            assert_eq!(reason, "gameplay");
            assert!(active);
        }
        _ => panic!("claim should decode"),
    }
    let missing = obj(vec![("op", text("scene.entity.visibility.set")), ("entity", num(1)), ("visible", JsonValue::Bool(false))]);
    assert_eq!(
        decode_script_command(missing, 6).err(),
        Some(CommandError::Field {
            index: 6,
            op: "scene.entity.visibility.set".to_string(),
            field: "channel".to_string(),
            expected: FieldKind::Text
        })
    );
    let negative = obj(vec![("op", text("physics.body.destroy")), ("entity", JsonValue::Number(JsonNumber::NegInt(-1)))]);
    assert!(matches!(
        decode_script_command(negative, 0),
        Err(CommandError::Field { expected: FieldKind::UnsignedInteger, .. })
    ));
    let cursor = obj(vec![("op", text("platform.cursor.set"))]);
    assert!(matches!(decode_script_command(cursor, 0), Err(CommandError::Field { expected: FieldKind::Present, .. })));
}

#[test]
fn removals_name_their_record() {
    let travel = obj(vec![("op", text("world.travel.cancel")), ("actor_id", text("walker"))]);
    match decode_script_command(travel, 0) {
        Ok(ScriptCommand::RemoveRecord { kind, id }) => {
            assert_eq!(kind, RecordKind::Travel);
            assert_eq!(id, "walker");
        }
        _ => panic!("travel cancel should decode"),
    }
    let fact = obj(vec![("op", text("world.fact.remove")), ("id", text("wrong field"))]);
    assert!(matches!(decode_script_command(fact, 0), Err(CommandError::Field { .. })));
    let rel = obj(vec![
        ("op", text("world.relationship.remove")),
        ("source_group", text("a")),
        ("target_group", text("b")),
        ("reciprocal", JsonValue::Bool(true)),
    ]);
    match decode_script_command(rel, 0) {
        Ok(ScriptCommand::RemoveRelationship { source_group, target_group, reciprocal }) => {
            assert_eq!((source_group.as_str(), target_group.as_str(), reciprocal), ("a", "b", true));
        }
        _ => panic!("relationship removal should decode"),
    }
}

#[test]
fn fact_cause_must_be_text_or_null() {
    let with_cause = obj(vec![("op", text("world.fact.set")), ("key", text("stock")), ("value", num(3)), ("cause", text("delivery.1"))]);
    match decode_script_command(with_cause, 0) {
        Ok(ScriptCommand::SetFact { key, value, cause }) => {
            assert_eq!(key, "stock");
            assert_eq!(value.as_u64(), Some(3));
            assert_eq!(cause.as_deref(), Some("delivery.1"));
        }
        _ => panic!("fact should decode"),
    }
    let null_cause = obj(vec![("op", text("world.fact.set")), ("key", text("k")), ("cause", JsonValue::Null)]);
    assert!(matches!(decode_script_command(null_cause, 0), Ok(ScriptCommand::SetFact { cause: None, .. })));
    let bad_cause = obj(vec![("op", text("world.fact.set")), ("key", text("k")), ("cause", num(1))]);
    assert_eq!(decode_script_command(bad_cause, 9).err(), Some(CommandError::CauseNotText { index: 9 }));
}

#[test]
fn engine_and_unknown_commands() {
    let camera = obj(vec![("op", text("scene.camera.set"))]);
    assert!(matches!(decode_script_command(camera, 0), Ok(ScriptCommand::Engine { op }) if op == "scene.camera.set"));
    let unknown = obj(vec![("op", text("scene.teleport"))]);
    assert_eq!(
        decode_script_command(unknown, 5).err(),
        Some(CommandError::Unsupported { index: 5, op: "scene.teleport".to_string() })
    );
    let remove = obj(vec![("op", text("scene.entity.remove")), ("id", text("crate"))]);
    assert!(matches!(
        decode_script_command(remove, 0),
        Ok(ScriptCommand::RemoveRuntimeEntity { if_exists: false, .. })
    ));
}

#[test]
fn cursor_capture_needs_focus() {
    assert_eq!(cursor_capture(false, true, true), (true, true));
    assert_eq!(cursor_capture(false, true, false), (false, false));
    assert_eq!(cursor_capture(true, false, true), (false, true));
}

#[test]
fn ui_template_materializes_script_bindings() {
    let template = obj(vec![(
        "body_lines",
        JsonValue::Array(vec![
            JsonValue::Str("Yaw: {{camera.yaw}}".to_string()),
            JsonValue::Str("Position: {{camera.x}}, {{camera.y}}, {{camera.z}}".to_string()),
        ]),
    )]);
    let mut bindings = StrMap::new();
    bindings.insert("camera.yaw".to_string(), "32.10°".to_string());
    bindings.insert("camera.x".to_string(), "4.200".to_string());
    bindings.insert("camera.y".to_string(), "3.000".to_string());
    bindings.insert("camera.z".to_string(), "6.000".to_string());

    let materialized = materialize_template(&template, &bindings);
    let lines = match materialized.get("body_lines") {
        Some(JsonValue::Array(items)) => items,
        _ => panic!("body_lines must stay an array"),
    };
    assert_eq!(lines[0].as_str(), Some("Yaw: 32.10°"));
    assert_eq!(lines[1].as_str(), Some("Position: 4.200, 3.000, 6.000"));
}

#[test]
fn template_walk_keeps_non_strings_and_keys() {
    let template = obj(vec![
        ("{{a}}", JsonValue::Number(JsonNumber::PosInt(7))),
        ("flag", JsonValue::Bool(true)),
        ("nested", obj(vec![("title", JsonValue::Str("{{a}}!".to_string()))])),
        ("none", JsonValue::Null),
    ]);
    let mut bindings = StrMap::new();
    bindings.insert("a".to_string(), "x".to_string());
    let r = materialize_template(&template, &bindings);
    assert!(matches!(r.get("{{a}}"), Some(JsonValue::Number(JsonNumber::PosInt(7)))));
    assert!(matches!(r.get("flag"), Some(JsonValue::Bool(true))));
    assert!(matches!(r.get("none"), Some(JsonValue::Null)));
    assert_eq!(r.get("nested").and_then(|n| n.get("title")).and_then(|t| t.as_str()), Some("x!"));
}
