use newviso::clients::ScriptModuleSpec;
use newviso::json::{JsonNumber, JsonValue};
use newviso::scripting::{
    absorb_control, lifecycle_operation, merge_control, status_accepted, ScriptControl, ScriptEventQueue,
    MAX_SCRIPT_EVENT_QUEUE,
};
use newviso::strmap::StrMap;
use newviso::wire::ScriptResponseStatus;

fn obj(pairs: Vec<(&str, JsonValue)>) -> JsonValue {
    let mut m = StrMap::new();
    for (k, v) in pairs {
        m.insert(k.to_string(), v);
    }
    JsonValue::Object(m)
}

fn text(s: &str) -> JsonValue {
    JsonValue::Str(s.to_string())
}

fn num(n: u64) -> JsonValue {
    JsonValue::Number(JsonNumber::PosInt(n))
}

fn op_of(v: &JsonValue) -> Option<&str> {
    v.get("op").and_then(|x| x.as_str())
}

#[test]
fn control_merges_nested_exit_request() {
    let mut control = ScriptControl::default();
    merge_control(&mut control, obj(vec![("runtime", obj(vec![("exit_requested", JsonValue::Bool(true))]))]));
    assert!(control.exit_requested);
}

#[test]
fn control_collects_ui_bindings() {
    let mut control = ScriptControl::default();
    merge_control(
        &mut control,
        obj(vec![(
            "ui",
            obj(vec![(
                "bindings",
                obj(vec![("camera.yaw", text("32.10 deg")), ("camera.x", text("4.200"))]),
            )]),
        )]),
    );
    assert_eq!(control.ui_bindings.get("camera.yaw").and_then(|v| v.as_str()), Some("32.10 deg"));
}

#[test]
fn control_collects_nested_scene_commands() {
    let mut control = ScriptControl::default();
    merge_control(
        &mut control,
        obj(vec![(
            "scene",
            obj(vec![(
                "commands",
                JsonValue::Array(vec![
                    obj(vec![("op", text("scene.light.upsert")), ("id", text("world.light"))]),
                    obj(vec![("op", text("scene.entity.transform.set")), ("id", text("world.light"))]),
                ]),
            )]),
        )]),
    );
    assert_eq!(control.commands.len(), 2);
    assert_eq!(op_of(&control.commands[0]), Some("scene.light.upsert"));
}

#[test]
fn control_collects_generic_command_buffer_in_order() {
    let mut control = ScriptControl::default();
    merge_control(
        &mut control,
        obj(vec![(
            "commands",
            JsonValue::Array(vec![
                obj(vec![
                    ("op", text("scene.camera.set")),
                    ("position", JsonValue::Array(vec![num(0), num(1), num(2)])),
                ]),
                obj(vec![("op", text("platform.cursor.set")), ("captured", JsonValue::Bool(true))]),
            ]),
        )]),
    );
    assert_eq!(control.commands.len(), 2);
    assert_eq!(op_of(&control.commands[0]), Some("scene.camera.set"));
    assert_eq!(op_of(&control.commands[1]), Some("platform.cursor.set"));
}

#[test]
fn top_level_commands_come_before_scene_commands() {
    let mut control = ScriptControl::default();
    merge_control(
        &mut control,
        obj(vec![
            ("scene", obj(vec![("commands", JsonValue::Array(vec![obj(vec![("op", text("second"))])]))])),
            ("commands", JsonValue::Array(vec![obj(vec![("op", text("first"))])])),
            ("exit_requested", JsonValue::Bool(false)),
        ]),
    );
    assert!(!control.exit_requested);
    assert_eq!(control.commands.len(), 2);
    assert_eq!(op_of(&control.commands[0]), Some("first"));
    assert_eq!(op_of(&control.commands[1]), Some("second"));
}

#[test]
fn malformed_control_fields_are_ignored() {
    let mut control = ScriptControl::default();
    merge_control(
        &mut control,
        obj(vec![
            ("exit_requested", num(1)),
            ("commands", text("not a list")),
            ("ui", obj(vec![("bindings", JsonValue::Array(vec![]))])),
        ]),
    );
    assert!(!control.exit_requested);
    assert!(control.commands.is_empty());
    assert!(control.ui_bindings.is_empty());
    merge_control(&mut control, JsonValue::Null);
    assert!(!control.exit_requested);
}

#[test]
fn exit_request_is_sticky_and_later_bindings_win() {
    let mut control = ScriptControl::default();
    merge_control(
        &mut control,
        obj(vec![
            ("exit_requested", JsonValue::Bool(true)),
            ("ui", obj(vec![("bindings", obj(vec![("hp", num(1)), ("mp", num(5))]))])),
        ]),
    );
    merge_control(&mut control, obj(vec![("ui", obj(vec![("bindings", obj(vec![("hp", num(2))]))]))]));
    assert!(control.exit_requested);
    assert_eq!(control.ui_bindings.get("hp").and_then(|v| v.as_u64()), Some(2));
    assert_eq!(control.ui_bindings.get("mp").and_then(|v| v.as_u64()), Some(5));
}

#[test]
fn absorbing_appends_commands_and_merges_bindings() {
    let mut total = ScriptControl::default();
    merge_control(&mut total, obj(vec![("commands", JsonValue::Array(vec![num(1)]))]));
    let mut part = ScriptControl::default();
    merge_control(
        &mut part,
        obj(vec![
            ("commands", JsonValue::Array(vec![num(2), num(3)])),
            ("runtime", obj(vec![("exit_requested", JsonValue::Bool(true))])),
            ("ui", obj(vec![("bindings", obj(vec![("k", text("v"))]))])),
        ]),
    );
    absorb_control(&mut total, part);
    assert!(total.exit_requested);
    let codes: Vec<u64> = total.commands.iter().filter_map(|v| v.as_u64()).collect();
    assert_eq!(codes, vec![1, 2, 3]);
    assert_eq!(total.ui_bindings.get("k").and_then(|v| v.as_str()), Some("v"));
}

#[test]
fn lifecycle_phases_pick_their_hook() {
    let spec = ScriptModuleSpec {
        asset: "scripts/main.ysc".to_string(),
        on_start: Some("boot".to_string()),
        on_frame: Some("tick".to_string()),
        on_event: Some("handle".to_string()),
        on_shutdown: None,
        permissions: Vec::new(),
    };
    assert_eq!(lifecycle_operation(&spec, "start").map(|s| s.as_str()), Some("boot"));
    assert_eq!(lifecycle_operation(&spec, "frame").map(|s| s.as_str()), Some("tick"));
    assert_eq!(lifecycle_operation(&spec, "shutdown"), None);
    assert_eq!(lifecycle_operation(&spec, "event"), None);
}

#[test]
fn only_ok_and_empty_responses_are_accepted() {
    assert!(status_accepted(ScriptResponseStatus::Success));
    assert!(status_accepted(ScriptResponseStatus::Empty));
    assert!(!status_accepted(ScriptResponseStatus::Rejected));
    assert!(!status_accepted(ScriptResponseStatus::InvalidRequest));
    assert!(!status_accepted(ScriptResponseStatus::ProviderError));
}

#[test]
fn event_queue_drops_oldest_when_full() {
    let mut queue = ScriptEventQueue::new();
    for i in 0..(MAX_SCRIPT_EVENT_QUEUE + 3) {
        queue.push(i);
    }
    let (dropped, events) = queue.drain();
    assert_eq!(dropped, 3);
    assert_eq!(events.len(), MAX_SCRIPT_EVENT_QUEUE);
    assert_eq!(events[0], 3);
    assert_eq!(*events.last().unwrap(), MAX_SCRIPT_EVENT_QUEUE + 2);
    let (dropped_again, none) = queue.drain();
    assert_eq!(dropped_again, 0);
    assert!(none.is_empty());
}

#[test]
fn event_queue_keeps_order_below_capacity() {
    let mut queue = ScriptEventQueue::new();
    queue.push("a");
    queue.push("b");
    assert_eq!(queue.drain(), (0, vec!["a", "b"]));
}
