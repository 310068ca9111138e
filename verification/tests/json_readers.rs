use newviso::json::{JsonNumber, JsonValue};
use newviso::readers::{
    command_u64, event_codes, gamepad_button_events, GamepadButtonEvent, optional_bool, read_parent_id, read_visibility_mask, CommandFieldError,
    PhysicsFieldError,
};
use newviso::strmap::StrMap;

fn obj(pairs: Vec<(&str, JsonValue)>) -> JsonValue {
    let mut m = StrMap::new();
    for (k, v) in pairs {
        m.insert(k.to_string(), v);
    }
    JsonValue::Object(m)
}

fn num(n: u64) -> JsonValue {
    JsonValue::Number(JsonNumber::PosInt(n))
}

fn text(s: &str) -> JsonValue {
    JsonValue::Str(s.to_string())
}

#[test]
fn event_codes_extract_transition_codes() {
    let state = obj(vec![(
        "keys",
        obj(vec![("pressed", JsonValue::Array(vec![num(17), num(32), text("bad")]))]),
    )]);
    assert_eq!(event_codes(&state, "/keys/pressed"), vec![17, 32]);
}

#[test]
fn event_codes_are_empty_where_nothing_is_an_array() {
    let state = obj(vec![("keys", obj(vec![("pressed", num(3))]))]);
    assert_eq!(event_codes(&state, "/keys/pressed"), Vec::<u64>::new());
    assert_eq!(event_codes(&state, "/keys/released"), Vec::<u64>::new());
    assert_eq!(event_codes(&state, "keys"), Vec::<u64>::new());
}

#[test]
fn event_codes_skip_negative_and_fractional_numbers() {
    let list = JsonValue::Array(vec![
        JsonValue::Number(JsonNumber::NegInt(-1)),
        JsonValue::Number(JsonNumber::Float("0.5".to_string())),
        num(0),
        JsonValue::Bool(true),
        num(u64::MAX),
    ]);
    let state = obj(vec![("mouse", obj(vec![("pressed", list)]))]);
    assert_eq!(event_codes(&state, "/mouse/pressed"), vec![0, u64::MAX]);
}

#[test]
fn pointer_follows_escapes_and_indices() {
    let state = obj(vec![
        ("a/b", num(1)),
        ("m~n", num(2)),
        ("list", JsonValue::Array(vec![num(10), num(11)])),
        ("", num(3)),
    ]);
    assert_eq!(state.pointer("/a~1b").and_then(|v| v.as_u64()), Some(1));
    assert_eq!(state.pointer("/m~0n").and_then(|v| v.as_u64()), Some(2));
    assert_eq!(state.pointer("/list/1").and_then(|v| v.as_u64()), Some(11));
    assert_eq!(state.pointer("/").and_then(|v| v.as_u64()), Some(3));
    assert!(state.pointer("/list/01").is_none());
    assert!(state.pointer("/list/2").is_none());
    assert!(state.pointer("/list/+1").is_none());
    assert!(state.pointer("/missing").is_none());
    assert!(matches!(state.pointer(""), Some(JsonValue::Object(_))));
}

#[test]
fn command_u64_reports_index_and_key() {
    let command = obj(vec![("entity", num(42)), ("name", text("x"))]);
    assert_eq!(command_u64(&command, "entity", 3), Ok(42));
    assert_eq!(
        command_u64(&command, "name", 3),
        Err(CommandFieldError { index: 3, key: "name".to_string() })
    );
    assert_eq!(
        command_u64(&command, "parent", 5),
        Err(CommandFieldError { index: 5, key: "parent".to_string() })
    );
    assert!(command_u64(&num(1), "entity", 0).is_err());
}

#[test]
fn optional_bool_defaults_only_when_absent() {
    let body = obj(vec![("solid", JsonValue::Bool(false)), ("kinematic", num(1))]);
    assert_eq!(optional_bool(&body, "solid", true), Ok(false));
    assert_eq!(optional_bool(&body, "sensor", true), Ok(true));
    assert_eq!(optional_bool(&body, "sensor", false), Ok(false));
    assert_eq!(
        optional_bool(&body, "kinematic", false),
        Err(PhysicsFieldError { key: "kinematic".to_string() })
    );
}

#[test]
fn parent_id_is_read_from_three_places_in_order() {
    let direct = obj(vec![
        ("parent_id", num(7)),
        ("parent", obj(vec![("stable_id", num(8))])),
    ]);
    assert_eq!(read_parent_id(&direct), Some(7));
    let nested = obj(vec![
        ("parent_id", text("no")),
        ("parent", obj(vec![("stable_id", num(8))])),
    ]);
    assert_eq!(read_parent_id(&nested), Some(8));
    let plain = obj(vec![("parent", num(9))]);
    assert_eq!(read_parent_id(&plain), Some(9));
    let none = obj(vec![("parent", text("world"))]);
    assert_eq!(read_parent_id(&none), None);
    assert_eq!(read_parent_id(&JsonValue::Null), None);
}

#[test]
fn visibility_mask_is_read_from_record() {
    let record = obj(vec![(
        "visibility",
        obj(vec![
            (" Camera ", JsonValue::Bool(false)),
            ("script", JsonValue::Bool(true)),
            ("shadow", text("no")),
            ("  ", JsonValue::Bool(false)),
        ]),
    )]);
    let mask = read_visibility_mask(&record);
    assert!(!mask.visible_for("camera"));
    assert!(mask.visible_for("script"));
    assert!(mask.visible_for("shadow"));
    assert!(!mask.all_visible());
    assert_eq!(mask.raw().len(), 1);

    let empty = read_visibility_mask(&obj(vec![("visibility", num(0))]));
    assert!(empty.all_visible());
}

fn pad_event(id: &str, button: u64, pressed: bool) -> GamepadButtonEvent {
    GamepadButtonEvent { gamepad_id: id.to_string(), button, pressed }
}

#[test]
fn gamepad_events_follow_gamepad_order_pressed_before_released() {
    let state = obj(vec![(
        "gamepads",
        obj(vec![
            (
                "pad-b",
                obj(vec![
                    ("buttons_released", JsonValue::Array(vec![num(4)])),
                    ("buttons_pressed", JsonValue::Array(vec![num(1), text("x"), num(2)])),
                ]),
            ),
            ("pad-a", obj(vec![("buttons_pressed", JsonValue::Array(vec![num(9)]))])),
            ("pad-c", obj(vec![("buttons_pressed", num(5))])),
        ]),
    )]);
    assert_eq!(
        gamepad_button_events(&state),
        vec![
            pad_event("pad-a", 9, true),
            pad_event("pad-b", 1, true),
            pad_event("pad-b", 2, true),
            pad_event("pad-b", 4, false),
        ]
    );
}

#[test]
fn gamepad_events_are_empty_without_a_gamepads_object() {
    assert!(gamepad_button_events(&obj(vec![])).is_empty());
    assert!(gamepad_button_events(&obj(vec![("gamepads", JsonValue::Array(vec![]))])).is_empty());
    assert!(gamepad_button_events(&JsonValue::Null).is_empty());
}
