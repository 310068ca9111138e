use newviso::frame::{camera_navigation_enabled, frame_stages, surface_extent, FrameStages};
use newviso::json::JsonValue;
use newviso::strmap::StrMap;

fn obj(pairs: Vec<(&str, JsonValue)>) -> JsonValue {
    let mut m = StrMap::new();
    for (k, v) in pairs {
        m.insert(k.to_string(), v);
    }
    JsonValue::Object(m)
}

#[test]
fn no_frame_runs_before_the_window_is_ready() {
    assert_eq!(frame_stages(false, true, true, true), None);
}

#[test]
fn scripts_replace_native_camera_navigation() {
    assert_eq!(
        frame_stages(true, false, true, true),
        Some(FrameStages { ui: false, physics: true, scripts: true, native_navigation: false })
    );
    assert_eq!(
        frame_stages(true, true, false, false),
        Some(FrameStages { ui: true, physics: false, scripts: false, native_navigation: true })
    );
}

#[test]
fn surface_sides_are_at_least_one_pixel() {
    assert_eq!(surface_extent(0, 0), (1, 1));
    assert_eq!(surface_extent(1280, 0), (1280, 1));
    assert_eq!(surface_extent(800, 600), (800, 600));
}

#[test]
fn only_a_true_gate_closes_camera_navigation() {
    assert!(camera_navigation_enabled(None));
    assert!(camera_navigation_enabled(Some(&obj(vec![]))));
    assert!(camera_navigation_enabled(Some(&obj(vec![("camera_navigation_gated", JsonValue::Bool(false))]))));
    assert!(camera_navigation_enabled(Some(&obj(vec![("camera_navigation_gated", JsonValue::Null)]))));
    assert!(!camera_navigation_enabled(Some(&obj(vec![("camera_navigation_gated", JsonValue::Bool(true))]))));
}
