//! The decisions of one engine frame: which stages run, how large the
//! surface is taken to be, and whether camera navigation stays open.

use vstd::prelude::*;
use crate::json::JsonValue;

verus! {

/// The stages a frame runs, in this order: UI input and layout, the physics
/// step, then either the scripts (with the scene tick) or the engine's own
/// camera navigation.
#[derive(Clone, Copy, Debug, PartialEq, Eq, Structural)]
pub struct FrameStages {
    pub ui: bool,
    pub physics: bool,
    pub scripts: bool,
    pub native_navigation: bool,
}

/// The stages of a frame. Before the window is ready no frame runs; then
/// the UI runs when a UI template or a content manager is present, physics
/// when a physics world is, and the scripts when a script runtime is; the
/// engine's own camera navigation runs exactly when no scripts do.
pub fn frame_stages(ready: bool, has_ui: bool, has_physics: bool, has_scripts: bool) -> (r: Option<FrameStages>)
    ensures
        r is None <==> !ready,
        r matches Some(s) ==> s == (FrameStages {
            ui: has_ui,
            physics: has_physics,
            scripts: has_scripts,
            native_navigation: !has_scripts,
        }),
{
    if !ready {
        return None;
    }
    Some(FrameStages { ui: has_ui, physics: has_physics, scripts: has_scripts, native_navigation: !has_scripts })
}

/// The surface size that the UI and the scripts see: each side at least one
/// pixel.
pub fn surface_extent(width: u32, height: u32) -> (r: (u32, u32))
    ensures
        r.0 == if width == 0 { 1 } else { width },
        r.1 == if height == 0 { 1 } else { height },
{
    let w = if width == 0 { 1 } else { width };
    let h = if height == 0 { 1 } else { height };
    (w, h)
}

/// Whether the UI's input capture gates camera navigation: its member
/// `camera_navigation_gated` is `true`.
pub open spec fn navigation_gated(input_capture: Option<JsonValue>) -> bool {
    match input_capture {
        Some(c) => match c.spec_get("camera_navigation_gated"@) {
            Some(v) => v.spec_as_bool() == Some(true),
            None => false,
        },
        None => false,
    }
}

/// Camera navigation stays enabled unless this frame's UI gates it; a frame
/// without UI, or whose capture says nothing, leaves it enabled.
pub fn camera_navigation_enabled(input_capture: Option<&JsonValue>) -> (b: bool)
    ensures
        b == !navigation_gated(
            match input_capture {
                Some(c) => Some(*c),
                None => None,
            },
        ),
{
    match input_capture {
        Some(c) => match c.get("camera_navigation_gated") {
            Some(v) => match v.as_bool() {
                Some(gated) => !gated,
                None => true,
            },
            None => true,
        },
        None => true,
    }
}

} // verus!
