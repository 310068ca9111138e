//! The stateless clients of engine services and the script module
//! descriptions the runtime loads.

use vstd::prelude::*;
use crate::wire::ScriptPermission;

verus! {

/// The marker of the UI service: it carries no state.
#[derive(Clone, Copy, Debug)]
pub struct UiClient;

impl UiClient {
    pub fn new() -> (c: Self)
        ensures
            c == UiClient,
    {
        UiClient
    }
}

/// A script module of a project: its asset, the operations bound to the
/// lifecycle hooks, and the permissions it is granted.
#[derive(Clone, Debug)]
pub struct ScriptModuleSpec {
    pub asset: String,
    pub on_start: Option<String>,
    pub on_frame: Option<String>,
    pub on_event: Option<String>,
    pub on_shutdown: Option<String>,
    pub permissions: Vec<ScriptPermission>,
}

} // verus!
