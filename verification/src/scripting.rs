//! What the script runtime gathers from project scripts: the exit request,
//! UI bindings and the command buffer of each response, and the bounded queue
//! of host events that scripts see on their next run.

use vstd::prelude::*;
use std::collections::VecDeque;
use crate::json::JsonValue;
use crate::strmap::StrMap;
use crate::clients::ScriptModuleSpec;
use crate::wire::ScriptResponseStatus;

verus! {

// ---------------------------------------------------------------------------
// Script output.

/// Generic script output collected across all project modules. Commands are
/// opaque here: the runtime routes them to engine capabilities.
pub struct ScriptControl {
    pub exit_requested: bool,
    pub ui_bindings: StrMap<JsonValue>,
    pub commands: Vec<JsonValue>,
}

impl Default for ScriptControl {
    /// No exit request, no bindings, no commands.
    fn default() -> (c: Self)
        ensures
            !c.exit_requested,
            c.ui_bindings@ == Map::<Seq<char>, JsonValue>::empty(),
            c.commands@ == Seq::<JsonValue>::empty(),
    {
        ScriptControl { exit_requested: false, ui_bindings: StrMap::new(), commands: Vec::new() }
    }
}

/// The member `key` of an optional object.
pub open spec fn member(v: Option<JsonValue>, key: Seq<char>) -> Option<JsonValue> {
    match v {
        Some(x) => x.spec_get(key),
        None => None,
    }
}

/// An optional value that is the JSON `true`.
pub open spec fn is_true(v: Option<JsonValue>) -> bool {
    v matches Some(x) && x.spec_as_bool() == Some(true)
}

/// The items of an optional array; nothing for any other value.
pub open spec fn array_items(v: Option<JsonValue>) -> Seq<JsonValue> {
    match v {
        Some(JsonValue::Array(items)) => items@,
        _ => Seq::empty(),
    }
}

/// A response asks the engine to exit with `exit_requested: true`, at its top
/// level or under `runtime`.
pub open spec fn response_exit_request(value: JsonValue) -> bool {
    is_true(value.spec_get("exit_requested"@)) || is_true(member(value.spec_get("runtime"@), "exit_requested"@))
}

/// The members of the object under `ui.bindings`.
pub open spec fn response_ui_bindings(value: JsonValue) -> Map<Seq<char>, JsonValue> {
    match member(value.spec_get("ui"@), "bindings"@) {
        Some(JsonValue::Object(m)) => m@,
        _ => Map::empty(),
    }
}

/// The items of the array under `commands`, then those under `scene.commands`.
pub open spec fn response_commands(value: JsonValue) -> Seq<JsonValue> {
    array_items(value.spec_get("commands"@)) + array_items(member(value.spec_get("scene"@), "commands"@))
}

fn bool_member(value: &JsonValue, key: &str) -> (b: bool)
    ensures
        b == is_true(value.spec_get(key@)),
{
    match value.get(key) {
        Some(v) => match v.as_bool() {
            Some(x) => x,
            None => false,
        },
        None => false,
    }
}

/// Folds one script response into `control`: an exit request is kept once
/// made, bindings replace earlier ones of the same key, and commands are
/// appended in order, top-level `commands` before `scene.commands`.
pub fn merge_control(control: &mut ScriptControl, value: JsonValue)
    ensures
        final(control).exit_requested == (old(control).exit_requested || response_exit_request(value)),
        final(control).ui_bindings@ == old(control).ui_bindings@.union_prefer_right(response_ui_bindings(value)),
        final(control).commands@ == old(control).commands@ + response_commands(value),
{
    let direct = bool_member(&value, "exit_requested");
    let nested = match value.get("runtime") {
        Some(runtime) => bool_member(runtime, "exit_requested"),
        None => false,
    };
    if direct || nested {
        control.exit_requested = true;
    }
    proof {
        reveal_strlit("ui");
        reveal_strlit("commands");
        reveal_strlit("scene");
        assert("ui"@.len() == 2 && "commands"@.len() == 8 && "scene"@.len() == 5);
        assert("ui"@ != "commands"@ && "ui"@ != "scene"@ && "commands"@ != "scene"@);
        assert(old(control).ui_bindings@.union_prefer_right(Map::<Seq<char>, JsonValue>::empty()) =~= old(control).ui_bindings@);
    }
    let ghost original = value;
    match value {
        JsonValue::Object(mut m) => {
            let ghost m0 = m@;
            match m.remove("ui") {
                Some(JsonValue::Object(mut ui)) => match ui.remove("bindings") {
                    Some(JsonValue::Object(bindings)) => {
                        control.ui_bindings.append(bindings);
                    },
                    _ => {},
                },
                _ => {},
            }
            proof {
                assert(m@ == m0.remove("ui"@));
                assert(m@.contains_key("commands"@) == m0.contains_key("commands"@));
                assert(m@.contains_key("scene"@) == m0.contains_key("scene"@));
            }
            let ghost m1 = m@;
            match m.remove("commands") {
                Some(JsonValue::Array(mut items)) => {
                    control.commands.append(&mut items);
                },
                _ => {},
            }
            proof {
                assert(m@.contains_key("scene"@) == m1.contains_key("scene"@));
            }
            match m.remove("scene") {
                Some(JsonValue::Object(mut scene)) => match scene.remove("commands") {
                    Some(JsonValue::Array(mut items)) => {
                        control.commands.append(&mut items);
                    },
                    _ => {},
                },
                _ => {},
            }
            proof {
                assert(control.commands@ =~= old(control).commands@ + response_commands(original));
            }
        },
        _ => {
            proof {
                assert(control.commands@ =~= old(control).commands@ + response_commands(original));
            }
        },
    }
}

/// Adds the output of one module run to the output gathered so far.
pub fn absorb_control(target: &mut ScriptControl, source: ScriptControl)
    ensures
        final(target).exit_requested == (old(target).exit_requested || source.exit_requested),
        final(target).ui_bindings@ == old(target).ui_bindings@.union_prefer_right(source.ui_bindings@),
        final(target).commands@ == old(target).commands@ + source.commands@,
{
    let ScriptControl { exit_requested, ui_bindings, commands: mut commands } = source;
    target.exit_requested = target.exit_requested || exit_requested;
    target.ui_bindings.append(ui_bindings);
    target.commands.append(&mut commands);
}

// ---------------------------------------------------------------------------
// Lifecycle decisions.

/// The operation a module binds to a lifecycle phase: `on_start`, `on_frame`
/// or `on_shutdown`; no other phase has one.
pub open spec fn phase_operation(spec: ScriptModuleSpec, phase: Seq<char>) -> Option<String> {
    if phase == "start"@ {
        spec.on_start
    } else if phase == "frame"@ {
        spec.on_frame
    } else if phase == "shutdown"@ {
        spec.on_shutdown
    } else {
        None
    }
}

/// The start phase runs a module's `on_start`, the frame phase its
/// `on_frame` and the shutdown phase its `on_shutdown`, whatever the module;
/// every other phase runs nothing.
pub proof fn lemma_phase_operations(spec: ScriptModuleSpec, phase: Seq<char>)
    ensures
        phase_operation(spec, "start"@) == spec.on_start,
        phase_operation(spec, "frame"@) == spec.on_frame,
        phase_operation(spec, "shutdown"@) == spec.on_shutdown,
        !(phase == "start"@ || phase == "frame"@ || phase == "shutdown"@) ==> phase_operation(spec, phase) is None,
{
    reveal_strlit("start");
    reveal_strlit("frame");
    reveal_strlit("shutdown");
    assert("start"@[0] == 's' && "frame"@[0] == 'f' && "shutdown"@[1] == 'h' && "start"@[1] == 't');
}

pub fn lifecycle_operation<'a>(spec: &'a ScriptModuleSpec, phase: &str) -> (r: Option<&'a String>)
    ensures
        match phase_operation(*spec, phase@) {
            Some(op) => r matches Some(x) && *x == op,
            None => r is None,
        },
{
    let op: &Option<String> = if crate::text::compare_str(phase, "start") == crate::text::KeyOrder::Equal {
        &spec.on_start
    } else if crate::text::compare_str(phase, "frame") == crate::text::KeyOrder::Equal {
        &spec.on_frame
    } else if crate::text::compare_str(phase, "shutdown") == crate::text::KeyOrder::Equal {
        &spec.on_shutdown
    } else {
        return None;
    };
    match op {
        Some(x) => Some(x),
        None => None,
    }
}

/// A module run succeeded when the provider answered `Ok` or `Empty`; any
/// other status fails the whole phase.
pub fn status_accepted(status: ScriptResponseStatus) -> (b: bool)
    ensures
        b <==> (status is Success || status is Empty),
{
    match status {
        ScriptResponseStatus::Success | ScriptResponseStatus::Empty => true,
        _ => false,
    }
}

// ---------------------------------------------------------------------------
// The event queue.

/// How many host events wait for the next script run at most.
pub const MAX_SCRIPT_EVENT_QUEUE: usize = 4096;

/// Host events waiting for scripts, oldest first, and how many were dropped
/// to keep the queue within its capacity since the last drain.
pub struct ScriptEventQueue<E> {
    events: VecDeque<E>,
    dropped: u64,
}

impl<E> ScriptEventQueue<E> {
    #[verifier::type_invariant]
    spec fn within_capacity(self) -> bool {
        self.events@.len() <= MAX_SCRIPT_EVENT_QUEUE
    }

    /// The waiting events, oldest first.
    pub closed spec fn waiting(self) -> Seq<E> {
        self.events@
    }

    /// How many events were dropped since the last drain.
    pub closed spec fn dropped_count(self) -> u64 {
        self.dropped
    }

    pub fn new() -> (q: Self)
        ensures
            q.waiting() == Seq::<E>::empty(),
            q.dropped_count() == 0,
    {
        ScriptEventQueue { events: VecDeque::new(), dropped: 0 }
    }

    /// Queues an event; a full queue first drops its oldest event and counts
    /// it, saturating at `u64::MAX`.
    pub fn push(&mut self, event: E)
        ensures
            final(self).waiting().len() <= MAX_SCRIPT_EVENT_QUEUE,
            old(self).waiting().len() < MAX_SCRIPT_EVENT_QUEUE ==> {
                &&& final(self).waiting() == old(self).waiting().push(event)
                &&& final(self).dropped_count() == old(self).dropped_count()
            },
            old(self).waiting().len() >= MAX_SCRIPT_EVENT_QUEUE ==> {
                &&& final(self).waiting() == old(self).waiting().drop_first().push(event)
                &&& final(self).dropped_count() == if old(self).dropped_count() == u64::MAX {
                    u64::MAX
                } else {
                    (old(self).dropped_count() + 1) as u64
                }
            },
    {
        proof {
            use_type_invariant(&*self);
        }
        let mut events: VecDeque<E> = VecDeque::new();
        std::mem::swap(&mut events, &mut self.events);
        let mut dropped = self.dropped;
        if events.len() >= MAX_SCRIPT_EVENT_QUEUE {
            let _ = events.pop_front();
            dropped = dropped.saturating_add(1);
            proof {
                assert(events@ =~= old(self).events@.drop_first());
            }
        }
        events.push_back(event);
        self.events = events;
        self.dropped = dropped;
    }

    /// Takes every waiting event, oldest first, and the dropped count, and
    /// leaves the queue empty with nothing counted.
    pub fn drain(&mut self) -> (r: (u64, Vec<E>))
        ensures
            r.0 == old(self).dropped_count(),
            r.1@ == old(self).waiting(),
            final(self).waiting() == Seq::<E>::empty(),
            final(self).dropped_count() == 0,
    {
        let mut events: VecDeque<E> = VecDeque::new();
        std::mem::swap(&mut events, &mut self.events);
        let dropped = self.dropped;
        self.dropped = 0;
        let ghost all = events@;
        let mut out: Vec<E> = Vec::new();
        while events.len() > 0
            invariant
                out@ + events@ == all,
            decreases events@.len(),
        {
            let ghost before = events@;
            match events.pop_front() {
                Some(e) => {
                    out.push(e);
                    proof {
                        assert(out@ + events@ =~= all) by {
                            assert(before =~= seq![before[0]] + events@);
                        }
                    }
                },
                None => {},
            }
        }
        proof {
            assert(out@ =~= all);
        }
        (dropped, out)
    }
}

} // verus!
