//! The engine commands that project scripts emit, decoded from their JSON
//! form. Commands whose fields are numbers with fractions (positions,
//! colours, times) are recognized here and decoded by the runtime itself.

use vstd::prelude::*;
use crate::json::JsonValue;
use crate::strmap::StrMap;
use crate::text::{compare_str, KeyOrder};

verus! {

/// The text of the string member `key`.
pub open spec fn str_member(v: JsonValue, key: Seq<char>) -> Option<Seq<char>> {
    match v.spec_get(key) {
        Some(x) => x.spec_as_str(),
        None => None,
    }
}

/// The non-negative integer member `key`.
pub open spec fn u64_member(v: JsonValue, key: Seq<char>) -> Option<u64> {
    match v.spec_get(key) {
        Some(x) => x.spec_as_u64(),
        None => None,
    }
}

/// The boolean member `key`.
pub open spec fn bool_member(v: JsonValue, key: Seq<char>) -> Option<bool> {
    match v.spec_get(key) {
        Some(x) => x.spec_as_bool(),
        None => None,
    }
}

fn get_string(v: &JsonValue, key: &str) -> (r: Option<String>)
    ensures
        match str_member(*v, key@) {
            Some(s) => r matches Some(x) && x@ == s,
            None => r is None,
        },
{
    match v.get(key) {
        Some(x) => match x.as_str() {
            Some(s) => Some(s.to_owned()),
            None => None,
        },
        None => None,
    }
}

fn get_u64(v: &JsonValue, key: &str) -> (r: Option<u64>)
    ensures
        r == u64_member(*v, key@),
{
    match v.get(key) {
        Some(x) => x.as_u64(),
        None => None,
    }
}

fn get_bool(v: &JsonValue, key: &str) -> (r: Option<bool>)
    ensures
        r == bool_member(*v, key@),
{
    match v.get(key) {
        Some(x) => x.as_bool(),
        None => None,
    }
}

fn same(a: &str, b: &str) -> (r: bool)
    ensures
        r == (a@ == b@),
{
    compare_str(a, b) == KeyOrder::Equal
}

/// When an emitted event is delivered relative to the engine's own handling.
#[derive(Clone, Copy, Debug, PartialEq, Eq, Structural)]
pub enum EventPhase {
    Before,
    After,
    Observe,
}

/// The phase named `name`.
pub open spec fn phase_named(name: Seq<char>) -> Option<EventPhase> {
    if name == "before"@ {
        Some(EventPhase::Before)
    } else if name == "after"@ {
        Some(EventPhase::After)
    } else if name == "observe"@ {
        Some(EventPhase::Observe)
    } else {
        None
    }
}

/// Each event phase has exactly one name: `before`, `after` and `observe`;
/// no other name gives a phase.
pub proof fn lemma_phase_names(name: Seq<char>)
    ensures
        (phase_named(name) == Some(EventPhase::Before)) == (name == "before"@),
        (phase_named(name) == Some(EventPhase::After)) == (name == "after"@),
        (phase_named(name) == Some(EventPhase::Observe)) == (name == "observe"@),
        phase_named(name) is Some <==> (name == "before"@ || name == "after"@ || name == "observe"@),
{
    reveal_strlit("before");
    reveal_strlit("after");
    reveal_strlit("observe");
    assert("before"@.len() == 6 && "after"@.len() == 5 && "observe"@.len() == 7);
}

/// The kinds of records that a script removes by id.
#[derive(Clone, Copy, Debug, PartialEq, Eq, Structural)]
pub enum RecordKind {
    Observer,
    Actor,
    Process,
    Fact,
    ScheduledEvent,
    ScenarioReservation,
    NavNode,
    NavEdge,
    Travel,
    ActorPresentation,
    PopulationChannel,
    Zone,
    ModelSet,
    ScenarioPoint,
    Stimulus,
    SkyVisual,
    LensFlare,
}

/// The record that a removal command names, and the field holding its id.
pub open spec fn record_removal(op: Seq<char>) -> Option<(RecordKind, Seq<char>)> {
    if op == "world.observer.remove"@ {
        Some((RecordKind::Observer, "id"@))
    } else if op == "world.actor.remove"@ {
        Some((RecordKind::Actor, "id"@))
    } else if op == "world.process.remove"@ {
        Some((RecordKind::Process, "id"@))
    } else if op == "world.fact.remove"@ {
        Some((RecordKind::Fact, "key"@))
    } else if op == "world.event.cancel"@ {
        Some((RecordKind::ScheduledEvent, "id"@))
    } else if op == "world.scenario.release"@ {
        Some((RecordKind::ScenarioReservation, "id"@))
    } else if op == "world.navigation.node.remove"@ {
        Some((RecordKind::NavNode, "id"@))
    } else if op == "world.navigation.edge.remove"@ {
        Some((RecordKind::NavEdge, "id"@))
    } else if op == "world.travel.cancel"@ {
        Some((RecordKind::Travel, "actor_id"@))
    } else if op == "world.actor.presentation.unbind"@ {
        Some((RecordKind::ActorPresentation, "actor_id"@))
    } else if op == "world.population.channel.remove"@ {
        Some((RecordKind::PopulationChannel, "id"@))
    } else if op == "world.zone.remove"@ {
        Some((RecordKind::Zone, "id"@))
    } else if op == "world.model_set.remove"@ {
        Some((RecordKind::ModelSet, "id"@))
    } else if op == "world.scenario_point.remove"@ {
        Some((RecordKind::ScenarioPoint, "id"@))
    } else if op == "world.stimulus.clear"@ {
        Some((RecordKind::Stimulus, "id"@))
    } else if op == "scene.sky_visual.remove"@ {
        Some((RecordKind::SkyVisual, "id"@))
    } else if op == "scene.lens_flare.remove"@ {
        Some((RecordKind::LensFlare, "id"@))
    } else {
        None
    }
}

/// Distinct removal commands remove distinct kinds of records: two
/// commands that remove the same kind of record are the same command.
pub proof fn lemma_record_removal_distinct(a: Seq<char>, b: Seq<char>)
    requires
        record_removal(a) is Some,
        record_removal(b) is Some,
        record_removal(a).unwrap().0 == record_removal(b).unwrap().0,
    ensures
        a == b,
{
}

fn removal_target(op: &str) -> (r: Option<(RecordKind, &'static str)>)
    ensures
        match record_removal(op@) {
            Some((k, f)) => r matches Some((k2, f2)) && k2 == k && f2@ == f,
            None => r is None,
        },
{
    if same(op, "world.observer.remove") {
        Some((RecordKind::Observer, "id"))
    } else if same(op, "world.actor.remove") {
        Some((RecordKind::Actor, "id"))
    } else if same(op, "world.process.remove") {
        Some((RecordKind::Process, "id"))
    } else if same(op, "world.fact.remove") {
        Some((RecordKind::Fact, "key"))
    } else if same(op, "world.event.cancel") {
        Some((RecordKind::ScheduledEvent, "id"))
    } else if same(op, "world.scenario.release") {
        Some((RecordKind::ScenarioReservation, "id"))
    } else if same(op, "world.navigation.node.remove") {
        Some((RecordKind::NavNode, "id"))
    } else if same(op, "world.navigation.edge.remove") {
        Some((RecordKind::NavEdge, "id"))
    } else if same(op, "world.travel.cancel") {
        Some((RecordKind::Travel, "actor_id"))
    } else if same(op, "world.actor.presentation.unbind") {
        Some((RecordKind::ActorPresentation, "actor_id"))
    } else if same(op, "world.population.channel.remove") {
        Some((RecordKind::PopulationChannel, "id"))
    } else if same(op, "world.zone.remove") {
        Some((RecordKind::Zone, "id"))
    } else if same(op, "world.model_set.remove") {
        Some((RecordKind::ModelSet, "id"))
    } else if same(op, "world.scenario_point.remove") {
        Some((RecordKind::ScenarioPoint, "id"))
    } else if same(op, "world.stimulus.clear") {
        Some((RecordKind::Stimulus, "id"))
    } else if same(op, "scene.sky_visual.remove") {
        Some((RecordKind::SkyVisual, "id"))
    } else if same(op, "scene.lens_flare.remove") {
        Some((RecordKind::LensFlare, "id"))
    } else {
        None
    }
}

/// The commands whose fields the runtime decodes itself.
pub open spec fn engine_op(op: Seq<char>) -> bool {
    ||| op == "physics.world.configure"@
    ||| op == "physics.body.upsert"@
    ||| op == "physics.body.impulse"@
    ||| op == "scene.clear_color.set"@
    ||| op == "scene.environment.set"@
    ||| op == "scene.orbit.configure"@
    ||| op == "scene.sky.time.set"@
    ||| op == "scene.sky.time_scale.set"@
    ||| op == "scene.timecycle.state.set"@
    ||| op == "scene.weather.state.set"@
    ||| op == "world.clock.configure"@
    ||| op == "world.clock.set"@
    ||| op == "world.simulation.configure"@
    ||| op == "world.observer.upsert"@
    ||| op == "world.actor.upsert"@
    ||| op == "world.process.upsert"@
    ||| op == "world.event.schedule"@
    ||| op == "world.reality.record"@
    ||| op == "world.scenario.reserve"@
    ||| op == "world.navigation.node.upsert"@
    ||| op == "world.navigation.edge.upsert"@
    ||| op == "world.travel.start"@
    ||| op == "world.actor.presentation.bind"@
    ||| op == "world.population.channel.upsert"@
    ||| op == "world.population.streaming.configure"@
    ||| op == "world.zone.upsert"@
    ||| op == "world.model_set.upsert"@
    ||| op == "world.scenario_point.upsert"@
    ||| op == "world.relationship.set"@
    ||| op == "world.stimulus.emit"@
    ||| op == "scene.light.upsert"@
    ||| op == "scene.sky_visual.upsert"@
    ||| op == "scene.sky.atmosphere.set"@
    ||| op == "scene.sky_clouds.set"@
    ||| op == "scene.lens_flare.upsert"@
    ||| op == "scene.entity.transform.set"@
    ||| op == "scene.camera.set"@
    ||| op == "scene.transient_spheres.set"@
    ||| op == "scene.overlay_quads.set"@
}

fn is_engine_op(op: &str) -> (b: bool)
    ensures
        b == engine_op(op@),
{
    same(op, "physics.world.configure") || same(op, "physics.body.upsert") || same(op, "physics.body.impulse")
        || same(op, "scene.clear_color.set") || same(op, "scene.environment.set") || same(op, "scene.orbit.configure")
        || same(op, "scene.sky.time.set") || same(op, "scene.sky.time_scale.set") || same(op, "scene.timecycle.state.set")
        || same(op, "scene.weather.state.set") || same(op, "world.clock.configure") || same(op, "world.clock.set")
        || same(op, "world.simulation.configure") || same(op, "world.observer.upsert") || same(op, "world.actor.upsert")
        || same(op, "world.process.upsert") || same(op, "world.event.schedule") || same(op, "world.reality.record")
        || same(op, "world.scenario.reserve") || same(op, "world.navigation.node.upsert") || same(
        op,
        "world.navigation.edge.upsert",
    ) || same(op, "world.travel.start") || same(op, "world.actor.presentation.bind") || same(
        op,
        "world.population.channel.upsert",
    ) || same(op, "world.population.streaming.configure") || same(op, "world.zone.upsert") || same(
        op,
        "world.model_set.upsert",
    ) || same(op, "world.scenario_point.upsert") || same(op, "world.relationship.set") || same(op, "world.stimulus.emit")
        || same(op, "scene.light.upsert") || same(op, "scene.sky_visual.upsert") || same(op, "scene.sky.atmosphere.set")
        || same(op, "scene.sky_clouds.set") || same(op, "scene.lens_flare.upsert") || same(op, "scene.entity.transform.set")
        || same(op, "scene.camera.set") || same(op, "scene.transient_spheres.set") || same(op, "scene.overlay_quads.set")
}

/// A decoded script command.
pub enum ScriptCommand {
    /// Publish an event on the host bus.
    EmitEvent {
        topic: String,
        source: String,
        payload: JsonValue,
        cancelable: bool,
        phase: EventPhase,
        metadata: StrMap<JsonValue>,
    },
    /// Ask for the cursor to be captured or released.
    SetCursorCaptured { captured: bool },
    /// Destroy the physics body of an entity.
    DestroyPhysicsBody { entity: u64 },
    /// Claim or release a process reason for an entity, as the project script.
    SetProcessClaim { entity: u64, reason: String, active: bool },
    /// Show or hide a visibility channel of an entity.
    SetEntityVisibility { entity: u64, channel: String, visible: bool },
    /// Remove a runtime entity; with `if_exists`, a missing one is no error.
    RemoveRuntimeEntity { id: String, if_exists: bool },
    /// Set a world fact, with the id of the event that caused it.
    SetFact { key: String, value: JsonValue, cause: Option<String> },
    /// Remove the record of `kind` with this id.
    RemoveRecord { kind: RecordKind, id: String },
    /// Remove the relationship rule between two groups, and the reverse one.
    RemoveRelationship { source_group: String, target_group: String, reciprocal: bool },
    /// A command that the runtime decodes itself.
    Engine { op: String },
}

/// What a missing or mistyped command field should have been.
#[derive(Clone, Copy, Debug, PartialEq, Eq, Structural)]
pub enum FieldKind {
    Text,
    UnsignedInteger,
    Boolean,
    /// Required, of the kind its command documents.
    Present,
}

/// Why a script command was refused; `index` is its position in the buffer.
#[derive(Clone, Debug, PartialEq, Eq)]
pub enum CommandError {
    /// The command has no string `op`.
    MissingOp { index: usize },
    /// A required field is missing or of another kind.
    Field { index: usize, op: String, field: String, expected: FieldKind },
    /// An event phase other than `before`, `after` and `observe`.
    InvalidPhase { index: usize, phase: String },
    /// A fact's `cause` that is neither a string nor null.
    CauseNotText { index: usize },
    /// An `op` that no engine capability handles.
    Unsupported { index: usize, op: String },
}

/// `r` reports the field `field` of `op` as missing.
pub open spec fn field_error(
    r: Result<ScriptCommand, CommandError>,
    index: usize,
    op: Seq<char>,
    field: Seq<char>,
    expected: FieldKind,
) -> bool {
    r matches Err(CommandError::Field { index: i, op: o, field: f, expected: e }) && i == index && o@ == op && f@ == field
        && e == expected
}

/// The metadata of an emitted event: the `metadata` object of the command,
/// with `script_echo: false` where it does not say otherwise.
pub open spec fn emit_metadata(command: JsonValue) -> Map<Seq<char>, JsonValue> {
    let base = match command.spec_get("metadata"@) {
        Some(JsonValue::Object(m)) => m@,
        _ => Map::empty(),
    };
    if base.contains_key("script_echo"@) {
        base
    } else {
        base.insert("script_echo"@, JsonValue::Bool(false))
    }
}

/// A member, or `null` where it is missing.
pub open spec fn member_or_null(command: JsonValue, key: Seq<char>) -> JsonValue {
    match command.spec_get(key) {
        Some(v) => v,
        None => JsonValue::Null,
    }
}

/// How `events.emit` decodes.
pub open spec fn emit_decoded(command: JsonValue, index: usize, r: Result<ScriptCommand, CommandError>) -> bool {
    match str_member(command, "topic"@) {
        None => field_error(r, index, "events.emit"@, "topic"@, FieldKind::Text),
        Some(topic) => {
            let phase_text = match str_member(command, "phase"@) {
                Some(p) => p,
                None => "observe"@,
            };
            match phase_named(phase_text) {
                None => r matches Err(CommandError::InvalidPhase { index: i, phase: p }) && i == index && p@ == phase_text,
                Some(phase) => r matches Ok(
                    ScriptCommand::EmitEvent { topic: t, source: s, payload: pl, cancelable: c, phase: ph, metadata: md },
                ) && t@ == topic && s@ == (match str_member(command, "source"@) {
                    Some(x) => x,
                    None => "project.script"@,
                }) && pl == member_or_null(command, "payload"@) && c == (bool_member(command, "cancelable"@) == Some(true))
                    && ph == phase && md@ == emit_metadata(command),
            }
        },
    }
}

/// The cause of a fact: absent, or `null`, is none; a string is one; any
/// other value is refused.
pub open spec fn fact_cause(command: JsonValue) -> Option<Option<Seq<char>>> {
    match command.spec_get("cause"@) {
        None => Some(None),
        Some(JsonValue::Null) => Some(None),
        Some(JsonValue::Str(s)) => Some(Some(s@)),
        Some(_) => None,
    }
}

/// How a command with a known `op` decodes.
pub open spec fn decodes(command: JsonValue, index: usize, op: Seq<char>, r: Result<ScriptCommand, CommandError>) -> bool {
    if op == "events.emit"@ {
        emit_decoded(command, index, r)
    } else if op == "platform.cursor.set"@ {
        match bool_member(command, "captured"@) {
            Some(c) => r matches Ok(ScriptCommand::SetCursorCaptured { captured }) && captured == c,
            None => field_error(r, index, op, "captured"@, FieldKind::Present),
        }
    } else if op == "physics.body.destroy"@ {
        match u64_member(command, "entity"@) {
            Some(e) => r matches Ok(ScriptCommand::DestroyPhysicsBody { entity }) && entity == e,
            None => field_error(r, index, op, "entity"@, FieldKind::UnsignedInteger),
        }
    } else if op == "scene.entity.process_claim.set"@ {
        match (u64_member(command, "entity"@), str_member(command, "reason"@), bool_member(command, "active"@)) {
            (None, _, _) => field_error(r, index, op, "entity"@, FieldKind::UnsignedInteger),
            (Some(_), None, _) => field_error(r, index, op, "reason"@, FieldKind::Text),
            (Some(_), Some(_), None) => field_error(r, index, op, "active"@, FieldKind::Boolean),
            (Some(e), Some(rs), Some(a)) => r matches Ok(ScriptCommand::SetProcessClaim { entity, reason, active })
                && entity == e && reason@ == rs && active == a,
        }
    } else if op == "scene.entity.visibility.set"@ {
        match (u64_member(command, "entity"@), str_member(command, "channel"@), bool_member(command, "visible"@)) {
            (None, _, _) => field_error(r, index, op, "entity"@, FieldKind::UnsignedInteger),
            (Some(_), None, _) => field_error(r, index, op, "channel"@, FieldKind::Text),
            (Some(_), Some(_), None) => field_error(r, index, op, "visible"@, FieldKind::Boolean),
            (Some(e), Some(c), Some(v)) => r matches Ok(ScriptCommand::SetEntityVisibility { entity, channel, visible })
                && entity == e && channel@ == c && visible == v,
        }
    } else if op == "scene.entity.remove"@ {
        match str_member(command, "id"@) {
            None => field_error(r, index, op, "id"@, FieldKind::Text),
            Some(id0) => r matches Ok(ScriptCommand::RemoveRuntimeEntity { id, if_exists }) && id@ == id0 && if_exists == (
            bool_member(command, "if_exists"@) == Some(true)),
        }
    } else if op == "world.fact.set"@ {
        match str_member(command, "key"@) {
            None => field_error(r, index, op, "key"@, FieldKind::Text),
            Some(k) => match fact_cause(command) {
                None => r matches Err(CommandError::CauseNotText { index: i }) && i == index,
                Some(c) => r matches Ok(ScriptCommand::SetFact { key, value, cause }) && key@ == k && value == member_or_null(
                    command,
                    "value"@,
                ) && cause.is_some() == c.is_some() && (cause matches Some(x) ==> x@ == c.unwrap()),
            },
        }
    } else if op == "world.relationship.remove"@ {
        match (str_member(command, "source_group"@), str_member(command, "target_group"@)) {
            (None, _) => field_error(r, index, op, "source_group"@, FieldKind::Text),
            (Some(_), None) => field_error(r, index, op, "target_group"@, FieldKind::Text),
            (Some(s), Some(t)) => r matches Ok(ScriptCommand::RemoveRelationship { source_group, target_group, reciprocal })
                && source_group@ == s && target_group@ == t && reciprocal == (bool_member(command, "reciprocal"@) == Some(true)),
        }
    } else if record_removal(op) is Some {
        let (kind, field) = record_removal(op).unwrap();
        match str_member(command, field) {
            None => field_error(r, index, op, field, FieldKind::Text),
            Some(id0) => r matches Ok(ScriptCommand::RemoveRecord { kind: k, id }) && k == kind && id@ == id0,
        }
    } else if engine_op(op) {
        r matches Ok(ScriptCommand::Engine { op: o }) && o@ == op
    } else {
        r matches Err(CommandError::Unsupported { index: i, op: o }) && i == index && o@ == op
    }
}

fn field_missing(index: usize, op: &str, field: &str, expected: FieldKind) -> (r: Result<ScriptCommand, CommandError>)
    ensures
        field_error(r, index, op@, field@, expected),
{
    Err(CommandError::Field { index, op: op.to_owned(), field: field.to_owned(), expected })
}

/// Moves the member `key` out of an object; `null` where there is none.
fn take_member(command: &mut JsonValue, key: &str) -> (v: JsonValue)
    ensures
        v == member_or_null(*old(command), key@),
        forall|k: Seq<char>| k != key@ ==> #[trigger] final(command).spec_get(k) == old(command).spec_get(k),
{
    match command {
        JsonValue::Object(m) => match m.remove(key) {
            Some(v) => v,
            None => JsonValue::Null,
        },
        _ => JsonValue::Null,
    }
}

/// Decodes the command at position `index` of a script's command buffer.
pub fn decode_script_command(command: JsonValue, index: usize) -> (r: Result<ScriptCommand, CommandError>)
    ensures
        match str_member(command, "op"@) {
            None => r == Err::<ScriptCommand, CommandError>(CommandError::MissingOp { index }),
            Some(op) => decodes(command, index, op, r),
        },
{
    let op = match get_string(&command, "op") {
        Some(op) => op,
        None => {
            return Err(CommandError::MissingOp { index });
        },
    };
    let op = op.as_str();
    if same(op, "events.emit") {
        let topic = match get_string(&command, "topic") {
            Some(t) => t,
            None => {
                return field_missing(index, op, "topic", FieldKind::Text);
            },
        };
        let source = match get_string(&command, "source") {
            Some(s) => s,
            None => "project.script".to_owned(),
        };
        let cancelable = match get_bool(&command, "cancelable") {
            Some(true) => true,
            _ => false,
        };
        let phase_text = match get_string(&command, "phase") {
            Some(p) => p,
            None => "observe".to_owned(),
        };
        let phase = if same(phase_text.as_str(), "before") {
            EventPhase::Before
        } else if same(phase_text.as_str(), "after") {
            EventPhase::After
        } else if same(phase_text.as_str(), "observe") {
            EventPhase::Observe
        } else {
            return Err(CommandError::InvalidPhase { index, phase: phase_text });
        };
        let ghost original = command;
        proof {
            reveal_strlit("payload");
            reveal_strlit("metadata");
            assert("payload"@.len() == 7 && "metadata"@.len() == 8);
            assert("payload"@ != "metadata"@);
        }
        let mut command = command;
        let payload = take_member(&mut command, "payload");
        let metadata_value = take_member(&mut command, "metadata");
        let mut metadata = match metadata_value {
            JsonValue::Object(m) => m,
            _ => StrMap::new(),
        };
        if !metadata.contains_key("script_echo") {
            metadata.insert("script_echo".to_owned(), JsonValue::Bool(false));
        }
        proof {
            assert(metadata@ =~= emit_metadata(original));
        }
        return Ok(ScriptCommand::EmitEvent { topic, source, payload, cancelable, phase, metadata });
    }
    if same(op, "platform.cursor.set") {
        return match get_bool(&command, "captured") {
            Some(captured) => Ok(ScriptCommand::SetCursorCaptured { captured }),
            None => field_missing(index, op, "captured", FieldKind::Present),
        };
    }
    if same(op, "physics.body.destroy") {
        return match get_u64(&command, "entity") {
            Some(entity) => Ok(ScriptCommand::DestroyPhysicsBody { entity }),
            None => field_missing(index, op, "entity", FieldKind::UnsignedInteger),
        };
    }
    if same(op, "scene.entity.process_claim.set") {
        let entity = match get_u64(&command, "entity") {
            Some(e) => e,
            None => {
                return field_missing(index, op, "entity", FieldKind::UnsignedInteger);
            },
        };
        let reason = match get_string(&command, "reason") {
            Some(s) => s,
            None => {
                return field_missing(index, op, "reason", FieldKind::Text);
            },
        };
        return match get_bool(&command, "active") {
            Some(active) => Ok(ScriptCommand::SetProcessClaim { entity, reason, active }),
            None => field_missing(index, op, "active", FieldKind::Boolean),
        };
    }
    if same(op, "scene.entity.visibility.set") {
        let entity = match get_u64(&command, "entity") {
            Some(e) => e,
            None => {
                return field_missing(index, op, "entity", FieldKind::UnsignedInteger);
            },
        };
        let channel = match get_string(&command, "channel") {
            Some(s) => s,
            None => {
                return field_missing(index, op, "channel", FieldKind::Text);
            },
        };
        return match get_bool(&command, "visible") {
            Some(visible) => Ok(ScriptCommand::SetEntityVisibility { entity, channel, visible }),
            None => field_missing(index, op, "visible", FieldKind::Boolean),
        };
    }
    if same(op, "scene.entity.remove") {
        let id = match get_string(&command, "id") {
            Some(s) => s,
            None => {
                return field_missing(index, op, "id", FieldKind::Text);
            },
        };
        let if_exists = match get_bool(&command, "if_exists") {
            Some(true) => true,
            _ => false,
        };
        return Ok(ScriptCommand::RemoveRuntimeEntity { id, if_exists });
    }
    if same(op, "world.fact.set") {
        let key = match get_string(&command, "key") {
            Some(s) => s,
            None => {
                return field_missing(index, op, "key", FieldKind::Text);
            },
        };
        let cause = match command.get("cause") {
            None => None,
            Some(JsonValue::Null) => None,
            Some(JsonValue::Str(s)) => Some(s.clone()),
            Some(_) => {
                return Err(CommandError::CauseNotText { index });
            },
        };
        let mut command = command;
        let value = take_member(&mut command, "value");
        return Ok(ScriptCommand::SetFact { key, value, cause });
    }
    if same(op, "world.relationship.remove") {
        let source_group = match get_string(&command, "source_group") {
            Some(s) => s,
            None => {
                return field_missing(index, op, "source_group", FieldKind::Text);
            },
        };
        let target_group = match get_string(&command, "target_group") {
            Some(s) => s,
            None => {
                return field_missing(index, op, "target_group", FieldKind::Text);
            },
        };
        let reciprocal = match get_bool(&command, "reciprocal") {
            Some(true) => true,
            _ => false,
        };
        return Ok(ScriptCommand::RemoveRelationship { source_group, target_group, reciprocal });
    }
    match removal_target(op) {
        Some((kind, field)) => {
            return match get_string(&command, field) {
                Some(id) => Ok(ScriptCommand::RemoveRecord { kind, id }),
                None => field_missing(index, op, field, FieldKind::Text),
            };
        },
        None => {},
    }
    if is_engine_op(op) {
        return Ok(ScriptCommand::Engine { op: op.to_owned() });
    }
    Err(CommandError::Unsupported { index, op: op.to_owned() })
}

/// The cursor capture after a script asks for `requested`: it is only held
/// while the window has focus. Returns the new state and whether it changed.
pub fn cursor_capture(previous: bool, requested: bool, window_focused: bool) -> (r: (bool, bool))
    ensures
        r.0 == (requested && window_focused),
        r.1 == (previous != r.0),
{
    let captured = requested && window_focused;
    (captured, previous != captured)
}

} // verus!
