//! Readers of the JSON documents the runtime receives: input snapshots,
//! script commands and scene records.

use vstd::prelude::*;
use crate::json::{JsonValue, pointer_spec};
use crate::scene::VisibilityMask;
use crate::text::normalized_key;
use crate::strmap::sorted_pairs;

verus! {

/// The non-negative integers among `items`, in order.
pub open spec fn u64_items(items: Seq<JsonValue>) -> Seq<u64>
    decreases items.len(),
{
    if items.len() == 0 {
        Seq::empty()
    } else {
        let rest = u64_items(items.drop_last());
        match items.last().spec_as_u64() {
            Some(n) => rest.push(n),
            None => rest,
        }
    }
}

/// The codes listed at `pointer`: the non-negative integers of the array it
/// names, in order; none where it names no array.
pub open spec fn event_codes_spec(state: JsonValue, pointer: Seq<char>) -> Seq<u64> {
    match pointer_spec(state, pointer) {
        Some(JsonValue::Array(items)) => u64_items(items@),
        _ => Seq::empty(),
    }
}

/// The transition codes (keys, buttons) listed at `pointer` in an input
/// snapshot; entries that are not non-negative integers are skipped.
pub fn event_codes(state: &JsonValue, pointer: &str) -> (codes: Vec<u64>)
    ensures
        codes@ == event_codes_spec(*state, pointer@),
{
    let mut out: Vec<u64> = Vec::new();
    match state.pointer(pointer) {
        Some(JsonValue::Array(items)) => {
            let mut i: usize = 0;
            while i < items.len()
                invariant
                    i <= items@.len(),
                    out@ == u64_items(items@.take(i as int)),
                decreases items@.len() - i,
            {
                let item = &items[i];
                proof {
                    assert(items@.take(i + 1).drop_last() =~= items@.take(i as int));
                    assert(items@.take(i + 1).last() == items@[i as int]);
                }
                match item.as_u64() {
                    Some(n) => out.push(n),
                    None => {},
                }
                i = i + 1;
            }
            proof {
                assert(items@.take(items@.len() as int) =~= items@);
            }
        },
        _ => {},
    }
    out
}

/// A script command that lacks an unsigned integer field.
#[derive(Clone, Debug, PartialEq, Eq)]
pub struct CommandFieldError {
    pub index: usize,
    pub key: String,
}

/// The unsigned integer `key` of the `index`-th script command.
pub fn command_u64(value: &JsonValue, key: &str, index: usize) -> (r: Result<u64, CommandFieldError>)
    ensures
        match value.spec_get(key@) {
            Some(v) => match v.spec_as_u64() {
                Some(n) => r == Ok::<u64, CommandFieldError>(n),
                None => r matches Err(e) && e.index == index && e.key@ == key@,
            },
            None => r matches Err(e) && e.index == index && e.key@ == key@,
        },
{
    match value.get(key) {
        Some(v) => match v.as_u64() {
            Some(n) => Ok(n),
            None => Err(CommandFieldError { index, key: key.to_owned() }),
        },
        None => Err(CommandFieldError { index, key: key.to_owned() }),
    }
}

/// A physics field of the wrong type.
#[derive(Clone, Debug, PartialEq, Eq)]
pub struct PhysicsFieldError {
    pub key: String,
}

/// The boolean `key` of a physics command, `default` where it is absent.
pub fn optional_bool(value: &JsonValue, key: &str, default: bool) -> (r: Result<bool, PhysicsFieldError>)
    ensures
        match value.spec_get(key@) {
            Some(v) => match v.spec_as_bool() {
                Some(b) => r == Ok::<bool, PhysicsFieldError>(b),
                None => r matches Err(e) && e.key@ == key@,
            },
            None => r == Ok::<bool, PhysicsFieldError>(default),
        },
{
    match value.get(key) {
        Some(v) => match v.as_bool() {
            Some(b) => Ok(b),
            None => Err(PhysicsFieldError { key: key.to_owned() }),
        },
        None => Ok(default),
    }
}

pub open spec fn opt_u64(v: Option<JsonValue>) -> Option<u64> {
    match v {
        Some(x) => x.spec_as_u64(),
        None => None,
    }
}

/// The parent of a scene record: `parent_id`, else `parent.stable_id`, else
/// `parent`, whichever first is a non-negative integer.
pub open spec fn parent_id_spec(record: JsonValue) -> Option<u64> {
    if opt_u64(record.spec_get("parent_id"@)) is Some {
        opt_u64(record.spec_get("parent_id"@))
    } else if opt_u64(pointer_spec(record, "/parent/stable_id"@)) is Some {
        opt_u64(pointer_spec(record, "/parent/stable_id"@))
    } else {
        opt_u64(record.spec_get("parent"@))
    }
}

pub fn read_parent_id(record: &JsonValue) -> (r: Option<u64>)
    ensures
        r == parent_id_spec(*record),
{
    let a = match record.get("parent_id") {
        Some(v) => v.as_u64(),
        None => None,
    };
    if a.is_some() {
        return a;
    }
    let b = match record.pointer("/parent/stable_id") {
        Some(v) => v.as_u64(),
        None => None,
    };
    if b.is_some() {
        return b;
    }
    match record.get("parent") {
        Some(v) => v.as_u64(),
        None => None,
    }
}

/// The hidden channels after applying, in order, each boolean member of a
/// `visibility` object (other members are ignored).
pub open spec fn mask_fold(pairs: Seq<(Seq<char>, JsonValue)>) -> Set<Seq<char>>
    decreases pairs.len(),
{
    if pairs.len() == 0 {
        Set::empty()
    } else {
        let before = mask_fold(pairs.drop_last());
        let (channel, v) = pairs.last();
        let c = normalized_key(channel);
        match v.spec_as_bool() {
            Some(visible) => if c.len() == 0 {
                before
            } else if visible {
                before.remove(c)
            } else {
                before.insert(c)
            },
            None => before,
        }
    }
}

/// The visibility mask of a scene record, from its `visibility` object.
pub fn read_visibility_mask(record: &JsonValue) -> (mask: VisibilityMask)
    ensures
        match record.spec_get("visibility"@) {
            Some(JsonValue::Object(m)) => mask.hidden() == mask_fold(m.pairs()),
            _ => mask.hidden() == Set::<Seq<char>>::empty(),
        },
{
    let mut mask = VisibilityMask::new();
    match record.get("visibility") {
        Some(JsonValue::Object(m)) => {
            let n = m.len();
            let mut i: usize = 0;
            proof {
                assert(m.pairs().take(0) =~= Seq::<(Seq<char>, JsonValue)>::empty());
            }
            while i < n
                invariant
                    n == m.pairs().len(),
                    i <= n,
                    mask.hidden() == mask_fold(m.pairs().take(i as int)),
                decreases n - i,
            {
                let (channel, value) = m.entry(i);
                proof {
                    assert(m.pairs().take(i + 1).drop_last() =~= m.pairs().take(i as int));
                    assert(m.pairs().take(i + 1).last() == m.pairs()[i as int]);
                }
                match value.as_bool() {
                    Some(visible) => mask.set(channel.as_str(), visible),
                    None => {},
                }
                i = i + 1;
            }
            proof {
                assert(m.pairs().take(n as int) =~= m.pairs());
            }
        },
        _ => {},
    }
    mask
}

/// The non-negative integers of the array `key` of `v`; none where `v` has
/// no such array.
pub open spec fn member_u64s(v: JsonValue, key: Seq<char>) -> Seq<u64> {
    match v.spec_get(key) {
        Some(JsonValue::Array(items)) => u64_items(items@),
        _ => Seq::empty(),
    }
}

/// A gamepad button transition from an input snapshot.
#[derive(Clone, Debug, PartialEq, Eq)]
pub struct GamepadButtonEvent {
    pub gamepad_id: String,
    pub button: u64,
    pub pressed: bool,
}

/// A button event as plain values: gamepad, button, pressed.
pub open spec fn button_event_view(e: GamepadButtonEvent) -> (Seq<char>, u64, bool) {
    (e.gamepad_id@, e.button, e.pressed)
}

/// The events of one gamepad: its pressed buttons, then its released ones.
pub open spec fn pad_events(id: Seq<char>, pad: JsonValue) -> Seq<(Seq<char>, u64, bool)> {
    member_u64s(pad, "buttons_pressed"@).map_values(|b: u64| (id, b, true)) + member_u64s(
        pad,
        "buttons_released"@,
    ).map_values(|b: u64| (id, b, false))
}

/// The events of the gamepads in `pairs`, gamepad by gamepad.
pub open spec fn pads_events(pairs: Seq<(Seq<char>, JsonValue)>) -> Seq<(Seq<char>, u64, bool)>
    decreases pairs.len(),
{
    if pairs.len() == 0 {
        Seq::empty()
    } else {
        pads_events(pairs.drop_last()) + pad_events(pairs.last().0, pairs.last().1)
    }
}

/// The gamepad button transitions of an input snapshot, from its
/// `gamepads` object, in the order of the gamepad ids.
pub open spec fn gamepad_events_spec(state: JsonValue) -> Seq<(Seq<char>, u64, bool)> {
    match state.spec_get("gamepads"@) {
        Some(JsonValue::Object(m)) => pads_events(m.pairs()),
        _ => Seq::empty(),
    }
}

fn member_codes(v: &JsonValue, key: &str) -> (codes: Vec<u64>)
    ensures
        codes@ == member_u64s(*v, key@),
{
    let mut out: Vec<u64> = Vec::new();
    match v.get(key) {
        Some(JsonValue::Array(items)) => {
            let mut i: usize = 0;
            while i < items.len()
                invariant
                    i <= items@.len(),
                    out@ == u64_items(items@.take(i as int)),
                decreases items@.len() - i,
            {
                proof {
                    assert(items@.take(i + 1).drop_last() =~= items@.take(i as int));
                    assert(items@.take(i + 1).last() == items@[i as int]);
                }
                match items[i].as_u64() {
                    Some(n) => out.push(n),
                    None => {},
                }
                i = i + 1;
            }
            proof {
                assert(items@.take(items@.len() as int) =~= items@);
            }
        },
        _ => {},
    }
    out
}

fn push_button_events(out: &mut Vec<GamepadButtonEvent>, id: &String, buttons: &Vec<u64>, pressed: bool)
    ensures
        final(out)@.map_values(|e: GamepadButtonEvent| button_event_view(e)) == old(out)@.map_values(
            |e: GamepadButtonEvent| button_event_view(e),
        ) + buttons@.map_values(|b: u64| (id@, b, pressed)),
{
    let ghost start = out@;
    let mut i: usize = 0;
    while i < buttons.len()
        invariant
            i <= buttons@.len(),
            out@.map_values(|e: GamepadButtonEvent| button_event_view(e)) == start.map_values(
                |e: GamepadButtonEvent| button_event_view(e),
            ) + buttons@.take(i as int).map_values(|b: u64| (id@, b, pressed)),
        decreases buttons@.len() - i,
    {
        let ghost prev = out@;
        let ev = GamepadButtonEvent { gamepad_id: id.clone(), button: buttons[i], pressed };
        out.push(ev);
        proof {
            assert(out@.map_values(|e: GamepadButtonEvent| button_event_view(e)) =~= prev.map_values(
                |e: GamepadButtonEvent| button_event_view(e),
            ).push(button_event_view(ev)));
            assert(buttons@.take(i + 1) =~= buttons@.take(i as int).push(buttons@[i as int]));
            assert(buttons@.take(i + 1).map_values(|b: u64| (id@, b, pressed)) =~= buttons@.take(i as int).map_values(
                |b: u64| (id@, b, pressed),
            ).push((id@, buttons@[i as int], pressed)));
            assert(out@.map_values(|e: GamepadButtonEvent| button_event_view(e)) =~= start.map_values(
                |e: GamepadButtonEvent| button_event_view(e),
            ) + buttons@.take(i + 1).map_values(|b: u64| (id@, b, pressed)));
        }
        i = i + 1;
    }
    proof {
        assert(buttons@.take(i as int) =~= buttons@);
    }
}

/// The gamepad button transitions of an input snapshot: for each gamepad
/// of its `gamepads` object, in id order, the non-negative integers of
/// `buttons_pressed` then those of `buttons_released`.
pub fn gamepad_button_events(state: &JsonValue) -> (events: Vec<GamepadButtonEvent>)
    ensures
        events@.map_values(|e: GamepadButtonEvent| button_event_view(e)) == gamepad_events_spec(*state),
{
    let mut out: Vec<GamepadButtonEvent> = Vec::new();
    match state.get("gamepads") {
        Some(JsonValue::Object(m)) => {
            let n = m.len();
            let mut i: usize = 0;
            proof {
                assert(m.pairs().take(0) =~= Seq::<(Seq<char>, JsonValue)>::empty());
                assert(out@.map_values(|e: GamepadButtonEvent| button_event_view(e)) =~= Seq::<
                    (Seq<char>, u64, bool),
                >::empty());
            }
            while i < n
                invariant
                    n == m.pairs().len(),
                    i <= n,
                    out@.map_values(|e: GamepadButtonEvent| button_event_view(e)) == pads_events(
                        m.pairs().take(i as int),
                    ),
                decreases n - i,
            {
                let (id, pad) = m.entry(i);
                proof {
                    assert(m.pairs().take(i + 1).drop_last() =~= m.pairs().take(i as int));
                    assert(m.pairs().take(i + 1).last() == m.pairs()[i as int]);
                }
                let pressed = member_codes(pad, "buttons_pressed");
                let released = member_codes(pad, "buttons_released");
                push_button_events(&mut out, id, &pressed, true);
                push_button_events(&mut out, id, &released, false);
                proof {
                    assert(pads_events(m.pairs().take(i + 1)) =~= pads_events(m.pairs().take(i as int)) + pad_events(
                        id@,
                        *pad,
                    ));
                }
                i = i + 1;
            }
            proof {
                assert(m.pairs().take(n as int) =~= m.pairs());
            }
        },
        _ => {
            proof {
                assert(out@.map_values(|e: GamepadButtonEvent| button_event_view(e)) =~= Seq::<
                    (Seq<char>, u64, bool),
                >::empty());
            }
        },
    }
    out
}

} // verus!
