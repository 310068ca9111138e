//! World facts: named JSON values with a revision that counts their changes.
//! Setting or removing a fact yields the change the world records in its
//! reality history. The size of a payload once serialized is measured by
//! the JSON serializer and reaches this module as a flag; the time of a
//! change is the world clock's, carried as given.

use vstd::prelude::*;
use crate::json::JsonValue;
use crate::strmap::StrMap;
use crate::text::{trim_chars, trim_str};
use crate::world::{next_fact_revision, valid_label, valid_label_spec};

verus! {

/// A fact's value, its revision, and when it last changed.
pub struct FactRecord<W> {
    pub value: JsonValue,
    pub revision: u64,
    pub updated_at: W,
}

/// Why a fact could not be set.
#[derive(Clone, Copy, Debug, PartialEq, Eq, Structural)]
pub enum FactError {
    /// The key is not a valid label.
    Key,
    /// The cause is not a valid label.
    Cause,
    /// The value is too large once serialized.
    Payload,
}

/// A change of a fact, as the reality history records it.
pub struct FactChange {
    pub key: String,
    pub revision: u64,
    /// The value before the change, where the fact existed.
    pub previous_value: Option<JsonValue>,
}

/// The revision a fact takes when set over `previous`.
pub open spec fn revision_after(previous: Option<u64>) -> u64 {
    match previous {
        None => 1,
        Some(p) => if p == u64::MAX {
            1
        } else {
            (p + 1) as u64
        },
    }
}

/// Sets the fact `key` to `value` at time `now`. The key, then the cause
/// where there is one, must be valid labels, and the value must fit the
/// payload limit (`payload_fits`). The fact's revision is 1 when it is new
/// and counts up from its previous one otherwise; nothing changes where the
/// fact is refused.
pub fn set_fact<W>(
    facts: &mut StrMap<FactRecord<W>>,
    key: &str,
    value: JsonValue,
    cause: Option<&str>,
    payload_fits: bool,
    now: W,
) -> (r: Result<FactChange, FactError>)
    ensures
        !valid_label_spec(key@) ==> r == Err::<FactChange, FactError>(FactError::Key) && final(facts)@ == old(facts)@,
        valid_label_spec(key@) && (cause matches Some(c) && !valid_label_spec(c@)) ==> r == Err::<FactChange, FactError>(
            FactError::Cause,
        ) && final(facts)@ == old(facts)@,
        valid_label_spec(key@) && !(cause matches Some(c) && !valid_label_spec(c@)) && !payload_fits ==> r == Err::<
            FactChange,
            FactError,
        >(FactError::Payload) && final(facts)@ == old(facts)@,
        valid_label_spec(key@) && !(cause matches Some(c) && !valid_label_spec(c@)) && payload_fits ==> {
            let previous = if old(facts)@.contains_key(key@) {
                Some(old(facts)@[key@])
            } else {
                None
            };
            let revision = revision_after(
                match previous {
                    Some(p) => Some(p.revision),
                    None => None,
                },
            );
            &&& final(facts)@ == old(facts)@.insert(key@, FactRecord { value, revision, updated_at: now })
            &&& r matches Ok(change) && change.key@ == key@ && change.revision == revision && change.previous_value
                == match previous {
                Some(p) => Some(p.value),
                None => None,
            }
        },
{
    if !valid_label(key) {
        return Err(FactError::Key);
    }
    match cause {
        Some(c) => {
            if !valid_label(c) {
                return Err(FactError::Cause);
            }
        },
        None => {},
    }
    if !payload_fits {
        return Err(FactError::Payload);
    }
    let previous_revision = match facts.get(key) {
        Some(record) => Some(record.revision),
        None => None,
    };
    let revision = next_fact_revision(previous_revision);
    let previous = facts.insert(key.to_owned(), FactRecord { value, revision, updated_at: now });
    let previous_value = match previous {
        Some(record) => Some(record.value),
        None => None,
    };
    Ok(FactChange { key: key.to_owned(), revision, previous_value })
}

/// Removes the fact `key` (trimmed). Where it existed, the change names the
/// trimmed key, the fact's last revision and its last value; removing a fact
/// that does not exist changes nothing and is no change.
pub fn remove_fact<W>(facts: &mut StrMap<FactRecord<W>>, key: &str) -> (r: Option<FactChange>)
    ensures
        final(facts)@ == old(facts)@.remove(trim_chars(key@)),
        old(facts)@.contains_key(trim_chars(key@)) <==> r is Some,
        r matches Some(change) ==> {
            let record = old(facts)@[trim_chars(key@)];
            &&& change.key@ == trim_chars(key@)
            &&& change.revision == record.revision
            &&& change.previous_value == Some(record.value)
        },
{
    let key = trim_str(key);
    match facts.remove(key) {
        Some(record) => Some(FactChange { key: key.to_owned(), revision: record.revision, previous_value: Some(record.value) }),
        None => None,
    }
}

} // verus!
