use newviso::facts::{remove_fact, set_fact, FactChange, FactError, FactRecord};
use newviso::json::{JsonNumber, JsonValue};
use newviso::reality::RealityLog;
use newviso::strmap::StrMap;

fn whole(n: u64) -> JsonValue {
    JsonValue::Number(JsonNumber::PosInt(n))
}

fn float(text: &str) -> JsonValue {
    JsonValue::Number(JsonNumber::Float(text.to_string()))
}

fn number(v: &JsonValue) -> Option<JsonNumber> {
    match v {
        JsonValue::Number(n) => Some(n.clone()),
        _ => None,
    }
}

fn same(a: &Option<JsonValue>, b: &JsonValue) -> bool {
    match a {
        Some(v) => number(v).is_some() && number(v) == number(b),
        None => false,
    }
}

/// Records a fact change the way the world does.
fn record(log: &mut RealityLog<(&'static str, u64)>, kind: &'static str, change: &FactChange) {
    log.push(String::new(), (kind, change.revision));
}

#[test]
fn world_facts_keep_revision_and_time() {
    let mut facts: StrMap<FactRecord<f64>> = StrMap::new();
    let first = set_fact(&mut facts, "economy.index", float("12.0"), None, true, 0.0).ok().unwrap();
    assert_eq!(first.revision, 1);
    assert!(first.previous_value.is_none());
    let second = set_fact(&mut facts, "economy.index", float("13.0"), None, true, 0.1).ok().unwrap();
    assert_eq!(second.revision, 2);
    assert!(same(&second.previous_value, &float("12.0")));
    let stored = facts.get("economy.index").unwrap();
    assert_eq!(stored.revision, 2);
    assert!(same(&Some(float("13.0")), &stored.value));
    assert_eq!(stored.updated_at, 0.1);
}

#[test]
fn fact_removal_is_a_recorded_change_and_noop_removal_is_not() {
    let mut facts: StrMap<FactRecord<f64>> = StrMap::new();
    let mut log = RealityLog::new();
    let set = set_fact(&mut facts, "value", whole(7), None, true, 0.0).ok().unwrap();
    record(&mut log, "world.fact.changed", &set);
    log.deliver_pending();
    for _ in 0..2 {
        if let Some(change) = remove_fact(&mut facts, " value ") {
            assert_eq!(change.key, "value");
            assert!(same(&change.previous_value, &whole(7)));
            record(&mut log, "world.fact.removed", &change);
        }
    }
    log.deliver_pending();
    assert!(facts.is_empty());
    assert_eq!(log.frame_records().len(), 1);
    assert_eq!(log.frame_records()[0].detail, ("world.fact.removed", 1));
}

#[test]
fn facts_are_refused_with_bad_keys_causes_or_payloads() {
    let mut facts: StrMap<FactRecord<u32>> = StrMap::new();
    assert_eq!(set_fact(&mut facts, "  ", whole(1), None, true, 0).err(), Some(FactError::Key));
    assert_eq!(set_fact(&mut facts, "k", whole(1), Some(""), true, 0).err(), Some(FactError::Cause));
    assert_eq!(set_fact(&mut facts, "k", whole(1), Some("receipt"), false, 0).err(), Some(FactError::Payload));
    assert!(facts.is_empty());
    let long = "x".repeat(129);
    assert_eq!(set_fact(&mut facts, &long, whole(1), None, true, 0).err(), Some(FactError::Key));
    assert!(set_fact(&mut facts, "k", whole(1), Some("receipt"), true, 0).is_ok());
    assert_eq!(facts.len(), 1);
}
