use newviso::reality::{
    advance_counter, counter_label, id_or_generated, RealityLog, RealityRecord,
    RealityRestoreError, MAX_REALITY_HISTORY,
};
use std::collections::BTreeSet;

#[test]
fn counter_labels_are_sixteen_lowercase_hex_digits() {
    assert_eq!(counter_label("reality.event.", 1), "reality.event.0000000000000001");
    assert_eq!(counter_label("stimulus.", 0xabc), "stimulus.0000000000000abc");
    assert_eq!(counter_label("", u64::MAX), "ffffffffffffffff");
    assert_eq!(counter_label("x", 0), "x0000000000000000");
    assert_eq!(
        counter_label("world.event.", 0x0123_4567_89ab_cdef),
        format!("world.event.{:016x}", 0x0123_4567_89ab_cdefu64)
    );
}

#[test]
fn counters_skip_zero_when_they_wrap() {
    assert_eq!(advance_counter(5), 6);
    assert_eq!(advance_counter(u64::MAX), 1);
    assert_eq!(advance_counter(0), 1);
}

#[test]
fn blank_ids_are_generated_and_others_kept() {
    assert_eq!(
        id_or_generated("  ".to_string(), "world.event.", 7),
        ("world.event.0000000000000007".to_string(), 8)
    );
    assert_eq!(
        id_or_generated("delivery".to_string(), "world.event.", 7),
        ("delivery".to_string(), 7)
    );
    assert_eq!(
        id_or_generated(String::new(), "stimulus.", u64::MAX),
        ("stimulus.ffffffffffffffff".to_string(), 1)
    );
}

#[test]
fn automatic_reality_ids_are_nonempty_unique_and_do_not_collide_with_explicit_ids() {
    let mut log: RealityLog<&str> = RealityLog::new();
    let explicit = log.push("reality.event.0000000000000001".to_string(), "generic");
    let fact = log.push(String::new(), "world.fact.changed");
    let delivery = log.push(" ".to_string(), "world.event.delivered");
    assert_eq!(explicit, "reality.event.0000000000000001");
    assert_eq!(fact, "reality.event.0000000000000002");
    assert_eq!(delivery, "reality.event.0000000000000003");
    let history = log.history_records();
    let ids: BTreeSet<&str> = history.iter().map(|r| r.id.as_str()).collect();
    assert_eq!(ids.len(), history.len());
    assert!(ids.iter().all(|id| !id.is_empty()));
    assert!(history.windows(2).all(|pair| pair[0].sequence < pair[1].sequence));
}

#[test]
fn allocation_skips_ids_in_pending_and_frame_events() {
    let mut log: RealityLog<u32> = RealityLog::new();
    log.push("reality.event.0000000000000002".to_string(), 1);
    log.deliver_pending();
    log.push("reality.event.0000000000000001".to_string(), 2);
    assert_eq!(log.allocate_id(), "reality.event.0000000000000003");
    assert_eq!(log.next_id_counter(), 4);
    assert_eq!(log.allocate_id(), "reality.event.0000000000000004");
}

#[test]
fn script_mutation_reaches_next_frame_exactly_once_even_without_fixed_step() {
    let mut log: RealityLog<i64> = RealityLog::new();
    log.deliver_pending();
    log.push(String::new(), 7);
    assert!(log.frame_records().is_empty());
    log.deliver_pending();
    assert_eq!(log.frame_records().len(), 1);
    assert_eq!(log.frame_records()[0].detail, 7);
    log.deliver_pending();
    assert!(log.frame_records().is_empty());
    assert_eq!(log.history_records().len(), 1);
}

#[test]
fn history_keeps_only_the_newest_events() {
    let mut log: RealityLog<usize> = RealityLog::new();
    for i in 0..MAX_REALITY_HISTORY + 2 {
        log.push(String::new(), i);
    }
    let history = log.history_records();
    assert_eq!(history.len(), MAX_REALITY_HISTORY);
    assert_eq!(history[0].detail, 2);
    assert_eq!(history[0].sequence, 3);
    assert_eq!(history[MAX_REALITY_HISTORY - 1].detail, MAX_REALITY_HISTORY + 1);
    assert_eq!(log.pending_records().len(), MAX_REALITY_HISTORY + 2);
    assert_eq!(log.next_sequence_number(), MAX_REALITY_HISTORY as u64 + 3);
}

fn record(sequence: u64, id: &str) -> RealityRecord<()> {
    RealityRecord { sequence, id: id.to_string(), detail: () }
}

#[test]
fn restore_accepts_ordered_history() {
    let log = RealityLog::restore(
        vec![record(1, "a"), record(4, "b")],
        vec![record(4, "b")],
        9,
        5,
    )
    .ok()
    .unwrap();
    assert_eq!(log.history_records().len(), 2);
    assert_eq!(log.pending_records().len(), 1);
    assert!(log.frame_records().is_empty());
    assert_eq!(log.next_id_counter(), 9);
    assert_eq!(log.next_sequence_number(), 5);
}

#[test]
fn restore_refuses_bad_counters_and_sequences() {
    let bad = |h: Vec<RealityRecord<()>>, p: Vec<RealityRecord<()>>, id: u64, seq: u64| {
        RealityLog::restore(h, p, id, seq).err().unwrap()
    };
    assert_eq!(bad(vec![], vec![], 0, 1), RealityRestoreError::CountersOrHistorySize);
    assert_eq!(bad(vec![], vec![], 1, 0), RealityRestoreError::CountersOrHistorySize);
    let long: Vec<RealityRecord<()>> =
        (1..=MAX_REALITY_HISTORY as u64 + 1).map(|s| record(s, "x")).collect();
    assert_eq!(bad(long, vec![], 1, u64::MAX), RealityRestoreError::CountersOrHistorySize);
    assert_eq!(
        bad(vec![record(2, "a"), record(2, "b")], vec![], 1, 9),
        RealityRestoreError::EventSequence
    );
    assert_eq!(bad(vec![record(0, "a")], vec![], 1, 9), RealityRestoreError::EventSequence);
    assert_eq!(bad(vec![], vec![record(9, "a")], 1, 9), RealityRestoreError::EventSequence);
}
