use newviso::checkpoint::{
    validate_checkpoint, CheckpointError, CheckpointGroup, CheckpointModel, EdgeRecord, FactRecord, KeyedRecord,
    RelationshipRecord, ReservationRecord, SequencedRecord, TravelRecord,
};
use newviso::strmap::StrMap;
use newviso::world::PopulationStreamingPolicyDesc;

fn keyed(pairs: &[(&str, &str)]) -> StrMap<KeyedRecord> {
    let mut m = StrMap::new();
    for (key, id) in pairs {
        m.insert(key.to_string(), KeyedRecord { id: id.to_string(), valid: true });
    }
    m
}

fn empty_world() -> CheckpointModel {
    CheckpointModel {
        clock_ok: true,
        simulation_ok: true,
        streaming: PopulationStreamingPolicyDesc::default(),
        observers: StrMap::new(),
        actors: StrMap::new(),
        processes: StrMap::new(),
        scheduled_events: StrMap::new(),
        facts: StrMap::new(),
        population_channels: StrMap::new(),
        zones: StrMap::new(),
        model_sets: StrMap::new(),
        scenario_points: StrMap::new(),
        relationships: Vec::new(),
        stimuli: StrMap::new(),
        nav_nodes: StrMap::new(),
        nav_edges: StrMap::new(),
        travel: StrMap::new(),
        reservations: StrMap::new(),
        reservations_disjoint: true,
        history: Vec::new(),
        pending: Vec::new(),
        next_stimulus_id: 1,
        next_event_id: 1,
        next_reality_event_id: 1,
        next_reality_sequence: 1,
    }
}

fn travelling_world() -> CheckpointModel {
    let mut w = empty_world();
    w.actors = keyed(&[("actor", "actor")]);
    w.scenario_points = keyed(&[("point", "point")]);
    w.nav_nodes = keyed(&[("a", "a"), ("b", "b")]);
    w.nav_edges.insert(
        "ab".into(),
        EdgeRecord { id: "ab".into(), from: "a".into(), to: "b".into(), valid: true },
    );
    w.travel.insert(
        "actor".into(),
        TravelRecord {
            actor_id: "actor".into(),
            valid: true,
            route: vec!["a".into(), "b".into()],
            next_waypoint: 1,
            destination: "b".into(),
            distance_ok: true,
        },
    );
    w.reservations.insert(
        "r1".into(),
        ReservationRecord {
            id: "r1".into(),
            actor_id: "actor".into(),
            point_id: "point".into(),
            valid: true,
            interval_ok: true,
        },
    );
    w.facts.insert("stock".into(), FactRecord { revision: 2, time_ok: true, payload_ok: true });
    w.relationships.push(RelationshipRecord {
        source_key: "guards".into(),
        target_key: "thieves".into(),
        source_group: "guards".into(),
        target_group: "thieves".into(),
        valid: true,
    });
    w.history = vec![SequencedRecord { sequence: 1, valid: true }, SequencedRecord { sequence: 3, valid: true }];
    w.pending = vec![SequencedRecord { sequence: 3, valid: true }];
    w.next_reality_sequence = 4;
    w
}

#[test]
fn sound_checkpoints_are_accepted() {
    assert_eq!(validate_checkpoint(&empty_world()), Ok(()));
    assert_eq!(validate_checkpoint(&travelling_world()), Ok(()));
}

#[test]
fn policies_are_checked_before_records() {
    let mut w = travelling_world();
    w.actors = keyed(&[("actor", "other")]);
    w.simulation_ok = false;
    assert_eq!(validate_checkpoint(&w), Err(CheckpointError::Simulation));
    w.clock_ok = false;
    assert_eq!(validate_checkpoint(&w), Err(CheckpointError::Clock));
    let mut w = empty_world();
    w.streaming.max_resident_sets = 0;
    assert_eq!(validate_checkpoint(&w), Err(CheckpointError::StreamingPolicy));
}

#[test]
fn records_must_be_stored_under_their_own_ids() {
    let mut w = travelling_world();
    w.scenario_points = keyed(&[("point", "seat")]);
    assert_eq!(
        validate_checkpoint(&w),
        Err(CheckpointError::KeyMismatch { group: CheckpointGroup::ScenarioPoints, index: 0 })
    );
    let mut w = travelling_world();
    w.relationships[0].target_group = "merchants".into();
    assert_eq!(
        validate_checkpoint(&w),
        Err(CheckpointError::KeyMismatch { group: CheckpointGroup::Relationships, index: 0 })
    );
}

#[test]
fn facts_need_a_label_a_revision_and_a_bounded_payload() {
    let mut w = empty_world();
    w.facts.insert(" ".into(), FactRecord { revision: 1, time_ok: true, payload_ok: true });
    assert_eq!(validate_checkpoint(&w), Err(CheckpointError::FactId { index: 0 }));
    let mut w = empty_world();
    w.facts.insert("stock".into(), FactRecord { revision: 0, time_ok: true, payload_ok: true });
    assert_eq!(validate_checkpoint(&w), Err(CheckpointError::Fact { index: 0 }));
    let mut w = empty_world();
    w.facts.insert("stock".into(), FactRecord { revision: 1, time_ok: false, payload_ok: true });
    assert_eq!(
        validate_checkpoint(&w),
        Err(CheckpointError::Record { group: CheckpointGroup::Facts, index: 0 })
    );
}

#[test]
fn references_must_name_existing_records() {
    let mut w = travelling_world();
    w.nav_edges.insert("bc".into(), EdgeRecord { id: "bc".into(), from: "b".into(), to: "c".into(), valid: true });
    assert_eq!(validate_checkpoint(&w), Err(CheckpointError::EdgeEndpoint { index: 1 }));

    let mut w = travelling_world();
    w.travel.insert(
        "ghost".into(),
        TravelRecord {
            actor_id: "ghost".into(),
            valid: true,
            route: vec!["a".into()],
            next_waypoint: 0,
            destination: "a".into(),
            distance_ok: true,
        },
    );
    assert_eq!(validate_checkpoint(&w), Err(CheckpointError::Route { index: 1 }));

    let mut w = travelling_world();
    w.travel.insert(
        "actor".into(),
        TravelRecord {
            actor_id: "actor".into(),
            valid: true,
            route: vec!["a".into(), "b".into()],
            next_waypoint: 2,
            destination: "b".into(),
            distance_ok: true,
        },
    );
    assert_eq!(validate_checkpoint(&w), Err(CheckpointError::Route { index: 0 }));

    let mut w = travelling_world();
    w.reservations.insert(
        "r2".into(),
        ReservationRecord {
            id: "r2".into(),
            actor_id: "actor".into(),
            point_id: "bench".into(),
            valid: true,
            interval_ok: true,
        },
    );
    assert_eq!(validate_checkpoint(&w), Err(CheckpointError::Reservation { index: 1 }));

    let mut w = travelling_world();
    w.reservations_disjoint = false;
    assert_eq!(validate_checkpoint(&w), Err(CheckpointError::ReservationOverlap));
}

#[test]
fn counters_and_event_sequences_are_checked_last() {
    let mut w = travelling_world();
    w.next_event_id = 0;
    assert_eq!(validate_checkpoint(&w), Err(CheckpointError::CountersOrHistory));

    let mut w = empty_world();
    w.history = (1..=4097).map(|s| SequencedRecord { sequence: s, valid: true }).collect();
    w.next_reality_sequence = 5000;
    assert_eq!(validate_checkpoint(&w), Err(CheckpointError::CountersOrHistory));

    let mut w = travelling_world();
    w.history = vec![SequencedRecord { sequence: 3, valid: true }, SequencedRecord { sequence: 3, valid: true }];
    assert_eq!(
        validate_checkpoint(&w),
        Err(CheckpointError::EventSequence { group: CheckpointGroup::History, index: 1 })
    );

    let mut w = travelling_world();
    w.pending = vec![SequencedRecord { sequence: 4, valid: true }];
    assert_eq!(
        validate_checkpoint(&w),
        Err(CheckpointError::EventSequence { group: CheckpointGroup::Pending, index: 0 })
    );

    let mut w = travelling_world();
    w.pending = vec![SequencedRecord { sequence: 2, valid: false }];
    assert_eq!(
        validate_checkpoint(&w),
        Err(CheckpointError::Record { group: CheckpointGroup::Pending, index: 0 })
    );
}
