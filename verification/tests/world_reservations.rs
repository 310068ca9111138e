use newviso::reservations::{ReservationError, ReservationRequest, ScenarioReservations};
use newviso::strmap::StrMap;

/// A reservation as the tests keep it beside the book: its time interval.
struct Booked {
    id: String,
    starts: f64,
    ends: f64,
}

fn intervals_overlap(a_start: f64, a_end: f64, b_start: f64, b_end: f64) -> bool {
    a_start < b_end && b_start < a_end
}

fn overlapping(booked: &[Booked], starts: f64, ends: f64) -> Vec<String> {
    booked
        .iter()
        .filter(|b| intervals_overlap(starts, ends, b.starts, b.ends))
        .map(|b| b.id.clone())
        .collect()
}

fn ids(names: &[&str]) -> StrMap<()> {
    let mut m = StrMap::new();
    for n in names {
        m.insert(n.to_string(), ());
    }
    m
}

fn request(id: &str, point: &str, actor: &str, exclusive: bool) -> ReservationRequest {
    ReservationRequest {
        id: id.to_string(),
        point_id: point.to_string(),
        actor_id: actor.to_string(),
        exclusive,
    }
}

fn reservation(id: &str, exclusive: bool) -> ReservationRequest {
    request(id, "point", "actor", exclusive)
}

#[test]
fn exclusive_scenario_reservation_prevents_double_booking() {
    let points = ids(&["bench.1"]);
    let actors = ids(&["a", "b"]);
    let mut book = ScenarioReservations::new();
    let mut booked: Vec<Booked> = Vec::new();

    let over = overlapping(&booked, 0.0, 10.0);
    let (r, counter) = book.reserve_scenario(request("r1", "bench.1", "a", true), true, 1, &points, &actors, &over);
    assert_eq!(r.unwrap(), "r1");
    assert_eq!(counter, 1);
    booked.push(Booked { id: "r1".into(), starts: 0.0, ends: 10.0 });

    let over = overlapping(&booked, 5.0, 15.0);
    let (conflict, _) = book.reserve_scenario(request("r2", "bench.1", "b", true), true, 1, &points, &actors, &over);
    assert!(conflict.is_err());
}

#[test]
fn exclusive_reservation_blocks_both_shared_and_exclusive_requests() {
    for first_exclusive in [true, false] {
        let points = ids(&["point"]);
        let actors = ids(&["actor"]);
        let mut book = ScenarioReservations::new();
        let over = overlapping(&[], 0.0, 10.0);
        let (r, _) = book.reserve_scenario(reservation("first", first_exclusive), true, 1, &points, &actors, &over);
        r.unwrap();
        let booked = [Booked { id: "first".into(), starts: 0.0, ends: 10.0 }];
        let over = overlapping(&booked, 0.0, 10.0);
        let (r, _) = book.reserve_scenario(reservation("second", !first_exclusive), true, 1, &points, &actors, &over);
        assert!(r.is_err());
        assert_eq!(book.len(), 1);
    }
}

#[test]
fn updating_own_reservation_and_removing_owners_preserve_consistency() {
    let points = ids(&["point"]);
    let actors = ids(&["actor"]);
    let mut book = ScenarioReservations::new();
    let (r, _) = book.reserve_scenario(reservation("first", true), true, 1, &points, &actors, &Vec::new());
    r.unwrap();
    // The replacement runs for twenty seconds and overlaps the reservation it replaces.
    let booked = [Booked { id: "first".into(), starts: 0.0, ends: 10.0 }];
    let over = overlapping(&booked, 0.0, 20.0);
    assert_eq!(over, vec!["first".to_string()]);
    let (r, _) = book.reserve_scenario(reservation("first", true), true, 1, &points, &actors, &over);
    assert_eq!(r.unwrap(), "first");
    assert_eq!(book.len(), 1);
    book.release_actor("actor");
    assert_eq!(book.len(), 0);
    let (r, _) = book.reserve_scenario(reservation("second", true), true, 1, &points, &actors, &Vec::new());
    r.unwrap();
    book.release_point("point");
    assert_eq!(book.len(), 0);
}

#[test]
fn shared_reservations_share_a_point() {
    let points = ids(&["point"]);
    let actors = ids(&["actor", "other"]);
    let mut book = ScenarioReservations::new();
    let (r, _) = book.reserve_scenario(reservation("first", false), true, 1, &points, &actors, &Vec::new());
    r.unwrap();
    let over = vec!["first".to_string()];
    let (r, _) = book.reserve_scenario(request("second", "point", "other", false), true, 1, &points, &actors, &over);
    assert_eq!(r.unwrap(), "second");
    assert_eq!(book.len(), 2);
    assert_eq!(book.hold("second"), Some(("point".to_string(), "other".to_string(), false)));
}

#[test]
fn exclusive_reservations_at_separate_times_do_not_conflict() {
    let points = ids(&["point"]);
    let actors = ids(&["actor"]);
    let mut book = ScenarioReservations::new();
    let (r, _) = book.reserve_scenario(reservation("early", true), true, 1, &points, &actors, &Vec::new());
    r.unwrap();
    let booked = [Booked { id: "early".into(), starts: 0.0, ends: 10.0 }];
    let over = overlapping(&booked, 10.0, 20.0);
    assert!(over.is_empty());
    let (r, _) = book.reserve_scenario(reservation("late", true), true, 1, &points, &actors, &over);
    assert_eq!(r.unwrap(), "late");
    assert_eq!(book.len(), 2);
}

#[test]
fn blank_reservation_ids_are_generated_from_the_counter() {
    let points = ids(&["point"]);
    let actors = ids(&["actor"]);
    let mut book = ScenarioReservations::new();
    let (r, counter) = book.reserve_scenario(reservation("  ", false), true, 26, &points, &actors, &Vec::new());
    assert_eq!(r.unwrap(), "scenario.reservation.000000000000001a");
    assert_eq!(counter, 27);
    assert!(book.contains("scenario.reservation.000000000000001a"));
    // The counter advances even when the request is then refused.
    let (r, counter) = book.reserve_scenario(request("", "nowhere", "actor", false), true, u64::MAX, &points, &actors, &Vec::new());
    assert!(matches!(r, Err(ReservationError::UnknownPoint { .. })));
    assert_eq!(counter, 1);
}

#[test]
fn reservation_refusals_follow_the_checks_in_order() {
    let points = ids(&["point"]);
    let actors = ids(&["actor"]);
    let mut book = ScenarioReservations::new();
    let none: Vec<String> = Vec::new();
    match book.reserve_scenario(request("r", " ", "actor", false), true, 1, &points, &actors, &none).0 {
        Err(ReservationError::InvalidId(e)) => assert_eq!(e.kind, "world scenario reservation point"),
        _ => panic!("expected an invalid point id"),
    }
    match book.reserve_scenario(request("r", "point", "", false), true, 1, &points, &actors, &none).0 {
        Err(ReservationError::InvalidId(e)) => assert_eq!(e.kind, "world scenario reservation actor"),
        _ => panic!("expected an invalid actor id"),
    }
    let long = "x".repeat(129);
    match book.reserve_scenario(request(&long, "point", "actor", false), true, 1, &points, &actors, &none).0 {
        Err(ReservationError::InvalidId(e)) => assert_eq!(e.kind, "world scenario reservation"),
        _ => panic!("expected an invalid reservation id"),
    }
    assert!(matches!(
        book.reserve_scenario(request("r", "point", "actor", false), false, 1, &points, &actors, &none).0,
        Err(ReservationError::InvalidParameters)
    ));
    match book.reserve_scenario(request("r", "bench", "actor", false), true, 1, &points, &actors, &none).0 {
        Err(ReservationError::UnknownPoint { point_id }) => assert_eq!(point_id, "bench"),
        _ => panic!("expected an unknown point"),
    }
    match book.reserve_scenario(request("r", "point", "ghost", false), true, 1, &points, &actors, &none).0 {
        Err(ReservationError::UnknownActor { actor_id }) => assert_eq!(actor_id, "ghost"),
        _ => panic!("expected an unknown actor"),
    }
    assert_eq!(book.len(), 0);
    book.reserve_scenario(request("r", "point", "actor", true), true, 1, &points, &actors, &none).0.unwrap();
    match book.reserve_scenario(request("s", "point", "actor", false), true, 1, &points, &actors, &vec!["r".to_string()]).0 {
        Err(ReservationError::Conflict { point_id }) => assert_eq!(point_id, "point"),
        _ => panic!("expected a conflict"),
    }
}

#[test]
fn releasing_by_id_actor_or_point_keeps_the_rest() {
    let points = ids(&["p", "q"]);
    let actors = ids(&["a", "b"]);
    let mut book = ScenarioReservations::new();
    let none: Vec<String> = Vec::new();
    for (id, point, actor) in [("r1", "p", "a"), ("r2", "q", "a"), ("r3", "p", "b"), ("r4", "q", "b")] {
        book.reserve_scenario(request(id, point, actor, false), true, 1, &points, &actors, &none).0.unwrap();
    }
    book.release_scenario_reservation(" r4 ");
    assert!(!book.contains("r4"));
    book.release_actor(" a");
    assert!(!book.contains("r1") && !book.contains("r2"));
    assert!(book.contains("r3"));
    book.release_point("q");
    assert!(book.contains("r3"));
    book.release_point("p ");
    assert_eq!(book.len(), 0);
}
