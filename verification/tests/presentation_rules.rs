use newviso::presentation::{
    presentation_active, presentation_step, scene_key_taken, validate_presentation_names,
    PresentationError, PresentationPlan, PresentationState,
};
use newviso::strmap::StrMap;

fn reps(items: &[&str]) -> Vec<String> {
    items.iter().map(|s| s.to_string()).collect()
}

fn fresh() -> PresentationState {
    PresentationState {
        materialized: false,
        entity_id: None,
        materializations: 0,
        dematerializations: 0,
    }
}

#[test]
fn presentation_names_accept_known_representations() {
    assert_eq!(
        validate_presentation_names("guard", "guard_entity", &reps(&["physical", "proxy"])),
        Ok(())
    );
    assert_eq!(
        validate_presentation_names(" guard ", "g", &reps(&["abstract"])),
        Ok(())
    );
}

#[test]
fn presentation_names_reject_blank_actor_or_key() {
    assert_eq!(
        validate_presentation_names("   ", "key", &reps(&["physical"])),
        Err(PresentationError::EmptyName)
    );
    assert_eq!(
        validate_presentation_names("actor", "\t", &reps(&["physical"])),
        Err(PresentationError::EmptyName)
    );
    // A blank name is reported before a bad representation list.
    assert_eq!(
        validate_presentation_names("", "", &[]),
        Err(PresentationError::EmptyName)
    );
}

#[test]
fn presentation_names_reject_missing_or_unknown_representations() {
    assert_eq!(
        validate_presentation_names("actor", "key", &[]),
        Err(PresentationError::Representations)
    );
    assert_eq!(
        validate_presentation_names("actor", "key", &reps(&["physical", "Physical"])),
        Err(PresentationError::Representations)
    );
    assert_eq!(
        validate_presentation_names("actor", "key", &reps(&["ghostly"])),
        Err(PresentationError::Representations)
    );
}

#[test]
fn actor_is_shown_only_when_enabled_and_materialized() {
    let r = reps(&["physical", "proxy"]);
    assert!(presentation_active(Some((true, "proxy")), &r));
    assert!(!presentation_active(Some((false, "proxy")), &r));
    assert!(!presentation_active(Some((true, "abstract")), &r));
    assert!(!presentation_active(None, &r));
    assert!(!presentation_active(Some((true, "physical")), &[]));
}

#[test]
fn scene_key_is_taken_only_by_another_actor() {
    let mut bindings: StrMap<String> = StrMap::new();
    bindings.insert("guard".to_string(), "guard_entity".to_string());
    bindings.insert("merchant".to_string(), "stall".to_string());
    assert!(scene_key_taken(&bindings, "thief", "stall"));
    assert!(!scene_key_taken(&bindings, "merchant", "stall"));
    assert!(!scene_key_taken(&bindings, "thief", "cart"));
    assert!(!scene_key_taken(&StrMap::new(), "thief", "stall"));
}

#[test]
fn first_active_step_creates_and_shows_the_entity() {
    let (plan, next) = presentation_step(fresh(), true, false, false);
    assert_eq!(
        plan,
        PresentationPlan { dematerialize: false, upsert: true, move_entity: false, materialize: true }
    );
    assert!(next.materialized);
    assert_eq!(next.materializations, 1);
    assert_eq!(next.dematerializations, 0);
}

#[test]
fn moving_actor_moves_its_existing_entity() {
    let state = PresentationState {
        materialized: true,
        entity_id: Some(7),
        materializations: 1,
        dematerializations: 0,
    };
    let (plan, next) = presentation_step(state, true, true, true);
    assert_eq!(
        plan,
        PresentationPlan { dematerialize: false, upsert: false, move_entity: true, materialize: false }
    );
    assert_eq!(next, state);
    let (still, _) = presentation_step(state, true, true, false);
    assert_eq!(
        still,
        PresentationPlan { dematerialize: false, upsert: false, move_entity: false, materialize: false }
    );
}

#[test]
fn removed_entity_is_recreated_on_the_next_step() {
    let state = PresentationState {
        materialized: true,
        entity_id: Some(7),
        materializations: 1,
        dematerializations: 0,
    };
    let (plan, next) = presentation_step(state, true, false, true);
    assert!(plan.upsert);
    assert!(!plan.move_entity);
    assert!(!plan.materialize);
    assert_eq!(next.materializations, 1);
}

#[test]
fn inactive_actor_is_hidden_once() {
    let state = PresentationState {
        materialized: true,
        entity_id: Some(3),
        materializations: 2,
        dematerializations: 1,
    };
    let (plan, next) = presentation_step(state, false, true, false);
    assert_eq!(
        plan,
        PresentationPlan { dematerialize: true, upsert: false, move_entity: false, materialize: false }
    );
    assert!(!next.materialized);
    assert_eq!(next.dematerializations, 2);
    assert_eq!(next.entity_id, Some(3));
    let (again, after) = presentation_step(next, false, true, false);
    assert!(!again.dematerialize);
    assert_eq!(after, next);
}

#[test]
fn hiding_without_an_entity_counts_nothing() {
    let state = PresentationState {
        materialized: true,
        entity_id: Some(3),
        materializations: 1,
        dematerializations: 0,
    };
    let (plan, next) = presentation_step(state, false, false, false);
    assert!(!plan.dematerialize);
    assert!(!next.materialized);
    assert_eq!(next.dematerializations, 0);
}
