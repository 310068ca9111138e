use newviso::scene::{
    SceneDirtyFlags, SceneMutationSource, SceneProcessClaims, VisibilityMask, DIRTY_BOUNDS, DIRTY_HIERARCHY,
    DIRTY_LIFECYCLE, DIRTY_PROCESS_CONTROL, DIRTY_RESIDENCY, DIRTY_TRANSFORM,
};
use newviso::scene_world::{
    ScanInput, SceneEntityRecord, SceneLedger, SceneLifecycle, SceneMobility, SceneResidency, SceneWorldError,
};

fn entity(id: u64, render_slot: usize) -> SceneEntityRecord {
    SceneEntityRecord {
        id,
        name: format!("entity-{id}"),
        lifecycle: SceneLifecycle::Constructed,
        parent: None,
        children: Vec::new(),
        visibility: VisibilityMask::new(),
        asset_ref: None,
        render_slot: Some(render_slot),
        residency: SceneResidency::Resident,
        mobility: SceneMobility::Static,
        revision: 0,
        last_mutation_frame: 0,
        process_claims: SceneProcessClaims::new(),
        last_process_frame: None,
    }
}

#[test]
fn lifecycle_follows_scene_phases() {
    let mut world = SceneLedger::new();
    world.add_entity(entity(1, 0)).unwrap();
    world.add_entity(entity(2, 1)).unwrap();
    assert_eq!(world.entity(1).unwrap().lifecycle, SceneLifecycle::Added);
    world.activate_all();
    world.begin_frame();
    world.update();
    assert_eq!(world.frame(), 1);
    assert_eq!(world.entity(1).unwrap().lifecycle, SceneLifecycle::Active);
    assert!(world.entity(1).unwrap().is_renderable());
    assert_eq!(world.add_entity(entity(1, 5)), Err(SceneWorldError::DuplicateEntity(1)));
}

#[test]
fn visibility_modules_can_hide_entity_without_removing_it() {
    let mut world = SceneLedger::new();
    world.add_entity(entity(1, 0)).unwrap();
    world.activate_all();
    world.set_visibility(1, "script", false).unwrap();
    assert!(!world.entity(1).unwrap().visibility.visible_for("script"));
    world.set_visibility(1, "camera", false).unwrap();
    world.begin_frame();
    assert_eq!(world.entity(1).unwrap().lifecycle, SceneLifecycle::Active);
    assert!(!world.entity(1).unwrap().visibility.all_visible());
    let mutations = world.drain_mutations();
    assert_eq!(mutations.len(), 2);
    assert!(mutations.iter().all(|m| m.dirty.contains(SceneDirtyFlags(4))));
}

#[test]
fn hierarchy_propagates_visibility_and_rejects_cycles() {
    let mut world = SceneLedger::new();
    world.add_entity(entity(1, 0)).unwrap();
    world.add_entity(entity(2, 1)).unwrap();
    world.activate_all();
    world.set_parent(2, Some(1)).unwrap();
    assert!(world.set_parent(1, Some(2)).is_err());
    assert_eq!(world.set_parent(1, Some(2)), Err(SceneWorldError::HierarchyCycle { child: 1, parent: 2 }));
    assert_eq!(world.entity(2).unwrap().parent, Some(1));
    assert_eq!(world.entity(1).unwrap().children, vec![2]);

    assert!(world.hierarchy_allows(2));
    assert_eq!(world.active_render_slots(), vec![0, 1]);
    world.set_visibility(1, "world", false).unwrap();
    world.begin_frame();
    assert!(!world.entity(1).unwrap().visibility.visible_for("world"));
    assert!(!world.hierarchy_allows(2));
    assert!(!world.active_render_slots().contains(&1));
}

#[test]
fn inactive_ancestors_hide_their_descendants() {
    let mut world = SceneLedger::new();
    for id in 1..=3 {
        world.add_entity(entity(id, id as usize)).unwrap();
    }
    world.activate_all();
    world.set_parent(2, Some(1)).unwrap();
    world.set_parent(3, Some(2)).unwrap();
    assert_eq!(world.active_render_slots(), vec![1, 2, 3]);
    world.set_dormant(1, true).unwrap();
    assert!(!world.hierarchy_allows(3));
    assert_eq!(world.active_render_slots(), Vec::<usize>::new());
    world.set_dormant(1, false).unwrap();
    world.request_remove(2).unwrap();
    world.update();
    assert_eq!(world.entity_count(), 2);
    assert!(world.hierarchy_allows(1));
    assert!(world.hierarchy_allows(99));
    assert_eq!(world.active_render_slots(), vec![1]);
}

#[test]
fn reparenting_moves_the_child_between_parents() {
    let mut world = SceneLedger::new();
    for id in 1..=4 {
        world.add_entity(entity(id, id as usize)).unwrap();
    }
    world.set_parent(3, Some(1)).unwrap();
    world.set_parent(4, Some(3)).unwrap();
    world.drain_mutations();
    world.set_parent(3, Some(2)).unwrap();
    assert!(world.entity(1).unwrap().children.is_empty());
    assert_eq!(world.entity(2).unwrap().children, vec![3]);
    assert_eq!(world.entity(3).unwrap().parent, Some(2));
    let moved = world.drain_mutations();
    assert_eq!(moved.len(), 1);
    assert_eq!(moved[0].entity, 3);
    assert_eq!(moved[0].source, SceneMutationSource::Parent);
    assert_eq!(moved[0].dirty, SceneDirtyFlags(DIRTY_HIERARCHY));

    assert_eq!(world.set_parent(2, Some(4)), Err(SceneWorldError::HierarchyCycle { child: 2, parent: 4 }));
    assert_eq!(world.set_parent(4, Some(4)), Err(SceneWorldError::SelfParent(4)));
    assert_eq!(world.set_parent(9, Some(1)), Err(SceneWorldError::ChildNotFound(9)));
    assert_eq!(world.set_parent(1, Some(9)), Err(SceneWorldError::ParentNotFound(9)));
    world.set_parent(3, Some(2)).unwrap();
    assert!(world.drain_mutations().is_empty());
    world.set_parent(3, None).unwrap();
    assert!(world.entity(2).unwrap().children.is_empty());
    assert_eq!(world.entity(3).unwrap().revision, 3);
}

#[test]
fn added_entity_joins_its_parent_or_reports_it_missing() {
    let mut world = SceneLedger::new();
    world.add_entity(entity(1, 0)).unwrap();
    let mut child = entity(2, 1);
    child.parent = Some(1);
    world.add_entity(child).unwrap();
    assert_eq!(world.entity(1).unwrap().children, vec![2]);
    let mut orphan = entity(3, 2);
    orphan.parent = Some(7);
    assert_eq!(world.add_entity(orphan), Err(SceneWorldError::AddedParentNotFound { parent: 7, child: 3 }));
    assert!(world.entity(3).is_some());
}

#[test]
fn recorded_mutations_carry_revision_source_and_dirty_state() {
    let mut world = SceneLedger::new();
    world.add_entity(entity(41, 0)).unwrap();
    world.activate_all();
    world
        .record_mutation(41, SceneMutationSource::Physics, SceneDirtyFlags(DIRTY_TRANSFORM | DIRTY_BOUNDS))
        .unwrap();
    let mutations = world.drain_mutations();
    assert_eq!(mutations.len(), 1);
    assert_eq!(mutations[0].entity, 41);
    assert_eq!(mutations[0].revision, 1);
    assert_eq!(mutations[0].frame, 0);
    assert_eq!(mutations[0].source, SceneMutationSource::Physics);
    assert!(mutations[0].dirty.contains(SceneDirtyFlags(DIRTY_TRANSFORM)));
    assert!(mutations[0].dirty.contains(SceneDirtyFlags(DIRTY_BOUNDS)));

    world.record_mutation(41, SceneMutationSource::Physics, SceneDirtyFlags(0)).unwrap();
    assert!(world.drain_mutations().is_empty());
    assert_eq!(world.entity(41).unwrap().revision, 1);
    assert_eq!(
        world.record_mutation(99, SceneMutationSource::Engine, SceneDirtyFlags(DIRTY_TRANSFORM)),
        Err(SceneWorldError::EntityNotFound(99))
    );
}

#[test]
fn revision_wraps_past_zero() {
    let mut world = SceneLedger::new();
    let mut e = entity(5, 0);
    e.revision = u64::MAX;
    world.add_entity(e).unwrap();
    world.record_mutation(5, SceneMutationSource::Engine, SceneDirtyFlags(DIRTY_TRANSFORM)).unwrap();
    assert_eq!(world.entity(5).unwrap().revision, 1);
}

#[test]
fn process_claims_are_multi_owner_and_do_not_affect_render_lifecycle() {
    let mut world = SceneLedger::new();
    world.add_entity(entity(50, 0)).unwrap();
    world.activate_all();

    assert_eq!(world.process_active_count(), 0);
    assert_eq!(world.entity(50).unwrap().lifecycle, SceneLifecycle::Active);

    world.set_process_claim(50, "engine.physics", "physics", true, SceneMutationSource::Physics).unwrap();
    world.set_process_claim(50, "project.script", "gameplay", true, SceneMutationSource::Script).unwrap();

    assert_eq!(world.process_active_count(), 1);
    assert!(world.entity(50).unwrap().process_claims.active());

    world.set_process_claim(50, "engine.physics", "physics", false, SceneMutationSource::Physics).unwrap();
    assert_eq!(world.process_active_count(), 1);
    assert!(world.entity(50).unwrap().process_claims.active());

    world.set_process_claim(50, "project.script", "gameplay", false, SceneMutationSource::Script).unwrap();
    assert_eq!(world.process_active_count(), 0);
    assert!(!world.entity(50).unwrap().process_claims.active());
    assert_eq!(world.entity(50).unwrap().lifecycle, SceneLifecycle::Active);
}

#[test]
fn dormant_entity_suspends_process_membership_but_preserves_claims() {
    let mut world = SceneLedger::new();
    world.add_entity(entity(55, 0)).unwrap();
    world.activate_all();
    world.set_process_claim(55, "project.script", "gameplay", true, SceneMutationSource::Script).unwrap();
    assert!(world.process_is_active(55));

    world.set_dormant(55, true).unwrap();
    assert!(!world.process_is_active(55));
    assert!(world.entity(55).unwrap().process_claims.active());

    world.activate_entity(55).unwrap();
    assert!(world.process_is_active(55));
}

#[test]
fn removal_clears_process_claims_atomically() {
    let mut world = SceneLedger::new();
    world.add_entity(entity(56, 0)).unwrap();
    world.activate_all();
    world.set_process_claim(56, "engine.physics", "physics", true, SceneMutationSource::Physics).unwrap();
    world.drain_mutations();

    world.request_remove(56).unwrap();
    assert!(!world.process_is_active(56));
    assert!(!world.entity(56).unwrap().process_claims.active());
    let mutation = world.drain_mutations().pop().expect("removal mutation");
    assert!(mutation.dirty.contains(SceneDirtyFlags(DIRTY_LIFECYCLE)));
    assert!(mutation.dirty.contains(SceneDirtyFlags(DIRTY_PROCESS_CONTROL)));
    assert!(!mutation.process_active);
    assert!(mutation.process_claims.is_empty());
}

#[test]
fn process_update_marks_only_claimed_entities() {
    let mut world = SceneLedger::new();
    world.add_entity(entity(60, 0)).unwrap();
    world.add_entity(entity(61, 1)).unwrap();
    world.activate_all();
    world.set_process_claim(61, "project.script", "animation", true, SceneMutationSource::Script).unwrap();

    world.begin_frame();
    world.update();

    assert_eq!(world.entity(60).unwrap().last_process_frame, None);
    assert_eq!(world.entity(61).unwrap().last_process_frame, Some(1));
}

#[test]
fn removed_entities_cannot_come_back() {
    let mut world = SceneLedger::new();
    world.add_entity(entity(70, 0)).unwrap();
    world.activate_all();
    world.request_remove(70).unwrap();
    assert_eq!(world.entity(70).unwrap().lifecycle, SceneLifecycle::PendingRemove);
    assert_eq!(world.activate_entity(70), Err(SceneWorldError::ReactivateRemoved(70)));
    assert_eq!(world.set_dormant(70, true), Err(SceneWorldError::DormancyWhileRemoving(70)));
    assert_eq!(
        world.set_process_claim(70, "a", "b", true, SceneMutationSource::Script),
        Err(SceneWorldError::ClaimsWhileRemoving(70))
    );
    world.update();
    assert_eq!(world.entity(70).unwrap().lifecycle, SceneLifecycle::Removed);
    assert_eq!(world.entity_id_by_name("entity-70"), None);
    world.request_remove(70).unwrap();
    assert_eq!(world.activate_entity(71), Err(SceneWorldError::EntityNotFound(71)));
}

#[test]
fn claim_labels_are_checked_before_the_entity() {
    let mut world = SceneLedger::new();
    assert!(matches!(
        world.set_process_claim(1, "bad owner", "x", true, SceneMutationSource::Script),
        Err(SceneWorldError::Label(_))
    ));
    assert!(matches!(
        world.set_process_claim(1, "owner", "", true, SceneMutationSource::Script),
        Err(SceneWorldError::Label(_))
    ));
    assert_eq!(
        world.set_process_claim(1, "owner", "reason", true, SceneMutationSource::Script),
        Err(SceneWorldError::EntityNotFound(1))
    );
}

#[test]
fn residency_changes_leave_process_control() {
    let mut world = SceneLedger::new();
    let mut streamed = entity(80, 0);
    streamed.asset_ref = Some("assets/near_model@main".to_string());
    streamed.residency = SceneResidency::Unloaded;
    world.add_entity(streamed).unwrap();
    world.add_entity(entity(81, 1)).unwrap();
    world.activate_all();
    world.set_process_claim(80, "project.script", "gameplay", true, SceneMutationSource::Script).unwrap();
    assert!(world.process_is_active(80));
    assert!(!world.entity(80).unwrap().is_renderable());
    world.drain_mutations();

    world.set_residency(80, SceneResidency::Resident).unwrap();
    assert!(!world.process_is_active(80));
    assert!(world.entity(80).unwrap().is_renderable());
    let m = world.drain_mutations();
    assert_eq!(m.len(), 1);
    assert_eq!(m[0].source, SceneMutationSource::Streaming);
    assert_eq!(m[0].dirty, SceneDirtyFlags(DIRTY_RESIDENCY));

    world.set_residency(80, SceneResidency::Resident).unwrap();
    assert!(world.drain_mutations().is_empty());
    assert_eq!(
        world.set_residency(81, SceneResidency::Unloaded),
        Err(SceneWorldError::NoAssetRef { id: 81, residency: SceneResidency::Unloaded })
    );
}

#[test]
fn process_ids_are_sorted_and_sealing_resets_revisions() {
    let mut world = SceneLedger::new();
    for id in [9u64, 3, 6] {
        world.add_entity(entity(id, 0)).unwrap();
    }
    world.activate_all();
    for id in [9u64, 3, 6] {
        world.set_process_claim(id, "owner", "reason", true, SceneMutationSource::Engine).unwrap();
    }
    assert_eq!(world.process_active_ids(), vec![3, 6, 9]);
    assert_eq!(world.entity(9).unwrap().revision, 1);
    world.seal_initial_state();
    assert!(world.drain_mutations().is_empty());
    assert_eq!(world.entity(9).unwrap().revision, 0);
    assert_eq!(world.process_active_ids(), vec![3, 6, 9]);
    assert_eq!(world.entity_id_by_name("entity-6"), Some(6));
}

#[test]
fn static_and_dynamic_counts_skip_removed_entities() {
    let mut world = SceneLedger::new();
    for id in 1..=4 {
        let mut e = entity(id, id as usize);
        if id % 2 == 0 {
            e.mobility = SceneMobility::Dynamic;
        }
        world.add_entity(e).unwrap();
    }
    world.activate_all();
    assert_eq!(world.static_count(), 2);
    assert_eq!(world.dynamic_count(), 2);
    world.request_remove(4).unwrap();
    world.update();
    assert_eq!(world.dynamic_count(), 1);
    assert_eq!(world.static_count() + world.dynamic_count(), world.entity_count());
}

#[test]
fn reparenting_next_to_an_existing_loop_follows_the_walk_up() {
    let mut world = SceneLedger::new();
    let mut looped = entity(1, 0);
    looped.parent = Some(1);
    world.add_entity(looped).unwrap();
    world.add_entity(entity(2, 1)).unwrap();
    world.add_entity(entity(3, 2)).unwrap();
    // The walk up from 2 ends at once, so the move is made.
    world.set_parent(3, Some(2)).unwrap();
    assert_eq!(world.entity(3).unwrap().parent, Some(2));
    // The walk up from 1 loops without meeting 2.
    assert_eq!(world.set_parent(2, Some(1)), Err(SceneWorldError::HierarchyCycle { child: 2, parent: 1 }));
    assert_eq!(world.entity(2).unwrap().parent, None);
}

#[test]
fn visibility_scan_counts_entities_and_requests_unloaded_assets() {
    let mut world = SceneLedger::new();
    let mut streamed = entity(1, 0);
    streamed.asset_ref = Some("models/tree.glb".to_string());
    streamed.residency = SceneResidency::Unloaded;
    streamed.render_slot = None;
    world.add_entity(streamed).unwrap();
    let mut shown = entity(2, 1);
    shown.mobility = SceneMobility::Dynamic;
    world.add_entity(shown).unwrap();
    world.add_entity(entity(3, 2)).unwrap();
    world.add_entity(entity(4, 3)).unwrap();
    let mut child = entity(5, 4);
    child.parent = Some(3);
    world.add_entity(child).unwrap();
    world.activate_all();
    world.set_visibility(3, "script", false).unwrap();
    world.set_dormant(4, true).unwrap();

    let inputs = vec![
        ScanInput { within_stream_distance: true, in_view: true },
        ScanInput { within_stream_distance: true, in_view: true },
        ScanInput { within_stream_distance: true, in_view: true },
        ScanInput { within_stream_distance: true, in_view: true },
        ScanInput { within_stream_distance: true, in_view: true },
    ];
    let plan = world.plan_scan(&inputs);
    assert_eq!(plan.requested, vec![1]);
    assert_eq!(plan.streaming, vec![1]);
    assert_eq!(plan.visible_entities, vec![2]);
    assert_eq!(plan.visible_render_slots, vec![1]);
    assert_eq!(plan.visible_count, 1);
    assert_eq!(plan.culled_count, 4);
    assert_eq!(plan.resident_count, 2);
    assert_eq!(plan.dynamic_count, 1);

    world.mark_requested(&plan.requested);
    assert_eq!(world.entity(1).unwrap().residency, SceneResidency::Requested);
    assert!(world.plan_scan(&inputs).requested.is_empty());

    let out_of_view = vec![ScanInput { within_stream_distance: false, in_view: false }; 5];
    let plan = world.plan_scan(&out_of_view);
    assert!(plan.streaming.is_empty());
    assert!(plan.visible_entities.is_empty());
    assert_eq!(plan.culled_count, 5);
}
