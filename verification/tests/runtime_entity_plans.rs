use newviso::runtime_entities::{
    find_runtime_entity, plan_runtime_entity, upsert_runtime_entity, ExistingRuntimeEntity, RuntimeEntityError,
    RuntimeEntityPlan, RuntimeUpsertError,
};
use newviso::scene::{SceneProcessClaims, SceneRuntimeVisualKind, VisibilityMask};
use newviso::scene_world::{
    SceneEntityRecord, SceneLedger, SceneLifecycle, SceneMobility, SceneResidency,
};
use newviso::strmap::StrMap;

fn existing(render_slot: Option<usize>, asset: Option<&str>) -> ExistingRuntimeEntity {
    ExistingRuntimeEntity {
        id: 40,
        replaceable: true,
        render_slot,
        asset_ref: asset.map(|a| a.to_string()),
    }
}

#[test]
fn new_cube_takes_the_next_slot_and_is_resident() {
    let plan = plan_runtime_entity("crate", true, SceneRuntimeVisualKind::Cube, None, None, 3, Some(8));
    assert_eq!(
        plan,
        Ok(RuntimeEntityPlan {
            render_slot: Some(3),
            new_cube: true,
            residency: Some(SceneResidency::Resident)
        })
    );
}

#[test]
fn new_asset_entity_must_load_its_asset() {
    let plan = plan_runtime_entity(
        "tree",
        true,
        SceneRuntimeVisualKind::NoVisual,
        Some("models/tree.glb"),
        None,
        3,
        None,
    );
    assert_eq!(
        plan,
        Ok(RuntimeEntityPlan {
            render_slot: None,
            new_cube: false,
            residency: Some(SceneResidency::Unloaded)
        })
    );
    let bare = plan_runtime_entity("marker", true, SceneRuntimeVisualKind::NoVisual, None, None, 0, None);
    assert_eq!(bare.unwrap().residency, Some(SceneResidency::Resident));
}

#[test]
fn existing_entity_keeps_slot_and_reloads_only_a_changed_asset() {
    let e = existing(Some(2), Some("a.glb"));
    let same = plan_runtime_entity("k", true, SceneRuntimeVisualKind::NoVisual, Some("a.glb"), Some(&e), 5, Some(5));
    assert_eq!(
        same,
        Ok(RuntimeEntityPlan { render_slot: Some(2), new_cube: false, residency: None })
    );
    let changed =
        plan_runtime_entity("k", true, SceneRuntimeVisualKind::NoVisual, Some("b.glb"), Some(&e), 5, Some(5));
    assert_eq!(changed.unwrap().residency, Some(SceneResidency::Unloaded));
    let cube_again = plan_runtime_entity("k", true, SceneRuntimeVisualKind::Cube, None, Some(&e), 5, Some(5));
    assert_eq!(
        cube_again,
        Ok(RuntimeEntityPlan {
            render_slot: Some(2),
            new_cube: false,
            residency: Some(SceneResidency::Resident)
        })
    );
}

#[test]
fn runtime_entity_checks_come_in_order() {
    assert_eq!(
        plan_runtime_entity("  ", false, SceneRuntimeVisualKind::Cube, Some(""), None, 0, None),
        Err(RuntimeEntityError::EmptyKey)
    );
    assert_eq!(
        plan_runtime_entity("k", false, SceneRuntimeVisualKind::Cube, Some(""), None, 0, None),
        Err(RuntimeEntityError::InvalidParameters)
    );
    assert_eq!(
        plan_runtime_entity("k", true, SceneRuntimeVisualKind::NoVisual, Some(" \t"), None, 0, None),
        Err(RuntimeEntityError::InvalidAssetRef)
    );
    let long = "a".repeat(2049);
    assert_eq!(
        plan_runtime_entity("k", true, SceneRuntimeVisualKind::NoVisual, Some(&long), None, 0, None),
        Err(RuntimeEntityError::InvalidAssetRef)
    );
    let limit = "a".repeat(2048);
    assert!(plan_runtime_entity("k", true, SceneRuntimeVisualKind::NoVisual, Some(&limit), None, 0, None).is_ok());
    assert_eq!(
        plan_runtime_entity("k", true, SceneRuntimeVisualKind::Cube, Some("a.glb"), None, 0, None),
        Err(RuntimeEntityError::CubeWithAsset)
    );
    let mut fixed = existing(None, None);
    fixed.replaceable = false;
    assert_eq!(
        plan_runtime_entity(" lamp ", true, SceneRuntimeVisualKind::Cube, None, Some(&fixed), 9, Some(9)),
        Err(RuntimeEntityError::NotDynamic { key: "lamp".to_string() })
    );
    assert_eq!(
        plan_runtime_entity("k", true, SceneRuntimeVisualKind::Cube, None, None, 9, Some(9)),
        Err(RuntimeEntityError::CubeCapacity { capacity: 9 })
    );
    assert_eq!(
        plan_runtime_entity("k", true, SceneRuntimeVisualKind::Cube, None, Some(&existing(None, None)), 9, Some(9)),
        Err(RuntimeEntityError::CubeCapacity { capacity: 9 })
    );
    assert!(plan_runtime_entity("k", true, SceneRuntimeVisualKind::Cube, None, None, 9, None).is_ok());
}

fn named(id: u64, name: &str) -> SceneEntityRecord {
    SceneEntityRecord {
        id,
        name: name.to_string(),
        lifecycle: SceneLifecycle::Constructed,
        parent: None,
        children: Vec::new(),
        visibility: VisibilityMask::new(),
        asset_ref: None,
        render_slot: None,
        residency: SceneResidency::Resident,
        mobility: SceneMobility::Static,
        revision: 0,
        last_mutation_frame: 0,
        process_claims: SceneProcessClaims::new(),
        last_process_frame: None,
    }
}

#[test]
fn runtime_entities_are_found_by_key_then_by_name() {
    let mut scene = SceneLedger::new();
    scene.add_entity(named(5, "door")).unwrap();
    scene.add_entity(named(6, "window")).unwrap();
    let mut ids: StrMap<u64> = StrMap::new();
    ids.insert("window".to_string(), 77);
    assert_eq!(find_runtime_entity(&ids, &scene, " door "), Some(5));
    assert_eq!(find_runtime_entity(&ids, &scene, "window"), Some(77));
    assert_eq!(find_runtime_entity(&ids, &scene, "roof"), None);
}

#[test]
fn repeating_an_upsert_adds_no_cube_and_loads_nothing_again() {
    let first = plan_runtime_entity("crate", true, SceneRuntimeVisualKind::Cube, None, None, 3, Some(4)).unwrap();
    // The cube store is now full, yet the repeat needs no new cube.
    let again = plan_runtime_entity(
        "crate",
        true,
        SceneRuntimeVisualKind::Cube,
        None,
        Some(&existing(first.render_slot, None)),
        4,
        Some(4),
    );
    assert_eq!(
        again,
        Ok(RuntimeEntityPlan { render_slot: Some(3), new_cube: false, residency: Some(SceneResidency::Resident) })
    );

    let first = plan_runtime_entity("tree", true, SceneRuntimeVisualKind::NoVisual, Some("models/tree.glb"), None, 0, None)
        .unwrap();
    assert_eq!(first.residency, Some(SceneResidency::Unloaded));
    let again = plan_runtime_entity(
        "tree",
        true,
        SceneRuntimeVisualKind::NoVisual,
        Some("models/tree.glb"),
        Some(&existing(first.render_slot, Some("models/tree.glb"))),
        0,
        None,
    );
    assert_eq!(again, Ok(RuntimeEntityPlan { render_slot: None, new_cube: false, residency: None }));
}

#[test]
fn upserting_the_same_runtime_entity_twice_changes_nothing_the_second_time() {
    let mut scene = SceneLedger::new();
    let mut ids: StrMap<u64> = StrMap::new();
    let (r, next) = upsert_runtime_entity(
        &mut scene, &mut ids, " crate ", true, SceneRuntimeVisualKind::Cube, None, true, 0, Some(4), 100,
    );
    let (id, plan) = r.unwrap();
    assert_eq!(id, 100);
    assert_eq!(next, 101);
    assert_eq!(plan.render_slot, Some(0));
    assert_eq!(ids.get("crate"), Some(&100));
    let e = scene.entity(100).unwrap();
    assert_eq!(e.lifecycle, SceneLifecycle::Active);
    assert_eq!(e.mobility, SceneMobility::Dynamic);
    assert_eq!(e.name, "crate");
    let revision = e.revision;
    scene.drain_mutations();

    let (r, next) = upsert_runtime_entity(
        &mut scene, &mut ids, "crate", true, SceneRuntimeVisualKind::Cube, None, true, 1, Some(1), 101,
    );
    assert_eq!(r.unwrap().0, 100);
    assert_eq!(next, 101);
    assert_eq!(scene.entity_count(), 1);
    assert_eq!(scene.entity(100).unwrap().revision, revision);
    assert_eq!(scene.entity(100).unwrap().lifecycle, SceneLifecycle::Active);
    assert!(scene.drain_mutations().is_empty());
}

#[test]
fn runtime_upsert_takes_over_a_named_entity_and_reports_refusals() {
    let mut scene = SceneLedger::new();
    let mut record = named(7, "tree");
    record.asset_ref = Some("models/old.glb".to_string());
    scene.add_entity(record).unwrap();
    let mut ids: StrMap<u64> = StrMap::new();

    let (r, next) = upsert_runtime_entity(
        &mut scene, &mut ids, "tree", true, SceneRuntimeVisualKind::NoVisual, Some("models/new.glb"), true, 0, None, 50,
    );
    let (id, plan) = r.unwrap();
    assert_eq!((id, next), (7, 50));
    assert_eq!(plan.residency, Some(SceneResidency::Unloaded));
    let e = scene.entity(7).unwrap();
    assert_eq!(e.asset_ref.as_deref(), Some("models/new.glb"));
    assert_eq!(e.residency, SceneResidency::Unloaded);
    assert_eq!(e.lifecycle, SceneLifecycle::Active);
    assert_eq!(ids.get("tree"), Some(&7));

    let (r, _) = upsert_runtime_entity(
        &mut scene, &mut ids, "  ", true, SceneRuntimeVisualKind::NoVisual, None, true, 0, None, 50,
    );
    assert!(matches!(r, Err(RuntimeUpsertError::Refused(RuntimeEntityError::EmptyKey))));
    let (r, _) = upsert_runtime_entity(
        &mut scene, &mut ids, "tree", true, SceneRuntimeVisualKind::NoVisual, None, false, 0, None, 50,
    );
    assert!(matches!(r, Err(RuntimeUpsertError::Refused(RuntimeEntityError::NotDynamic { .. }))));

    // A key recorded for an entity the scene no longer holds.
    ids.insert("ghost".to_string(), 999);
    let (r, next) = upsert_runtime_entity(
        &mut scene, &mut ids, "ghost", true, SceneRuntimeVisualKind::NoVisual, None, true, 0, None, 50,
    );
    match r {
        Err(RuntimeUpsertError::Disappeared { key }) => assert_eq!(key, "ghost"),
        _ => panic!("expected a disappeared entity"),
    }
    assert_eq!(next, 50);

    // A new entity whose id is taken: the counter still advances.
    let (r, next) = upsert_runtime_entity(
        &mut scene, &mut ids, "rock", true, SceneRuntimeVisualKind::NoVisual, None, true, 0, None, 7,
    );
    assert!(matches!(r, Err(RuntimeUpsertError::World(_))));
    assert_eq!(next, 8);
}
