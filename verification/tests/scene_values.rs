use newviso::scene::{
    normalize_process_label, ProcessLabelError, SceneDirtyFlags, SceneMutationSource,
    SceneProcessClaims, VisibilityMask, DIRTY_BOUNDS, DIRTY_EMPTY, DIRTY_HIERARCHY, DIRTY_LIFECYCLE,
    DIRTY_PROCESS_CONTROL, DIRTY_TRANSFORM,
};

#[test]
fn visibility_channels_are_normalized() {
    let mut mask = VisibilityMask::new();
    assert!(mask.all_visible());
    mask.set("  Camera ", false);
    assert!(!mask.visible_for("camera"));
    assert!(!mask.visible_for("CAMERA"));
    assert!(mask.visible_for("script"));
    mask.set("   ", false);
    assert_eq!(mask.raw().len(), 1);
    mask.set("camera", true);
    assert!(mask.all_visible());
    assert!(mask.raw().is_empty());
}

#[test]
fn hiding_then_showing_restores_the_mask() {
    let mut mask = VisibilityMask::new();
    mask.set("shadow", false);
    mask.set("Reflection", false);
    mask.set("reflection", true);
    assert!(!mask.visible_for("shadow"));
    assert!(mask.visible_for("reflection"));
    assert_eq!(mask.raw().len(), 1);
}

#[test]
fn dirty_flags_union_and_labels() {
    let a = SceneDirtyFlags(DIRTY_TRANSFORM);
    let b = SceneDirtyFlags(DIRTY_BOUNDS).union(SceneDirtyFlags(DIRTY_PROCESS_CONTROL));
    let both = a.union(b);
    assert_eq!(both, SceneDirtyFlags(1 | 2 | 128));
    assert!(both.contains(SceneDirtyFlags(DIRTY_BOUNDS)));
    assert!(!both.contains(SceneDirtyFlags(DIRTY_HIERARCHY)));
    assert!(!both.contains(SceneDirtyFlags(DIRTY_EMPTY)));
    assert_eq!(both.labels(), vec!["transform", "bounds", "process_control"]);
    assert_eq!(SceneDirtyFlags(DIRTY_EMPTY).labels(), Vec::<&str>::new());
    assert_eq!(SceneDirtyFlags(0xffff).labels().len(), 8);
    assert_eq!(SceneDirtyFlags(DIRTY_LIFECYCLE).labels(), vec!["lifecycle"]);
}

#[test]
fn dirty_flags_union_is_commutative_and_idempotent() {
    let x = SceneDirtyFlags(5);
    let y = SceneDirtyFlags(48);
    assert_eq!(x.union(y), y.union(x));
    assert_eq!(x.union(x), x);
    assert_eq!(x.union(SceneDirtyFlags(DIRTY_EMPTY)), x);
}

#[test]
fn mutation_sources_have_names() {
    assert_eq!(SceneMutationSource::Engine.as_str(), "engine");
    assert_eq!(SceneMutationSource::Script.as_str(), "script");
    assert_eq!(SceneMutationSource::Physics.as_str(), "physics");
    assert_eq!(SceneMutationSource::Animation.as_str(), "animation");
    assert_eq!(SceneMutationSource::Parent.as_str(), "parent");
    assert_eq!(SceneMutationSource::Streaming.as_str(), "streaming");
}

#[test]
fn claims_are_multi_owner() {
    let mut claims = SceneProcessClaims::new();
    assert!(!claims.active());
    assert!(claims.set("engine.physics".to_string(), "physics".to_string(), true));
    assert!(claims.set("project.script".to_string(), "physics".to_string(), true));
    assert!(!claims.set("project.script".to_string(), "physics".to_string(), true));
    assert!(claims.active());
    assert!(claims.set("engine.physics".to_string(), "physics".to_string(), false));
    assert!(claims.active());
    assert_eq!(claims.reasons(), vec!["physics".to_string()]);
    assert!(claims.set("project.script".to_string(), "physics".to_string(), false));
    assert!(!claims.active());
    assert!(claims.reasons().is_empty());
}

#[test]
fn releasing_an_unknown_claim_changes_nothing() {
    let mut claims = SceneProcessClaims::new();
    assert!(!claims.set("a".to_string(), "gameplay".to_string(), false));
    assert!(claims.set("a".to_string(), "gameplay".to_string(), true));
    assert!(!claims.set("b".to_string(), "gameplay".to_string(), false));
    assert!(claims.active());
}

#[test]
fn clearing_claims_reports_a_change_once() {
    let mut claims = SceneProcessClaims::new();
    assert!(!claims.clear());
    claims.set("a".to_string(), "z".to_string(), true);
    claims.set("a".to_string(), "b".to_string(), true);
    assert_eq!(claims.reasons(), vec!["b".to_string(), "z".to_string()]);
    assert!(claims.clear());
    assert!(!claims.active());
    assert!(!claims.clear());
}

#[test]
fn process_labels_are_normalized_or_refused() {
    assert_eq!(normalize_process_label("  Project.Script ", "owner"), Ok("project.script".to_string()));
    assert_eq!(normalize_process_label("a:b/c-d_e", "reason"), Ok("a:b/c-d_e".to_string()));
    assert_eq!(
        normalize_process_label("   ", "owner"),
        Err(ProcessLabelError::Length { field: "owner".to_string() })
    );
    let long = "x".repeat(97);
    assert_eq!(
        normalize_process_label(&long, "reason"),
        Err(ProcessLabelError::Length { field: "reason".to_string() })
    );
    assert_eq!(normalize_process_label(&"x".repeat(96), "reason"), Ok("x".repeat(96)));
    assert_eq!(
        normalize_process_label("Game Play", "reason"),
        Err(ProcessLabelError::UnsupportedCharacters {
            field: "reason".to_string(),
            value: "game play".to_string()
        })
    );
    assert!(matches!(
        normalize_process_label("caf\u{e9}", "owner"),
        Err(ProcessLabelError::UnsupportedCharacters { .. })
    ));
}
