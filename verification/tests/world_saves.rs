use newviso::persistence::{
    check_save_envelope, check_saved_presentations, save_checksum, save_size_ok, SaveEnvelopeError,
    SavedPresentation, SavedPresentationError, MAX_SAVE_BYTES,
};
use newviso::presentation::PresentationError;

#[test]
fn save_checksum_is_lowercase_blake3_hex() {
    assert_eq!(
        save_checksum(""),
        "af1349b9f5f9a1a6a0404dea36dcc9499bcb25c9adc112b7cc9a93cae41f3262"
    );
    let payload = "{\"world\":{},\"presentations\":{}}";
    assert_eq!(save_checksum(payload), blake3::hash(payload.as_bytes()).to_hex().to_string());
    assert_eq!(save_checksum(payload).len(), 64);
}

#[test]
fn save_size_limit_is_inclusive() {
    assert!(save_size_ok(MAX_SAVE_BYTES as usize));
    assert!(!save_size_ok(MAX_SAVE_BYTES as usize + 1));
    assert!(save_size_ok(0));
}

#[test]
fn envelopes_must_match_schema_project_and_checksum() {
    let payload = "{}";
    let sum = save_checksum(payload);
    assert_eq!(check_save_envelope("newviso.world.save.v1", "demo", "demo", &sum, payload), Ok(()));
    assert_eq!(
        check_save_envelope("newviso.world.save.v2", "demo", "demo", &sum, payload),
        Err(SaveEnvelopeError::Identity)
    );
    assert_eq!(
        check_save_envelope("newviso.world.save.v1", "other", "demo", "not-a-sum", payload),
        Err(SaveEnvelopeError::Identity)
    );
    assert_eq!(
        check_save_envelope("newviso.world.save.v1", "demo", "demo", &sum, "{ }"),
        Err(SaveEnvelopeError::Checksum)
    );
    assert_eq!(
        check_save_envelope("newviso.world.save.v1", "demo", "demo", &sum.to_uppercase(), payload),
        Err(SaveEnvelopeError::Checksum)
    );
}

fn saved(actor: &str, key: &str, geometry_ok: bool) -> SavedPresentation {
    SavedPresentation {
        actor_id: actor.to_string(),
        scene_key: key.to_string(),
        representations: vec!["physical".to_string()],
        geometry_ok,
    }
}

#[test]
fn saved_presentations_are_checked_in_order() {
    assert_eq!(check_saved_presentations(&vec![saved("a", "k1", true), saved("b", "k2", true)]), Ok(()));
    assert_eq!(
        check_saved_presentations(&vec![saved("a", "k1", true), saved("b", "k1", true)]),
        Err(SavedPresentationError::DuplicateSceneKey)
    );
    assert_eq!(
        check_saved_presentations(&vec![saved("a", "k1", true), saved("b", "k1", false)]),
        Err(SavedPresentationError::Geometry)
    );
    assert_eq!(
        check_saved_presentations(&vec![saved(" ", "k1", false)]),
        Err(SavedPresentationError::Invalid(PresentationError::EmptyName))
    );
    let mut odd = saved("a", "k", true);
    odd.representations = vec!["ghost".to_string()];
    assert_eq!(
        check_saved_presentations(&vec![odd]),
        Err(SavedPresentationError::Invalid(PresentationError::Representations))
    );
}
