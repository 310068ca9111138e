use newviso::bootstrap::{
    capability_needs, plan_capability_activation, plan_service_binding, require_provider, CapabilityActivation,
    CapabilityRequest, MissingProvider, ProviderOverrides, ProviderRoles, ServiceBinding,
};
use newviso::scene::{sky_texture_upload, SceneProcessClaims, SkyTextureError, SkyTextureResources};

fn request(id: &str, min_version: u32, provider: Option<&str>) -> CapabilityRequest {
    CapabilityRequest { id: id.to_string(), min_version, provider: provider.map(|p| p.to_string()) }
}

#[test]
fn required_needs_come_before_optional_ones() {
    let needs = capability_needs(
        &[request("engine.render", 3, Some("vulkan")), request("engine.input", 1, None)],
        &[request("engine.audio", 2, None)],
    );
    assert_eq!(needs.len(), 3);
    assert_eq!(needs[0].id, "engine.render");
    assert_eq!(needs[0].min_version, 3);
    assert_eq!(needs[0].provider.as_deref(), Some("vulkan"));
    assert!(needs[0].required);
    assert!(needs[1].required);
    assert_eq!(needs[2].id, "engine.audio");
    assert!(!needs[2].required);
}

#[test]
fn providers_are_found_by_id() {
    let ids = vec!["logging".to_string(), "physics".to_string(), "physics".to_string()];
    assert_eq!(require_provider(&ids, "physics"), Ok(1));
    assert_eq!(require_provider(&ids, "render"), Err(MissingProvider { id: "render".to_string() }));
    assert_eq!(require_provider(&[], "x"), Err(MissingProvider { id: "x".to_string() }));
}

#[test]
fn platform_and_render_capabilities_are_deferred() {
    assert_eq!(plan_capability_activation(false, false, None, false), CapabilityActivation::Unavailable);
    assert_eq!(plan_capability_activation(true, true, None, false), CapabilityActivation::Deferred);
    assert_eq!(plan_capability_activation(true, false, Some("engine.render"), false), CapabilityActivation::Deferred);
    assert_eq!(plan_capability_activation(true, false, Some("engine.platform"), true), CapabilityActivation::Deferred);
    assert_eq!(plan_capability_activation(true, false, Some("engine.physics"), false), CapabilityActivation::Start);
    assert_eq!(plan_capability_activation(true, false, None, true), CapabilityActivation::AlreadyRunning);
}

#[test]
fn missing_services_fail_only_required_capabilities() {
    assert_eq!(plan_service_binding(true, false, false, true), ServiceBinding::NotBound);
    assert_eq!(plan_service_binding(true, true, true, true), ServiceBinding::Alias);
    assert_eq!(plan_service_binding(true, true, false, true), ServiceBinding::FailMissing);
    assert_eq!(plan_service_binding(true, true, false, false), ServiceBinding::WarnMissing);
}

fn sky(width: u32, height: u32, bytes: usize, srgb: bool) -> SkyTextureResources {
    SkyTextureResources { name: "sky".to_string(), width, height, srgb, rgba8: vec![0; bytes] }
}

#[test]
fn sky_textures_hold_four_bytes_per_texel() {
    let upload = sky_texture_upload(&sky(2, 3, 24, true)).unwrap();
    assert_eq!(upload.format, "Rgba8Srgb");
    assert_eq!(upload.byte_len, 24);
    assert_eq!(sky_texture_upload(&sky(1, 1, 4, false)).unwrap().format, "Rgba8Unorm");
    assert_eq!(sky_texture_upload(&sky(0, 3, 0, true)), Err(SkyTextureError::ZeroExtent { name: "sky".to_string() }));
    assert_eq!(
        sky_texture_upload(&sky(2, 2, 15, true)),
        Err(SkyTextureError::ByteLength { name: "sky".to_string(), actual: 15, width: 2, height: 2, expected: 16 })
    );
}

#[test]
fn claim_snapshot_lists_owners_in_order() {
    let mut claims = SceneProcessClaims::new();
    claims.set("zeta".to_string(), "physics".to_string(), true);
    claims.set("alpha".to_string(), "physics".to_string(), true);
    claims.set("alpha".to_string(), "gameplay".to_string(), true);
    let snapshot = claims.snapshot();
    assert_eq!(snapshot.len(), 2);
    assert_eq!(snapshot.get("physics"), Some(&vec!["alpha".to_string(), "zeta".to_string()]));
    assert_eq!(snapshot.get("gameplay"), Some(&vec!["alpha".to_string()]));
}

fn roles(prefix: &str) -> ProviderRoles {
    ProviderRoles {
        logging: format!("{prefix}.logging"),
        input: format!("{prefix}.input"),
        assets: format!("{prefix}.assets"),
        ecs: format!("{prefix}.ecs"),
        platform: format!("{prefix}.platform"),
        renderer: format!("{prefix}.renderer"),
    }
}

#[test]
fn project_provider_overrides_replace_only_the_roles_they_name() {
    let defaults = roles("builtin");
    let overrides = ProviderOverrides {
        logging: None,
        input: Some("project.input".to_string()),
        assets: None,
        ecs: None,
        platform: None,
        renderer: Some("project.renderer".to_string()),
    };
    let r = ProviderRoles::resolve(&defaults, Some(&overrides));
    assert_eq!(r.logging, "builtin.logging");
    assert_eq!(r.input, "project.input");
    assert_eq!(r.assets, "builtin.assets");
    assert_eq!(r.ecs, "builtin.ecs");
    assert_eq!(r.platform, "builtin.platform");
    assert_eq!(r.renderer, "project.renderer");
    let plain = ProviderRoles::resolve(&defaults, None);
    assert_eq!(plain.renderer, "builtin.renderer");
    assert_eq!(plain.logging, "builtin.logging");
}
