use newviso::text::{compare_str, normalize_key, KeyOrder};
use newviso::textures::TextureFormat;
use newviso::strmap::StrMap;
use newviso::world::{
    keyed, nav_node_removal, next_fact_revision, representation_for_tier, valid_event_sequences, valid_label,
    valid_travel_route, validate_id, InvalidId, KeyMismatch, NavNodeInUse, PopulationStreamingPolicyDesc,
    SimulationTier,
};

#[test]
fn uncompressed_mips_are_four_bytes_per_texel() {
    assert_eq!(TextureFormat::Rgba8Unorm.expected_mip_bytes(4, 3), Some(48));
    assert_eq!(TextureFormat::Rgba8Srgb.expected_mip_bytes(1, 1), Some(4));
    assert_eq!(TextureFormat::Rgba8Unorm.expected_mip_bytes(0, 9), Some(0));
}

#[test]
fn compressed_mips_round_up_to_whole_blocks() {
    assert_eq!(TextureFormat::Bc1RgbaUnorm.expected_mip_bytes(1, 1), Some(8));
    assert_eq!(TextureFormat::Bc1RgbaSrgb.expected_mip_bytes(5, 4), Some(16));
    assert_eq!(TextureFormat::Bc7RgbaSrgb.expected_mip_bytes(5, 5), Some(64));
    assert_eq!(TextureFormat::Bc3RgbaUnorm.expected_mip_bytes(256, 128), Some(64 * 32 * 16));
    assert_eq!(TextureFormat::Bc5RgUnorm.expected_mip_bytes(0, 0), Some(0));
}

#[test]
fn huge_mips_overflow_to_none_on_narrow_usize_only() {
    let r = TextureFormat::Rgba8Unorm.expected_mip_bytes(u32::MAX, u32::MAX);
    let exact = (u32::MAX as u128) * (u32::MAX as u128) * 4;
    if exact <= usize::MAX as u128 {
        assert_eq!(r, Some(exact as usize));
    } else {
        assert_eq!(r, None);
    }
}

#[test]
fn format_properties() {
    assert!(!TextureFormat::Rgba8Unorm.is_block_compressed());
    assert!(TextureFormat::Bc6hSf16.is_block_compressed());
    assert!(TextureFormat::Bc2RgbaSrgb.is_srgb());
    assert!(!TextureFormat::Bc6hUf16.is_srgb());
    assert_eq!(TextureFormat::Bc1RgbaUnorm.bytes_per_block(), 8);
    assert_eq!(TextureFormat::Bc2RgbaUnorm.bytes_per_block(), 16);
    assert_eq!(TextureFormat::Rgba8Srgb.bytes_per_block(), 4);
    assert_eq!(TextureFormat::Bc7RgbaUnorm.block_extent(), 4);
    assert_eq!(TextureFormat::Rgba8Srgb.block_extent(), 1);
}

#[test]
fn labels_are_trimmed_and_bounded() {
    assert!(valid_label("actor.1"));
    assert!(valid_label("  actor.1  "));
    assert!(!valid_label("   "));
    assert!(!valid_label(""));
    assert!(valid_label(&"a".repeat(128)));
    assert!(!valid_label(&"a".repeat(129)));
    assert!(!valid_label(&"\u{e9}".repeat(65)));
    assert_eq!(validate_id("world actor", "walker"), Ok(()));
    assert_eq!(validate_id("world actor", " "), Err(InvalidId { kind: "world actor".to_string() }));
}

#[test]
fn checkpoint_keys_match_ids() {
    assert_eq!(keyed("actor.1", "actor.1"), Ok(()));
    assert_eq!(keyed("actor.1", "actor.2"), Err(KeyMismatch));
    assert_eq!(keyed("", ""), Ok(()));
}

#[test]
fn population_policy_limits() {
    let d = PopulationStreamingPolicyDesc::default();
    assert_eq!(d.max_resident_sets, 32);
    assert!(d.is_valid());
    let mut p = PopulationStreamingPolicyDesc::default();
    p.max_resident_sets = 0;
    assert!(!p.is_valid());
    p.max_resident_sets = 65_536;
    assert!(p.is_valid());
    p.request_budget_per_tick = 65_537;
    assert!(!p.is_valid());
    p.request_budget_per_tick = 0;
    p.fallback_set = Some("  ".to_string());
    assert!(!p.is_valid());
    p.fallback_set = Some("crowd.default".to_string());
    assert!(p.is_valid());
}

#[test]
fn tiers_name_their_representation() {
    assert_eq!(SimulationTier::Full.as_str(), "full");
    assert_eq!(representation_for_tier(SimulationTier::Full), "physical");
    assert_eq!(representation_for_tier(SimulationTier::Background), "abstract");
    assert!(SimulationTier::Full.rank() < SimulationTier::Background.rank());
    assert_eq!(SimulationTier::Reduced.as_str(), "reduced");
    assert_eq!(representation_for_tier(SimulationTier::Reduced), "proxy");
}

#[test]
fn strings_compare_by_bytes() {
    assert_eq!(compare_str("a", "b"), KeyOrder::Less);
    assert_eq!(compare_str("ab", "a"), KeyOrder::Greater);
    assert_eq!(compare_str("Z", "a"), KeyOrder::Less);
    assert_eq!(compare_str("x", "x"), KeyOrder::Equal);
    assert_eq!(normalize_key("  MiXeD Case\t"), "mixed case");
}

#[test]
fn fact_revisions_count_up_and_skip_zero() {
    assert_eq!(next_fact_revision(None), 1);
    assert_eq!(next_fact_revision(Some(12)), 13);
    assert_eq!(next_fact_revision(Some(u64::MAX)), 1);
}

#[test]
fn event_sequences_must_increase_below_the_counter() {
    assert!(valid_event_sequences(&[], 1));
    assert!(valid_event_sequences(&[1, 2, 5], 6));
    assert!(!valid_event_sequences(&[1, 2, 5], 5));
    assert!(!valid_event_sequences(&[0, 2], 6));
    assert!(!valid_event_sequences(&[3, 3], 6));
    assert!(!valid_event_sequences(&[4, 2], 6));
}

fn nodes(ids: &[&str]) -> StrMap<()> {
    let mut m = StrMap::new();
    for id in ids {
        m.insert(id.to_string(), ());
    }
    m
}

#[test]
fn travel_routes_end_at_their_destination() {
    let known = nodes(&["a", "b", "c"]);
    let route = vec!["a".to_string(), "b".to_string(), "c".to_string()];
    assert!(valid_travel_route(&route, 1, "c", &known));
    assert!(!valid_travel_route(&route, 3, "c", &known));
    assert!(!valid_travel_route(&route, 0, "b", &known));
    assert!(!valid_travel_route(&[], 0, "c", &known));
    assert!(!valid_travel_route(&route, 0, "c", &nodes(&["a", "c"])));
}

#[test]
fn referenced_navigation_nodes_stay() {
    let edges = vec![("a".to_string(), "b".to_string())];
    let routes = vec![vec!["c".to_string(), "d".to_string()]];
    assert_eq!(nav_node_removal(" b ", &edges, &routes), Err(NavNodeInUse::ByEdge));
    assert_eq!(nav_node_removal("d", &edges, &routes), Err(NavNodeInUse::ByTravel));
    assert_eq!(nav_node_removal("e", &edges, &routes), Ok(()));
}
