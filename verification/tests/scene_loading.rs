use newviso::json::{JsonNumber, JsonValue};
use newviso::scene_load::{load_scene, plan_scene_entities, SceneEntityKind, SceneLoadError};
use newviso::scene_world::{SceneLifecycle, SceneMobility, SceneResidency, SceneWorldError};
use newviso::strmap::StrMap;

fn obj(pairs: Vec<(&str, JsonValue)>) -> JsonValue {
    let mut m = StrMap::new();
    for (k, v) in pairs {
        m.insert(k.to_string(), v);
    }
    JsonValue::Object(m)
}

fn num(n: u64) -> JsonValue {
    JsonValue::Number(JsonNumber::PosInt(n))
}

fn text(s: &str) -> JsonValue {
    JsonValue::Str(s.to_string())
}

fn entry(id: Option<u64>, record: JsonValue) -> JsonValue {
    let mut pairs = vec![("components", obj(vec![("newengine.scene.entity", record)]))];
    if let Some(id) = id {
        pairs.push(("handle", obj(vec![("stable_id", num(id))])));
    }
    obj(pairs)
}

fn camera(name: &str) -> JsonValue {
    obj(vec![
        ("kind", text("camera")),
        ("name", text(name)),
        ("transform", obj(vec![])),
        ("camera", obj(vec![])),
    ])
}

fn cube(name: &str, extra: Vec<(&str, JsonValue)>) -> JsonValue {
    let mut pairs = vec![
        ("kind", text("mesh")),
        ("name", text(name)),
        ("transform", obj(vec![])),
        ("material", obj(vec![])),
        ("mesh", obj(vec![("primitive", text("cube"))])),
    ];
    pairs.extend(extra);
    obj(pairs)
}

fn asset_mesh(extra: Vec<(&str, JsonValue)>) -> JsonValue {
    let mut pairs = vec![
        ("kind", text("mesh")),
        ("transform", obj(vec![])),
        ("mesh", obj(vec![("asset", text("models/rock.glb"))])),
    ];
    pairs.extend(extra);
    obj(pairs)
}

fn snapshot(entries: Vec<JsonValue>) -> JsonValue {
    obj(vec![("title", text("Quarry")), ("entities", JsonValue::Array(entries))])
}

fn all_ok(s: &JsonValue) -> Vec<bool> {
    match s.get("entities") {
        Some(JsonValue::Array(items)) => vec![true; items.len()],
        _ => Vec::new(),
    }
}

fn load(s: &JsonValue) -> Result<newviso::scene_load::SceneLoad, SceneLoadError> {
    load_scene(s, &all_ok(s))
}

#[test]
fn snapshot_entries_become_camera_meshes_and_logic() {
    let s = snapshot(vec![
        entry(Some(10), cube("Crate", vec![("mobility", text("dynamic"))])),
        entry(Some(11), camera("Eye")),
        entry(None, obj(vec![("note", text("not a scene entity"))])),
        entry(Some(12), asset_mesh(vec![("parent_id", num(10))])),
        entry(Some(13), obj(vec![("kind", text("light")), ("parent", num(12))])),
        entry(Some(14), cube("Second", vec![])),
    ]);
    let loaded = load(&s).ok().unwrap();
    let kinds: Vec<(u64, SceneEntityKind)> = loaded.entities.iter().map(|e| (e.id, e.kind)).collect();
    assert_eq!(
        kinds,
        vec![
            (11, SceneEntityKind::Camera),
            (10, SceneEntityKind::DynamicMesh),
            (12, SceneEntityKind::StaticMesh),
            (14, SceneEntityKind::StaticMesh),
            (13, SceneEntityKind::Light),
        ]
    );
    let crate_ = loaded.ledger.entity(10).unwrap();
    assert_eq!(crate_.render_slot, Some(0));
    assert_eq!(crate_.mobility, SceneMobility::Dynamic);
    assert_eq!(crate_.lifecycle, SceneLifecycle::Active);
    assert_eq!(loaded.ledger.entity(14).unwrap().render_slot, Some(1));
    let rock = loaded.ledger.entity(12).unwrap();
    assert_eq!(rock.name, "AssetMesh");
    assert_eq!(rock.asset_ref.as_deref(), Some("models/rock.glb"));
    assert_eq!(rock.residency, SceneResidency::Unloaded);
    assert_eq!(rock.parent, Some(10));
    let light = loaded.ledger.entity(13).unwrap();
    assert_eq!(light.name, "light");
    assert_eq!(light.parent, Some(12));
    assert_eq!(light.residency, SceneResidency::Resident);
    assert_eq!(loaded.report.title, "Quarry");
    assert_eq!(loaded.report.entity_count, 6);
    assert_eq!(loaded.report.camera_name, "Eye");
    assert_eq!(loaded.report.mesh_name, "Crate");
    assert_eq!(loaded.ledger.entity_count(), 5);
}

#[test]
fn stable_ids_default_to_positions_and_later_cameras_are_logic() {
    let s = obj(vec![(
        "entities",
        JsonValue::Array(vec![
            entry(None, camera("Main")),
            entry(None, asset_mesh(vec![])),
            entry(None, camera("Spare")),
        ]),
    )]);
    let loaded = load(&s).ok().unwrap();
    assert_eq!(loaded.entities[0].id, 1);
    assert_eq!(loaded.entities[1].id, 2);
    assert_eq!(loaded.entities[2].id, 3);
    assert_eq!(loaded.entities[2].kind, SceneEntityKind::Unknown);
    assert_eq!(loaded.report.title, "NewViso 3D Scene");
    assert_eq!(loaded.report.mesh_name, "Cube");
}

#[test]
fn snapshots_missing_parts_are_refused_in_order() {
    assert_eq!(load(&obj(vec![])).err(), Some(SceneLoadError::NoEntities));
    assert_eq!(
        load(&snapshot(vec![entry(Some(1), cube("C", vec![]))])).err(),
        Some(SceneLoadError::NoCamera)
    );
    assert_eq!(load(&snapshot(vec![entry(Some(1), camera("E"))])).err(), Some(SceneLoadError::NoMesh));
    let bare_camera = obj(vec![("kind", text("camera")), ("camera", obj(vec![]))]);
    assert_eq!(
        load(&snapshot(vec![entry(Some(1), bare_camera), entry(Some(2), cube("C", vec![]))])).err(),
        Some(SceneLoadError::CameraWithoutTransform)
    );
    let no_source = obj(vec![("kind", text("mesh")), ("transform", obj(vec![]))]);
    assert_eq!(
        load(&snapshot(vec![entry(Some(1), camera("E")), entry(Some(2), no_source)])).err(),
        Some(SceneLoadError::MeshWithoutSource { name: "Mesh".to_string() })
    );
    let no_material = obj(vec![
        ("kind", text("mesh")),
        ("transform", obj(vec![])),
        ("mesh", obj(vec![("primitive", text("cube"))])),
    ]);
    assert_eq!(
        load(&snapshot(vec![entry(Some(1), camera("E")), entry(Some(2), no_material)])).err(),
        Some(SceneLoadError::CubeWithoutMaterial)
    );
    let no_transform = obj(vec![("kind", text("mesh")), ("mesh", obj(vec![("asset", text("a"))]))]);
    assert_eq!(
        load(&snapshot(vec![entry(Some(1), camera("E")), entry(Some(2), no_transform)])).err(),
        Some(SceneLoadError::MeshWithoutTransform)
    );
}

#[test]
fn numbers_and_duplicate_ids_are_refused_where_they_are_met() {
    let s = snapshot(vec![
        entry(Some(1), camera("E")),
        entry(Some(2), cube("A", vec![])),
        entry(Some(2), cube("B", vec![])),
    ]);
    assert_eq!(load(&s).err(), Some(SceneLoadError::DuplicateEntity(2)));
    let entries = match s.get("entities") {
        Some(JsonValue::Array(items)) => items.clone(),
        _ => unreachable!(),
    };
    assert_eq!(
        plan_scene_entities(&entries, &vec![true, true, false]).err(),
        Some(SceneLoadError::Numbers { index: 2 })
    );
    assert_eq!(
        plan_scene_entities(&entries, &vec![true, false, true]).err(),
        Some(SceneLoadError::Numbers { index: 1 })
    );
}

#[test]
fn parent_links_that_fail_refuse_the_snapshot() {
    let base = |links: Vec<(u64, Option<u64>)>| {
        let mut entries = vec![entry(Some(1), camera("E"))];
        for (id, parent) in links {
            let extra = match parent {
                Some(p) => vec![("parent_id", num(p))],
                None => vec![],
            };
            entries.push(entry(Some(id), asset_mesh(extra)));
        }
        load(&snapshot(entries)).err()
    };
    assert_eq!(base(vec![(2, Some(2))]), Some(SceneLoadError::World(SceneWorldError::SelfParent(2))));
    assert_eq!(base(vec![(2, Some(9))]), Some(SceneLoadError::World(SceneWorldError::ParentNotFound(9))));
    assert_eq!(
        base(vec![(2, Some(3)), (3, Some(2))]),
        Some(SceneLoadError::World(SceneWorldError::HierarchyCycle { child: 3, parent: 2 }))
    );
    assert_eq!(base(vec![(2, Some(3)), (3, Some(1))]), None);
}
