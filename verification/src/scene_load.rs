//! Loading a scene from the ECS provider's snapshot: which snapshot entries
//! become the camera, the meshes and the logic entities, the records they
//! enter the scene ledger with, and the order in which a malformed snapshot
//! is refused. Transforms, bounds, camera optics and LOD distances are
//! floating point; they are read by the renderer, and whether each entry's
//! numbers read cleanly reaches this module as one flag per entry.

use vstd::prelude::*;
use crate::json::{pointer_spec, JsonValue};
use crate::readers::{mask_fold, opt_u64, parent_id_spec, read_parent_id, read_visibility_mask};
use crate::scene::VisibilityMask;
use crate::scene::{Scene3dLoadReport, SceneProcessClaims};
use crate::scene_world::{
    acyclic, ancestor, parent_in, reaches, relinked, reparented, same_state, EntityView, SceneEntityRecord, SceneLedger, SceneLifecycle, SceneMobility,
    SceneResidency, SceneWorldError,
};

verus! {

// ---------------------------------------------------------------------------
// Reading snapshot entries.

/// The scene component of a snapshot entry.
pub open spec fn scene_record(e: JsonValue) -> Option<JsonValue> {
    match e.spec_get("components"@) {
        Some(c) => c.spec_get("newengine.scene.entity"@),
        None => None,
    }
}

/// The string member `key` of `v`.
pub open spec fn str_member(v: JsonValue, key: Seq<char>) -> Option<Seq<char>> {
    match v.spec_get(key) {
        Some(x) => x.spec_as_str(),
        None => None,
    }
}

/// The string that `pointer` names in `v`.
pub open spec fn str_at(v: JsonValue, pointer: Seq<char>) -> Option<Seq<char>> {
    match pointer_spec(v, pointer) {
        Some(x) => x.spec_as_str(),
        None => None,
    }
}

/// The kind an entry declares, where it has a scene component.
pub open spec fn record_class(e: JsonValue) -> Option<Seq<char>> {
    match scene_record(e) {
        Some(r) => str_member(r, "kind"@),
        None => None,
    }
}

/// The stable id of the entry at `index`: its handle's, else its position
/// counted from 1.
pub open spec fn snapshot_id(e: JsonValue, index: int) -> u64 {
    let handle_id = match e.spec_get("handle"@) {
        Some(h) => opt_u64(h.spec_get("stable_id"@)),
        None => None,
    };
    match handle_id {
        Some(n) => n,
        None => (index + 1) as u64,
    }
}

/// The record's name, or `default`.
pub open spec fn name_or(r: JsonValue, default: Seq<char>) -> Seq<char> {
    match str_member(r, "name"@) {
        Some(n) => n,
        None => default,
    }
}

/// A record is dynamic only where it says so.
pub open spec fn mobility_of(r: JsonValue) -> SceneMobility {
    if str_member(r, "mobility"@) == Some("dynamic"@) {
        SceneMobility::Dynamic
    } else {
        SceneMobility::Static
    }
}

/// A mesh record drawn as a built-in cube.
pub open spec fn is_cube(r: JsonValue) -> bool {
    str_at(r, "/mesh/primitive"@) == Some("cube"@)
}

/// The string at `first`, or where nothing is there, at `second`.
pub open spec fn str_at_either(r: JsonValue, first: Seq<char>, second: Seq<char>) -> Option<Seq<char>> {
    let found = if pointer_spec(r, first) is Some {
        pointer_spec(r, first)
    } else {
        pointer_spec(r, second)
    };
    match found {
        Some(x) => x.spec_as_str(),
        None => None,
    }
}

/// The asset a mesh record draws.
pub open spec fn mesh_asset(r: JsonValue) -> Option<Seq<char>> {
    str_at_either(r, "/mesh/asset"@, "/mesh/model"@)
}

/// The asset a logic record refers to.
pub open spec fn logic_asset(r: JsonValue) -> Option<Seq<char>> {
    str_at_either(r, "/asset/ref"@, "/mesh/asset"@)
}

/// Whether the record's collider is solid.
pub open spec fn solid_flag(r: JsonValue) -> bool {
    match pointer_spec(r, "/collider/solid"@) {
        Some(x) => x.spec_as_bool() == Some(true),
        None => false,
    }
}

/// The channels the record hides.
pub open spec fn hidden_of(r: JsonValue) -> Set<Seq<char>> {
    match r.spec_get("visibility"@) {
        Some(JsonValue::Object(m)) => mask_fold(m.pairs()),
        _ => Set::empty(),
    }
}

fn member_str<'a>(v: &'a JsonValue, key: &str) -> (r: Option<&'a str>)
    ensures
        match str_member(*v, key@) {
            Some(s) => r matches Some(x) && x@ == s,
            None => r is None,
        },
{
    match v.get(key) {
        Some(x) => x.as_str(),
        None => None,
    }
}

fn str_at_exec<'a>(v: &'a JsonValue, pointer: &str) -> (r: Option<&'a str>)
    ensures
        match str_at(*v, pointer@) {
            Some(s) => r matches Some(x) && x@ == s,
            None => r is None,
        },
{
    match v.pointer(pointer) {
        Some(x) => x.as_str(),
        None => None,
    }
}

fn str_at_either_exec<'a>(v: &'a JsonValue, first: &str, second: &str) -> (r: Option<&'a str>)
    ensures
        match str_at_either(*v, first@, second@) {
            Some(s) => r matches Some(x) && x@ == s,
            None => r is None,
        },
{
    let found = match v.pointer(first) {
        Some(x) => Some(x),
        None => v.pointer(second),
    };
    match found {
        Some(x) => x.as_str(),
        None => None,
    }
}

fn name_or_exec(r: &JsonValue, default: &str) -> (s: String)
    ensures
        s@ == name_or(*r, default@),
{
    match member_str(r, "name") {
        Some(n) => n.to_owned(),
        None => default.to_owned(),
    }
}

fn mobility_exec(r: &JsonValue) -> (m: SceneMobility)
    ensures
        m == mobility_of(*r),
{
    match member_str(r, "mobility") {
        Some(s) => if crate::text::compare_str(s, "dynamic") == crate::text::KeyOrder::Equal {
            SceneMobility::Dynamic
        } else {
            SceneMobility::Static
        },
        None => SceneMobility::Static,
    }
}

fn scene_record_exec(e: &JsonValue) -> (r: Option<&JsonValue>)
    ensures
        match scene_record(*e) {
            Some(x) => r matches Some(y) && *y == x,
            None => r is None,
        },
{
    match e.get("components") {
        Some(c) => c.get("newengine.scene.entity"),
        None => None,
    }
}

fn snapshot_id_exec(e: &JsonValue, index: usize) -> (id: u64)
    requires
        index < usize::MAX,
    ensures
        id == snapshot_id(*e, index as int),
{
    let handle_id = match e.get("handle") {
        Some(h) => match h.get("stable_id") {
            Some(v) => v.as_u64(),
            None => None,
        },
        None => None,
    };
    match handle_id {
        Some(n) => n,
        None => (index + 1) as u64,
    }
}

// ---------------------------------------------------------------------------
// Sorting snapshot entries into camera, meshes and logic entities.

/// The first of the first `n` entries that declares itself a camera.
pub open spec fn first_camera(es: Seq<JsonValue>, n: nat) -> Option<int>
    decreases n,
{
    if n == 0 {
        None
    } else {
        match first_camera(es, (n - 1) as nat) {
            Some(c) => Some(c),
            None => if record_class(es[n - 1]) == Some("camera"@) {
                Some(n - 1)
            } else {
                None
            },
        }
    }
}

/// Entry `i` is a logic entity: it has a kind, not `mesh`, and is not the
/// first camera (a later camera is a logic entity).
pub open spec fn is_logic(es: Seq<JsonValue>, i: int) -> bool {
    &&& record_class(es[i]) is Some
    &&& record_class(es[i]) != Some("mesh"@)
    &&& !(record_class(es[i]) == Some("camera"@) && first_camera(es, i as nat) is None)
}

/// The positions, among the first `n` entries, of the meshes (`meshes`) or
/// of the logic entities.
pub open spec fn class_indices(es: Seq<JsonValue>, n: nat, meshes: bool) -> Seq<int>
    decreases n,
{
    if n == 0 {
        Seq::empty()
    } else {
        let rest = class_indices(es, (n - 1) as nat, meshes);
        let i = n - 1;
        let pick = if meshes {
            record_class(es[i]) == Some("mesh"@)
        } else {
            is_logic(es, i)
        };
        if pick {
            rest.push(i)
        } else {
            rest
        }
    }
}

proof fn lemma_class_indices_bounded(es: Seq<JsonValue>, n: nat, meshes: bool)
    ensures
        forall|k: int|
            0 <= k < class_indices(es, n, meshes).len() ==> 0 <= #[trigger] class_indices(es, n, meshes)[k] < n && (
            if meshes {
                record_class(es[class_indices(es, n, meshes)[k]]) == Some("mesh"@)
            } else {
                is_logic(es, class_indices(es, n, meshes)[k])
            }),
        class_indices(es, n, meshes).len() <= n,
    decreases n,
{
    if n > 0 {
        lemma_class_indices_bounded(es, (n - 1) as nat, meshes);
    }
}

proof fn lemma_first_camera_bounded(es: Seq<JsonValue>, n: nat)
    ensures
        first_camera(es, n) matches Some(c) ==> 0 <= c < n && record_class(es[c]) == Some("camera"@),
    decreases n,
{
    if n > 0 {
        lemma_first_camera_bounded(es, (n - 1) as nat);
    }
}

/// Sorts snapshot entries: the first camera, then the positions of the
/// meshes and of the logic entities, in snapshot order.
pub fn classify_entries(es: &Vec<JsonValue>) -> (r: (Option<usize>, Vec<usize>, Vec<usize>))
    ensures
        match r.0 {
            Some(c) => first_camera(es@, es@.len()) == Some(c as int),
            None => first_camera(es@, es@.len()) is None,
        },
        r.1@.map_values(|i: usize| i as int) == class_indices(es@, es@.len(), true),
        r.2@.map_values(|i: usize| i as int) == class_indices(es@, es@.len(), false),
{
    let mut camera: Option<usize> = None;
    let mut meshes: Vec<usize> = Vec::new();
    let mut logic: Vec<usize> = Vec::new();
    let mut i: usize = 0;
    while i < es.len()
        invariant
            i <= es@.len(),
            match camera {
                Some(c) => first_camera(es@, i as nat) == Some(c as int),
                None => first_camera(es@, i as nat) is None,
            },
            meshes@.map_values(|k: usize| k as int) == class_indices(es@, i as nat, true),
            logic@.map_values(|k: usize| k as int) == class_indices(es@, i as nat, false),
        decreases es@.len() - i,
    {
        proof {
            lemma_first_camera_bounded(es@, i as nat);
            reveal_strlit("camera");
            reveal_strlit("mesh");
        }
        let class = match scene_record_exec(&es[i]) {
            Some(r) => member_str(r, "kind"),
            None => None,
        };
        match class {
            Some(k) => {
                if crate::text::compare_str(k, "mesh") == crate::text::KeyOrder::Equal {
                    meshes.push(i);
                    proof {
                        assert(meshes@.map_values(|k: usize| k as int) =~= class_indices(es@, (i + 1) as nat, true));
                        assert(logic@.map_values(|k: usize| k as int) =~= class_indices(es@, (i + 1) as nat, false));
                    }
                } else if crate::text::compare_str(k, "camera") == crate::text::KeyOrder::Equal && camera.is_none() {
                    camera = Some(i);
                    proof {
                        assert(meshes@.map_values(|k: usize| k as int) =~= class_indices(es@, (i + 1) as nat, true));
                        assert(logic@.map_values(|k: usize| k as int) =~= class_indices(es@, (i + 1) as nat, false));
                    }
                } else {
                    logic.push(i);
                    proof {
                        assert(meshes@.map_values(|k: usize| k as int) =~= class_indices(es@, (i + 1) as nat, true));
                        assert(logic@.map_values(|k: usize| k as int) =~= class_indices(es@, (i + 1) as nat, false));
                    }
                }
            },
            None => {
                proof {
                    assert(meshes@.map_values(|k: usize| k as int) =~= class_indices(es@, (i + 1) as nat, true));
                    assert(logic@.map_values(|k: usize| k as int) =~= class_indices(es@, (i + 1) as nat, false));
                }
            },
        }
        proof {
            assert(first_camera(es@, (i + 1) as nat) == match first_camera(es@, i as nat) {
                Some(c) => Some(c),
                None => if record_class(es@[i as int]) == Some("camera"@) {
                    Some(i as int)
                } else {
                    None
                },
            });

        }
        i = i + 1;
    }
    (camera, meshes, logic)
}

// ---------------------------------------------------------------------------
// Planning the scene's entities.

/// What a scene entity is, as the snapshot declares it.
#[derive(Clone, Copy, Debug, PartialEq, Eq, Structural)]
pub enum SceneEntityKind {
    Camera,
    StaticMesh,
    DynamicMesh,
    Light,
    Trigger,
    Portal,
    Unknown,
}

/// The kind of a mesh of the given mobility.
pub open spec fn mesh_kind(m: SceneMobility) -> SceneEntityKind {
    match m {
        SceneMobility::Static => SceneEntityKind::StaticMesh,
        SceneMobility::Dynamic => SceneEntityKind::DynamicMesh,
    }
}

/// The kind of a logic entity that declares `kind`.
pub open spec fn logic_kind(kind: Seq<char>) -> SceneEntityKind {
    if kind == "light"@ {
        SceneEntityKind::Light
    } else if kind == "trigger"@ {
        SceneEntityKind::Trigger
    } else if kind == "portal"@ {
        SceneEntityKind::Portal
    } else {
        SceneEntityKind::Unknown
    }
}

/// The kinds of logic entities: `light`, `trigger` and `portal` give a
/// light, a trigger and a portal, and every other kind name an unknown
/// entity. So distinct known names give distinct kinds.
pub proof fn lemma_logic_kind_names(kind: Seq<char>)
    ensures
        (logic_kind(kind) == SceneEntityKind::Light) == (kind == "light"@),
        (logic_kind(kind) == SceneEntityKind::Trigger) == (kind == "trigger"@),
        (logic_kind(kind) == SceneEntityKind::Portal) == (kind == "portal"@),
        (logic_kind(kind) == SceneEntityKind::Unknown) == !(kind == "light"@ || kind == "trigger"@ || kind == "portal"@),
{
    reveal_strlit("light");
    reveal_strlit("trigger");
    reveal_strlit("portal");
    assert("light"@.len() == 5 && "trigger"@.len() == 7 && "portal"@.len() == 6);
}

/// A mesh's kind follows its mobility: static meshes are static-mesh
/// entities, dynamic meshes dynamic-mesh ones, and a mesh kind is never a
/// logic kind. A mesh is dynamic exactly when it declares the mobility
/// `dynamic`.
pub proof fn lemma_mesh_kinds(m: SceneMobility, kind: Seq<char>, r: JsonValue)
    ensures
        (mesh_kind(m) == SceneEntityKind::DynamicMesh) == (m == SceneMobility::Dynamic),
        (mesh_kind(m) == SceneEntityKind::StaticMesh) == (m == SceneMobility::Static),
        mesh_kind(m) != logic_kind(kind),
        (mobility_of(r) == SceneMobility::Dynamic) == (str_member(r, "mobility"@) == Some("dynamic"@)),
{
}

/// A snapshot entry as it enters the scene.
pub struct PlannedEntity {
    /// Its position in the snapshot.
    pub index: usize,
    pub id: u64,
    pub name: String,
    pub kind: SceneEntityKind,
    pub mobility: SceneMobility,
    pub solid: bool,
    pub asset_ref: Option<String>,
    /// The cube it draws from, for a cube mesh.
    pub render_slot: Option<usize>,
    pub residency: SceneResidency,
    /// The parent it names, linked once every entity is in.
    pub parent: Option<u64>,
    pub visibility: VisibilityMask,
}

/// A planned entity as plain values.
pub struct PlannedView {
    pub index: int,
    pub id: u64,
    pub name: Seq<char>,
    pub kind: SceneEntityKind,
    pub mobility: SceneMobility,
    pub solid: bool,
    pub asset: Option<Seq<char>>,
    pub render_slot: Option<usize>,
    pub residency: SceneResidency,
    pub parent: Option<u64>,
    pub hidden: Set<Seq<char>>,
}

impl View for PlannedEntity {
    type V = PlannedView;

    open spec fn view(&self) -> PlannedView {
        PlannedView {
            index: self.index as int,
            id: self.id,
            name: self.name@,
            kind: self.kind,
            mobility: self.mobility,
            solid: self.solid,
            asset: match self.asset_ref {
                Some(a) => Some(a@),
                None => None,
            },
            render_slot: self.render_slot,
            residency: self.residency,
            parent: self.parent,
            hidden: self.visibility.hidden(),
        }
    }
}

/// Why a snapshot was refused, as plain values.
pub enum LoadFailure {
    NoEntities,
    NoCamera,
    NoMesh,
    CameraWithoutTransform,
    CameraWithoutComponent,
    MeshWithoutTransform,
    MeshWithoutSource(Seq<char>),
    CubeWithoutMaterial,
    Numbers(int),
    DuplicateEntity(u64),
    World(SceneWorldError),
}

/// Why a snapshot was refused.
#[derive(Clone, Debug, PartialEq, Eq)]
pub enum SceneLoadError {
    /// The snapshot has no `entities` array.
    NoEntities,
    /// No entry declares itself a camera.
    NoCamera,
    /// No entry declares itself a mesh.
    NoMesh,
    /// The camera has no `transform`.
    CameraWithoutTransform,
    /// The camera has no `camera` component.
    CameraWithoutComponent,
    /// A mesh has no `transform`.
    MeshWithoutTransform,
    /// A mesh that is not a cube names no asset; `name` is its name, or `Mesh`.
    MeshWithoutSource { name: String },
    /// A cube mesh has no `material`.
    CubeWithoutMaterial,
    /// The numbers of the entry at `index` do not read.
    Numbers { index: usize },
    /// Two entries share a stable id.
    DuplicateEntity(u64),
    /// Linking an entity to its parent failed.
    World(SceneWorldError),
}

impl View for SceneLoadError {
    type V = LoadFailure;

    open spec fn view(&self) -> LoadFailure {
        match self {
            SceneLoadError::NoEntities => LoadFailure::NoEntities,
            SceneLoadError::NoCamera => LoadFailure::NoCamera,
            SceneLoadError::NoMesh => LoadFailure::NoMesh,
            SceneLoadError::CameraWithoutTransform => LoadFailure::CameraWithoutTransform,
            SceneLoadError::CameraWithoutComponent => LoadFailure::CameraWithoutComponent,
            SceneLoadError::MeshWithoutTransform => LoadFailure::MeshWithoutTransform,
            SceneLoadError::MeshWithoutSource { name } => LoadFailure::MeshWithoutSource(name@),
            SceneLoadError::CubeWithoutMaterial => LoadFailure::CubeWithoutMaterial,
            SceneLoadError::Numbers { index } => LoadFailure::Numbers(*index as int),
            SceneLoadError::DuplicateEntity(id) => LoadFailure::DuplicateEntity(*id),
            SceneLoadError::World(e) => LoadFailure::World(*e),
        }
    }
}

/// The camera entry at `i`.
pub open spec fn camera_view(es: Seq<JsonValue>, i: int) -> PlannedView {
    let r = scene_record(es[i]).unwrap();
    PlannedView {
        index: i,
        id: snapshot_id(es[i], i),
        name: name_or(r, "MainCamera"@),
        kind: SceneEntityKind::Camera,
        mobility: SceneMobility::Dynamic,
        solid: false,
        asset: None,
        render_slot: None,
        residency: SceneResidency::Resident,
        parent: None,
        hidden: Set::empty(),
    }
}

/// The mesh entry at `i`; a cube draws from cube `slot`.
pub open spec fn mesh_view(es: Seq<JsonValue>, i: int, slot: usize) -> PlannedView {
    let r = scene_record(es[i]).unwrap();
    let cube = is_cube(r);
    PlannedView {
        index: i,
        id: snapshot_id(es[i], i),
        name: if cube {
            name_or(r, "Mesh"@)
        } else {
            name_or(r, "AssetMesh"@)
        },
        kind: mesh_kind(mobility_of(r)),
        mobility: mobility_of(r),
        solid: solid_flag(r),
        asset: if cube {
            None
        } else {
            mesh_asset(r)
        },
        render_slot: if cube {
            Some(slot)
        } else {
            None
        },
        residency: if cube {
            SceneResidency::Resident
        } else {
            SceneResidency::Unloaded
        },
        parent: parent_id_spec(r),
        hidden: hidden_of(r),
    }
}

/// The logic entry at `i`.
pub open spec fn logic_view(es: Seq<JsonValue>, i: int) -> PlannedView {
    let r = scene_record(es[i]).unwrap();
    let kind = str_member(r, "kind"@).unwrap();
    PlannedView {
        index: i,
        id: snapshot_id(es[i], i),
        name: name_or(r, kind),
        kind: logic_kind(kind),
        mobility: mobility_of(r),
        solid: false,
        asset: logic_asset(r),
        render_slot: None,
        residency: SceneResidency::Resident,
        parent: parent_id_spec(r),
        hidden: hidden_of(r),
    }
}

/// How many of `vs` draw from a cube.
pub open spec fn cube_count(vs: Seq<PlannedView>) -> nat
    decreases vs.len(),
{
    if vs.len() == 0 {
        0
    } else {
        cube_count(vs.drop_last()) + if vs.last().render_slot is Some {
            1nat
        } else {
            0nat
        }
    }
}

/// The ids of `vs`.
pub open spec fn planned_ids(vs: Seq<PlannedView>) -> Seq<u64> {
    vs.map_values(|v: PlannedView| v.id)
}

/// The entity a planned one becomes, or why the snapshot is refused: the
/// entry at `i`, of class `class` (0 camera, 1 mesh, 2 logic), after the
/// entities `vs`. Missing parts come first, then the entry's numbers, then
/// a stable id already taken.
pub open spec fn step_plan(es: Seq<JsonValue>, ok: Seq<bool>, i: int, class: int, vs: Seq<PlannedView>) -> Result<
    PlannedView,
    LoadFailure,
> {
    let r = scene_record(es[i]).unwrap();
    let structural = if class == 0 {
        if r.spec_get("transform"@) is None {
            Some(LoadFailure::CameraWithoutTransform)
        } else if r.spec_get("camera"@) is None {
            Some(LoadFailure::CameraWithoutComponent)
        } else {
            None
        }
    } else if class == 1 {
        if r.spec_get("transform"@) is None {
            Some(LoadFailure::MeshWithoutTransform)
        } else if !is_cube(r) && mesh_asset(r) is None {
            Some(LoadFailure::MeshWithoutSource(name_or(r, "Mesh"@)))
        } else if is_cube(r) && r.spec_get("material"@) is None {
            Some(LoadFailure::CubeWithoutMaterial)
        } else {
            None
        }
    } else {
        None
    };
    let v = if class == 0 {
        camera_view(es, i)
    } else if class == 1 {
        mesh_view(es, i, cube_count(vs) as usize)
    } else {
        logic_view(es, i)
    };
    match structural {
        Some(f) => Err(f),
        None => if !ok[i] {
            Err(LoadFailure::Numbers(i))
        } else if planned_ids(vs).contains(v.id) {
            Err(LoadFailure::DuplicateEntity(v.id))
        } else {
            Ok(v)
        },
    }
}

/// The first `n` entries of the processing order, planned in turn until one
/// is refused.
pub open spec fn plan_prefix(es: Seq<JsonValue>, ok: Seq<bool>, order: Seq<(int, int)>, n: nat) -> Result<
    Seq<PlannedView>,
    LoadFailure,
>
    decreases n,
{
    if n == 0 {
        Ok(Seq::empty())
    } else {
        match plan_prefix(es, ok, order, (n - 1) as nat) {
            Err(f) => Err(f),
            Ok(vs) => match step_plan(es, ok, order[n - 1].0, order[n - 1].1, vs) {
                Err(f) => Err(f),
                Ok(v) => Ok(vs.push(v)),
            },
        }
    }
}

/// The planned entities as plain values.
pub open spec fn views(out: Seq<PlannedEntity>) -> Seq<PlannedView> {
    out.map_values(|p: PlannedEntity| p@)
}

/// The order in which entries are planned: the camera, the meshes, then the
/// logic entities, each with its class.
pub open spec fn processing_order(es: Seq<JsonValue>) -> Seq<(int, int)> {
    seq![(first_camera(es, es.len()).unwrap(), 0int)] + class_indices(es, es.len(), true).map_values(
        |i: int| (i, 1int),
    ) + class_indices(es, es.len(), false).map_values(|i: int| (i, 2int))
}

/// The planned entities of a snapshot's entries, or why it is refused: no
/// camera, then no mesh, then the first entry refused in processing order.
pub open spec fn scene_plan(es: Seq<JsonValue>, ok: Seq<bool>) -> Result<Seq<PlannedView>, LoadFailure> {
    match first_camera(es, es.len()) {
        None => Err(LoadFailure::NoCamera),
        Some(c) => if class_indices(es, es.len(), true).len() == 0 {
            Err(LoadFailure::NoMesh)
        } else {
            plan_prefix(es, ok, processing_order(es), processing_order(es).len())
        },
    }
}

proof fn lemma_plan_prefix_stays_refused(es: Seq<JsonValue>, ok: Seq<bool>, order: Seq<(int, int)>, k: nat, n: nat)
    requires
        k <= n,
        plan_prefix(es, ok, order, k) is Err,
    ensures
        plan_prefix(es, ok, order, n) == plan_prefix(es, ok, order, k),
    decreases n,
{
    if n > k {
        lemma_plan_prefix_stays_refused(es, ok, order, k, (n - 1) as nat);
    }
}

fn planned_contains(out: &Vec<PlannedEntity>, id: u64) -> (b: bool)
    ensures
        b == planned_ids(views(out@)).contains(id),
{
    let mut i: usize = 0;
    while i < out.len()
        invariant
            i <= out@.len(),
            forall|j: int| 0 <= j < i ==> #[trigger] out@[j].id != id,
        decreases out@.len() - i,
    {
        if out[i].id == id {
            proof {
                assert(planned_ids(views(out@))[i as int] == id);
            }
            return true;
        }
        i = i + 1;
    }
    proof {
        if planned_ids(views(out@)).contains(id) {
            let j = choose|j: int| 0 <= j < planned_ids(views(out@)).len() && planned_ids(views(out@))[j] == id;
            assert(out@[j].id == id);
        }
    }
    false
}

fn is_cube_exec(r: &JsonValue) -> (b: bool)
    ensures
        b == is_cube(*r),
{
    match str_at_exec(r, "/mesh/primitive") {
        Some(p) => crate::text::compare_str(p, "cube") == crate::text::KeyOrder::Equal,
        None => false,
    }
}

fn solid_exec(r: &JsonValue) -> (b: bool)
    ensures
        b == solid_flag(*r),
{
    match r.pointer("/collider/solid") {
        Some(x) => match x.as_bool() {
            Some(v) => v,
            None => false,
        },
        None => false,
    }
}

fn logic_kind_exec(kind: &str) -> (k: SceneEntityKind)
    ensures
        k == logic_kind(kind@),
{
    if crate::text::compare_str(kind, "light") == crate::text::KeyOrder::Equal {
        SceneEntityKind::Light
    } else if crate::text::compare_str(kind, "trigger") == crate::text::KeyOrder::Equal {
        SceneEntityKind::Trigger
    } else if crate::text::compare_str(kind, "portal") == crate::text::KeyOrder::Equal {
        SceneEntityKind::Portal
    } else {
        SceneEntityKind::Unknown
    }
}

fn owned(s: Option<&str>) -> (r: Option<String>)
    ensures
        match s {
            Some(x) => r matches Some(y) && y@ == x@,
            None => r is None,
        },
{
    match s {
        Some(x) => Some(x.to_owned()),
        None => None,
    }
}

fn plan_step(es: &Vec<JsonValue>, ok: &Vec<bool>, i: usize, class: u8, out: &Vec<PlannedEntity>, cubes: usize) -> (r:
    Result<PlannedEntity, SceneLoadError>)
    requires
        i < es@.len(),
        ok@.len() == es@.len(),
        class <= 2,
        scene_record(es@[i as int]) is Some,
        class == 2 ==> str_member(scene_record(es@[i as int]).unwrap(), "kind"@) is Some,
        cubes == cube_count(views(out@)),
    ensures
        match step_plan(es@, ok@, i as int, class as int, views(out@)) {
            Ok(v) => r matches Ok(p) && p@ == v,
            Err(f) => r matches Err(e) && e@ == f,
        },
{
    let n = es.len();
    assert(i < usize::MAX);
    let r = match scene_record_exec(&es[i]) {
        Some(x) => x,
        None => {
            return Err(SceneLoadError::NoEntities);
        },
    };
    if class == 0 {
        if r.get("transform").is_none() {
            return Err(SceneLoadError::CameraWithoutTransform);
        }
        if r.get("camera").is_none() {
            return Err(SceneLoadError::CameraWithoutComponent);
        }
    } else if class == 1 {
        if r.get("transform").is_none() {
            return Err(SceneLoadError::MeshWithoutTransform);
        }
        let cube = is_cube_exec(r);
        if !cube && str_at_either_exec(r, "/mesh/asset", "/mesh/model").is_none() {
            return Err(SceneLoadError::MeshWithoutSource { name: name_or_exec(r, "Mesh") });
        }
        if cube && r.get("material").is_none() {
            return Err(SceneLoadError::CubeWithoutMaterial);
        }
    }
    if !ok[i] {
        return Err(SceneLoadError::Numbers { index: i });
    }
    let planned = if class == 0 {
        PlannedEntity {
            index: i,
            id: snapshot_id_exec(&es[i], i),
            name: name_or_exec(r, "MainCamera"),
            kind: SceneEntityKind::Camera,
            mobility: SceneMobility::Dynamic,
            solid: false,
            asset_ref: None,
            render_slot: None,
            residency: SceneResidency::Resident,
            parent: None,
            visibility: VisibilityMask::new(),
        }
    } else if class == 1 {
        let cube = is_cube_exec(r);
        let mobility = mobility_exec(r);
        PlannedEntity {
            index: i,
            id: snapshot_id_exec(&es[i], i),
            name: if cube {
                name_or_exec(r, "Mesh")
            } else {
                name_or_exec(r, "AssetMesh")
            },
            kind: match mobility {
                SceneMobility::Static => SceneEntityKind::StaticMesh,
                SceneMobility::Dynamic => SceneEntityKind::DynamicMesh,
            },
            mobility,
            solid: solid_exec(r),
            asset_ref: if cube {
                None
            } else {
                owned(str_at_either_exec(r, "/mesh/asset", "/mesh/model"))
            },
            render_slot: if cube {
                Some(cubes)
            } else {
                None
            },
            residency: if cube {
                SceneResidency::Resident
            } else {
                SceneResidency::Unloaded
            },
            parent: read_parent_id(r),
            visibility: read_visibility_mask(r),
        }
    } else {
        let kind = match member_str(r, "kind") {
            Some(k) => k,
            None => "unknown",
        };
        PlannedEntity {
            index: i,
            id: snapshot_id_exec(&es[i], i),
            name: name_or_exec(r, kind),
            kind: logic_kind_exec(kind),
            mobility: mobility_exec(r),
            solid: false,
            asset_ref: owned(str_at_either_exec(r, "/asset/ref", "/mesh/asset")),
            render_slot: None,
            residency: SceneResidency::Resident,
            parent: read_parent_id(r),
            visibility: read_visibility_mask(r),
        }
    };
    if planned_contains(out, planned.id) {
        return Err(SceneLoadError::DuplicateEntity(planned.id));
    }
    Ok(planned)
}

/// Plans the entities of a snapshot's `entries`, or says why the snapshot is
/// refused. `numbers_ok[i]` says whether the numbers of entry `i` read
/// cleanly.
pub fn plan_scene_entities(entries: &Vec<JsonValue>, numbers_ok: &Vec<bool>) -> (r: Result<Vec<PlannedEntity>, SceneLoadError>)
    requires
        numbers_ok@.len() == entries@.len(),
    ensures
        match scene_plan(entries@, numbers_ok@) {
            Ok(vs) => r matches Ok(p) && views(p@) == vs,
            Err(f) => r matches Err(e) && e@ == f,
        },
{
    let ghost es = entries@;
    let ghost ok = numbers_ok@;
    let (camera, meshes, logic) = classify_entries(entries);
    let c = match camera {
        Some(c) => c,
        None => {
            return Err(SceneLoadError::NoCamera);
        },
    };
    if meshes.len() == 0 {
        proof {
            assert(class_indices(es, es.len(), true) =~= meshes@.map_values(|i: usize| i as int));
        }
        return Err(SceneLoadError::NoMesh);
    }
    proof {
        lemma_first_camera_bounded(es, es.len());
        lemma_class_indices_bounded(es, es.len(), true);
        lemma_class_indices_bounded(es, es.len(), false);
    }
    let mut order: Vec<(usize, u8)> = Vec::new();
    order.push((c, 0));
    let mut k: usize = 0;
    while k < meshes.len()
        invariant
            order@.len() == 1 + k,
            k <= meshes@.len(),
            forall|j: int| 0 <= j < order@.len() ==> (#[trigger] order@[j]).0 as int == processing_order(es)[j].0
                && order@[j].1 as int == processing_order(es)[j].1,
            meshes@.map_values(|i: usize| i as int) == class_indices(es, es.len(), true),
            logic@.map_values(|i: usize| i as int) == class_indices(es, es.len(), false),
            first_camera(es, es.len()) == Some(c as int),
        decreases meshes@.len() - k,
    {
        order.push((meshes[k], 1));
        proof {
            assert(processing_order(es)[1 + k] == (class_indices(es, es.len(), true)[k as int], 1int));
        }
        k = k + 1;
    }
    let mut k: usize = 0;
    while k < logic.len()
        invariant
            order@.len() == 1 + meshes@.len() + k,
            k <= logic@.len(),
            forall|j: int| 0 <= j < order@.len() ==> (#[trigger] order@[j]).0 as int == processing_order(es)[j].0
                && order@[j].1 as int == processing_order(es)[j].1,
            meshes@.map_values(|i: usize| i as int) == class_indices(es, es.len(), true),
            logic@.map_values(|i: usize| i as int) == class_indices(es, es.len(), false),
            first_camera(es, es.len()) == Some(c as int),
            meshes@.len() > 0,
        decreases logic@.len() - k,
    {
        order.push((logic[k], 2));
        proof {
            assert(processing_order(es)[1 + meshes@.len() + k] == (class_indices(es, es.len(), false)[k as int], 2int));
        }
        k = k + 1;
    }
    let ghost po = processing_order(es);
    assert(order@.len() == po.len());
    let mut out: Vec<PlannedEntity> = Vec::new();
    let mut cubes: usize = 0;
    let mut k: usize = 0;
    proof {
        assert(views(out@) =~= Seq::<PlannedView>::empty());
        assert(class_indices(es, es.len(), true).len() == meshes@.len());
        assert(scene_plan(es, ok) == plan_prefix(es, ok, po, po.len()));
    }
    while k < order.len()
        invariant
            es == entries@,
            ok == numbers_ok@,
            ok.len() == es.len(),
            po == processing_order(es),
            order@.len() == po.len(),
            forall|j: int| 0 <= j < order@.len() ==> (#[trigger] order@[j]).0 as int == po[j].0 && order@[j].1 as int
                == po[j].1,
            forall|j: int| 0 <= j < po.len() ==> 0 <= (#[trigger] po[j]).0 < es.len() && 0 <= po[j].1 <= 2 && scene_record(
                es[po[j].0],
            ) is Some && (po[j].1 == 2 ==> str_member(scene_record(es[po[j].0]).unwrap(), "kind"@) is Some),
            k <= order@.len(),
            plan_prefix(es, ok, po, k as nat) == Ok::<Seq<PlannedView>, LoadFailure>(views(out@)),
            cubes == cube_count(views(out@)),
            cubes <= out@.len(),
            out@.len() == k,
            scene_plan(es, ok) == plan_prefix(es, ok, po, po.len()),
        decreases order@.len() - k,
    {
        let (i, class) = order[k];
        match plan_step(entries, numbers_ok, i, class, &out, cubes) {
            Ok(p) => {
                let drawn = p.render_slot.is_some();
                let ghost before = views(out@);
                out.push(p);
                proof {
                    assert(views(out@) =~= before.push(p@));
                    assert(views(out@).drop_last() =~= before);
                }
                if drawn {
                    cubes = cubes + 1;
                }
            },
            Err(e) => {
                proof {
                    assert(plan_prefix(es, ok, po, (k + 1) as nat) == Err::<Seq<PlannedView>, LoadFailure>(e@));
                    lemma_plan_prefix_stays_refused(es, ok, po, (k + 1) as nat, po.len());
                }
                return Err(e);
            },
        }
        k = k + 1;
    }
    Ok(out)
}

// ---------------------------------------------------------------------------
// Entering the planned entities into the scene ledger.

/// The parent that the planned entity `id` names; none where no planned
/// entity bears `id`.
pub open spec fn link_parent(vs: Seq<PlannedView>, id: u64) -> Option<u64> {
    if exists|k: int| 0 <= k < vs.len() && vs[k].id == id {
        vs[choose|k: int| 0 <= k < vs.len() && vs[k].id == id].parent
    } else {
        None
    }
}

/// The `k`-th ancestor of `id` along the parents the planned entities name.
pub open spec fn link_ancestor(vs: Seq<PlannedView>, id: u64, k: nat) -> Option<u64>
    decreases k,
{
    if k == 0 {
        Some(id)
    } else {
        match link_ancestor(vs, id, (k - 1) as nat) {
            Some(a) => link_parent(vs, a),
            None => None,
        }
    }
}

/// Whether linking the planned entity at `k`, after those before it, fails:
/// it names itself, a parent that is not planned, or one of its own
/// descendants among the links made so far.
pub open spec fn link_error(vs: Seq<PlannedView>, k: int) -> Option<SceneWorldError> {
    let v = vs[k];
    match v.parent {
        None => None,
        Some(p) => if p == v.id {
            Some(SceneWorldError::SelfParent(v.id))
        } else if !planned_ids(vs).contains(p) {
            Some(SceneWorldError::ParentNotFound(p))
        } else if exists|j: nat| #[trigger] link_ancestor(vs.take(k), p, j) == Some(v.id) {
            Some(SceneWorldError::HierarchyCycle { child: v.id, parent: p })
        } else {
            None
        },
    }
}

/// The first link error among the first `n` planned entities.
pub open spec fn first_link_error(vs: Seq<PlannedView>, n: nat) -> Option<SceneWorldError>
    decreases n,
{
    if n == 0 {
        None
    } else {
        match first_link_error(vs, (n - 1) as nat) {
            Some(e) => Some(e),
            None => link_error(vs, n - 1),
        }
    }
}

/// The record a planned entity enters the ledger with, before it is added.
pub open spec fn entry_view(v: PlannedView) -> EntityView {
    EntityView {
        id: v.id,
        name: v.name,
        lifecycle: SceneLifecycle::Constructed,
        parent: None,
        children: Seq::empty(),
        hidden: v.hidden,
        asset: v.asset,
        render_slot: v.render_slot,
        residency: v.residency,
        mobility: v.mobility,
        revision: 0,
        last_mutation_frame: 0,
        claims: Map::empty(),
        last_process_frame: None,
    }
}

/// A planned entity as the ledger holds it once added.
pub open spec fn added_view(v: PlannedView) -> EntityView {
    EntityView { lifecycle: SceneLifecycle::Added, ..entry_view(v) }
}

/// The ledger entity keeps what its plan says of it, in `lifecycle`.
pub open spec fn keeps_plan(e: EntityView, v: PlannedView, lifecycle: SceneLifecycle) -> bool {
    &&& e.id == v.id
    &&& e.name == v.name
    &&& e.hidden == v.hidden
    &&& e.asset == v.asset
    &&& e.render_slot == v.render_slot
    &&& e.residency == v.residency
    &&& e.mobility == v.mobility
    &&& e.lifecycle == lifecycle
}

fn entry_record(p: &PlannedEntity) -> (e: SceneEntityRecord)
    ensures
        e@ == entry_view(p@),
{
    let e = SceneEntityRecord {
        id: p.id,
        name: p.name.clone(),
        lifecycle: SceneLifecycle::Constructed,
        parent: None,
        children: Vec::new(),
        visibility: p.visibility.copy(),
        asset_ref: match &p.asset_ref {
            Some(a) => Some(a.clone()),
            None => None,
        },
        render_slot: p.render_slot,
        residency: p.residency,
        mobility: p.mobility,
        revision: 0,
        last_mutation_frame: 0,
        process_claims: SceneProcessClaims::new(),
        last_process_frame: None,
    };
    proof {
        assert(e@ =~= entry_view(p@));
    }
    e
}

proof fn lemma_link_parent_take(vs: Seq<PlannedView>, k: int, x: u64)
    requires
        0 <= k < vs.len(),
        planned_ids(vs).no_duplicates(),
    ensures
        link_parent(vs.take(k + 1), x) == if x == vs[k].id {
            vs[k].parent
        } else {
            link_parent(vs.take(k), x)
        },
        link_parent(vs.take(k), vs[k].id) is None,
{
    let a = vs.take(k + 1);
    let b = vs.take(k);
    if x == vs[k].id {
        assert(a[k].id == x);
        let j = choose|j: int| 0 <= j < a.len() && a[j].id == x;
        if j != k {
            assert(planned_ids(vs)[j] == planned_ids(vs)[k]);
        }
    } else {
        if exists|j: int| 0 <= j < a.len() && a[j].id == x {
            let j = choose|j: int| 0 <= j < a.len() && a[j].id == x;
            assert(j != k);
            assert(b[j].id == x);
            let i = choose|i: int| 0 <= i < b.len() && b[i].id == x;
            if i != j {
                assert(planned_ids(vs)[i] == planned_ids(vs)[j]);
            }
        } else {
            if exists|i: int| 0 <= i < b.len() && b[i].id == x {
                let i = choose|i: int| 0 <= i < b.len() && b[i].id == x;
                assert(a[i].id == x);
            }
        }
    }
    if exists|i: int| 0 <= i < b.len() && b[i].id == vs[k].id {
        let i = choose|i: int| 0 <= i < b.len() && b[i].id == vs[k].id;
        assert(planned_ids(vs)[i] == planned_ids(vs)[k]);
    }
}

proof fn lemma_walks_agree(m: Map<u64, EntityView>, vs: Seq<PlannedView>, id: u64, k: nat)
    requires
        forall|x: u64| #[trigger] parent_in(m, x) == link_parent(vs, x),
    ensures
        ancestor(m, id, k) == link_ancestor(vs, id, k),
    decreases k,
{
    if k > 0 {
        lemma_walks_agree(m, vs, id, (k - 1) as nat);
    }
}

/// Enters the planned entities into a new scene ledger in plan order, links
/// each to the parent it names, in plan order, and activates them all. The
/// plan's ids must be distinct, as `plan_scene_entities` makes them. The
/// first link that fails is the error.
pub fn build_scene_ledger(planned: &Vec<PlannedEntity>) -> (r: Result<SceneLedger, SceneWorldError>)
    requires
        planned_ids(views(planned@)).no_duplicates(),
    ensures
        match first_link_error(views(planned@), planned@.len()) {
            Some(e) => r == Err::<SceneLedger, SceneWorldError>(e),
            None => r matches Ok(w) && {
                &&& w.wf()
                &&& w.order() == planned_ids(views(planned@))
                &&& acyclic(w.model())
                &&& forall|j: int|
                    0 <= j < planned@.len() ==> {
                        let e = #[trigger] w.model()[planned@[j].id];
                        &&& keeps_plan(e, planned@[j]@, SceneLifecycle::Active)
                        &&& e.parent == planned@[j].parent
                    }
            },
        },
{
    let ghost vs = views(planned@);
    let ghost ids = planned_ids(vs);
    let mut w = SceneLedger::new();
    let mut k: usize = 0;
    while k < planned.len()
        invariant
            vs == views(planned@),
            ids == planned_ids(vs),
            ids.no_duplicates(),
            k <= planned@.len(),
            w.wf(),
            w.order() == ids.take(k as int),
            forall|x: u64| w.model().contains_key(x) <==> ids.take(k as int).contains(x),
            forall|j: int| 0 <= j < k ==> #[trigger] w.model()[ids[j]] == added_view(vs[j]),
        decreases planned@.len() - k,
    {
        let record = entry_record(&planned[k]);
        let ghost m0 = w.model();
        proof {
            assert(ids[k as int] == planned@[k as int].id);
            assert(!ids.take(k as int).contains(ids[k as int])) by {
                if ids.take(k as int).contains(ids[k as int]) {
                    let j = choose|j: int| 0 <= j < k && #[trigger] ids.take(k as int)[j] == ids[k as int];
                    assert(ids[j] == ids[k as int]);
                }
            }
            assert(!m0.contains_key(ids[k as int]));
        }
        let added = w.add_entity(record);
        proof {
            assert(added is Ok);
            assert(w.model() == m0.insert(ids[k as int], added_view(vs[k as int])));
            assert(ids.take(k + 1) =~= ids.take(k as int).push(ids[k as int]));
            assert forall|x: u64| #[trigger] w.model().contains_key(x) <==> ids.take(k + 1).contains(x) by {
                if ids.take(k as int).contains(x) {
                    let j = choose|j: int| 0 <= j < k && #[trigger] ids.take(k as int)[j] == x;
                    assert(ids.take(k + 1)[j] == x);
                }
                if ids.take(k + 1).contains(x) && x != ids[k as int] {
                    let j = choose|j: int| 0 <= j < k + 1 && #[trigger] ids.take(k + 1)[j] == x;
                    assert(ids.take(k as int)[j] == x);
                }
                if x == ids[k as int] {
                    assert(ids.take(k + 1)[k as int] == x);
                }
            }
            assert forall|j: int| 0 <= j < k + 1 implies #[trigger] w.model()[ids[j]] == added_view(vs[j]) by {
                if j < k {
                    assert(ids[j] != ids[k as int]);
                    assert(ids.take(k as int)[j] == ids[j]);
                }
            }
        }
        k = k + 1;
    }
    proof {
        assert(ids.take(planned@.len() as int) =~= ids);
    }
    let ghost added_model = w.model();
    let mut k: usize = 0;
    while k < planned.len()
        invariant
            vs == views(planned@),
            ids == planned_ids(vs),
            ids.no_duplicates(),
            k <= planned@.len(),
            w.wf(),
            w.order() == ids,
            forall|x: u64| w.model().contains_key(x) <==> ids.contains(x),
            acyclic(w.model()),
            forall|x: u64| #[trigger] parent_in(w.model(), x) == link_parent(vs.take(k as int), x),
            forall|j: int| 0 <= j < planned@.len() ==> keeps_plan(#[trigger] w.model()[ids[j]], vs[j], SceneLifecycle::Added),
            first_link_error(vs, k as nat) is None,
        decreases planned@.len() - k,
    {
        let id = planned[k].id;
        let ghost m0 = w.model();
        proof {
            assert(ids[k as int] == id);
            assert(ids.contains(id));
            assert(m0.contains_key(id));
            assert(vs[k as int].parent == planned@[k as int].parent);
            assert(first_link_error(vs, (k + 1) as nat) == link_error(vs, k as int));
        }
        match planned[k].parent {
            Some(p) => {
                proof {
                    assert(m0.contains_key(p) <==> ids.contains(p));
                    if exists|j: nat| #[trigger] link_ancestor(vs.take(k as int), p, j) == Some(id) {
                        let j = choose|j: nat| #[trigger] link_ancestor(vs.take(k as int), p, j) == Some(id);
                        lemma_walks_agree(m0, vs.take(k as int), p, j);
                        assert(ancestor(m0, p, j) == Some(id));
                        assert(reaches(m0, p, id));
                    }
                    if reaches(m0, p, id) {
                        let j = choose|j: nat| ancestor(m0, p, j) == Some(id);
                        lemma_walks_agree(m0, vs.take(k as int), p, j);
                        assert(link_ancestor(vs.take(k as int), p, j) == Some(id));
                    }
                }
                proof {
                    crate::scene_world::lemma_acyclic_chain_ends(w, p);
                }
                match w.set_parent(id, Some(p)) {
                    Ok(()) => {},
                    Err(e) => {
                        proof {
                            assert(first_link_error(vs, (k + 1) as nat) == Some(e));
                            lemma_first_link_error_stays(vs, (k + 1) as nat, planned@.len());
                        }
                        return Err(e);
                    },
                }
                proof {
                    assert(link_error(vs, k as int) is None);
                    assert forall|x: u64| #[trigger] parent_in(w.model(), x) == link_parent(vs.take(k + 1), x) by {
                        lemma_link_parent_take(vs, k as int, x);
                        lemma_reparented_keeps(m0, id, Some(p), w.frame_count(), x);
                    }
                    assert forall|x: u64| #[trigger] w.model().contains_key(x) <==> ids.contains(x) by {
                        lemma_reparented_keeps(m0, id, Some(p), w.frame_count(), x);
                    }
                    assert forall|j: int| 0 <= j < planned@.len() implies keeps_plan(
                        #[trigger] w.model()[ids[j]],
                        vs[j],
                        SceneLifecycle::Added,
                    ) by {
                        lemma_reparented_keeps(m0, id, Some(p), w.frame_count(), ids[j]);
                    }
                }
            },
            None => {
                proof {
                    assert forall|x: u64| #[trigger] parent_in(w.model(), x) == link_parent(vs.take(k + 1), x) by {
                        lemma_link_parent_take(vs, k as int, x);
                    }
                }
            },
        }
        k = k + 1;
    }
    proof {
        assert(vs.take(planned@.len() as int) =~= vs);
    }
    let ghost linked = w.model();
    w.activate_all();
    proof {
        let m = w.model();
        assert(m == linked.map_values(|e: EntityView| crate::scene_world::activated(e)));
        assert forall|x: u64| #[trigger] parent_in(m, x) == link_parent(vs, x) by {
            assert(parent_in(linked, x) == link_parent(vs, x));
        }
        assert forall|id: u64, n: nat| n > 0 implies #[trigger] ancestor(m, id, n) != Some(id) by {
            lemma_walks_agree(m, vs, id, n);
            lemma_walks_agree(linked, vs, id, n);
            assert(ancestor(linked, id, n) != Some(id));
        }
        assert forall|j: int| 0 <= j < planned@.len() implies {
            let e = #[trigger] m[planned@[j].id];
            &&& keeps_plan(e, planned@[j]@, SceneLifecycle::Active)
            &&& e.parent == planned@[j].parent
        } by {
            assert(ids[j] == planned@[j].id);
            assert(vs[j] == planned@[j]@);
            assert(keeps_plan(linked[ids[j]], vs[j], SceneLifecycle::Added));
            assert(ids.contains(ids[j]));
            lemma_link_parent_at(vs, j);
            assert(parent_in(linked, ids[j]) == link_parent(vs, ids[j]));
        }
    }
    Ok(w)
}

proof fn lemma_reparented_keeps(m: Map<u64, EntityView>, child: u64, parent: Option<u64>, frame: u64, x: u64)
    requires
        m.contains_key(child),
    ensures
        reparented(m, child, parent, frame).contains_key(x) == m.contains_key(x),
        parent_in(reparented(m, child, parent, frame), x) == if x == child {
            parent
        } else {
            parent_in(m, x)
        },
        m.contains_key(x) ==> {
            let e = reparented(m, child, parent, frame)[x];
            &&& e.id == m[x].id
            &&& e.name == m[x].name
            &&& e.hidden == m[x].hidden
            &&& e.asset == m[x].asset
            &&& e.render_slot == m[x].render_slot
            &&& e.residency == m[x].residency
            &&& e.mobility == m[x].mobility
            &&& e.lifecycle == m[x].lifecycle
        },
{
}

proof fn lemma_link_parent_at(vs: Seq<PlannedView>, j: int)
    requires
        0 <= j < vs.len(),
        planned_ids(vs).no_duplicates(),
    ensures
        link_parent(vs, vs[j].id) == vs[j].parent,
{
    let i = choose|i: int| 0 <= i < vs.len() && vs[i].id == vs[j].id;
    if i != j {
        assert(planned_ids(vs)[i] == planned_ids(vs)[j]);
    }
}

proof fn lemma_first_link_error_stays(vs: Seq<PlannedView>, k: nat, n: nat)
    requires
        k <= n,
        first_link_error(vs, k) is Some,
    ensures
        first_link_error(vs, n) == first_link_error(vs, k),
    decreases n,
{
    if n > k {
        lemma_first_link_error_stays(vs, k, (n - 1) as nat);
    }
}

// ---------------------------------------------------------------------------
// When the links of a plan succeed.

/// No planned entity is its own ancestor along the parents the plan names.
pub open spec fn links_acyclic(vs: Seq<PlannedView>) -> bool {
    forall|id: u64, n: nat| n > 0 ==> #[trigger] link_ancestor(vs, id, n) != Some(id)
}

/// Every named parent is another planned entity, and the links form no
/// cycle.
pub open spec fn links_sound(vs: Seq<PlannedView>) -> bool {
    &&& forall|k: int|
        0 <= k < vs.len() ==> (#[trigger] vs[k].parent matches Some(p) ==> p != vs[k].id && planned_ids(vs).contains(p))
    &&& links_acyclic(vs)
}

/// The parents the plan names, as a hierarchy of the ledger's kind.
pub open spec fn link_graph(vs: Seq<PlannedView>) -> Map<u64, EntityView> {
    Map::new(|id: u64| true, |id: u64| with_parent(arbitrary(), link_parent(vs, id)))
}

/// `e` with `parent` as its parent.
pub open spec fn with_parent(e: EntityView, parent: Option<u64>) -> EntityView {
    EntityView { parent, ..e }
}

proof fn lemma_link_parent_prefix(vs: Seq<PlannedView>, k: int, a: u64)
    requires
        0 <= k <= vs.len(),
        planned_ids(vs).no_duplicates(),
        link_parent(vs.take(k), a) is Some,
    ensures
        link_parent(vs.take(k), a) == link_parent(vs, a),
{
    let t = vs.take(k);
    let i = choose|i: int| 0 <= i < t.len() && t[i].id == a;
    assert(vs[i].id == a);
    let i2 = choose|i2: int| 0 <= i2 < vs.len() && vs[i2].id == a;
    if i2 != i {
        assert(planned_ids(vs)[i2] == planned_ids(vs)[i]);
    }
}

proof fn lemma_subwalk(vs: Seq<PlannedView>, k: int, p: u64, j: nat)
    requires
        0 <= k <= vs.len(),
        planned_ids(vs).no_duplicates(),
        link_ancestor(vs.take(k), p, j) is Some,
    ensures
        link_ancestor(vs, p, j) == link_ancestor(vs.take(k), p, j),
    decreases j,
{
    if j > 0 {
        lemma_subwalk(vs, k, p, (j - 1) as nat);
        let a = link_ancestor(vs.take(k), p, (j - 1) as nat).unwrap();
        lemma_link_parent_prefix(vs, k, a);
    }
}

proof fn lemma_link_compose(vs: Seq<PlannedView>, id: u64, p: u64, j: nat)
    requires
        link_parent(vs, id) == Some(p),
    ensures
        link_ancestor(vs, id, j + 1) == link_ancestor(vs, p, j),
    decreases j,
{
    assert(link_ancestor(vs, id, 0) == Some(id));
    assert(link_ancestor(vs, id, j + 1) == match link_ancestor(vs, id, j) {
        Some(a) => link_parent(vs, a),
        None => None,
    });
    if j > 0 {
        lemma_link_compose(vs, id, p, (j - 1) as nat);
        assert((j - 1) as nat + 1 == j);
        assert(link_ancestor(vs, p, j) == match link_ancestor(vs, p, (j - 1) as nat) {
            Some(a) => link_parent(vs, a),
            None => None,
        });
    }
}

proof fn lemma_sound_links_succeed(vs: Seq<PlannedView>, n: nat)
    requires
        n <= vs.len(),
        planned_ids(vs).no_duplicates(),
        links_sound(vs),
    ensures
        first_link_error(vs, n) is None,
    decreases n,
{
    if n > 0 {
        lemma_sound_links_succeed(vs, (n - 1) as nat);
        let k = n - 1;
        let id = vs[k].id;
        match vs[k].parent {
            Some(p) => {
                if exists|j: nat| #[trigger] link_ancestor(vs.take(k), p, j) == Some(id) {
                    let j = choose|j: nat| #[trigger] link_ancestor(vs.take(k), p, j) == Some(id);
                    lemma_subwalk(vs, k, p, j);
                    lemma_link_parent_at(vs, k);
                    lemma_link_compose(vs, id, p, j);
                    assert(link_ancestor(vs, id, j + 1) == Some(id));
                }
            },
            None => {},
        }
    }
}

proof fn lemma_no_errors_acyclic(vs: Seq<PlannedView>, n: nat)
    requires
        n <= vs.len(),
        planned_ids(vs).no_duplicates(),
        first_link_error(vs, n) is None,
    ensures
        acyclic(link_graph(vs.take(n as int))),
        forall|k: int| 0 <= k < n ==> #[trigger] link_error(vs, k) is None,
    decreases n,
{
    if n == 0 {
        let m = link_graph(vs.take(0));
        assert forall|id: u64, k: nat| k > 0 implies #[trigger] ancestor(m, id, k) != Some(id) by {
            assert forall|x: u64| #[trigger] parent_in(m, x) == link_parent(vs.take(0), x) by {}
            lemma_walks_agree(m, vs.take(0), id, k);
            lemma_none_walk(vs.take(0), id, k);
        }
    } else {
        let k = n - 1;
        lemma_no_errors_acyclic(vs, k as nat);
        let m = link_graph(vs.take(k));
        let m2 = link_graph(vs.take(k + 1));
        let child = vs[k].id;
        assert forall|x: u64| x != child implies #[trigger] parent_in(m2, x) == parent_in(m, x) by {
            lemma_link_parent_take(vs, k, x);
        }
        lemma_link_parent_take(vs, k, child);
        match vs[k].parent {
            Some(p) => {
                if reaches(m, p, child) {
                    let j = choose|j: nat| ancestor(m, p, j) == Some(child);
                    assert forall|x: u64| #[trigger] parent_in(m, x) == link_parent(vs.take(k), x) by {}
                    lemma_walks_agree(m, vs.take(k), p, j);
                    assert(link_ancestor(vs.take(k), p, j) == Some(child));
                }
            },
            None => {},
        }
        crate::scene_world::lemma_reparent_acyclic(m, m2, child);
    }
}

proof fn lemma_none_walk(vs: Seq<PlannedView>, id: u64, k: nat)
    requires
        vs.len() == 0,
        k > 0,
    ensures
        link_ancestor(vs, id, k) is None,
    decreases k,
{
    if k > 1 {
        lemma_none_walk(vs, id, (k - 1) as nat);
    }
}

/// Linking a plan's entities succeeds exactly when every parent it names is
/// another planned entity and the links form no cycle.
pub proof fn lemma_links_succeed_iff_sound(vs: Seq<PlannedView>)
    requires
        planned_ids(vs).no_duplicates(),
    ensures
        first_link_error(vs, vs.len()) is None <==> links_sound(vs),
{
    if links_sound(vs) {
        lemma_sound_links_succeed(vs, vs.len());
    }
    if first_link_error(vs, vs.len()) is None {
        lemma_no_errors_acyclic(vs, vs.len());
        assert(vs.take(vs.len() as int) =~= vs);
        let m = link_graph(vs);
        assert forall|x: u64| #[trigger] parent_in(m, x) == link_parent(vs, x) by {}
        assert forall|id: u64, n: nat| n > 0 implies #[trigger] link_ancestor(vs, id, n) != Some(id) by {
            lemma_walks_agree(m, vs, id, n);
        }
        assert forall|k: int| 0 <= k < vs.len() implies (#[trigger] vs[k].parent matches Some(p) ==> p != vs[k].id
            && planned_ids(vs).contains(p)) by {
            assert(link_error(vs, k) is None);
        }
    }
}

// ---------------------------------------------------------------------------
// Loading a snapshot.

proof fn lemma_plan_ids_distinct(es: Seq<JsonValue>, ok: Seq<bool>, order: Seq<(int, int)>, n: nat)
    requires
        plan_prefix(es, ok, order, n) is Ok,
    ensures
        planned_ids(plan_prefix(es, ok, order, n)->Ok_0).no_duplicates(),
        plan_prefix(es, ok, order, n)->Ok_0.len() == n,
        forall|k: int| 0 <= k < n ==> (#[trigger] plan_prefix(es, ok, order, n)->Ok_0[k]).index == order[k].0,
    decreases n,
{
    if n > 0 {
        lemma_plan_ids_distinct(es, ok, order, (n - 1) as nat);
        let vs = plan_prefix(es, ok, order, (n - 1) as nat)->Ok_0;
        let v = step_plan(es, ok, order[n - 1].0, order[n - 1].1, vs)->Ok_0;
        assert(planned_ids(vs.push(v)) =~= planned_ids(vs).push(v.id));
        assert forall|a: int, b: int|
            0 <= a < b < planned_ids(vs.push(v)).len() implies planned_ids(vs.push(v))[a] != planned_ids(
            vs.push(v),
        )[b] by {
            if b == vs.len() {
                assert(planned_ids(vs)[a] == planned_ids(vs.push(v))[a]);
            }
        }
    }
}

/// The entries of a snapshot: its `entities` array.
pub open spec fn snapshot_entries(snapshot: JsonValue) -> Option<Seq<JsonValue>> {
    match snapshot.spec_get("entities"@) {
        Some(JsonValue::Array(items)) => Some(items@),
        _ => None,
    }
}

/// A scene loaded from a snapshot: its ledger, its entities in the order
/// they were planned, and the report of the load.
pub struct SceneLoad {
    pub ledger: SceneLedger,
    pub entities: Vec<PlannedEntity>,
    pub report: Scene3dLoadReport,
}

/// Loads the scene of an ECS snapshot: plans its entries, enters them into a
/// new ledger, links them to their parents and activates them. The report
/// names the snapshot's title (else `NewViso 3D Scene`), the camera (else
/// `MainCamera`), the first mesh (else `Cube`), and counts the entries.
pub fn load_scene(snapshot: &JsonValue, numbers_ok: &Vec<bool>) -> (r: Result<SceneLoad, SceneLoadError>)
    requires
        snapshot_entries(*snapshot) matches Some(es) ==> numbers_ok@.len() == es.len(),
    ensures
        match snapshot_entries(*snapshot) {
            None => r matches Err(e) && e@ == LoadFailure::NoEntities,
            Some(es) => match scene_plan(es, numbers_ok@) {
                Err(f) => r matches Err(e) && e@ == f,
                Ok(vs) => match first_link_error(vs, vs.len()) {
                    Some(e) => r matches Err(x) && x@ == LoadFailure::World(e),
                    None => r matches Ok(load) && {
                        &&& views(load.entities@) == vs
                        &&& load.ledger.wf()
                        &&& load.ledger.order() == planned_ids(vs)
                        &&& acyclic(load.ledger.model())
                        &&& forall|j: int|
                            0 <= j < vs.len() ==> {
                                let e = #[trigger] load.ledger.model()[vs[j].id];
                                &&& keeps_plan(e, vs[j], SceneLifecycle::Active)
                                &&& e.parent == vs[j].parent
                            }
                        &&& load.report.title@ == name_or_key(*snapshot, "title"@, "NewViso 3D Scene"@)
                        &&& load.report.entity_count == es.len()
                        &&& load.report.camera_name@ == vs[0].name
                        &&& load.report.mesh_name@ == name_or(
                            scene_record(es[class_indices(es, es.len(), true)[0]]).unwrap(),
                            "Cube"@,
                        )
                    },
                },
            },
        },
{
    let entries = match snapshot.get("entities") {
        Some(JsonValue::Array(items)) => items,
        _ => {
            return Err(SceneLoadError::NoEntities);
        },
    };
    let ghost es = entries@;
    let planned = match plan_scene_entities(entries, numbers_ok) {
        Ok(p) => p,
        Err(e) => {
            return Err(e);
        },
    };
    proof {
        let vs = views(planned@);
        let po = processing_order(es);
        lemma_plan_ids_distinct(es, numbers_ok@, po, po.len());
        lemma_first_camera_bounded(es, es.len());
        lemma_class_indices_bounded(es, es.len(), true);
        assert(class_indices(es, es.len(), true).len() > 0);
        assert(po.len() >= 2);
        assert(vs.len() == po.len());
        assert(vs[1].index == po[1].0);
        assert(po[1].0 == class_indices(es, es.len(), true)[0]);
        assert(planned@[1].index == vs[1].index);
    }
    let ledger = match build_scene_ledger(&planned) {
        Ok(w) => w,
        Err(e) => {
            return Err(SceneLoadError::World(e));
        },
    };
    let title = match member_str(snapshot, "title") {
        Some(t) => t.to_owned(),
        None => "NewViso 3D Scene".to_owned(),
    };
    let camera_name = planned[0].name.clone();
    let first_mesh = planned[1].index;
    let mesh_name = match scene_record_exec(&entries[first_mesh]) {
        Some(r) => name_or_exec(r, "Cube"),
        None => "Cube".to_owned(),
    };
    let report = Scene3dLoadReport { title, entity_count: entries.len(), camera_name, mesh_name };
    Ok(SceneLoad { ledger, entities: planned, report })
}

/// A string member of `v`, or `default`.
pub open spec fn name_or_key(v: JsonValue, key: Seq<char>, default: Seq<char>) -> Seq<char> {
    match str_member(v, key) {
        Some(s) => s,
        None => default,
    }
}

} // verus!
