//! The sky dome's resources as the asset service describes them: the RGBA8
//! frames its textures arrive in, and the checks on the model and material
//! descriptions that name the mesh, its indices, its material and its
//! textures. Vertex positions, texture coordinates and bounds are floating
//! point; they are read by the renderer, and whether they read cleanly
//! reaches this module as flags.

use vstd::prelude::*;
use crate::json::JsonValue;
use crate::scene::{SkyIndexFormat, SkyTextureResources};
use crate::scene_load::str_member;
use crate::text::{compare_str, trim_chars, trim_str, KeyOrder};

verus! {

// ---------------------------------------------------------------------------
// RGBA8 texture frames.

/// The bytes that open an RGBA8 texture frame.
pub open spec fn frame_magic() -> Seq<u8> {
    seq![78u8, 84u8, 82u8, 84u8]
}

/// The little-endian `u16` at `at`.
pub open spec fn frame_u16(b: Seq<u8>, at: int) -> u16 {
    vstd::bytes::spec_u16_from_le_bytes(b.subrange(at, at + 2))
}

/// The little-endian `u32` at `at`.
pub open spec fn frame_u32(b: Seq<u8>, at: int) -> u32 {
    vstd::bytes::spec_u32_from_le_bytes(b.subrange(at, at + 4))
}

/// Why an RGBA8 texture frame was refused.
#[derive(Clone, Debug, PartialEq, Eq)]
pub enum TextureFrameError {
    /// Fewer than the twenty bytes of a frame header.
    Short { len: usize },
    /// The frame does not open with `NTRT`.
    Magic,
    /// A frame version other than 1.
    Version(u16),
    /// The frame is not twenty bytes longer than its payload.
    FrameSize { len: usize, expected: u64 },
    /// The payload does not hold four bytes for each texel.
    Payload { payload: u32, expected: u128, width: u32, height: u32 },
}

/// Decodes an RGBA8 texture frame: `NTRT`, a `u16` version (1), two
/// reserved bytes, then width, height and payload length as `u32`, all
/// little-endian, and the payload of four bytes per texel.
pub fn decode_texture_frame(name: String, srgb: bool, bytes: &Vec<u8>) -> (r: Result<SkyTextureResources, TextureFrameError>)
    ensures
        ({
            let b = bytes@;
            if b.len() < 20 {
                r == Err::<SkyTextureResources, TextureFrameError>(TextureFrameError::Short { len: bytes@.len() as usize })
            } else if b.subrange(0, 4) != frame_magic() {
                r == Err::<SkyTextureResources, TextureFrameError>(TextureFrameError::Magic)
            } else if frame_u16(b, 4) != 1 {
                r == Err::<SkyTextureResources, TextureFrameError>(TextureFrameError::Version(frame_u16(b, 4)))
            } else if b.len() != 20 + frame_u32(b, 16) {
                r == Err::<SkyTextureResources, TextureFrameError>(
                    TextureFrameError::FrameSize { len: b.len() as usize, expected: (20 + frame_u32(b, 16)) as u64 },
                )
            } else if frame_u32(b, 16) != frame_u32(b, 8) * frame_u32(b, 12) * 4 {
                r == Err::<SkyTextureResources, TextureFrameError>(
                    TextureFrameError::Payload {
                        payload: frame_u32(b, 16),
                        expected: (frame_u32(b, 8) * frame_u32(b, 12) * 4) as u128,
                        width: frame_u32(b, 8),
                        height: frame_u32(b, 12),
                    },
                )
            } else {
                r matches Ok(t) && t.name@ == name@ && t.srgb == srgb && t.width == frame_u32(b, 8) && t.height
                    == frame_u32(b, 12) && t.rgba8@ == b.skip(20)
            }
        }),
{
    let len = bytes.len();
    if len < 20 {
        return Err(TextureFrameError::Short { len });
    }
    if !(bytes[0] == 78u8 && bytes[1] == 84u8 && bytes[2] == 82u8 && bytes[3] == 84u8) {
        proof {
            if bytes@.subrange(0, 4) == frame_magic() {
                assert(bytes@.subrange(0, 4)[0] == bytes@[0]);
                assert(bytes@.subrange(0, 4)[1] == bytes@[1]);
                assert(bytes@.subrange(0, 4)[2] == bytes@[2]);
                assert(bytes@.subrange(0, 4)[3] == bytes@[3]);
            }
        }
        return Err(TextureFrameError::Magic);
    }
    proof {
        assert(bytes@.subrange(0, 4) =~= frame_magic());
    }
    let version = vstd::bytes::u16_from_le_bytes(&bytes.as_slice()[4..6]);
    if version != 1 {
        return Err(TextureFrameError::Version(version));
    }
    let width = vstd::bytes::u32_from_le_bytes(&bytes.as_slice()[8..12]);
    let height = vstd::bytes::u32_from_le_bytes(&bytes.as_slice()[12..16]);
    let payload = vstd::bytes::u32_from_le_bytes(&bytes.as_slice()[16..20]);
    let expected_len: u64 = 20 + payload as u64;
    if len as u64 != expected_len {
        return Err(TextureFrameError::FrameSize { len, expected: expected_len });
    }
    let w = width as u128;
    let h = height as u128;
    proof {
        assert(w * h <= 0xffff_ffff * 0xffff_ffffu128) by (nonlinear_arith)
            requires
                w <= 0xffff_ffff,
                h <= 0xffff_ffff,
        ;
    }
    let expected: u128 = w * h * 4;
    if payload as u128 != expected {
        return Err(TextureFrameError::Payload { payload, expected, width, height });
    }
    let mut rgba8: Vec<u8> = Vec::new();
    let mut i: usize = 20;
    while i < len
        invariant
            20 <= i <= len,
            len == bytes@.len(),
            rgba8@ == bytes@.subrange(20, i as int),
        decreases len - i,
    {
        rgba8.push(bytes[i]);
        proof {
            assert(bytes@.subrange(20, i + 1) =~= bytes@.subrange(20, i as int).push(bytes@[i as int]));
        }
        i = i + 1;
    }
    proof {
        assert(bytes@.subrange(20, len as int) =~= bytes@.skip(20));
    }
    Ok(SkyTextureResources { name, width, height, srgb, rgba8 })
}

// ---------------------------------------------------------------------------
// The sky model and material descriptions.

/// The array member `key` of `v`.
pub open spec fn array_member(v: JsonValue, key: Seq<char>) -> Option<Seq<JsonValue>> {
    match v.spec_get(key) {
        Some(JsonValue::Array(items)) => Some(items@),
        _ => None,
    }
}

/// The index width a sky mesh names.
pub open spec fn index_format_of(name: Seq<char>) -> Option<SkyIndexFormat> {
    if name == "u16"@ || name == "U16"@ {
        Some(SkyIndexFormat::U16)
    } else if name == "u32"@ || name == "U32"@ {
        Some(SkyIndexFormat::U32)
    } else {
        None
    }
}

/// The index format names: `u16` and `U16` declare 16-bit indices, `u32`
/// and `U32` 32-bit ones, and no other name declares a format.
pub proof fn lemma_index_format_names(name: Seq<char>)
    ensures
        (index_format_of(name) == Some(SkyIndexFormat::U16)) == (name == "u16"@ || name == "U16"@),
        (index_format_of(name) == Some(SkyIndexFormat::U32)) == (name == "u32"@ || name == "U32"@),
        index_format_of(name) is Some <==> (name == "u16"@ || name == "U16"@ || name == "u32"@ || name == "U32"@),
{
    reveal_strlit("u16");
    reveal_strlit("U16");
    reveal_strlit("u32");
    reveal_strlit("U32");
    assert("u16"@[1] == '1' && "U16"@[1] == '1' && "u32"@[1] == '3' && "U32"@[1] == '3');
}

/// The indices of a sky mesh, or the position of the first that is not a
/// `u32`.
pub open spec fn indices_of(items: Seq<JsonValue>) -> Result<Seq<u32>, int>
    decreases items.len(),
{
    if items.len() == 0 {
        Ok(Seq::empty())
    } else {
        match indices_of(items.drop_last()) {
            Err(i) => Err(i),
            Ok(v) => match items.last().spec_as_u64() {
                Some(n) => if n <= u32::MAX {
                    Ok(v.push(n as u32))
                } else {
                    Err(items.len() - 1)
                },
                None => Err(items.len() - 1),
            },
        }
    }
}

/// The first of `items` whose member `key` is the string `name`.
pub open spec fn first_named(items: Seq<JsonValue>, key: Seq<char>, name: Seq<char>) -> Option<JsonValue>
    decreases items.len(),
{
    if items.len() == 0 {
        None
    } else if str_member(items[0], key) == Some(name) {
        Some(items[0])
    } else {
        first_named(items.skip(1), key, name)
    }
}

/// The material a sky mesh draws with: the `material_ref` of the material
/// slot named `slot`, or of the first slot where none is so named; a blank
/// reference is none.
pub open spec fn material_ref_of(model: JsonValue, slot: Seq<char>) -> Option<Seq<char>> {
    let chosen = match array_member(model, "material_slots"@) {
        Some(slots) => match first_named(slots, "slot_name"@, slot) {
            Some(s) => Some(s),
            None => if slots.len() > 0 {
                Some(slots[0])
            } else {
                None
            },
        },
        None => None,
    };
    match chosen {
        Some(s) => match str_member(s, "material_ref"@) {
            Some(r) => if trim_chars(r).len() == 0 {
                None
            } else {
                Some(r)
            },
            None => None,
        },
        None => None,
    }
}

/// The texture a sky material binds to `slot`.
pub open spec fn texture_ref_of(material: JsonValue, slot: Seq<char>) -> Option<Seq<char>> {
    match array_member(material, "textures"@) {
        Some(bindings) => match first_named(bindings, "slot"@, slot) {
            Some(b) => str_member(b, "ref"@),
            None => None,
        },
        None => None,
    }
}

/// The first mesh of a sky model.
pub open spec fn first_mesh_of(model: JsonValue) -> Option<JsonValue> {
    match array_member(model, "meshes"@) {
        Some(items) => if items.len() > 0 {
            Some(items[0])
        } else {
            None
        },
        None => None,
    }
}

/// Which description a missing string belongs to.
#[derive(Clone, Copy, Debug, PartialEq, Eq, Structural)]
pub enum SkyPart {
    Model,
    Mesh,
    Material,
}

/// Why a sky model description was refused.
#[derive(Clone, Debug, PartialEq, Eq)]
pub enum SkyModelError {
    /// The schema is not `engine.model.runtime_json.v1`.
    Schema,
    /// A required string member is missing.
    MissingString { part: SkyPart, key: String },
    /// The model has no bounds.
    NoBounds,
    /// The bounds' numbers do not read.
    BoundsNumbers,
    /// The model has no mesh.
    NoMeshes,
    /// An index format other than u16 and u32.
    IndexFormat(String),
    /// The mesh has no vertex array.
    NoVertices,
    /// A vertex's numbers do not read.
    VertexNumbers,
    /// The mesh has no index array.
    NoIndices,
    /// The index at this position is not a `u32`.
    InvalidIndex(usize),
    /// The mesh's material slot names no material.
    NoMaterialRef { slot: String },
}

/// The mesh and material a sky model describes.
#[derive(Clone, Debug)]
pub struct SkyModelPlan {
    pub model_name: String,
    pub mesh_name: String,
    pub material_slot: String,
    pub index_format: SkyIndexFormat,
    pub indices: Vec<u32>,
    pub material_ref: String,
}

fn member_string(v: &JsonValue, key: &str) -> (r: Option<String>)
    ensures
        match str_member(*v, key@) {
            Some(s) => r matches Some(x) && x@ == s,
            None => r is None,
        },
{
    match v.get(key) {
        Some(x) => match x.as_str() {
            Some(s) => Some(s.to_owned()),
            None => None,
        },
        None => None,
    }
}

fn index_format_exec(name: &str) -> (r: Option<SkyIndexFormat>)
    ensures
        r == index_format_of(name@),
{
    if compare_str(name, "u16") == KeyOrder::Equal || compare_str(name, "U16") == KeyOrder::Equal {
        Some(SkyIndexFormat::U16)
    } else if compare_str(name, "u32") == KeyOrder::Equal || compare_str(name, "U32") == KeyOrder::Equal {
        Some(SkyIndexFormat::U32)
    } else {
        None
    }
}

fn indices_exec(items: &Vec<JsonValue>) -> (r: Result<Vec<u32>, usize>)
    ensures
        match indices_of(items@) {
            Ok(v) => r matches Ok(x) && x@ == v,
            Err(i) => r matches Err(j) && j as int == i,
        },
{
    let mut out: Vec<u32> = Vec::new();
    let mut i: usize = 0;
    while i < items.len()
        invariant
            i <= items@.len(),
            indices_of(items@.take(i as int)) == Ok::<Seq<u32>, int>(out@),
        decreases items@.len() - i,
    {
        proof {
            assert(items@.take(i + 1).drop_last() =~= items@.take(i as int));
            assert(items@.take(i + 1).last() == items@[i as int]);
        }
        match items[i].as_u64() {
            Some(n) => {
                if n <= 0xffff_ffffu64 {
                    out.push(n as u32);
                } else {
                    proof {
                        assert(indices_of(items@.take(i + 1)) == Err::<Seq<u32>, int>(i as int));
                        lemma_indices_stay_refused(items@, (i + 1) as nat, items@.len());
                        assert(items@.take(items@.len() as int) =~= items@);
                    }
                    return Err(i);
                }
            },
            None => {
                proof {
                    assert(indices_of(items@.take(i + 1)) == Err::<Seq<u32>, int>(i as int));
                    lemma_indices_stay_refused(items@, (i + 1) as nat, items@.len());
                    assert(items@.take(items@.len() as int) =~= items@);
                }
                return Err(i);
            },
        }
        i = i + 1;
    }
    proof {
        assert(items@.take(items@.len() as int) =~= items@);
    }
    Ok(out)
}

proof fn lemma_indices_stay_refused(items: Seq<JsonValue>, k: nat, n: nat)
    requires
        k <= n <= items.len(),
        indices_of(items.take(k as int)) is Err,
    ensures
        indices_of(items.take(n as int)) == indices_of(items.take(k as int)),
    decreases n,
{
    if n > k {
        lemma_indices_stay_refused(items, k, (n - 1) as nat);
        assert(items.take(n as int).drop_last() =~= items.take(n - 1));
    }
}

fn first_named_exec<'a>(items: &'a Vec<JsonValue>, key: &str, name: &str) -> (r: Option<&'a JsonValue>)
    ensures
        match first_named(items@, key@, name@) {
            Some(v) => r matches Some(x) && *x == v,
            None => r is None,
        },
{
    let mut i: usize = 0;
    proof {
        assert(items@.skip(0) =~= items@);
    }
    while i < items.len()
        invariant
            i <= items@.len(),
            first_named(items@, key@, name@) == first_named(items@.skip(i as int), key@, name@),
        decreases items@.len() - i,
    {
        proof {
            assert(items@.skip(i as int)[0] == items@[i as int]);
            assert(items@.skip(i as int).skip(1) =~= items@.skip(i + 1));
        }
        let hit = match items[i].get(key) {
            Some(x) => match x.as_str() {
                Some(s) => compare_str(s, name) == KeyOrder::Equal,
                None => false,
            },
            None => false,
        };
        if hit {
            return Some(&items[i]);
        }
        i = i + 1;
    }
    proof {
        assert(items@.skip(i as int).len() == 0);
    }
    None
}

/// The material a sky mesh draws with; see `material_ref_of`.
pub fn material_ref(model: &JsonValue, slot: &str) -> (r: Option<String>)
    ensures
        match material_ref_of(*model, slot@) {
            Some(s) => r matches Some(x) && x@ == s,
            None => r is None,
        },
{
    let chosen = match model.get("material_slots") {
        Some(JsonValue::Array(slots)) => match first_named_exec(slots, "slot_name", slot) {
            Some(s) => Some(s),
            None => if slots.len() > 0 {
                Some(&slots[0])
            } else {
                None
            },
        },
        _ => None,
    };
    match chosen {
        Some(s) => match member_string(s, "material_ref") {
            Some(r) => if trim_str(r.as_str()).unicode_len() == 0 {
                None
            } else {
                Some(r)
            },
            None => None,
        },
        None => None,
    }
}

/// The texture a sky material binds to `slot`: the `ref` of the first
/// binding of its `textures` for that slot.
pub fn texture_ref(material: &JsonValue, slot: &str) -> (r: Option<String>)
    ensures
        match texture_ref_of(*material, slot@) {
            Some(s) => r matches Some(x) && x@ == s,
            None => r is None,
        },
{
    match material.get("textures") {
        Some(JsonValue::Array(bindings)) => match first_named_exec(bindings, "slot", slot) {
            Some(b) => member_string(b, "ref"),
            None => None,
        },
        _ => None,
    }
}

/// A sky model plan as plain values.
pub struct SkyModelView {
    pub model_name: Seq<char>,
    pub mesh_name: Seq<char>,
    pub material_slot: Seq<char>,
    pub index_format: SkyIndexFormat,
    pub indices: Seq<u32>,
    pub material_ref: Seq<char>,
}

/// Why a sky model description is refused, as plain values.
pub enum SkyModelFailure {
    Schema,
    MissingString(SkyPart, Seq<char>),
    NoBounds,
    BoundsNumbers,
    NoMeshes,
    IndexFormat(Seq<char>),
    NoVertices,
    VertexNumbers,
    NoIndices,
    InvalidIndex(int),
    NoMaterialRef(Seq<char>),
}

impl View for SkyModelPlan {
    type V = SkyModelView;

    open spec fn view(&self) -> SkyModelView {
        SkyModelView {
            model_name: self.model_name@,
            mesh_name: self.mesh_name@,
            material_slot: self.material_slot@,
            index_format: self.index_format,
            indices: self.indices@,
            material_ref: self.material_ref@,
        }
    }
}

impl View for SkyModelError {
    type V = SkyModelFailure;

    open spec fn view(&self) -> SkyModelFailure {
        match self {
            SkyModelError::Schema => SkyModelFailure::Schema,
            SkyModelError::MissingString { part, key } => SkyModelFailure::MissingString(*part, key@),
            SkyModelError::NoBounds => SkyModelFailure::NoBounds,
            SkyModelError::BoundsNumbers => SkyModelFailure::BoundsNumbers,
            SkyModelError::NoMeshes => SkyModelFailure::NoMeshes,
            SkyModelError::IndexFormat(f) => SkyModelFailure::IndexFormat(f@),
            SkyModelError::NoVertices => SkyModelFailure::NoVertices,
            SkyModelError::VertexNumbers => SkyModelFailure::VertexNumbers,
            SkyModelError::NoIndices => SkyModelFailure::NoIndices,
            SkyModelError::InvalidIndex(i) => SkyModelFailure::InvalidIndex(*i as int),
            SkyModelError::NoMaterialRef { slot } => SkyModelFailure::NoMaterialRef(slot@),
        }
    }
}

/// What a sky model description gives, or why it is refused, checked in
/// this order: the schema, the model's name, its bounds and their numbers,
/// its first mesh, the mesh's name, material slot and index format, its
/// vertices and their numbers, its indices, and the slot's material.
pub open spec fn sky_model_spec(m: JsonValue, bounds_ok: bool, vertices_ok: bool) -> Result<SkyModelView, SkyModelFailure> {
    if str_member(m, "schema"@) != Some("engine.model.runtime_json.v1"@) {
        Err(SkyModelFailure::Schema)
    } else if str_member(m, "name"@) is None {
        Err(SkyModelFailure::MissingString(SkyPart::Model, "name"@))
    } else if m.spec_get("bounds"@) is None {
        Err(SkyModelFailure::NoBounds)
    } else if !bounds_ok {
        Err(SkyModelFailure::BoundsNumbers)
    } else {
        match first_mesh_of(m) {
            None => Err(SkyModelFailure::NoMeshes),
            Some(mesh) => if str_member(mesh, "name"@) is None {
                Err(SkyModelFailure::MissingString(SkyPart::Mesh, "name"@))
            } else if str_member(mesh, "material_slot"@) is None {
                Err(SkyModelFailure::MissingString(SkyPart::Mesh, "material_slot"@))
            } else if str_member(mesh, "index_format"@) is None {
                Err(SkyModelFailure::MissingString(SkyPart::Mesh, "index_format"@))
            } else if index_format_of(str_member(mesh, "index_format"@).unwrap()) is None {
                Err(SkyModelFailure::IndexFormat(str_member(mesh, "index_format"@).unwrap()))
            } else if array_member(mesh, "vertices"@) is None {
                Err(SkyModelFailure::NoVertices)
            } else if !vertices_ok {
                Err(SkyModelFailure::VertexNumbers)
            } else if array_member(mesh, "indices"@) is None {
                Err(SkyModelFailure::NoIndices)
            } else {
                match indices_of(array_member(mesh, "indices"@).unwrap()) {
                    Err(i) => Err(SkyModelFailure::InvalidIndex(i)),
                    Ok(ix) => {
                        let slot = str_member(mesh, "material_slot"@).unwrap();
                        match material_ref_of(m, slot) {
                            None => Err(SkyModelFailure::NoMaterialRef(slot)),
                            Some(r) => Ok(
                                SkyModelView {
                                    model_name: str_member(m, "name"@).unwrap(),
                                    mesh_name: str_member(mesh, "name"@).unwrap(),
                                    material_slot: slot,
                                    index_format: index_format_of(str_member(mesh, "index_format"@).unwrap()).unwrap(),
                                    indices: ix,
                                    material_ref: r,
                                },
                            ),
                        }
                    },
                }
            },
        }
    }
}

fn first_mesh_exec(m: &JsonValue) -> (r: Option<&JsonValue>)
    ensures
        match first_mesh_of(*m) {
            Some(v) => r matches Some(x) && *x == v,
            None => r is None,
        },
{
    match m.get("meshes") {
        Some(JsonValue::Array(items)) => if items.len() > 0 {
            Some(&items[0])
        } else {
            None
        },
        _ => None,
    }
}

fn missing(part: SkyPart, key: &str) -> (e: SkyModelError)
    ensures
        e@ == SkyModelFailure::MissingString(part, key@),
{
    SkyModelError::MissingString { part, key: key.to_owned() }
}

/// Checks a sky model description; `bounds_ok` says whether its bounds'
/// numbers read, `vertices_ok` whether every vertex's numbers read. See
/// `sky_model_spec`.
pub fn sky_model_plan(model: &JsonValue, bounds_ok: bool, vertices_ok: bool) -> (r: Result<SkyModelPlan, SkyModelError>)
    ensures
        match sky_model_spec(*model, bounds_ok, vertices_ok) {
            Ok(v) => r matches Ok(p) && p@ == v,
            Err(f) => r matches Err(e) && e@ == f,
        },
{
    let schema_ok = match member_string(model, "schema") {
        Some(s) => compare_str(s.as_str(), "engine.model.runtime_json.v1") == KeyOrder::Equal,
        None => false,
    };
    if !schema_ok {
        return Err(SkyModelError::Schema);
    }
    let model_name = match member_string(model, "name") {
        Some(n) => n,
        None => {
            return Err(missing(SkyPart::Model, "name"));
        },
    };
    if model.get("bounds").is_none() {
        return Err(SkyModelError::NoBounds);
    }
    if !bounds_ok {
        return Err(SkyModelError::BoundsNumbers);
    }
    let mesh = match first_mesh_exec(model) {
        Some(m) => m,
        None => {
            return Err(SkyModelError::NoMeshes);
        },
    };
    let mesh_name = match member_string(mesh, "name") {
        Some(n) => n,
        None => {
            return Err(missing(SkyPart::Mesh, "name"));
        },
    };
    let material_slot = match member_string(mesh, "material_slot") {
        Some(n) => n,
        None => {
            return Err(missing(SkyPart::Mesh, "material_slot"));
        },
    };
    let format_name = match member_string(mesh, "index_format") {
        Some(n) => n,
        None => {
            return Err(missing(SkyPart::Mesh, "index_format"));
        },
    };
    let index_format = match index_format_exec(format_name.as_str()) {
        Some(f) => f,
        None => {
            return Err(SkyModelError::IndexFormat(format_name));
        },
    };
    match mesh.get("vertices") {
        Some(JsonValue::Array(_)) => {},
        _ => {
            return Err(SkyModelError::NoVertices);
        },
    }
    if !vertices_ok {
        return Err(SkyModelError::VertexNumbers);
    }
    let indices = match mesh.get("indices") {
        Some(JsonValue::Array(items)) => match indices_exec(items) {
            Ok(ix) => ix,
            Err(i) => {
                return Err(SkyModelError::InvalidIndex(i));
            },
        },
        _ => {
            return Err(SkyModelError::NoIndices);
        },
    };
    let material_ref = match material_ref(model, material_slot.as_str()) {
        Some(r) => r,
        None => {
            return Err(SkyModelError::NoMaterialRef { slot: material_slot });
        },
    };
    Ok(SkyModelPlan { model_name, mesh_name, material_slot, index_format, indices, material_ref })
}

/// Why a sky material description was refused.
#[derive(Clone, Debug, PartialEq, Eq)]
pub enum SkyMaterialError {
    /// The schema is not `engine.material.runtime_json.v1`.
    Schema,
    /// The material has no name.
    MissingName,
}

/// The name of a sky material description, once its schema is checked.
pub fn sky_material_name(material: &JsonValue) -> (r: Result<String, SkyMaterialError>)
    ensures
        str_member(*material, "schema"@) != Some("engine.material.runtime_json.v1"@) ==> r
            == Err::<String, SkyMaterialError>(SkyMaterialError::Schema),
        str_member(*material, "schema"@) == Some("engine.material.runtime_json.v1"@) ==> match str_member(
            *material,
            "name"@,
        ) {
            Some(n) => r matches Ok(s) && s@ == n,
            None => r == Err::<String, SkyMaterialError>(SkyMaterialError::MissingName),
        },
{
    let schema_ok = match member_string(material, "schema") {
        Some(s) => compare_str(s.as_str(), "engine.material.runtime_json.v1") == KeyOrder::Equal,
        None => false,
    };
    if !schema_ok {
        return Err(SkyMaterialError::Schema);
    }
    match member_string(material, "name") {
        Some(n) => Ok(n),
        None => Err(SkyMaterialError::MissingName),
    }
}

/// Why the indices of a sky dome mesh are refused.
#[derive(Clone, Copy, Debug, PartialEq, Eq, Structural)]
pub enum SkyIndexError {
    /// This index, the first such, names no vertex.
    OutOfRange { index: u32 },
    /// The mesh declares 16-bit indices but holds a larger one.
    U16Overflow,
}

/// The first index of `s`, from position `i` on, that is at least `bound`.
pub open spec fn first_index_from(s: Seq<u32>, i: int, bound: int) -> Option<u32>
    decreases s.len() - i,
{
    if i < 0 || i >= s.len() {
        None
    } else if s[i] >= bound {
        Some(s[i])
    } else {
        first_index_from(s, i + 1, bound)
    }
}

/// The indices of a sky mesh as the GPU reads them: each little-endian, in
/// two bytes for 16-bit indices and four for 32-bit ones.
pub open spec fn index_bytes(s: Seq<u32>, format: SkyIndexFormat) -> Seq<u8>
    decreases s.len(),
{
    if s.len() == 0 {
        Seq::empty()
    } else {
        index_bytes(s.drop_last(), format) + match format {
            SkyIndexFormat::U16 => vstd::bytes::spec_u16_to_le_bytes(s.last() as u16),
            SkyIndexFormat::U32 => vstd::bytes::spec_u32_to_le_bytes(s.last()),
        }
    }
}

fn first_index_at_least(s: &[u32], bound: u64) -> (r: Option<u32>)
    ensures
        r == first_index_from(s@, 0, bound as int),
{
    let mut i: usize = 0;
    while i < s.len()
        invariant
            i <= s@.len(),
            first_index_from(s@, 0, bound as int) == first_index_from(s@, i as int, bound as int),
        decreases s@.len() - i,
    {
        if s[i] as u64 >= bound {
            return Some(s[i]);
        }
        i = i + 1;
    }
    None
}

/// Checks the indices of a sky dome mesh of `vertex_count` vertices, taken
/// as a 32-bit count: every index names a vertex, and a mesh declaring
/// 16-bit indices holds none above 65535.
pub fn check_sky_indices(indices: &[u32], vertex_count: usize, format: SkyIndexFormat) -> (r: Result<(), SkyIndexError>)
    ensures
        match first_index_from(indices@, 0, (vertex_count as u32) as int) {
            Some(x) => r == Err::<(), SkyIndexError>(SkyIndexError::OutOfRange { index: x }),
            None => if format == SkyIndexFormat::U16 && first_index_from(indices@, 0, 65536) is Some {
                r == Err::<(), SkyIndexError>(SkyIndexError::U16Overflow)
            } else {
                r is Ok
            },
        },
{
    #[verifier::truncate]
    let count = vertex_count as u32;
    if let Some(x) = first_index_at_least(indices, count as u64) {
        return Err(SkyIndexError::OutOfRange { index: x });
    }
    if format == SkyIndexFormat::U16 && first_index_at_least(indices, 65536).is_some() {
        return Err(SkyIndexError::U16Overflow);
    }
    Ok(())
}

/// The index buffer of a sky dome mesh, or the first index that does not
/// fit a declared 16-bit format.
pub fn encode_sky_indices(indices: &[u32], format: SkyIndexFormat) -> (r: Result<Vec<u8>, u32>)
    ensures
        format == SkyIndexFormat::U16 && first_index_from(indices@, 0, 65536) is Some ==> r == Err::<Vec<u8>, u32>(
            first_index_from(indices@, 0, 65536).unwrap(),
        ),
        !(format == SkyIndexFormat::U16 && first_index_from(indices@, 0, 65536) is Some) ==> (r matches Ok(b)
            && b@ == index_bytes(indices@, format)),
{
    if format == SkyIndexFormat::U16 {
        if let Some(x) = first_index_at_least(indices, 65536) {
            return Err(x);
        }
    }
    let mut out: Vec<u8> = Vec::new();
    let mut i: usize = 0;
    while i < indices.len()
        invariant
            i <= indices@.len(),
            out@ == index_bytes(indices@.take(i as int), format),
            format == SkyIndexFormat::U16 ==> first_index_from(indices@, 0, 65536) is None,
        decreases indices@.len() - i,
    {
        let v = indices[i];
        let b = match format {
            SkyIndexFormat::U16 => {
                proof {
                    lemma_below_bound(indices@, 0, i as int, 65536);
                }
                vstd::bytes::u16_to_le_bytes(v as u16)
            },
            SkyIndexFormat::U32 => vstd::bytes::u32_to_le_bytes(v),
        };
        let mut k: usize = 0;
        let ghost before = out@;
        while k < b.len()
            invariant
                k <= b@.len(),
                out@ == before + b@.take(k as int),
            decreases b@.len() - k,
        {
            out.push(b[k]);
            proof {
                assert(b@.take(k + 1) =~= b@.take(k as int).push(b@[k as int]));
            }
            k = k + 1;
        }
        proof {
            assert(b@.take(b@.len() as int) =~= b@);
            let t = indices@.take(i + 1);
            assert(t.drop_last() =~= indices@.take(i as int));
            assert(t.last() == v);
        }
        i = i + 1;
    }
    proof {
        assert(indices@.take(indices@.len() as int) =~= indices@);
    }
    Ok(out)
}

/// Where no index from `i` on reaches `bound`, the one at `j` is below it.
proof fn lemma_below_bound(s: Seq<u32>, i: int, j: int, bound: int)
    requires
        0 <= i <= j < s.len(),
        first_index_from(s, i, bound) is None,
    ensures
        s[j] < bound,
    decreases j - i,
{
    if i < j {
        lemma_below_bound(s, i + 1, j, bound);
    }
}

} // verus!
