use newviso::json::{JsonNumber, JsonValue};
use newviso::scene::SkyIndexFormat;
use newviso::sky::{
    check_sky_indices, encode_sky_indices, SkyIndexError, decode_texture_frame, material_ref, sky_material_name, sky_model_plan, texture_ref, SkyMaterialError,
    SkyModelError, SkyPart, TextureFrameError,
};
use newviso::strmap::StrMap;

fn obj(pairs: Vec<(&str, JsonValue)>) -> JsonValue {
    let mut m = StrMap::new();
    for (k, v) in pairs {
        m.insert(k.to_string(), v);
    }
    JsonValue::Object(m)
}

fn num(n: u64) -> JsonValue {
    JsonValue::Number(JsonNumber::PosInt(n))
}

fn text(s: &str) -> JsonValue {
    JsonValue::Str(s.to_string())
}

fn frame(version: u16, width: u32, height: u32, payload: &[u8]) -> Vec<u8> {
    let mut b = b"NTRT".to_vec();
    b.extend_from_slice(&version.to_le_bytes());
    b.extend_from_slice(&[0, 0]);
    b.extend_from_slice(&width.to_le_bytes());
    b.extend_from_slice(&height.to_le_bytes());
    b.extend_from_slice(&(payload.len() as u32).to_le_bytes());
    b.extend_from_slice(payload);
    b
}

#[test]
fn texture_frames_decode_to_their_texels() {
    let texels: Vec<u8> = (0..16).collect();
    let t = decode_texture_frame("stars".to_string(), true, &frame(1, 2, 2, &texels)).ok().unwrap();
    assert_eq!(t.name, "stars");
    assert!(t.srgb);
    assert_eq!((t.width, t.height), (2, 2));
    assert_eq!(t.rgba8, texels);
}

#[test]
fn malformed_texture_frames_are_refused() {
    let decode = |b: Vec<u8>| decode_texture_frame("n".to_string(), false, &b).err().unwrap();
    assert_eq!(decode(vec![0; 19]), TextureFrameError::Short { len: 19 });
    let mut wrong_magic = frame(1, 1, 1, &[0; 4]);
    wrong_magic[0] = b'X';
    assert_eq!(decode(wrong_magic), TextureFrameError::Magic);
    assert_eq!(decode(frame(2, 1, 1, &[0; 4])), TextureFrameError::Version(2));
    let mut long = frame(1, 1, 1, &[0; 4]);
    long.push(9);
    assert_eq!(decode(long), TextureFrameError::FrameSize { len: 25, expected: 24 });
    assert_eq!(
        decode(frame(1, 2, 1, &[0; 4])),
        TextureFrameError::Payload { payload: 4, expected: 8, width: 2, height: 1 }
    );
}

fn mesh(extra: Vec<(&str, JsonValue)>) -> JsonValue {
    let mut pairs = vec![
        ("name", text("dome")),
        ("material_slot", text("sky")),
        ("index_format", text("U32")),
        ("vertices", JsonValue::Array(vec![])),
        ("indices", JsonValue::Array(vec![num(0), num(1), num(2)])),
    ];
    for (k, v) in extra {
        pairs.retain(|(key, _)| *key != k);
        pairs.push((k, v));
    }
    obj(pairs)
}

fn model(mesh_value: JsonValue, slots: JsonValue) -> JsonValue {
    obj(vec![
        ("schema", text("engine.model.runtime_json.v1")),
        ("name", text("SkyDome")),
        ("bounds", obj(vec![])),
        ("meshes", JsonValue::Array(vec![mesh_value])),
        ("material_slots", slots),
    ])
}

fn slot(name: &str, reference: &str) -> JsonValue {
    obj(vec![("slot_name", text(name)), ("material_ref", text(reference))])
}

#[test]
fn sky_model_names_its_mesh_indices_and_material() {
    let m = model(mesh(vec![]), JsonValue::Array(vec![slot("ground", "mat/ground"), slot("sky", "mat/sky@main")]));
    let plan = sky_model_plan(&m, true, true).ok().unwrap();
    assert_eq!(plan.model_name, "SkyDome");
    assert_eq!(plan.mesh_name, "dome");
    assert_eq!(plan.material_slot, "sky");
    assert_eq!(plan.index_format, SkyIndexFormat::U32);
    assert_eq!(plan.indices, vec![0, 1, 2]);
    assert_eq!(plan.material_ref, "mat/sky@main");
}

#[test]
fn material_falls_back_to_the_first_slot_only_when_none_is_named() {
    let m = model(mesh(vec![]), JsonValue::Array(vec![slot("ground", "mat/ground")]));
    assert_eq!(material_ref(&m, "sky").as_deref(), Some("mat/ground"));
    let blank = model(mesh(vec![]), JsonValue::Array(vec![slot("other", "x"), slot("sky", "  ")]));
    assert_eq!(material_ref(&blank, "sky"), None);
    assert_eq!(
        sky_model_plan(&blank, true, true).err(),
        Some(SkyModelError::NoMaterialRef { slot: "sky".to_string() })
    );
}

#[test]
fn sky_model_checks_come_in_order() {
    let good = model(mesh(vec![]), JsonValue::Array(vec![slot("sky", "m")]));
    assert_eq!(sky_model_plan(&good, false, false).err(), Some(SkyModelError::BoundsNumbers));
    assert_eq!(sky_model_plan(&good, true, false).err(), Some(SkyModelError::VertexNumbers));
    assert_eq!(sky_model_plan(&obj(vec![]), true, true).err(), Some(SkyModelError::Schema));
    let unnamed = obj(vec![("schema", text("engine.model.runtime_json.v1"))]);
    assert_eq!(
        sky_model_plan(&unnamed, true, true).err(),
        Some(SkyModelError::MissingString { part: SkyPart::Model, key: "name".to_string() })
    );
    let format = model(mesh(vec![("index_format", text("u8"))]), JsonValue::Array(vec![]));
    assert_eq!(sky_model_plan(&format, true, true).err(), Some(SkyModelError::IndexFormat("u8".to_string())));
    let bad_index = model(
        mesh(vec![("indices", JsonValue::Array(vec![num(1), num(1 << 32)]))]),
        JsonValue::Array(vec![]),
    );
    assert_eq!(sky_model_plan(&bad_index, true, true).err(), Some(SkyModelError::InvalidIndex(1)));
    let no_vertices = model(mesh(vec![("vertices", num(0))]), JsonValue::Array(vec![]));
    assert_eq!(sky_model_plan(&no_vertices, true, true).err(), Some(SkyModelError::NoVertices));
    let no_meshes = obj(vec![
        ("schema", text("engine.model.runtime_json.v1")),
        ("name", text("S")),
        ("bounds", obj(vec![])),
        ("meshes", JsonValue::Array(vec![])),
    ]);
    assert_eq!(sky_model_plan(&no_meshes, true, true).err(), Some(SkyModelError::NoMeshes));
}

#[test]
fn sky_material_names_and_texture_slots() {
    let material = obj(vec![
        ("schema", text("engine.material.runtime_json.v1")),
        ("name", text("Sky")),
        (
            "textures",
            JsonValue::Array(vec![
                obj(vec![("slot", text("emissive")), ("ref", text("tex/stars@0"))]),
                obj(vec![("slot", text("emissive")), ("ref", text("tex/other@0"))]),
            ]),
        ),
    ]);
    assert_eq!(sky_material_name(&material), Ok("Sky".to_string()));
    assert_eq!(texture_ref(&material, "emissive").as_deref(), Some("tex/stars@0"));
    assert_eq!(texture_ref(&material, "normal"), None);
    assert_eq!(sky_material_name(&obj(vec![])), Err(SkyMaterialError::Schema));
    let unnamed = obj(vec![("schema", text("engine.material.runtime_json.v1"))]);
    assert_eq!(sky_material_name(&unnamed), Err(SkyMaterialError::MissingName));
}

#[test]
fn sky_indices_must_name_vertices_and_fit_their_width() {
    assert_eq!(check_sky_indices(&[0, 1, 2], 3, SkyIndexFormat::U16), Ok(()));
    assert_eq!(
        check_sky_indices(&[0, 3, 7], 3, SkyIndexFormat::U32),
        Err(SkyIndexError::OutOfRange { index: 3 })
    );
    assert_eq!(check_sky_indices(&[0, 70_000], 80_000, SkyIndexFormat::U32), Ok(()));
    assert_eq!(
        check_sky_indices(&[0, 70_000], 80_000, SkyIndexFormat::U16),
        Err(SkyIndexError::U16Overflow)
    );
}

#[test]
fn sky_index_buffers_are_little_endian() {
    assert_eq!(encode_sky_indices(&[1, 0x0203], SkyIndexFormat::U16), Ok(vec![1, 0, 3, 2]));
    assert_eq!(
        encode_sky_indices(&[1, 0x0102_0304], SkyIndexFormat::U32),
        Ok(vec![1, 0, 0, 0, 4, 3, 2, 1])
    );
    assert_eq!(encode_sky_indices(&[5, 65_536, 70_000], SkyIndexFormat::U16), Err(65_536));
    assert_eq!(encode_sky_indices(&[], SkyIndexFormat::U32), Ok(vec![]));
}
