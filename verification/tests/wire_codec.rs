use newviso::strmap::StrMap;
use newviso::wire::{
    decode_module_load_ok, decode_response, default_module_id, encode_module_load, encode_request,
    encode_request_with_payload, ScriptInvocation, ScriptModuleLoad, ScriptPermission,
    ScriptResponseStatus, WireError,
};

fn header(magic: &[u8; 4]) -> Vec<u8> {
    let mut out = magic.to_vec();
    out.extend_from_slice(&[1, 0, 0, 0]);
    out
}

fn field(out: &mut Vec<u8>, bytes: &[u8]) {
    out.extend_from_slice(&(bytes.len() as u32).to_le_bytes());
    out.extend_from_slice(bytes);
}

fn count(out: &mut Vec<u8>, n: u32) {
    out.extend_from_slice(&n.to_le_bytes());
}

fn map_of(pairs: &[(&str, &str)]) -> StrMap<String> {
    let mut m = StrMap::new();
    for (k, v) in pairs {
        m.insert(k.to_string(), v.to_string());
    }
    m
}

/// A response with one diagnostic, as the provider writes it.
fn sample_response(status: u8) -> Vec<u8> {
    let mut out = header(b"NSRS");
    field(&mut out, b"req-7");
    out.push(status);
    field(&mut out, b"{\"ok\":true}");
    count(&mut out, 1);
    out.push(2);
    field(&mut out, b"W001");
    field(&mut out, b"slow frame");
    field(&mut out, b"main.ysc");
    field(&mut out, &[9, 9]);
    field(&mut out, b"trace-1");
    count(&mut out, 2);
    field(&mut out, b"a");
    field(&mut out, b"1");
    field(&mut out, b"b");
    field(&mut out, b"2");
    out
}

#[test]
fn module_id_is_canonical() {
    assert_eq!(default_module_id("Scripts/Foo.ysc"), "scripts_foo_ysc");
}

#[test]
fn module_id_trims_leading_slashes_and_backslashes() {
    assert_eq!(default_module_id("  //Game\\Main@v2.YSC "), "game_main_v2_ysc");
    assert_eq!(default_module_id(""), "");
}

#[test]
fn module_load_is_encoded_field_by_field() {
    let permissions = vec![ScriptPermission { id: "scene.write".to_string(), scope: "all".to_string() }];
    let request = ScriptModuleLoad {
        reference: "Scripts/Foo.ysc",
        module_bytes: &[1, 2, 3],
        permissions: &permissions,
        metadata: map_of(&[("z", "last"), ("a", "first")]),
    };
    let mut expected = header(b"NSML");
    field(&mut expected, b"Scripts/Foo.ysc");
    field(&mut expected, b"scripts_foo_ysc");
    field(&mut expected, &[1, 2, 3]);
    count(&mut expected, 1);
    field(&mut expected, b"scene.write");
    field(&mut expected, b"all");
    count(&mut expected, 2);
    field(&mut expected, b"a");
    field(&mut expected, b"first");
    field(&mut expected, b"z");
    field(&mut expected, b"last");
    assert_eq!(encode_module_load(&request), expected);
}

#[test]
fn request_gets_json_payload_format_by_default() {
    let payload: serde_json::Value = serde_json::from_str("{\"a\": 1}").unwrap();
    let request = ScriptInvocation {
        request_id: "r1",
        script_ref: "main",
        operation: "on_frame",
        payload: &payload,
        context_bytes: &[7],
        permissions: &[],
        metadata: map_of(&[("trace", "x")]),
    };
    let mut expected = header(b"NSCR");
    field(&mut expected, b"r1");
    field(&mut expected, b"main");
    field(&mut expected, b"on_frame");
    field(&mut expected, b"{\"a\":1}");
    field(&mut expected, &[7]);
    count(&mut expected, 0);
    count(&mut expected, 2);
    field(&mut expected, b"payload_format");
    field(&mut expected, b"json");
    field(&mut expected, b"trace");
    field(&mut expected, b"x");
    assert_eq!(encode_request(&request).unwrap(), expected);
}

#[test]
fn request_keeps_an_explicit_payload_format() {
    let payload = serde_json::Value::Null;
    let request = ScriptInvocation {
        request_id: "r2",
        script_ref: "s",
        operation: "op",
        payload: &payload,
        context_bytes: &[],
        permissions: &[],
        metadata: map_of(&[("payload_format", "msgpack")]),
    };
    let mut expected = header(b"NSCR");
    field(&mut expected, b"r2");
    field(&mut expected, b"s");
    field(&mut expected, b"op");
    field(&mut expected, b"raw");
    field(&mut expected, &[]);
    count(&mut expected, 0);
    count(&mut expected, 1);
    field(&mut expected, b"payload_format");
    field(&mut expected, b"msgpack");
    assert_eq!(encode_request_with_payload(&request, b"raw"), expected);
}

#[test]
fn response_is_decoded_and_diagnostics_skipped() {
    let response = decode_response(&sample_response(0)).unwrap();
    assert_eq!(response.request_id, "req-7");
    assert_eq!(response.status, ScriptResponseStatus::Success);
    assert_eq!(response.payload_bytes, b"{\"ok\":true}".to_vec());
    assert_eq!(response.trace_id, "trace-1");
    assert_eq!(response.metadata.len(), 2);
    assert_eq!(response.metadata.get("a"), Some(&"1".to_string()));
    assert_eq!(response.metadata.get("b"), Some(&"2".to_string()));
}

#[test]
fn every_status_byte_is_decoded() {
    let expected = [
        ScriptResponseStatus::Success,
        ScriptResponseStatus::Empty,
        ScriptResponseStatus::Rejected,
        ScriptResponseStatus::InvalidRequest,
        ScriptResponseStatus::ProviderError,
    ];
    for (byte, status) in expected.iter().enumerate() {
        assert_eq!(decode_response(&sample_response(byte as u8)).unwrap().status, *status);
    }
    assert!(matches!(decode_response(&sample_response(5)), Err(WireError::InvalidStatus(5))));
}

#[test]
fn response_with_trailing_bytes_is_refused() {
    let mut bytes = sample_response(1);
    bytes.push(0);
    assert!(matches!(decode_response(&bytes), Err(WireError::TrailingBytes)));
}

#[test]
fn response_header_is_checked() {
    assert!(matches!(decode_response(&[78, 83, 82, 83, 1, 0, 0]), Err(WireError::HeaderMismatch)));
    let mut wrong_magic = sample_response(0);
    wrong_magic[3] = b'X';
    assert!(matches!(decode_response(&wrong_magic), Err(WireError::HeaderMismatch)));
    let mut wrong_version = sample_response(0);
    wrong_version[4] = 2;
    assert!(matches!(decode_response(&wrong_version), Err(WireError::UnsupportedVersion(2))));
}

#[test]
fn truncated_response_is_refused() {
    let bytes = sample_response(0);
    for cut in 8..bytes.len() {
        assert!(matches!(decode_response(&bytes[..cut]), Err(WireError::Truncated)));
    }
}

#[test]
fn invalid_utf8_in_a_string_is_refused() {
    let mut out = header(b"NSRS");
    field(&mut out, &[0xff, 0xfe]);
    assert!(matches!(decode_response(&out), Err(WireError::InvalidUtf8)));
}

#[test]
fn module_load_answer_is_a_bool() {
    let mut yes = header(b"NSLR");
    yes.push(1);
    assert_eq!(decode_module_load_ok(&yes), Ok(()));
    let mut no = header(b"NSLR");
    no.push(0);
    assert_eq!(decode_module_load_ok(&no), Err(WireError::ModuleLoadRejected));
    let mut other = header(b"NSLR");
    other.push(7);
    assert_eq!(decode_module_load_ok(&other), Err(WireError::InvalidModuleLoadBool(7)));
    assert_eq!(decode_module_load_ok(&header(b"NSLR")), Err(WireError::Truncated));
    assert_eq!(decode_module_load_ok(&header(b"NSRS")), Err(WireError::HeaderMismatch));
}

#[test]
fn module_load_answer_may_carry_more_bytes() {
    let mut yes = header(b"NSLR");
    yes.extend_from_slice(&[1, 42, 42]);
    assert_eq!(decode_module_load_ok(&yes), Ok(()));
}
