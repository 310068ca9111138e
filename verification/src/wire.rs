//! The byte format of the scripting service: module loads and invocation
//! requests that the host sends, and the responses it reads back.
//!
//! Every message starts with a four-byte magic, the wire version as a
//! little-endian `u16` and a reserved `u16`. Byte strings are a little-endian
//! `u32` length followed by the bytes; strings are byte strings of their UTF-8
//! encoding; lists and maps are a `u32` count followed by their items.

use vstd::prelude::*;
use vstd::bytes::{spec_u16_to_le_bytes, spec_u16_from_le_bytes, spec_u32_to_le_bytes, spec_u32_from_le_bytes, u16_to_le_bytes, u32_to_le_bytes, u16_from_le_bytes, u32_from_le_bytes};
use crate::text::{utf8_bytes, trim_chars, trim_str, str_chars, string_from_chars, ascii_lower_char, ascii_lower};
use crate::strmap::{StrMap, sorted_pairs, pairs_map};

verus! {

/// The wire version this codec writes and accepts.
pub const WIRE_VERSION: u16 = 1;

pub open spec fn module_load_magic() -> Seq<u8> {
    seq![78u8, 83u8, 77u8, 76u8]
}

pub open spec fn module_load_response_magic() -> Seq<u8> {
    seq![78u8, 83u8, 76u8, 82u8]
}

pub open spec fn request_magic() -> Seq<u8> {
    seq![78u8, 83u8, 67u8, 82u8]
}

pub open spec fn response_magic() -> Seq<u8> {
    seq![78u8, 83u8, 82u8, 83u8]
}

/// `serde_json::Value`, the JSON payload of an invocation; opaque here.
#[verifier::external_type_specification]
#[verifier::external_body]
pub struct ExJsonValue(serde_json::Value);

/// `serde_json::Error`, returned when a payload cannot be serialized.
#[verifier::external_type_specification]
#[verifier::external_body]
pub struct ExJsonError(serde_json::Error);

/// The compact JSON text, as bytes, that `serde_json::to_vec` writes for a
/// JSON value: a function of the value alone.
pub uninterp spec fn json_payload_bytes(value: serde_json::Value) -> Seq<u8>;

/// `serde_json::to_vec` on a JSON value: its compact JSON text. Serializing
/// a `serde_json::Value` does not fail: `to_vec` fails only where a
/// `Serialize` impl fails or a map key is not a string, and neither happens
/// for a `Value`, whose object keys are strings and whose numbers are finite.
/// The bytes are named, not spelled out.
#[verifier::external_body]
fn json_to_vec(value: &serde_json::Value) -> (r: Result<Vec<u8>, serde_json::Error>)
    ensures
        r is Ok,
        r matches Ok(b) ==> b@ == json_payload_bytes(*value),
{
    serde_json::to_vec(value)
}

/// The `Display` text of a `serde_json::Error`; nothing is stated of it.
#[verifier::external_body]
fn json_error_text(error: &serde_json::Error) -> (s: String) {
    error.to_string()
}

/// A permission granted to a script: an id and the scope it applies to.
#[derive(Clone, Debug)]
pub struct ScriptPermission {
    pub id: String,
    pub scope: String,
}

/// A request to load a compiled script module.
pub struct ScriptModuleLoad<'a> {
    pub reference: &'a str,
    pub module_bytes: &'a [u8],
    pub permissions: &'a [ScriptPermission],
    pub metadata: StrMap<String>,
}

/// A request to run an operation of a loaded script.
pub struct ScriptInvocation<'a> {
    pub request_id: &'a str,
    pub script_ref: &'a str,
    pub operation: &'a str,
    pub payload: &'a serde_json::Value,
    pub context_bytes: &'a [u8],
    pub permissions: &'a [ScriptPermission],
    pub metadata: StrMap<String>,
}

/// How the scripting provider answered a request.
#[derive(Clone, Copy, Debug, PartialEq, Eq, Structural)]
pub enum ScriptResponseStatus {
    /// The operation ran (`Ok` on the wire: status byte 0).
    Success,
    Empty,
    Rejected,
    InvalidRequest,
    ProviderError,
}

/// A decoded response of the scripting provider.
pub struct ScriptResponse {
    pub request_id: String,
    pub status: ScriptResponseStatus,
    pub payload_bytes: Vec<u8>,
    pub trace_id: String,
    pub metadata: StrMap<String>,
}

/// Why a message could not be encoded or decoded.
#[derive(Clone, Debug, PartialEq, Eq)]
pub enum WireError {
    /// Shorter than a header, or a different magic.
    HeaderMismatch,
    /// A wire version this codec does not speak.
    UnsupportedVersion(u16),
    /// A length that runs past the address space.
    Overflow,
    /// A length that runs past the end of the message.
    Truncated,
    /// A string field that is not UTF-8.
    InvalidUtf8,
    /// Bytes after the last field of a response.
    TrailingBytes,
    /// A response status byte outside `0..=4`.
    InvalidStatus(u8),
    /// A module-load answer byte other than `0` and `1`.
    InvalidModuleLoadBool(u8),
    /// The provider answered a module load with `0`.
    ModuleLoadRejected,
    /// The JSON payload of an invocation could not be serialized.
    PayloadEncoding(String),
}

/// The marker of the scripting service: it carries no state.
#[derive(Clone, Copy, Debug)]
pub struct ScriptClient;

impl ScriptClient {
    pub fn new() -> (c: Self)
        ensures
            c == ScriptClient,
    {
        ScriptClient
    }
}

// ---------------------------------------------------------------------------
// The byte format.

pub open spec fn le16(v: u16) -> Seq<u8> {
    spec_u16_to_le_bytes(v)
}

pub open spec fn le32(v: u32) -> Seq<u8> {
    spec_u32_to_le_bytes(v)
}

/// The header of a message with the given magic.
pub open spec fn header_bytes(magic: Seq<u8>) -> Seq<u8> {
    magic + le16(WIRE_VERSION) + le16(0)
}

/// A length-prefixed byte string. The length is written as a `u32`, so a
/// longer string has its length truncated, as the writer does.
pub open spec fn field_bytes(b: Seq<u8>) -> Seq<u8> {
    le32(b.len() as u32) + b
}

/// A length-prefixed UTF-8 string.
pub open spec fn str_field(s: Seq<char>) -> Seq<u8> {
    field_bytes(utf8_bytes(s))
}

/// A count as written before a list or a map.
pub open spec fn count_bytes(n: nat) -> Seq<u8> {
    le32(n as u32)
}

pub open spec fn permission_items(ps: Seq<ScriptPermission>) -> Seq<u8>
    decreases ps.len(),
{
    if ps.len() == 0 {
        Seq::empty()
    } else {
        permission_items(ps.drop_last()) + str_field(ps.last().id@) + str_field(ps.last().scope@)
    }
}

/// A list of permissions: its count, then each id and scope.
pub open spec fn permissions_bytes(ps: Seq<ScriptPermission>) -> Seq<u8> {
    count_bytes(ps.len()) + permission_items(ps)
}

/// Entries with `String` values, their values taken by their chars.
pub open spec fn text_pairs(ps: Seq<(Seq<char>, String)>) -> Seq<(Seq<char>, Seq<char>)> {
    ps.map_values(|e: (Seq<char>, String)| (e.0, e.1@))
}

pub open spec fn map_items(ps: Seq<(Seq<char>, Seq<char>)>) -> Seq<u8>
    decreases ps.len(),
{
    if ps.len() == 0 {
        Seq::empty()
    } else {
        map_items(ps.drop_last()) + str_field(ps.last().0) + str_field(ps.last().1)
    }
}

/// A string map: its count, then each key and value, in the given order.
pub open spec fn map_bytes(ps: Seq<(Seq<char>, Seq<char>)>) -> Seq<u8> {
    count_bytes(ps.len()) + map_items(ps)
}

// ---------------------------------------------------------------------------
// Module ids.

/// `reference` without its leading slashes.
pub open spec fn strip_leading_slashes(s: Seq<char>) -> Seq<char>
    decreases s.len(),
{
    if s.len() > 0 && s[0] == '/' {
        strip_leading_slashes(s.drop_first())
    } else {
        s
    }
}

/// Path separators, `@` and `.` become `_`; ASCII letters are lower-cased.
pub open spec fn module_id_char(c: char) -> char {
    if c == '\\' || c == '/' || c == '@' || c == '.' {
        '_'
    } else {
        ascii_lower_char(c)
    }
}

/// The module id that a script reference stands for.
pub open spec fn module_id_chars(reference: Seq<char>) -> Seq<char> {
    strip_leading_slashes(trim_chars(reference)).map_values(|c: char| module_id_char(c))
}

/// The canonical module id of a script reference: trimmed, leading `/`
/// removed, separators, `@` and `.` replaced by `_`, ASCII lower-cased.
pub fn default_module_id(reference: &str) -> (id: String)
    ensures
        id@ == module_id_chars(reference@),
        forall|i: int|
            0 <= i < id@.len() ==> #[trigger] id@[i] != '/' && id@[i] != '\\' && id@[i] != '@'
                && id@[i] != '.' && !('A' <= id@[i] && id@[i] <= 'Z'),
{
    let trimmed = trim_str(reference);
    let chars = str_chars(trimmed);
    let mut start: usize = 0;
    proof {
        assert(chars@.skip(0) =~= chars@);
    }
    while start < chars.len() && chars[start] == '/'
        invariant
            start <= chars@.len(),
            chars@ == trim_chars(reference@),
            strip_leading_slashes(chars@.skip(start as int)) == strip_leading_slashes(chars@),
        decreases chars@.len() - start,
    {
        proof {
            assert(chars@.skip(start + 1) =~= chars@.skip(start as int).drop_first());
        }
        start = start + 1;
    }
    let ghost rest = chars@.skip(start as int);
    proof {
        assert(strip_leading_slashes(rest) == rest);
    }
    let mut out: Vec<char> = Vec::new();
    let mut i: usize = start;
    while i < chars.len()
        invariant
            start <= i <= chars@.len(),
            rest == chars@.skip(start as int),
            out@ == chars@.subrange(start as int, i as int).map_values(|c: char| module_id_char(c)),
        decreases chars@.len() - i,
    {
        let c = chars[i];
        let m = if c == '\\' || c == '/' || c == '@' || c == '.' {
            '_'
        } else {
            ascii_lower(c)
        };
        out.push(m);
        proof {
            assert(chars@.subrange(start as int, i + 1) =~= chars@.subrange(start as int, i as int).push(c));
            assert(chars@.subrange(start as int, i + 1).map_values(|c: char| module_id_char(c))
                =~= chars@.subrange(start as int, i as int).map_values(|c: char| module_id_char(c)).push(m));
        }
        i = i + 1;
    }
    proof {
        assert(chars@.subrange(start as int, chars@.len() as int) =~= rest);
    }
    string_from_chars(&out)
}

// ---------------------------------------------------------------------------
// Writers.

/// Appends `bytes` to `out`.
fn append_bytes(out: &mut Vec<u8>, bytes: &[u8])
    ensures
        final(out)@ == old(out)@ + bytes@,
{
    let mut i: usize = 0;
    while i < bytes.len()
        invariant
            i <= bytes@.len(),
            out@ == old(out)@ + bytes@.take(i as int),
        decreases bytes@.len() - i,
    {
        out.push(bytes[i]);
        proof {
            assert(bytes@.take(i + 1) =~= bytes@.take(i as int).push(bytes@[i as int]));
        }
        i = i + 1;
    }
    proof {
        assert(bytes@.take(bytes@.len() as int) =~= bytes@);
    }
}

fn write_u32(out: &mut Vec<u8>, v: u32)
    ensures
        final(out)@ == old(out)@ + le32(v),
{
    let b = u32_to_le_bytes(v);
    append_bytes(out, b.as_slice());
}

/// Appends the header of a message with `magic`.
fn write_header(out: &mut Vec<u8>, magic: &[u8; 4])
    ensures
        final(out)@ == old(out)@ + header_bytes(magic@),
{
    append_bytes(out, magic);
    let v = u16_to_le_bytes(WIRE_VERSION);
    append_bytes(out, v.as_slice());
    let z = u16_to_le_bytes(0);
    append_bytes(out, z.as_slice());
    proof {
        assert(old(out)@ + magic@ + le16(WIRE_VERSION) + le16(0) =~= old(out)@ + header_bytes(magic@));
    }
}

/// Appends a length-prefixed byte string.
fn write_bytes(out: &mut Vec<u8>, value: &[u8])
    ensures
        final(out)@ == old(out)@ + field_bytes(value@),
{
    write_u32(out, value.len() as u32);
    append_bytes(out, value);
    proof {
        assert(old(out)@ + le32(value@.len() as u32) + value@ =~= old(out)@ + field_bytes(value@));
    }
}

/// Appends a length-prefixed UTF-8 string.
fn write_string(out: &mut Vec<u8>, value: &str)
    ensures
        final(out)@ == old(out)@ + str_field(value@),
{
    write_bytes(out, value.as_bytes());
}

/// Appends a list of permissions.
fn write_permissions(out: &mut Vec<u8>, values: &[ScriptPermission])
    ensures
        final(out)@ == old(out)@ + permissions_bytes(values@),
{
    write_u32(out, values.len() as u32);
    let ghost start = out@;
    let mut i: usize = 0;
    while i < values.len()
        invariant
            i <= values@.len(),
            out@ == start + permission_items(values@.take(i as int)),
            start == old(out)@ + count_bytes(values@.len()),
        decreases values@.len() - i,
    {
        write_string(out, values[i].id.as_str());
        write_string(out, values[i].scope.as_str());
        proof {
            let t = values@.take(i + 1);
            assert(t.drop_last() =~= values@.take(i as int));
            assert(t.last() == values@[i as int]);
            assert(out@ =~= start + permission_items(t));
        }
        i = i + 1;
    }
    proof {
        assert(values@.take(values@.len() as int) =~= values@);
        assert(out@ =~= old(out)@ + permissions_bytes(values@));
    }
}

/// Appends a string map in key order.
fn write_string_map(out: &mut Vec<u8>, values: &StrMap<String>)
    ensures
        final(out)@ == old(out)@ + map_bytes(text_pairs(values.pairs())),
        sorted_pairs(values.pairs()),
{
    let n = values.len();
    write_u32(out, n as u32);
    let ghost start = out@;
    let ghost p = values.pairs();
    let mut i: usize = 0;
    while i < n
        invariant
            n == p.len(),
            p == values.pairs(),
            i <= n,
            out@ == start + map_items(text_pairs(p.take(i as int))),
            start == old(out)@ + count_bytes(p.len()),
        decreases n - i,
    {
        let (key, value) = values.entry(i);
        write_string(out, key.as_str());
        write_string(out, value.as_str());
        proof {
            let t = text_pairs(p.take(i + 1));
            assert(t.drop_last() =~= text_pairs(p.take(i as int)));
            assert(t.last() == (p[i as int].0, p[i as int].1@));
            assert(out@ =~= start + map_items(t));
        }
        i = i + 1;
    }
    proof {
        assert(p.take(n as int) =~= p);
        assert(text_pairs(p).len() == p.len());
        assert(out@ =~= old(out)@ + map_bytes(text_pairs(p)));
    }
}

// ---------------------------------------------------------------------------
// Messages the host sends.

/// The bytes of a module-load message.
pub open spec fn module_load_bytes(
    reference: Seq<char>,
    module: Seq<u8>,
    permissions: Seq<ScriptPermission>,
    metadata: Seq<(Seq<char>, String)>,
) -> Seq<u8> {
    header_bytes(module_load_magic()) + str_field(reference) + str_field(module_id_chars(reference))
        + field_bytes(module) + permissions_bytes(permissions) + map_bytes(text_pairs(metadata))
}

/// The bytes of an invocation request whose payload serialized to `payload`
/// and whose metadata, in key order, is `metadata`.
pub open spec fn request_bytes(
    request_id: Seq<char>,
    script_ref: Seq<char>,
    operation: Seq<char>,
    payload: Seq<u8>,
    context: Seq<u8>,
    permissions: Seq<ScriptPermission>,
    metadata: Seq<(Seq<char>, String)>,
) -> Seq<u8> {
    header_bytes(request_magic()) + str_field(request_id) + str_field(script_ref) + str_field(
        operation,
    ) + field_bytes(payload) + field_bytes(context) + permissions_bytes(permissions) + map_bytes(
        text_pairs(metadata),
    )
}

/// The metadata sent with a request: the caller's, with `payload_format` set
/// to `json` unless the caller set it.
pub open spec fn request_metadata(m: Map<Seq<char>, String>) -> Map<Seq<char>, Seq<char>> {
    let v = m.map_values(|s: String| s@);
    if v.contains_key("payload_format"@) {
        v
    } else {
        v.insert("payload_format"@, "json"@)
    }
}

/// Encodes a module-load message.
pub fn encode_module_load(request: &ScriptModuleLoad) -> (out: Vec<u8>)
    ensures
        out@ == module_load_bytes(
            request.reference@,
            request.module_bytes@,
            request.permissions@,
            request.metadata.pairs(),
        ),
{
    let mut out: Vec<u8> = Vec::new();
    let magic: [u8; 4] = [78u8, 83u8, 77u8, 76u8];
    proof {
        assert(magic@ =~= module_load_magic());
    }
    write_header(&mut out, &magic);
    write_string(&mut out, request.reference);
    let id = default_module_id(request.reference);
    write_string(&mut out, id.as_str());
    write_bytes(&mut out, request.module_bytes);
    write_permissions(&mut out, request.permissions);
    write_string_map(&mut out, &request.metadata);
    proof {
        assert(out@ =~= module_load_bytes(
            request.reference@,
            request.module_bytes@,
            request.permissions@,
            request.metadata.pairs(),
        ));
    }
    out
}

/// Whether `meta` lists, in key order, the metadata a request sends.
pub open spec fn sends_metadata(meta: Seq<(Seq<char>, String)>, m: Map<Seq<char>, String>) -> bool {
    &&& sorted_pairs(meta)
    &&& pairs_map(meta).map_values(|s: String| s@) == request_metadata(m)
}

/// The metadata of a request with `payload_format` defaulted to `json`.
fn request_metadata_map(m: &StrMap<String>) -> (r: StrMap<String>)
    ensures
        r@.map_values(|s: String| s@) == request_metadata(m@),
{
    let mut r = clone_string_map(m);
    if !r.contains_key("payload_format") {
        let k = "payload_format".to_owned();
        let v = "json".to_owned();
        r.insert(k, v);
        proof {
            assert(r@.map_values(|s: String| s@) =~= request_metadata(m@));
        }
    } else {
        proof {
            assert(r@.map_values(|s: String| s@) =~= request_metadata(m@));
        }
    }
    r
}

/// Encodes an invocation request whose JSON payload serialized to `payload`.
pub fn encode_request_with_payload(request: &ScriptInvocation, payload: &[u8]) -> (out: Vec<u8>)
    ensures
        exists|meta: Seq<(Seq<char>, String)>|
            sends_metadata(meta, request.metadata@) && out@ == request_bytes(
                request.request_id@,
                request.script_ref@,
                request.operation@,
                payload@,
                request.context_bytes@,
                request.permissions@,
                meta,
            ),
{
    let metadata = request_metadata_map(&request.metadata);
    let mut out: Vec<u8> = Vec::new();
    let magic: [u8; 4] = [78u8, 83u8, 67u8, 82u8];
    proof {
        assert(magic@ =~= request_magic());
    }
    write_header(&mut out, &magic);
    write_string(&mut out, request.request_id);
    write_string(&mut out, request.script_ref);
    write_string(&mut out, request.operation);
    write_bytes(&mut out, payload);
    write_bytes(&mut out, request.context_bytes);
    write_permissions(&mut out, request.permissions);
    write_string_map(&mut out, &metadata);
    proof {
        assert(metadata@ == pairs_map(metadata.pairs()));
        assert(sends_metadata(metadata.pairs(), request.metadata@));
        assert(out@ =~= request_bytes(
            request.request_id@,
            request.script_ref@,
            request.operation@,
            payload@,
            request.context_bytes@,
            request.permissions@,
            metadata.pairs(),
        ));
    }
    out
}

/// Encodes an invocation request: its JSON payload is serialized with
/// `serde_json`, and the rest is laid out as `encode_request_with_payload` does.
/// Serializing a JSON value does not fail, so the request is always encoded.
pub fn encode_request(request: &ScriptInvocation) -> (r: Result<Vec<u8>, WireError>)
    ensures
        r is Ok,
        r matches Ok(out) ==> exists|meta: Seq<(Seq<char>, String)>|
            sends_metadata(meta, request.metadata@) && out@ == request_bytes(
                request.request_id@,
                request.script_ref@,
                request.operation@,
                json_payload_bytes(*request.payload),
                request.context_bytes@,
                request.permissions@,
                meta,
            ),
{
    match json_to_vec(request.payload) {
        Ok(payload) => Ok(encode_request_with_payload(request, payload.as_slice())),
        Err(error) => Err(WireError::PayloadEncoding(json_error_text(&error))),
    }
}

/// A copy of a string map.
pub fn clone_string_map(m: &StrMap<String>) -> (c: StrMap<String>)
    ensures
        c@ == m@,
{
    let mut c: StrMap<String> = StrMap::new();
    let n = m.len();
    let mut i: usize = 0;
    while i < n
        invariant
            n == m.pairs().len(),
            sorted_pairs(m.pairs()),
            i <= n,
            c@ == pairs_map(m.pairs().take(i as int)),
        decreases n - i,
    {
        let (k, v) = m.entry(i);
        let k2 = k.clone();
        let v2 = v.clone();
        c.insert(k2, v2);
        proof {
            lemma_pairs_map_push(m.pairs(), i as int);
        }
        i = i + 1;
    }
    proof {
        assert(m.pairs().take(n as int) =~= m.pairs());
    }
    c
}

/// Extending sorted entries by the next one inserts it into their map.
proof fn lemma_pairs_map_push(p: Seq<(Seq<char>, String)>, i: int)
    requires
        sorted_pairs(p),
        0 <= i < p.len(),
    ensures
        pairs_map(p.take(i + 1)) == pairs_map(p.take(i)).insert(p[i].0, p[i].1),
{
    let a = p.take(i);
    let b = p.take(i + 1);
    assert(sorted_pairs(a));
    assert(sorted_pairs(b));
    crate::strmap::lemma_pairs_map(a);
    crate::strmap::lemma_pairs_map(b);
    assert forall|k: Seq<char>| #[trigger] pairs_map(b).contains_key(k) <==> pairs_map(a).insert(p[i].0, p[i].1).contains_key(k) by {
        if crate::strmap::pairs_have_key(b, k) {
            let j = choose|j: int| 0 <= j < b.len() && #[trigger] b[j].0 == k;
            if j < i {
                assert(a[j].0 == k);
            }
        }
        if crate::strmap::pairs_have_key(a, k) {
            let j = choose|j: int| 0 <= j < a.len() && #[trigger] a[j].0 == k;
            assert(b[j].0 == k);
        }
        if k == p[i].0 {
            assert(b[i].0 == k);
        }
    }
    assert forall|k: Seq<char>| #[trigger] pairs_map(b).contains_key(k) implies pairs_map(b)[k] == pairs_map(a).insert(p[i].0, p[i].1)[k] by {
        let j = choose|j: int| 0 <= j < b.len() && #[trigger] b[j].0 == k;
        if j < i {
            assert(a[j].0 == k);
            assert(crate::text::str_lt(b[j].0, b[i].0));
            if b[j].0 == b[i].0 {
                crate::text::lemma_str_lt_irreflexive(b[i].0);
            }
        }
    }
    assert(pairs_map(b) =~= pairs_map(a).insert(p[i].0, p[i].1));
}

// ---------------------------------------------------------------------------
// Reading messages.

/// What a response holds, as mathematical values.
pub struct ResponseModel {
    pub request_id: Seq<char>,
    pub status: ScriptResponseStatus,
    pub payload: Seq<u8>,
    pub trace_id: Seq<char>,
    pub metadata: Map<Seq<char>, Seq<char>>,
}

impl ScriptResponse {
    pub open spec fn model(&self) -> ResponseModel {
        ResponseModel {
            request_id: self.request_id@,
            status: self.status,
            payload: self.payload_bytes@,
            trace_id: self.trace_id@,
            metadata: self.metadata@.map_values(|s: String| s@),
        }
    }
}

/// Reading `n` bytes at `pos`: the bytes and the position after them.
pub open spec fn sp_exact(b: Seq<u8>, pos: int, n: int) -> Result<(Seq<u8>, int), WireError> {
    if pos + n > usize::MAX {
        Err(WireError::Overflow)
    } else if pos + n > b.len() {
        Err(WireError::Truncated)
    } else {
        Ok((b.subrange(pos, pos + n), pos + n))
    }
}

pub open spec fn sp_u8(b: Seq<u8>, pos: int) -> Result<(u8, int), WireError> {
    match sp_exact(b, pos, 1) {
        Ok((s, p)) => Ok((s[0], p)),
        Err(e) => Err(e),
    }
}

pub open spec fn sp_u32(b: Seq<u8>, pos: int) -> Result<(u32, int), WireError> {
    match sp_exact(b, pos, 4) {
        Ok((s, p)) => Ok((spec_u32_from_le_bytes(s), p)),
        Err(e) => Err(e),
    }
}

/// Reading a length-prefixed byte string at `pos`.
pub open spec fn sp_bytes(b: Seq<u8>, pos: int) -> Result<(Seq<u8>, int), WireError> {
    match sp_u32(b, pos) {
        Ok((n, p)) => sp_exact(b, p, n as int),
        Err(e) => Err(e),
    }
}

/// Reading a length-prefixed UTF-8 string at `pos`.
pub open spec fn sp_string(b: Seq<u8>, pos: int) -> Result<(Seq<char>, int), WireError> {
    match sp_bytes(b, pos) {
        Ok((s, p)) => if vstd::utf8::valid_utf8(s) {
            Ok((vstd::utf8::decode_utf8(s), p))
        } else {
            Err(WireError::InvalidUtf8)
        },
        Err(e) => Err(e),
    }
}

/// Reading `n` key/value string pairs at `pos`.
pub open spec fn sp_pairs(b: Seq<u8>, pos: int, n: nat) -> Result<(Seq<(Seq<char>, Seq<char>)>, int), WireError>
    decreases n,
{
    if n == 0 {
        Ok((Seq::empty(), pos))
    } else {
        match sp_pairs(b, pos, (n - 1) as nat) {
            Ok((s, p)) => match sp_string(b, p) {
                Ok((k, p2)) => match sp_string(b, p2) {
                    Ok((v, p3)) => Ok((s.push((k, v)), p3)),
                    Err(e) => Err(e),
                },
                Err(e) => Err(e),
            },
            Err(e) => Err(e),
        }
    }
}

/// The map that inserting the pairs in order gives: a later pair of a key
/// replaces an earlier one.
pub open spec fn pairs_fold(s: Seq<(Seq<char>, Seq<char>)>) -> Map<Seq<char>, Seq<char>>
    decreases s.len(),
{
    if s.len() == 0 {
        Map::empty()
    } else {
        pairs_fold(s.drop_last()).insert(s.last().0, s.last().1)
    }
}

/// Reading a string map at `pos`.
pub open spec fn sp_map(b: Seq<u8>, pos: int) -> Result<(Map<Seq<char>, Seq<char>>, int), WireError> {
    match sp_u32(b, pos) {
        Ok((n, p)) => match sp_pairs(b, p, n as nat) {
            Ok((s, p2)) => Ok((pairs_fold(s), p2)),
            Err(e) => Err(e),
        },
        Err(e) => Err(e),
    }
}

/// Skipping one diagnostic: a severity byte, three strings and a byte string.
pub open spec fn sp_diagnostic(b: Seq<u8>, pos: int) -> Result<int, WireError> {
    match sp_u8(b, pos) {
        Ok((_, p1)) => match sp_string(b, p1) {
            Ok((_, p2)) => match sp_string(b, p2) {
                Ok((_, p3)) => match sp_string(b, p3) {
                    Ok((_, p4)) => match sp_bytes(b, p4) {
                        Ok((_, p5)) => Ok(p5),
                        Err(e) => Err(e),
                    },
                    Err(e) => Err(e),
                },
                Err(e) => Err(e),
            },
            Err(e) => Err(e),
        },
        Err(e) => Err(e),
    }
}

/// Skipping `n` diagnostics at `pos`.
pub open spec fn sp_diagnostics_n(b: Seq<u8>, pos: int, n: nat) -> Result<int, WireError>
    decreases n,
{
    if n == 0 {
        Ok(pos)
    } else {
        match sp_diagnostics_n(b, pos, (n - 1) as nat) {
            Ok(p) => sp_diagnostic(b, p),
            Err(e) => Err(e),
        }
    }
}

/// Skipping a counted list of diagnostics at `pos`.
pub open spec fn sp_diagnostics(b: Seq<u8>, pos: int) -> Result<int, WireError> {
    match sp_u32(b, pos) {
        Ok((n, p)) => sp_diagnostics_n(b, p, n as nat),
        Err(e) => Err(e),
    }
}

/// Checking the header: the position after it, or why it is refused.
pub open spec fn sp_header(b: Seq<u8>, magic: Seq<u8>) -> Result<int, WireError> {
    if b.len() < 8 || b.subrange(0, 4) != magic {
        Err(WireError::HeaderMismatch)
    } else if spec_u16_from_le_bytes(b.subrange(4, 6)) != WIRE_VERSION {
        Err(WireError::UnsupportedVersion(spec_u16_from_le_bytes(b.subrange(4, 6))))
    } else {
        Ok(8)
    }
}

/// The status that a status byte stands for.
pub open spec fn sp_status(v: u8) -> Result<ScriptResponseStatus, WireError> {
    if v == 0 {
        Ok(ScriptResponseStatus::Success)
    } else if v == 1 {
        Ok(ScriptResponseStatus::Empty)
    } else if v == 2 {
        Ok(ScriptResponseStatus::Rejected)
    } else if v == 3 {
        Ok(ScriptResponseStatus::InvalidRequest)
    } else if v == 4 {
        Ok(ScriptResponseStatus::ProviderError)
    } else {
        Err(WireError::InvalidStatus(v))
    }
}

/// The answer to a module load: accepted, or why not.
pub open spec fn sp_module_load_ok(b: Seq<u8>) -> Result<(), WireError> {
    match sp_header(b, module_load_response_magic()) {
        Ok(p) => match sp_u8(b, p) {
            Ok((v, _)) => if v == 1 {
                Ok(())
            } else if v == 0 {
                Err(WireError::ModuleLoadRejected)
            } else {
                Err(WireError::InvalidModuleLoadBool(v))
            },
            Err(e) => Err(e),
        },
        Err(e) => Err(e),
    }
}

/// A response: header, request id, status, payload, diagnostics (skipped),
/// trace id and metadata, with nothing after.
pub open spec fn sp_response(b: Seq<u8>) -> Result<ResponseModel, WireError> {
    match sp_header(b, response_magic()) {
        Ok(p0) => match sp_string(b, p0) {
            Ok((request_id, p1)) => match sp_u8(b, p1) {
                Ok((sv, p2)) => match sp_status(sv) {
                    Ok(status) => match sp_bytes(b, p2) {
                        Ok((payload, p3)) => match sp_diagnostics(b, p3) {
                            Ok(p4) => match sp_string(b, p4) {
                                Ok((trace_id, p5)) => match sp_map(b, p5) {
                                    Ok((metadata, p6)) => if p6 == b.len() {
                                        Ok(
                                            ResponseModel {
                                                request_id,
                                                status,
                                                payload,
                                                trace_id,
                                                metadata,
                                            },
                                        )
                                    } else {
                                        Err(WireError::TrailingBytes)
                                    },
                                    Err(e) => Err(e),
                                },
                                Err(e) => Err(e),
                            },
                            Err(e) => Err(e),
                        },
                        Err(e) => Err(e),
                    },
                    Err(e) => Err(e),
                },
                Err(e) => Err(e),
            },
            Err(e) => Err(e),
        },
        Err(e) => Err(e),
    }
}

/// `String::from_utf8`: the string whose UTF-8 encoding is `bytes`, or `None`
/// where `bytes` is not UTF-8.
#[verifier::external_body]
fn string_from_utf8(bytes: Vec<u8>) -> (r: Option<String>)
    ensures
        r is Some <==> vstd::utf8::valid_utf8(bytes@),
        r matches Some(s) ==> s@ == vstd::utf8::decode_utf8(bytes@),
{
    String::from_utf8(bytes).ok()
}

/// A cursor over a message.
struct Reader<'a> {
    bytes: &'a [u8],
    offset: usize,
}

impl<'a> Reader<'a> {
    /// Checks the header and places the cursor after it.
    fn new(bytes: &'a [u8], magic: &[u8; 4]) -> (r: Result<Self, WireError>)
        ensures
            match sp_header(bytes@, magic@) {
                Ok(p) => r matches Ok(rd) && rd.bytes@ == bytes@ && rd.offset == p,
                Err(e) => r == Err::<Self, WireError>(e),
            },
    {
        if bytes.len() < 8 || bytes[0] != magic[0] || bytes[1] != magic[1] || bytes[2] != magic[2]
            || bytes[3] != magic[3] {
            proof {
                if bytes@.len() >= 8 && bytes@.subrange(0, 4) == magic@ {
                    assert(bytes@.subrange(0, 4)[0] == bytes@[0]);
                    assert(bytes@.subrange(0, 4)[1] == bytes@[1]);
                    assert(bytes@.subrange(0, 4)[2] == bytes@[2]);
                    assert(bytes@.subrange(0, 4)[3] == bytes@[3]);
                }
            }
            return Err(WireError::HeaderMismatch);
        }
        proof {
            assert(bytes@.subrange(0, 4) =~= magic@);
        }
        let version = u16_from_le_bytes(&bytes[4..6]);
        if version != WIRE_VERSION {
            return Err(WireError::UnsupportedVersion(version));
        }
        Ok(Reader { bytes, offset: 8 })
    }

    /// Fails unless the whole message has been read.
    fn finish(&self) -> (r: Result<(), WireError>)
        ensures
            r == (if self.offset == self.bytes@.len() {
                Ok::<(), WireError>(())
            } else {
                Err(WireError::TrailingBytes)
            }),
    {
        if self.offset == self.bytes.len() {
            Ok(())
        } else {
            Err(WireError::TrailingBytes)
        }
    }

    /// The next `len` bytes.
    fn read_exact(&mut self, len: usize) -> (r: Result<&'a [u8], WireError>)
        requires
            old(self).offset <= old(self).bytes@.len(),
        ensures
            final(self).bytes == old(self).bytes,
            final(self).offset <= final(self).bytes@.len(),
            match sp_exact(old(self).bytes@, old(self).offset as int, len as int) {
                Ok((s, p)) => r matches Ok(v) && v@ == s && final(self).offset == p,
                Err(e) => r == Err::<&'a [u8], WireError>(e),
            },
    {
        let end = match self.offset.checked_add(len) {
            Some(end) => end,
            None => return Err(WireError::Overflow),
        };
        if end > self.bytes.len() {
            return Err(WireError::Truncated);
        }
        let value = &self.bytes[self.offset..end];
        self.offset = end;
        Ok(value)
    }

    fn read_u8(&mut self) -> (r: Result<u8, WireError>)
        requires
            old(self).offset <= old(self).bytes@.len(),
        ensures
            final(self).bytes == old(self).bytes,
            final(self).offset <= final(self).bytes@.len(),
            match sp_u8(old(self).bytes@, old(self).offset as int) {
                Ok((v, p)) => r == Ok::<u8, WireError>(v) && final(self).offset == p,
                Err(e) => r == Err::<u8, WireError>(e),
            },
    {
        match self.read_exact(1) {
            Ok(v) => Ok(v[0]),
            Err(e) => Err(e),
        }
    }

    fn read_u32(&mut self) -> (r: Result<u32, WireError>)
        requires
            old(self).offset <= old(self).bytes@.len(),
        ensures
            final(self).bytes == old(self).bytes,
            final(self).offset <= final(self).bytes@.len(),
            match sp_u32(old(self).bytes@, old(self).offset as int) {
                Ok((v, p)) => r == Ok::<u32, WireError>(v) && final(self).offset == p,
                Err(e) => r == Err::<u32, WireError>(e),
            },
    {
        match self.read_exact(4) {
            Ok(v) => Ok(u32_from_le_bytes(v)),
            Err(e) => Err(e),
        }
    }

    fn read_bytes(&mut self) -> (r: Result<Vec<u8>, WireError>)
        requires
            old(self).offset <= old(self).bytes@.len(),
        ensures
            final(self).bytes == old(self).bytes,
            final(self).offset <= final(self).bytes@.len(),
            match sp_bytes(old(self).bytes@, old(self).offset as int) {
                Ok((v, p)) => r matches Ok(x) && x@ == v && final(self).offset == p,
                Err(e) => r == Err::<Vec<u8>, WireError>(e),
            },
    {
        let len = match self.read_u32() {
            Ok(n) => n,
            Err(e) => return Err(e),
        };
        match self.read_exact(len as usize) {
            Ok(v) => Ok(vstd::slice::slice_to_vec(v)),
            Err(e) => Err(e),
        }
    }

    fn read_string(&mut self) -> (r: Result<String, WireError>)
        requires
            old(self).offset <= old(self).bytes@.len(),
        ensures
            final(self).bytes == old(self).bytes,
            final(self).offset <= final(self).bytes@.len(),
            match sp_string(old(self).bytes@, old(self).offset as int) {
                Ok((v, p)) => r matches Ok(x) && x@ == v && final(self).offset == p,
                Err(e) => r == Err::<String, WireError>(e),
            },
    {
        let bytes = match self.read_bytes() {
            Ok(b) => b,
            Err(e) => return Err(e),
        };
        match string_from_utf8(bytes) {
            Some(s) => Ok(s),
            None => Err(WireError::InvalidUtf8),
        }
    }

    fn read_string_map(&mut self) -> (r: Result<StrMap<String>, WireError>)
        requires
            old(self).offset <= old(self).bytes@.len(),
        ensures
            final(self).bytes == old(self).bytes,
            final(self).offset <= final(self).bytes@.len(),
            match sp_map(old(self).bytes@, old(self).offset as int) {
                Ok((m, p)) => r matches Ok(x) && x@.map_values(|s: String| s@) == m && final(self).offset == p,
                Err(e) => r matches Err(x) && x == e,
            },
    {
        let ghost b = self.bytes@;
        let count = match self.read_u32() {
            Ok(n) => n,
            Err(e) => return Err(e),
        };
        let ghost p0 = self.offset as int;
        let mut values: StrMap<String> = StrMap::new();
        let mut i: u32 = 0;
        proof {
            assert(values@.map_values(|s: String| s@) =~= pairs_fold(Seq::empty()));
        }
        while i < count
            invariant
                self.bytes@ == b,
                self.offset <= self.bytes@.len(),
                i <= count,
                b == old(self).bytes@,
                sp_u32(b, old(self).offset as int) == Ok::<(u32, int), WireError>((count, p0)),
                sp_pairs(b, p0, i as nat) matches Ok((s, p)) && p == self.offset
                    && values@.map_values(|x: String| x@) == pairs_fold(s),
            decreases count - i,
        {
            let ghost prev = sp_pairs(b, p0, i as nat);
            let key = match self.read_string() {
                Ok(k) => k,
                Err(e) => {
                    proof {
                        assert(sp_pairs(b, p0, (i + 1) as nat) == Err::<(Seq<(Seq<char>, Seq<char>)>, int), WireError>(e));
                        lemma_pairs_err_stays(b, p0, (i + 1) as nat, count as nat);
                    }
                    return Err(e);
                },
            };
            let value = match self.read_string() {
                Ok(v) => v,
                Err(e) => {
                    proof {
                        assert(sp_pairs(b, p0, (i + 1) as nat) == Err::<(Seq<(Seq<char>, Seq<char>)>, int), WireError>(e));
                        lemma_pairs_err_stays(b, p0, (i + 1) as nat, count as nat);
                    }
                    return Err(e);
                },
            };
            let ghost kv = (key@, value@);
            let ghost before = values@;
            values.insert(key, value);
            proof {
                assert(values@.map_values(|x: String| x@) =~= before.map_values(|x: String| x@).insert(kv.0, kv.1));
                let s = prev->Ok_0.0;
                assert(s.push(kv).drop_last() =~= s);
            }
            i = i + 1;
        }
        Ok(values)
    }

    fn skip_diagnostics(&mut self) -> (r: Result<(), WireError>)
        requires
            old(self).offset <= old(self).bytes@.len(),
        ensures
            final(self).bytes == old(self).bytes,
            final(self).offset <= final(self).bytes@.len(),
            match sp_diagnostics(old(self).bytes@, old(self).offset as int) {
                Ok(p) => r is Ok && final(self).offset == p,
                Err(e) => r == Err::<(), WireError>(e),
            },
    {
        let ghost b = self.bytes@;
        let count = match self.read_u32() {
            Ok(n) => n,
            Err(e) => return Err(e),
        };
        let ghost p0 = self.offset as int;
        let mut i: u32 = 0;
        while i < count
            invariant
                self.bytes@ == b,
                self.offset <= self.bytes@.len(),
                i <= count,
                b == old(self).bytes@,
                sp_u32(b, old(self).offset as int) == Ok::<(u32, int), WireError>((count, p0)),
                sp_diagnostics_n(b, p0, i as nat) == Ok::<int, WireError>(self.offset as int),
            decreases count - i,
        {
            let r1 = self.read_u8();
            if let Err(e) = r1 {
                proof { lemma_diags_err_stays(b, p0, (i + 1) as nat, count as nat); }
                return Err(e);
            }
            let r2 = self.read_string();
            if let Err(e) = r2 {
                proof { lemma_diags_err_stays(b, p0, (i + 1) as nat, count as nat); }
                return Err(e);
            }
            let r3 = self.read_string();
            if let Err(e) = r3 {
                proof { lemma_diags_err_stays(b, p0, (i + 1) as nat, count as nat); }
                return Err(e);
            }
            let r4 = self.read_string();
            if let Err(e) = r4 {
                proof { lemma_diags_err_stays(b, p0, (i + 1) as nat, count as nat); }
                return Err(e);
            }
            let r5 = self.read_bytes();
            if let Err(e) = r5 {
                proof { lemma_diags_err_stays(b, p0, (i + 1) as nat, count as nat); }
                return Err(e);
            }
            i = i + 1;
        }
        Ok(())
    }
}

/// Once reading the first `i` pairs fails, reading more fails the same way.
proof fn lemma_pairs_err_stays(b: Seq<u8>, pos: int, i: nat, n: nat)
    requires
        i <= n,
        sp_pairs(b, pos, i) is Err,
    ensures
        sp_pairs(b, pos, n) == sp_pairs(b, pos, i),
    decreases n - i,
{
    if i < n {
        lemma_pairs_err_stays(b, pos, i, (n - 1) as nat);
    }
}

/// Once skipping the first `i` diagnostics fails, skipping more fails the same way.
proof fn lemma_diags_err_stays(b: Seq<u8>, pos: int, i: nat, n: nat)
    requires
        i <= n,
        sp_diagnostics_n(b, pos, i) is Err,
    ensures
        sp_diagnostics_n(b, pos, n) == sp_diagnostics_n(b, pos, i),
    decreases n - i,
{
    if i < n {
        lemma_diags_err_stays(b, pos, i, (n - 1) as nat);
    }
}

/// Decodes the provider's answer to a module load.
pub fn decode_module_load_ok(bytes: &[u8]) -> (r: Result<(), WireError>)
    ensures
        r == sp_module_load_ok(bytes@),
{
    let magic: [u8; 4] = [78u8, 83u8, 76u8, 82u8];
    proof {
        assert(magic@ =~= module_load_response_magic());
    }
    let mut reader = match Reader::new(bytes, &magic) {
        Ok(rd) => rd,
        Err(e) => return Err(e),
    };
    let ok = match reader.read_u8() {
        Ok(v) => v,
        Err(e) => return Err(e),
    };
    if ok == 1 {
        Ok(())
    } else if ok == 0 {
        Err(WireError::ModuleLoadRejected)
    } else {
        Err(WireError::InvalidModuleLoadBool(ok))
    }
}

fn decode_status(v: u8) -> (r: Result<ScriptResponseStatus, WireError>)
    ensures
        r == sp_status(v),
{
    match v {
        0 => Ok(ScriptResponseStatus::Success),
        1 => Ok(ScriptResponseStatus::Empty),
        2 => Ok(ScriptResponseStatus::Rejected),
        3 => Ok(ScriptResponseStatus::InvalidRequest),
        4 => Ok(ScriptResponseStatus::ProviderError),
        other => Err(WireError::InvalidStatus(other)),
    }
}

/// Decodes a response of the scripting provider.
pub fn decode_response(bytes: &[u8]) -> (r: Result<ScriptResponse, WireError>)
    ensures
        match sp_response(bytes@) {
            Ok(m) => r matches Ok(resp) && resp.model() == m,
            Err(e) => r matches Err(x) && x == e,
        },
{
    let magic: [u8; 4] = [78u8, 83u8, 82u8, 83u8];
    proof {
        assert(magic@ =~= response_magic());
    }
    let mut reader = match Reader::new(bytes, &magic) {
        Ok(rd) => rd,
        Err(e) => return Err(e),
    };
    let request_id = match reader.read_string() {
        Ok(v) => v,
        Err(e) => return Err(e),
    };
    let sv = match reader.read_u8() {
        Ok(v) => v,
        Err(e) => return Err(e),
    };
    let status = match decode_status(sv) {
        Ok(s) => s,
        Err(e) => return Err(e),
    };
    let payload_bytes = match reader.read_bytes() {
        Ok(v) => v,
        Err(e) => return Err(e),
    };
    match reader.skip_diagnostics() {
        Ok(()) => {},
        Err(e) => return Err(e),
    }
    let trace_id = match reader.read_string() {
        Ok(v) => v,
        Err(e) => return Err(e),
    };
    let metadata = match reader.read_string_map() {
        Ok(m) => m,
        Err(e) => return Err(e),
    };
    match reader.finish() {
        Ok(()) => {},
        Err(e) => return Err(e),
    }
    Ok(ScriptResponse { request_id, status, payload_bytes, trace_id, metadata })
}

} // verus!
