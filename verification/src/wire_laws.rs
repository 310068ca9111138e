//! What the codec promises across its functions: the reader gives back, field
//! by field, what the writer laid out, and a response is accepted exactly when
//! nothing follows its last field.

use vstd::prelude::*;
use vstd::bytes::{spec_u16_from_le_bytes, spec_u32_from_le_bytes, lemma_auto_spec_u16_to_from_le_bytes, lemma_auto_spec_u32_to_from_le_bytes};
use crate::text::utf8_bytes;
use crate::wire::{count_bytes, field_bytes, header_bytes, le16, le32, map_bytes, map_items, module_id_chars, module_load_bytes, module_load_magic, pairs_fold, permissions_bytes, response_magic, sp_bytes, sp_diagnostic, sp_diagnostics, sp_diagnostics_n, sp_exact, sp_header, sp_map, sp_pairs, sp_response, sp_status, sp_string, sp_u32, sp_u8, str_field, text_pairs, ResponseModel, ScriptModuleLoad, ScriptResponseStatus, WireError, WIRE_VERSION};

verus! {

broadcast use vstd::utf8::encode_utf8_decode_utf8, vstd::utf8::encode_utf8_valid_utf8;

/// One diagnostic of a response: a severity, three texts and a byte string.
pub struct DiagnosticModel {
    pub severity: u8,
    pub code: Seq<char>,
    pub message: Seq<char>,
    pub source: Seq<char>,
    pub data: Seq<u8>,
}

pub open spec fn diagnostic_bytes(d: DiagnosticModel) -> Seq<u8> {
    seq![d.severity] + str_field(d.code) + str_field(d.message) + str_field(d.source) + field_bytes(d.data)
}

pub open spec fn diagnostic_items(ds: Seq<DiagnosticModel>) -> Seq<u8>
    decreases ds.len(),
{
    if ds.len() == 0 {
        Seq::empty()
    } else {
        diagnostic_items(ds.drop_last()) + diagnostic_bytes(ds.last())
    }
}

/// The byte that stands for a status.
pub open spec fn status_byte(s: ScriptResponseStatus) -> u8 {
    match s {
        ScriptResponseStatus::Success => 0,
        ScriptResponseStatus::Empty => 1,
        ScriptResponseStatus::Rejected => 2,
        ScriptResponseStatus::InvalidRequest => 3,
        ScriptResponseStatus::ProviderError => 4,
    }
}

/// The bytes of a response, as the provider lays them out.
pub open spec fn response_bytes(
    request_id: Seq<char>,
    status: ScriptResponseStatus,
    payload: Seq<u8>,
    diagnostics: Seq<DiagnosticModel>,
    trace_id: Seq<char>,
    metadata: Seq<(Seq<char>, Seq<char>)>,
) -> Seq<u8> {
    header_bytes(response_magic()) + str_field(request_id) + seq![status_byte(status)] + field_bytes(payload)
        + count_bytes(diagnostics.len()) + diagnostic_items(diagnostics) + str_field(trace_id)
        + map_bytes(metadata)
}

/// A length that the `u32` length prefix can carry.
pub open spec fn fits_u32(n: nat) -> bool {
    n < 0x1_0000_0000
}

pub open spec fn text_fits(s: Seq<char>) -> bool {
    fits_u32(utf8_bytes(s).len())
}

pub open spec fn pairs_fit(ps: Seq<(Seq<char>, Seq<char>)>) -> bool {
    &&& fits_u32(ps.len())
    &&& forall|i: int| 0 <= i < ps.len() ==> text_fits(#[trigger] ps[i].0) && text_fits(ps[i].1)
}

pub open spec fn diagnostics_fit(ds: Seq<DiagnosticModel>) -> bool {
    &&& fits_u32(ds.len())
    &&& forall|i: int|
        0 <= i < ds.len() ==> text_fits(#[trigger] ds[i].code) && text_fits(ds[i].message) && text_fits(
            ds[i].source,
        ) && fits_u32(ds[i].data.len())
}

// ---------------------------------------------------------------------------
// Field by field.

proof fn lemma_read_exact(b: Seq<u8>, pos: int, x: Seq<u8>, tail: Seq<u8>)
    requires
        0 <= pos <= b.len(),
        b.len() <= usize::MAX,
        b.skip(pos) == x + tail,
    ensures
        sp_exact(b, pos, x.len() as int) == Ok::<(Seq<u8>, int), WireError>((x, pos + x.len())),
        b.skip(pos + x.len()) == tail,
{
    assert(b.subrange(pos, pos + x.len()) =~= (x + tail).take(x.len() as int));
    assert((x + tail).take(x.len() as int) =~= x);
    assert(b.skip(pos + x.len()) =~= (x + tail).skip(x.len() as int));
    assert((x + tail).skip(x.len() as int) =~= tail);
}

proof fn lemma_read_u8(b: Seq<u8>, pos: int, v: u8, tail: Seq<u8>)
    requires
        0 <= pos <= b.len(),
        b.len() <= usize::MAX,
        b.skip(pos) == seq![v] + tail,
    ensures
        sp_u8(b, pos) == Ok::<(u8, int), WireError>((v, pos + 1)),
        b.skip(pos + 1) == tail,
{
    lemma_read_exact(b, pos, seq![v], tail);
}

proof fn lemma_read_u32(b: Seq<u8>, pos: int, v: u32, tail: Seq<u8>)
    requires
        0 <= pos <= b.len(),
        b.len() <= usize::MAX,
        b.skip(pos) == le32(v) + tail,
    ensures
        sp_u32(b, pos) == Ok::<(u32, int), WireError>((v, pos + 4)),
        b.skip(pos + 4) == tail,
{
    lemma_auto_spec_u32_to_from_le_bytes();
    lemma_read_exact(b, pos, le32(v), tail);
}

proof fn lemma_read_field(b: Seq<u8>, pos: int, x: Seq<u8>, tail: Seq<u8>)
    requires
        0 <= pos <= b.len(),
        b.len() <= usize::MAX,
        fits_u32(x.len()),
        b.skip(pos) == field_bytes(x) + tail,
    ensures
        sp_bytes(b, pos) == Ok::<(Seq<u8>, int), WireError>((x, pos + 4 + x.len())),
        b.skip(pos + 4 + x.len()) == tail,
{
    lemma_auto_spec_u32_to_from_le_bytes();
    assert(field_bytes(x) + tail =~= le32(x.len() as u32) + (x + tail));
    lemma_read_u32(b, pos, x.len() as u32, x + tail);
    assert((x.len() as u32) as int == x.len());
    lemma_read_exact(b, pos + 4, x, tail);
}

proof fn lemma_read_string(b: Seq<u8>, pos: int, s: Seq<char>, tail: Seq<u8>)
    requires
        0 <= pos <= b.len(),
        b.len() <= usize::MAX,
        text_fits(s),
        b.skip(pos) == str_field(s) + tail,
    ensures
        sp_string(b, pos) == Ok::<(Seq<char>, int), WireError>((s, pos + 4 + utf8_bytes(s).len())),
        b.skip(pos + 4 + utf8_bytes(s).len()) == tail,
{
    lemma_read_field(b, pos, utf8_bytes(s), tail);
}

proof fn lemma_read_pairs(b: Seq<u8>, pos: int, ps: Seq<(Seq<char>, Seq<char>)>, tail: Seq<u8>)
    requires
        0 <= pos <= b.len(),
        b.len() <= usize::MAX,
        pairs_fit(ps),
        b.skip(pos) == map_items(ps) + tail,
    ensures
        sp_pairs(b, pos, ps.len()) == Ok::<(Seq<(Seq<char>, Seq<char>)>, int), WireError>((ps, pos + map_items(ps).len())),
        b.skip(pos + map_items(ps).len()) == tail,
    decreases ps.len(),
{
    if ps.len() == 0 {
        assert(map_items(ps) =~= Seq::<u8>::empty());
        assert(ps =~= Seq::<(Seq<char>, Seq<char>)>::empty());
        assert(b.skip(pos) =~= tail);
    } else {
        let dl = ps.drop_last();
        let (k, v) = ps.last();
        let rest = str_field(k) + (str_field(v) + tail);
        assert(map_items(ps) + tail =~= map_items(dl) + rest);
        assert(pairs_fit(dl)) by {
            assert forall|i: int| 0 <= i < dl.len() implies text_fits(#[trigger] dl[i].0) && text_fits(dl[i].1) by {
                assert(dl[i] == ps[i]);
            }
        }
        lemma_read_pairs(b, pos, dl, rest);
        let p: int = pos + map_items(dl).len();
        assert(text_fits(ps[ps.len() - 1].0) && text_fits(ps[ps.len() - 1].1));
        lemma_read_string(b, p, k, str_field(v) + tail);
        let p2: int = p + 4 + utf8_bytes(k).len();
        lemma_read_string(b, p2, v, tail);
        assert(dl.push((k, v)) =~= ps);
    }
}

proof fn lemma_read_map(b: Seq<u8>, pos: int, ps: Seq<(Seq<char>, Seq<char>)>, tail: Seq<u8>)
    requires
        0 <= pos <= b.len(),
        b.len() <= usize::MAX,
        pairs_fit(ps),
        b.skip(pos) == map_bytes(ps) + tail,
    ensures
        sp_map(b, pos) == Ok::<(Map<Seq<char>, Seq<char>>, int), WireError>((pairs_fold(ps), pos + map_bytes(ps).len())),
        b.skip(pos + map_bytes(ps).len()) == tail,
{
    assert(map_bytes(ps) + tail =~= le32(ps.len() as u32) + (map_items(ps) + tail));
    lemma_read_u32(b, pos, ps.len() as u32, map_items(ps) + tail);
    lemma_read_pairs(b, pos + 4, ps, tail);
}

proof fn lemma_read_diagnostic(b: Seq<u8>, pos: int, d: DiagnosticModel, tail: Seq<u8>)
    requires
        0 <= pos <= b.len(),
        b.len() <= usize::MAX,
        text_fits(d.code),
        text_fits(d.message),
        text_fits(d.source),
        fits_u32(d.data.len()),
        b.skip(pos) == diagnostic_bytes(d) + tail,
    ensures
        sp_diagnostic(b, pos) == Ok::<int, WireError>(pos + diagnostic_bytes(d).len()),
        b.skip(pos + diagnostic_bytes(d).len()) == tail,
{
    let t4 = field_bytes(d.data) + tail;
    let t3 = str_field(d.source) + t4;
    let t2 = str_field(d.message) + t3;
    let t1 = str_field(d.code) + t2;
    assert(diagnostic_bytes(d) + tail =~= seq![d.severity] + t1);
    lemma_read_u8(b, pos, d.severity, t1);
    let p1: int = pos + 1;
    lemma_read_string(b, p1, d.code, t2);
    let p2: int = p1 + 4 + utf8_bytes(d.code).len();
    lemma_read_string(b, p2, d.message, t3);
    let p3: int = p2 + 4 + utf8_bytes(d.message).len();
    lemma_read_string(b, p3, d.source, t4);
    let p4: int = p3 + 4 + utf8_bytes(d.source).len();
    lemma_read_field(b, p4, d.data, tail);
}

proof fn lemma_read_diagnostics_n(b: Seq<u8>, pos: int, ds: Seq<DiagnosticModel>, tail: Seq<u8>)
    requires
        0 <= pos <= b.len(),
        b.len() <= usize::MAX,
        diagnostics_fit(ds),
        b.skip(pos) == diagnostic_items(ds) + tail,
    ensures
        sp_diagnostics_n(b, pos, ds.len()) == Ok::<int, WireError>(pos + diagnostic_items(ds).len()),
        b.skip(pos + diagnostic_items(ds).len()) == tail,
    decreases ds.len(),
{
    if ds.len() == 0 {
        assert(diagnostic_items(ds) =~= Seq::<u8>::empty());
        assert(b.skip(pos) =~= tail);
    } else {
        let dl = ds.drop_last();
        let d = ds.last();
        let rest = diagnostic_bytes(d) + tail;
        assert(diagnostic_items(ds) + tail =~= diagnostic_items(dl) + rest);
        assert(diagnostics_fit(dl)) by {
            assert forall|i: int| 0 <= i < dl.len() implies text_fits(#[trigger] dl[i].code) && text_fits(dl[i].message) && text_fits(dl[i].source) && fits_u32(dl[i].data.len()) by {
                assert(dl[i] == ds[i]);
            }
        }
        lemma_read_diagnostics_n(b, pos, dl, rest);
        assert(text_fits(ds[ds.len() - 1].code));
        lemma_read_diagnostic(b, pos + diagnostic_items(dl).len(), d, tail);
    }
}

proof fn lemma_read_header(b: Seq<u8>, magic: Seq<u8>, tail: Seq<u8>)
    requires
        magic.len() == 4,
        b == header_bytes(magic) + tail,
    ensures
        sp_header(b, magic) == Ok::<int, WireError>(8),
        b.skip(8) == tail,
{
    lemma_auto_spec_u16_to_from_le_bytes();
    assert(b.subrange(0, 4) =~= magic);
    assert(b.subrange(4, 6) =~= le16(WIRE_VERSION));
    assert(b.skip(8) =~= tail);
}

// ---------------------------------------------------------------------------
// Whole messages.

/// A response the provider lays out is read back as the request id, status,
/// payload, trace id and metadata it holds (its diagnostics are skipped, its
/// metadata pairs inserted in order); with any bytes after it, it is refused
/// as `TrailingBytes`.
#[verifier::rlimit(60)]
pub proof fn lemma_response_roundtrip(
    request_id: Seq<char>,
    status: ScriptResponseStatus,
    payload: Seq<u8>,
    diagnostics: Seq<DiagnosticModel>,
    trace_id: Seq<char>,
    metadata: Seq<(Seq<char>, Seq<char>)>,
    extra: Seq<u8>,
)
    requires
        text_fits(request_id),
        fits_u32(payload.len()),
        diagnostics_fit(diagnostics),
        text_fits(trace_id),
        pairs_fit(metadata),
        response_bytes(request_id, status, payload, diagnostics, trace_id, metadata).len() + extra.len()
            <= usize::MAX,
    ensures
        sp_response(response_bytes(request_id, status, payload, diagnostics, trace_id, metadata) + extra)
            == if extra.len() == 0 {
            Ok::<ResponseModel, WireError>(
                ResponseModel {
                    request_id,
                    status,
                    payload,
                    trace_id,
                    metadata: pairs_fold(metadata),
                },
            )
        } else {
            Err(WireError::TrailingBytes)
        },
{
    let b = response_bytes(request_id, status, payload, diagnostics, trace_id, metadata) + extra;
    let t6 = map_bytes(metadata) + extra;
    let t5 = str_field(trace_id) + t6;
    let t4 = count_bytes(diagnostics.len()) + diagnostic_items(diagnostics) + t5;
    let t3 = field_bytes(payload) + t4;
    let t2 = seq![status_byte(status)] + t3;
    let t1 = str_field(request_id) + t2;
    assert(b =~= header_bytes(response_magic()) + t1);
    lemma_read_header(b, response_magic(), t1);
    lemma_read_string(b, 8, request_id, t2);
    let p1: int = 8 + 4 + utf8_bytes(request_id).len() as int;
    lemma_read_u8(b, p1, status_byte(status), t3);
    let p2: int = p1 + 1;
    assert(sp_status(status_byte(status)) == Ok::<ScriptResponseStatus, WireError>(status));
    lemma_read_field(b, p2, payload, t4);
    let p3: int = p2 + 4 + payload.len();
    assert(t4 =~= le32(diagnostics.len() as u32) + (diagnostic_items(diagnostics) + t5));
    lemma_read_u32(b, p3, diagnostics.len() as u32, diagnostic_items(diagnostics) + t5);
    lemma_read_diagnostics_n(b, p3 + 4, diagnostics, t5);
    let p4: int = p3 + 4 + diagnostic_items(diagnostics).len();
    assert(sp_diagnostics(b, p3) == Ok::<int, WireError>(p4));
    lemma_read_string(b, p4, trace_id, t6);
    let p5: int = p4 + 4 + utf8_bytes(trace_id).len();
    lemma_read_map(b, p5, metadata, extra);
    let p6: int = p5 + map_bytes(metadata).len();
    assert(b.skip(p6) == extra);
    assert(p6 == b.len() <==> extra.len() == 0) by {
        assert(b.skip(p6).len() == b.len() - p6);
    }
}

/// A module-load message is read back, field by field, as the reference, its
/// module id, the module bytes and the metadata it was made from, and nothing
/// follows the metadata.
pub proof fn lemma_module_load_readback(request: ScriptModuleLoad)
    requires
        text_fits(request.reference@),
        text_fits(module_id_chars(request.reference@)),
        fits_u32(request.module_bytes@.len()),
        pairs_fit(text_pairs(request.metadata.pairs())),
        module_load_bytes(
            request.reference@,
            request.module_bytes@,
            request.permissions@,
            request.metadata.pairs(),
        ).len() <= usize::MAX,
    ensures
        ({
            let b = module_load_bytes(
                request.reference@,
                request.module_bytes@,
                request.permissions@,
                request.metadata.pairs(),
            );
            let p1: int = 8 + 4 + utf8_bytes(request.reference@).len() as int;
            let p2: int = p1 + 4 + utf8_bytes(module_id_chars(request.reference@)).len();
            let p3: int = p2 + 4 + request.module_bytes@.len();
            let p4: int = p3 + permissions_bytes(request.permissions@).len();
            &&& sp_header(b, module_load_magic()) == Ok::<int, WireError>(8)
            &&& sp_string(b, 8) == Ok::<(Seq<char>, int), WireError>((request.reference@, p1))
            &&& sp_string(b, p1) == Ok::<(Seq<char>, int), WireError>((module_id_chars(request.reference@), p2))
            &&& sp_bytes(b, p2) == Ok::<(Seq<u8>, int), WireError>((request.module_bytes@, p3))
            &&& sp_map(b, p4) == Ok::<(Map<Seq<char>, Seq<char>>, int), WireError>((
                pairs_fold(text_pairs(request.metadata.pairs())),
                b.len() as int,
            ))
        }),
{
    let r = request.reference@;
    let id = module_id_chars(r);
    let m = request.module_bytes@;
    let perms = permissions_bytes(request.permissions@);
    let md = text_pairs(request.metadata.pairs());
    let b = module_load_bytes(r, m, request.permissions@, request.metadata.pairs());
    let t4 = map_bytes(md);
    let t3 = perms + t4;
    let t2 = field_bytes(m) + t3;
    let t1 = str_field(id) + t2;
    let t0 = str_field(r) + t1;
    assert(b =~= header_bytes(module_load_magic()) + t0);
    lemma_read_header(b, module_load_magic(), t0);
    lemma_read_string(b, 8, r, t1);
    let p1: int = 8 + 4 + utf8_bytes(r).len() as int;
    lemma_read_string(b, p1, id, t2);
    let p2: int = p1 + 4 + utf8_bytes(id).len();
    lemma_read_field(b, p2, m, t3);
    let p3: int = p2 + 4 + m.len();
    assert(b.skip(p3 + perms.len()) =~= t4 + Seq::<u8>::empty()) by {
        assert(b.skip(p3) == perms + t4);
        assert(b.skip(p3 + perms.len()) =~= (perms + t4).skip(perms.len() as int));
    }
    lemma_read_map(b, p3 + perms.len(), md, Seq::empty());
}

} // verus!
