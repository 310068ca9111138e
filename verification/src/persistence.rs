//! The checks of a world save file: its size limit, its envelope (schema,
//! project and the BLAKE3 checksum of its payload), and the presentation
//! bindings it carries. Reading and writing the file, and parsing its JSON,
//! are the runtime's.

use vstd::prelude::*;
use crate::presentation::{known_representation, validate_presentation_names, PresentationError};
use crate::reality::{hex_digit, hex_digit_char};
use crate::text::{compare_str, trim_chars, utf8_bytes, KeyOrder};

verus! {

/// The BLAKE3 hash of `input`: 32 bytes.
pub uninterp spec fn blake3_digest(input: Seq<u8>) -> Seq<u8>;

/// `blake3::hash` of `input`, as its 32 bytes (`Hash::as_bytes`). The hash
/// is a function of the input alone; nothing more is stated of it.
#[verifier::external_body]
fn blake3_hash(input: &[u8]) -> (r: [u8; 32])
    ensures
        r@ == blake3_digest(input@),
{
    *blake3::hash(input).as_bytes()
}

/// `bytes` in lowercase hexadecimal, two digits per byte, high digit first,
/// as `blake3::Hash::to_hex` writes a hash.
pub open spec fn hex_of_bytes(bytes: Seq<u8>) -> Seq<char>
    decreases bytes.len(),
{
    if bytes.len() == 0 {
        Seq::empty()
    } else {
        hex_of_bytes(bytes.drop_last()).push(hex_digit((bytes.last() / 16) as nat)).push(
            hex_digit((bytes.last() % 16) as nat),
        )
    }
}

/// The checksum a save file records for its payload: the BLAKE3 hash of the
/// payload's UTF-8 bytes in lowercase hexadecimal.
pub fn save_checksum(payload: &str) -> (r: String)
    ensures
        r@ == hex_of_bytes(blake3_digest(utf8_bytes(payload@))),
{
    let digest = blake3_hash(payload.as_bytes());
    let mut chars: Vec<char> = Vec::new();
    let mut i: usize = 0;
    while i < 32
        invariant
            i <= 32,
            digest@.len() == 32,
            chars@ == hex_of_bytes(digest@.take(i as int)),
        decreases 32 - i,
    {
        let b = digest[i];
        chars.push(hex_digit_char((b / 16) as u64));
        chars.push(hex_digit_char((b % 16) as u64));
        proof {
            assert(digest@.take(i + 1).drop_last() =~= digest@.take(i as int));
            assert(digest@.take(i + 1).last() == b);
        }
        i = i + 1;
    }
    proof {
        assert(digest@.take(32) =~= digest@);
    }
    crate::text::string_from_chars(&chars)
}

/// The largest save file, in bytes.
pub const MAX_SAVE_BYTES: u64 = 134217728;

/// Whether a save file of `len` bytes is within the limit.
pub fn save_size_ok(len: usize) -> (b: bool)
    ensures
        b == (len <= MAX_SAVE_BYTES),
{
    len as u64 <= MAX_SAVE_BYTES
}

/// The schema a save file declares.
pub open spec fn save_schema() -> Seq<char> {
    "newviso.world.save.v1"@
}

/// Why a save file's envelope was refused.
#[derive(Clone, Copy, Debug, PartialEq, Eq, Structural)]
pub enum SaveEnvelopeError {
    /// Another schema, or another project's save.
    Identity,
    /// The payload's checksum is not the one recorded.
    Checksum,
}

/// Checks a save file's envelope: the schema is `newviso.world.save.v1` and
/// the project is `expected_project`, then the recorded checksum is the
/// payload's.
pub fn check_save_envelope(schema: &str, project_id: &str, expected_project: &str, checksum: &str, payload: &str) -> (r:
    Result<(), SaveEnvelopeError>)
    ensures
        schema@ != save_schema() || project_id@ != expected_project@ ==> r == Err::<(), SaveEnvelopeError>(
            SaveEnvelopeError::Identity,
        ),
        schema@ == save_schema() && project_id@ == expected_project@ ==> (r == if checksum@ == hex_of_bytes(
            blake3_digest(utf8_bytes(payload@)),
        ) {
            Ok::<(), SaveEnvelopeError>(())
        } else {
            Err::<(), SaveEnvelopeError>(SaveEnvelopeError::Checksum)
        }),
{
    if compare_str(schema, "newviso.world.save.v1") != KeyOrder::Equal || compare_str(project_id, expected_project)
        != KeyOrder::Equal {
        return Err(SaveEnvelopeError::Identity);
    }
    let actual = save_checksum(payload);
    if compare_str(actual.as_str(), checksum) != KeyOrder::Equal {
        return Err(SaveEnvelopeError::Checksum);
    }
    Ok(())
}

/// A presentation binding carried by a save file: its actor, scene key and
/// representations, and whether its geometry and distances are in range.
#[derive(Clone, Debug)]
pub struct SavedPresentation {
    pub actor_id: String,
    pub scene_key: String,
    pub representations: Vec<String>,
    pub geometry_ok: bool,
}

/// Why the presentations of a save file were refused.
#[derive(Clone, Copy, Debug, PartialEq, Eq, Structural)]
pub enum SavedPresentationError {
    /// A binding's names are refused.
    Invalid(PresentationError),
    /// A binding's geometry or distances are out of range.
    Geometry,
    /// Two bindings present through the same scene key.
    DuplicateSceneKey,
}

/// What refuses the binding at `k`, after those before it: its names, its
/// geometry, or a scene key already taken by an earlier binding.
pub open spec fn saved_presentation_error(ps: Seq<SavedPresentation>, k: int) -> Option<SavedPresentationError> {
    let p = ps[k];
    let blank = utf8_bytes(trim_chars(p.actor_id@)).len() == 0 || utf8_bytes(trim_chars(p.scene_key@)).len() == 0;
    let bad = p.representations@.len() == 0 || exists|i: int|
        0 <= i < p.representations@.len() && !known_representation(#[trigger] p.representations@[i]@);
    if blank {
        Some(SavedPresentationError::Invalid(PresentationError::EmptyName))
    } else if bad {
        Some(SavedPresentationError::Invalid(PresentationError::Representations))
    } else if !p.geometry_ok {
        Some(SavedPresentationError::Geometry)
    } else if exists|j: int| 0 <= j < k && #[trigger] ps[j].scene_key@ == p.scene_key@ {
        Some(SavedPresentationError::DuplicateSceneKey)
    } else {
        None
    }
}

/// The first refusal among the first `n` bindings.
pub open spec fn first_saved_presentation_error(ps: Seq<SavedPresentation>, n: nat) -> Option<SavedPresentationError>
    decreases n,
{
    if n == 0 {
        None
    } else {
        match first_saved_presentation_error(ps, (n - 1) as nat) {
            Some(e) => Some(e),
            None => saved_presentation_error(ps, n - 1),
        }
    }
}

proof fn lemma_saved_error_stays(ps: Seq<SavedPresentation>, k: nat, n: nat)
    requires
        k <= n,
        first_saved_presentation_error(ps, k) is Some,
    ensures
        first_saved_presentation_error(ps, n) == first_saved_presentation_error(ps, k),
    decreases n,
{
    if n > k {
        lemma_saved_error_stays(ps, k, (n - 1) as nat);
    }
}

/// Checks the presentation bindings of a save file, in order: each must be
/// a valid binding, and no two may share a scene key.
pub fn check_saved_presentations(entries: &Vec<SavedPresentation>) -> (r: Result<(), SavedPresentationError>)
    ensures
        match first_saved_presentation_error(entries@, entries@.len()) {
            Some(e) => r == Err::<(), SavedPresentationError>(e),
            None => r is Ok,
        },
{
    let mut k: usize = 0;
    while k < entries.len()
        invariant
            k <= entries@.len(),
            first_saved_presentation_error(entries@, k as nat) is None,
        decreases entries@.len() - k,
    {
        let p = &entries[k];
        match validate_presentation_names(p.actor_id.as_str(), p.scene_key.as_str(), p.representations.as_slice()) {
            Err(e) => {
                proof {
                    assert(first_saved_presentation_error(entries@, (k + 1) as nat) == Some(
                        SavedPresentationError::Invalid(e),
                    ));
                    lemma_saved_error_stays(entries@, (k + 1) as nat, entries@.len());
                }
                return Err(SavedPresentationError::Invalid(e));
            },
            Ok(()) => {},
        }
        if !p.geometry_ok {
            proof {
                lemma_saved_error_stays(entries@, (k + 1) as nat, entries@.len());
            }
            return Err(SavedPresentationError::Geometry);
        }
        let mut j: usize = 0;
        while j < k
            invariant
                j <= k,
                k < entries@.len(),
                p == &entries@[k as int],
                forall|i: int| 0 <= i < j ==> #[trigger] entries@[i].scene_key@ != p.scene_key@,
                entries@[k as int].geometry_ok,
                !(utf8_bytes(trim_chars(entries@[k as int].actor_id@)).len() == 0 || utf8_bytes(
                    trim_chars(entries@[k as int].scene_key@),
                ).len() == 0),
                !(entries@[k as int].representations@.len() == 0 || exists|i: int|
                    0 <= i < entries@[k as int].representations@.len() && !known_representation(
                        #[trigger] entries@[k as int].representations@[i]@,
                    )),
                first_saved_presentation_error(entries@, k as nat) is None,
            decreases k - j,
        {
            if compare_str(entries[j].scene_key.as_str(), p.scene_key.as_str()) == KeyOrder::Equal {
                proof {
                    assert(entries@[j as int].scene_key@ == entries@[k as int].scene_key@);
                    assert(exists|i: int| 0 <= i < k && #[trigger] entries@[i].scene_key@ == entries@[k as int].scene_key@);
                    assert(saved_presentation_error(entries@, k as int) == Some(SavedPresentationError::DuplicateSceneKey));
                    assert(first_saved_presentation_error(entries@, (k + 1) as nat) == Some(
                        SavedPresentationError::DuplicateSceneKey,
                    ));
                    lemma_saved_error_stays(entries@, (k + 1) as nat, entries@.len());
                }
                return Err(SavedPresentationError::DuplicateSceneKey);
            }
            j = j + 1;
        }
        k = k + 1;
    }
    Ok(())
}

} // verus!
