//! Pet id validation, path joining under a root, and bounds correction of
//! frame sequences.

use std::path::{Path, PathBuf};
use vstd::prelude::*;

use crate::error::{AppError, ErrorCode, invalid_pet_id_prefix, zip_slip_prefix};
use crate::paths::{joined_path, path_join, path_starts_with, plain_name};
use crate::pet::model::FrameSeqJson;
use crate::text::chars_of;

verus! {

/// A character allowed in a pet id: ASCII letter or digit, `_` or `-`.
pub open spec fn is_id_char(c: char) -> bool {
    ('a' <= c && c <= 'z') || ('A' <= c && c <= 'Z') || ('0' <= c && c <= '9') || c == '_' || c
        == '-'
}

/// A pet id is non-empty and made of allowed characters only.
pub open spec fn valid_pet_id(id: Seq<char>) -> bool {
    id.len() > 0 && forall|i: int| 0 <= i < id.len() ==> is_id_char(#[trigger] id[i])
}

/// Whether `id` may name a pet directory: non-empty ASCII letters, digits,
/// `_` and `-` only. Every filesystem operation on a pet goes through this.
pub fn is_valid_pet_id(id: &str) -> (b: bool)
    ensures
        b == valid_pet_id(id@),
{
    let cs = chars_of(id);
    if cs.len() == 0 {
        return false;
    }
    let mut i: usize = 0;
    while i < cs.len()
        invariant
            cs@ == id@,
            i <= cs.len(),
            forall|k: int| 0 <= k < i ==> is_id_char(#[trigger] cs@[k]),
        decreases cs.len() - i,
    {
        let c = cs[i];
        if !(('a' <= c && c <= 'z') || ('A' <= c && c <= 'Z') || ('0' <= c && c <= '9') || c
            == '_' || c == '-') {
            return false;
        }
        i = i + 1;
    }
    true
}

/// `root` joined with `id`, after checking the id (and that the result stays
/// under `root`).
///
/// An invalid id is refused with `InvalidPetId`; a valid id is one plain
/// path component, so the joined path always stays under `root` and is
/// returned (the `ZipSlip` refusal is a second line of defence that a valid
/// id never reaches).
pub fn safe_join(root: &Path, id: &str) -> (r: Result<PathBuf, AppError>)
    ensures
        !valid_pet_id(id@) <==> (r is Err && r->Err_0.code == ErrorCode::InvalidPetId),
        !valid_pet_id(id@) ==> r->Err_0.message@ == invalid_pet_id_prefix() + id@,
        valid_pet_id(id@) ==> r == Ok::<PathBuf, AppError>(joined_path(root, id@)),
{
    if !is_valid_pet_id(id) {
        return Err(AppError::invalid_pet_id(id));
    }
    let joined = path_join(root, id);
    assert(plain_name(id@));
    if !path_starts_with(&joined, root) {
        return Err(AppError::zip_slip(&joined));
    }
    Ok(joined)
}

/// Exactly the non-empty ids made only of ASCII letters (`a`–`z`, `A`–`Z`),
/// digits (`0`–`9`), `_` and `-` are valid: any arrangement of them, double
/// dashes included (gallery slugs such as `name--author` are ids).
pub proof fn lemma_valid_pet_id_alphabet(id: Seq<char>)
    ensures
        valid_pet_id(id) <==> (id.len() > 0 && forall|i: int|
            0 <= i < id.len() ==> {
                let c = #[trigger] id[i];
                ('a' <= c <= 'z') || ('A' <= c <= 'Z') || ('0' <= c <= '9') || c == '_' || c
                    == '-'
            }),
{
}

/// The correction of a frame sequence to a sheet of `rows` × `cols` frames:
/// a row past the sheet drops the sequence; a zero count becomes a full row;
/// a count past the row is cut to the row; a zero fps becomes 8. A sequence
/// that would be left with no frame (a sheet without columns) is dropped.
pub open spec fn clamped(s: FrameSeqJson, rows: u32, cols: u32) -> Option<FrameSeqJson> {
    if s.row >= rows || cols == 0 {
        None
    } else {
        Some(
            FrameSeqJson {
                row: s.row,
                count: if s.count == 0 {
                    cols
                } else if s.count < cols {
                    s.count
                } else {
                    cols
                },
                fps: if s.fps == 0 {
                    8
                } else {
                    s.fps
                },
            },
        )
    }
}

/// A sequence fits a sheet of `rows` × `cols` frames and plays.
pub open spec fn fits(s: FrameSeqJson, rows: u32, cols: u32) -> bool {
    s.row < rows && 1 <= s.count <= cols && s.fps >= 1
}

/// Corrects a frame sequence against the sheet's real rows and columns.
pub fn clamp_seq(s: FrameSeqJson, rows: u32, cols: u32) -> (r: Option<FrameSeqJson>)
    ensures
        r == clamped(s, rows, cols),
{
    if s.row >= rows || cols == 0 {
        return None;
    }
    let count = if s.count == 0 {
        cols
    } else if s.count < cols {
        s.count
    } else {
        cols
    };
    let fps = if s.fps == 0 {
        8
    } else {
        s.fps
    };
    Some(FrameSeqJson { row: s.row, count, fps })
}

/// A corrected sequence always fits the sheet.
pub proof fn lemma_clamped_fits(s: FrameSeqJson, rows: u32, cols: u32)
    ensures
        clamped(s, rows, cols) matches Some(c) ==> fits(c, rows, cols),
{
}

/// Correction is idempotent: a corrected sequence is left as it is.
pub proof fn lemma_clamped_idempotent(s: FrameSeqJson, rows: u32, cols: u32)
    ensures
        clamped(s, rows, cols) matches Some(c) ==> clamped(c, rows, cols) == Some(c),
{
}

/// A sequence that already fits is left unchanged.
pub proof fn lemma_clamped_keeps_fitting(s: FrameSeqJson, rows: u32, cols: u32)
    requires
        fits(s, rows, cols),
    ensures
        clamped(s, rows, cols) == Some(s),
{
}

} // verus!
