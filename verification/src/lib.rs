//! Checks that each sectioning command in a document source file is followed
//! by a cross-reference label whose identifier matches the canonical slug of
//! the section's title.
//!
//! The crate is split into a lexical scanner that recognizes sectioning
//! constructs ([`scan`]), a canonicalizer that turns a raw title into a slug
//! ([`canon`]), and a reconciler that compares observed labels against
//! expected slugs ([`reconcile`]).

use vstd::prelude::*;

pub mod canon;
pub mod laws;
pub mod reconcile;
pub mod scan;
pub mod text;

verus! {

/// Number of newline bytes in `t` strictly before position `offset`.
pub open spec fn newline_count(t: Seq<u8>, offset: int) -> int
    decreases offset,
{
    if offset <= 0 {
        0
    } else {
        newline_count(t, offset - 1) + if t[offset - 1] == 10 {
            1int
        } else {
            0int
        }
    }
}

/// 1-based line number of byte position `offset` in `t`: one more than the
/// number of newlines strictly before it.
pub open spec fn line_number_at(t: Seq<u8>, offset: int) -> int {
    newline_count(t, offset) + 1
}

/// Maps a byte offset into a document to its 1-based line number by counting
/// the newline bytes strictly before the offset.  An offset equal to the
/// text's length is valid and names the position at the end of the document.
pub fn offset_to_line_number(text: &[u8], offset: usize) -> (line: u32)
    requires
        offset <= text@.len(),
        text@.len() < u32::MAX,
    ensures
        line == line_number_at(text@, offset as int),
{
    let mut line_number: u32 = 1;
    let mut idx: usize = 0;
    while idx < offset
        invariant
            idx <= offset <= text@.len() < u32::MAX,
            line_number == newline_count(text@, idx as int) + 1,
            line_number as int <= idx as int + 1,
        decreases offset - idx,
    {
        if text[idx] == 10 {
            line_number = line_number + 1;
        }
        idx = idx + 1;
    }
    line_number
}

} // verus!
