//! Byte-level text primitives shared by the scanner and the canonicalizer:
//! runs of whitespace, line ends, literal prefixes, and brace-group scanning
//! with a bounded nesting depth.

use vstd::prelude::*;

verus! {

/// Whitespace that does not end a line: space, tab, carriage return,
/// vertical tab, form feed.
pub open spec fn is_blank(b: u8) -> bool {
    b == 32 || b == 9 || b == 13 || b == 11 || b == 12
}

/// First position at or after `i` that is out of range or holds a
/// non-blank byte.
pub open spec fn blanks_end(t: Seq<u8>, i: int) -> int
    decreases t.len() - i,
{
    if 0 <= i < t.len() && is_blank(t[i]) {
        blanks_end(t, i + 1)
    } else {
        i
    }
}

/// First position at or after `i` that is out of range or holds a byte
/// other than a space.
pub open spec fn spaces_end(t: Seq<u8>, i: int) -> int
    decreases t.len() - i,
{
    if 0 <= i < t.len() && t[i] == 32 {
        spaces_end(t, i + 1)
    } else {
        i
    }
}

/// First position at or after `i` holding a newline, or `t.len()` if the
/// rest of the text holds none.
pub open spec fn line_end(t: Seq<u8>, i: int) -> int
    decreases t.len() - i,
{
    if 0 <= i < t.len() && t[i] != 10 {
        line_end(t, i + 1)
    } else {
        i
    }
}

/// A position starts a line when it is the start of the text or follows a
/// newline byte.
pub open spec fn is_line_start(t: Seq<u8>, i: int) -> bool {
    i == 0 || t[i - 1] == 10
}

/// The bytes of `pat` occur in `t` starting at position `i`.
pub open spec fn starts_with_spec(t: Seq<u8>, i: int, pat: Seq<u8>) -> bool {
    0 <= i && i + pat.len() <= t.len() && t.subrange(i, i + pat.len()) == pat
}

/// Scans a brace-delimited group's interior from `i` at nesting depth
/// `depth`, allowing inner groups up to depth `maxd`.  Returns the position
/// of the closing brace that brings the depth below zero, or `None` when a
/// brace would exceed `maxd` or the text ends first.
pub open spec fn brace_close(t: Seq<u8>, i: int, depth: int, maxd: int) -> Option<int>
    decreases t.len() - i,
{
    if !(0 <= i < t.len()) {
        None
    } else if t[i] == 125 {
        if depth == 0 {
            Some(i)
        } else {
            brace_close(t, i + 1, depth - 1, maxd)
        }
    } else if t[i] == 123 {
        if depth >= maxd {
            None
        } else {
            brace_close(t, i + 1, depth + 1, maxd)
        }
    } else {
        brace_close(t, i + 1, depth, maxd)
    }
}

/// The closing brace found by `brace_close` lies between `i` and the end of
/// the text and holds a closing-brace byte.
pub proof fn lemma_brace_close_bounds(t: Seq<u8>, i: int, depth: int, maxd: int)
    ensures
        brace_close(t, i, depth, maxd) matches Some(c) ==> i <= c < t.len() && t[c] == 125,
    decreases t.len() - i,
{
    if 0 <= i < t.len() {
        lemma_brace_close_bounds(t, i + 1, depth - 1, maxd);
        lemma_brace_close_bounds(t, i + 1, depth + 1, maxd);
        lemma_brace_close_bounds(t, i + 1, depth, maxd);
    }
}

pub fn skip_blanks(t: &[u8], i: usize) -> (r: usize)
    requires
        i <= t@.len(),
    ensures
        r == blanks_end(t@, i as int),
        i <= r <= t@.len(),
{
    let mut j: usize = i;
    while j < t.len() && (t[j] == 32 || t[j] == 9 || t[j] == 13 || t[j] == 11 || t[j] == 12)
        invariant
            i <= j <= t@.len(),
            blanks_end(t@, i as int) == blanks_end(t@, j as int),
        decreases t@.len() - j,
    {
        j = j + 1;
    }
    j
}

pub fn skip_spaces(t: &[u8], i: usize) -> (r: usize)
    requires
        i <= t@.len(),
    ensures
        r == spaces_end(t@, i as int),
        i <= r <= t@.len(),
{
    let mut j: usize = i;
    while j < t.len() && t[j] == 32
        invariant
            i <= j <= t@.len(),
            spaces_end(t@, i as int) == spaces_end(t@, j as int),
        decreases t@.len() - j,
    {
        j = j + 1;
    }
    j
}

pub fn find_line_end(t: &[u8], i: usize) -> (r: usize)
    requires
        i <= t@.len(),
    ensures
        r == line_end(t@, i as int),
        i <= r <= t@.len(),
{
    let mut j: usize = i;
    while j < t.len() && t[j] != 10
        invariant
            i <= j <= t@.len(),
            line_end(t@, i as int) == line_end(t@, j as int),
        decreases t@.len() - j,
    {
        j = j + 1;
    }
    j
}

pub fn starts_with_at(t: &[u8], i: usize, pat: &[u8]) -> (r: bool)
    requires
        i <= t@.len(),
    ensures
        r == starts_with_spec(t@, i as int, pat@),
{
    if t.len() - i < pat.len() {
        return false;
    }
    let mut j: usize = 0;
    while j < pat.len()
        invariant
            0 <= j <= pat@.len(),
            i + pat@.len() <= t@.len() <= usize::MAX,
            forall|k: int| 0 <= k < j ==> t@[i + k] == pat@[k],
        decreases pat@.len() - j,
    {
        let idx: usize = i + j;
        if t[idx] != pat[j] {
            assert(t@.subrange(i as int, i + pat@.len())[j as int] != pat@[j as int]);
            return false;
        }
        j = j + 1;
    }
    assert(t@.subrange(i as int, i + pat@.len()) =~= pat@);
    true
}

/// Scans a brace group's interior, mirroring `brace_close`.
pub fn find_brace_close(t: &[u8], start: usize, maxd: usize) -> (r: Option<usize>)
    requires
        start <= t@.len(),
    ensures
        r matches Some(c) ==> Some(c as int) == brace_close(t@, start as int, 0, maxd as int)
            && start <= c < t@.len(),
        r is None ==> brace_close(t@, start as int, 0, maxd as int) is None,
{
    let mut i: usize = start;
    let mut depth: usize = 0;
    while i < t.len()
        invariant
            start <= i <= t@.len(),
            depth <= maxd,
            brace_close(t@, start as int, 0, maxd as int) == brace_close(
                t@,
                i as int,
                depth as int,
                maxd as int,
            ),
        decreases t@.len() - i,
    {
        if t[i] == 125 {
            if depth == 0 {
                return Some(i);
            }
            depth = depth - 1;
        } else if t[i] == 123 {
            if depth >= maxd {
                return None;
            }
            depth = depth + 1;
        }
        i = i + 1;
    }
    None
}

/// Copies `t[a..b]` into a fresh vector.
pub fn extract(t: &[u8], a: usize, b: usize) -> (r: Vec<u8>)
    requires
        a <= b <= t@.len(),
    ensures
        r@ == t@.subrange(a as int, b as int),
{
    vstd::slice::slice_to_vec(vstd::slice::slice_subrange(t, a, b))
}

pub fn bytes_eq(a: &[u8], b: &[u8]) -> (r: bool)
    ensures
        r == (a@ == b@),
{
    if a.len() != b.len() {
        return false;
    }
    let mut j: usize = 0;
    while j < a.len()
        invariant
            0 <= j <= a@.len(),
            a@.len() == b@.len(),
            forall|k: int| 0 <= k < j ==> a@[k] == b@[k],
        decreases a@.len() - j,
    {
        if a[j] != b[j] {
            return false;
        }
        j = j + 1;
    }
    assert(a@ =~= b@);
    true
}

} // verus!
