//! The slug canonicalizer: strips embedded markup commands from a raw title
//! down to each command's first argument, repeating to a fixpoint, then
//! normalizes the remaining text into an identifier-safe slug carrying a
//! kind-specific prefix.

use vstd::prelude::*;

use crate::scan::{kw_section, kw_subsection, kw_subsubsection};
use crate::text::{brace_close, bytes_eq, extract, find_brace_close, lemma_brace_close_bounds};

verus! {

/// Bytes that may form a markup command's name: ASCII letters, digits and
/// underscore.
pub open spec fn is_word_byte(b: u8) -> bool {
    (97 <= b <= 122) || (65 <= b <= 90) || (48 <= b <= 57) || b == 95
}

/// First position at or after `i` that is out of range or holds a non-word
/// byte.
pub open spec fn word_end(s: Seq<u8>, i: int) -> int
    decreases s.len() - i,
{
    if 0 <= i < s.len() && is_word_byte(s[i]) {
        word_end(s, i + 1)
    } else {
        i
    }
}

/// A markup command invocation starting at `i`: a backslash, a non-empty
/// word, a brace-delimited first argument (nested at most one level deep),
/// and optionally a second such argument.  Yields the first argument's text
/// and the position just past the whole invocation.
pub open spec fn cmd_at(s: Seq<u8>, i: int) -> Option<(Seq<u8>, int)> {
    if !(0 <= i < s.len() && s[i] == 92) {
        None
    } else {
        let j = word_end(s, i + 1);
        if j == i + 1 || !(j < s.len() && s[j] == 123) {
            None
        } else {
            match brace_close(s, j + 1, 0, 1) {
                None => None,
                Some(c) => {
                    let arg = s.subrange(j + 1, c);
                    if c + 1 < s.len() && s[c + 1] == 123 {
                        match brace_close(s, c + 2, 0, 1) {
                            Some(c2) => Some((arg, c2 + 1)),
                            None => Some((arg, c + 1)),
                        }
                    } else {
                        Some((arg, c + 1))
                    }
                },
            }
        }
    }
}

/// One rewriting pass from position `i` on: each command invocation is
/// replaced by its first argument, other bytes are kept, scanning resumes
/// after each replaced invocation.
pub open spec fn strip_from(s: Seq<u8>, i: int) -> Seq<u8>
    decreases s.len() - i,
{
    if !(0 <= i < s.len()) {
        Seq::empty()
    } else {
        match cmd_at(s, i) {
            Some((arg, end)) => {
                let n0 = if end > i {
                    end
                } else {
                    i + 1
                };
                let n = if n0 > s.len() {
                    s.len() as int
                } else {
                    n0
                };
                arg + strip_from(s, n)
            },
            None => seq![s[i]] + strip_from(s, i + 1),
        }
    }
}

/// One full rewriting pass over `s`.
pub open spec fn strip_once(s: Seq<u8>) -> Seq<u8> {
    strip_from(s, 0)
}

/// The fixpoint of the rewriting pass: the title with all embedded markup
/// commands reduced to their first arguments.
pub open spec fn canonical_title(s: Seq<u8>) -> Seq<u8>
    decreases s.len(),
{
    let s2 = strip_once(s);
    if s2 == s {
        s
    } else if s2.len() < s.len() {
        canonical_title(s2)
    } else {
        s2
    }
}

/// A command invocation lies inside the text and is at least four bytes
/// longer than its first argument.
pub proof fn lemma_cmd_at_bounds(s: Seq<u8>, i: int)
    ensures
        cmd_at(s, i) matches Some(p) ==> i + 4 + p.0.len() <= p.1 <= s.len(),
{
    if 0 <= i < s.len() && s[i] == 92 {
        let j = word_end(s, i + 1);
        lemma_word_end_bounds(s, i + 1);
        if !(j == i + 1 || !(j < s.len() && s[j] == 123)) {
            lemma_brace_close_bounds(s, j + 1, 0, 1);
            match brace_close(s, j + 1, 0, 1) {
                Some(c) => {
                    if c + 1 < s.len() && s[c + 1] == 123 {
                        lemma_brace_close_bounds(s, c + 2, 0, 1);
                    }
                },
                None => {},
            }
        }
    }
}

pub proof fn lemma_word_end_bounds(s: Seq<u8>, i: int)
    requires
        0 <= i <= s.len(),
    ensures
        i <= word_end(s, i) <= s.len(),
    decreases s.len() - i,
{
    if i < s.len() && is_word_byte(s[i]) {
        lemma_word_end_bounds(s, i + 1);
    }
}

/// A rewriting pass never lengthens the text, and a pass that keeps the
/// length keeps the text.
pub proof fn lemma_strip_from_len(s: Seq<u8>, i: int)
    requires
        0 <= i <= s.len(),
    ensures
        strip_from(s, i).len() <= s.len() - i,
        strip_from(s, i).len() == s.len() - i ==> strip_from(s, i) == s.subrange(i, s.len() as int),
    decreases s.len() - i,
{
    if i < s.len() {
        match cmd_at(s, i) {
            Some((arg, end)) => {
                lemma_cmd_at_bounds(s, i);
                lemma_strip_from_len(s, end);
            },
            None => {
                lemma_strip_from_len(s, i + 1);
                if strip_from(s, i).len() == s.len() - i {
                    assert(strip_from(s, i) =~= s.subrange(i, s.len() as int));
                }
            },
        }
    } else {
        assert(strip_from(s, i) =~= s.subrange(i, s.len() as int));
    }
}

/// A pass that changes the text shrinks it.
pub proof fn lemma_strip_shrinks(s: Seq<u8>)
    ensures
        strip_once(s) != s ==> strip_once(s).len() < s.len(),
        strip_once(s) == s ==> canonical_title(s) == s,
{
    lemma_strip_from_len(s, 0);
    if strip_once(s).len() == s.len() {
        assert(s.subrange(0, s.len() as int) =~= s);
    }
}

/// The name given to what `slug::slugify` returns for the given bytes,
/// decoded as UTF-8.
pub uninterp spec fn slug_text(s: Seq<u8>) -> Seq<u8>;

/// Relies on `slug::slugify` (crate `slug`): it lowercases, transliterates
/// to ASCII and collapses runs of other characters into single hyphens; its
/// result depends on the input characters alone.  The bytes are decoded as
/// UTF-8 (lossily) before the call.
#[verifier::external_body]
fn slug_bytes(content: &[u8]) -> (r: Vec<u8>)
    ensures
        r@ == slug_text(content@),
{
    slug::slugify(String::from_utf8_lossy(content)).into_bytes()
}

/// The prefix tag of each section kind.
pub open spec fn kind_prefix(section_type: Seq<u8>) -> Seq<u8> {
    if section_type == kw_section() {
        seq![115u8, 101u8, 99u8]
    } else if section_type == kw_subsection() {
        seq![115u8, 115u8, 101u8, 99u8]
    } else if section_type == kw_subsubsection() {
        seq![115u8, 115u8, 115u8, 101u8, 99u8]
    } else {
        seq![117u8, 110u8, 107u8, 110u8, 119u8, 110u8]
    }
}

/// The canonical slug of a section: its kind's prefix, a colon, and the
/// slug of the title's canonical (command-free) text.
pub open spec fn spec_slug(section_type: Seq<u8>, content: Seq<u8>) -> Seq<u8> {
    kind_prefix(section_type) + seq![58u8] + slug_text(canonical_title(content))
}

fn prefix_vec(section_type: &[u8]) -> (r: Vec<u8>)
    ensures
        r@ == kind_prefix(section_type@),
{
    let skw = crate::scan::lit_section();
    let sskw = crate::scan::lit_subsection();
    let ssskw = crate::scan::lit_subsubsection();
    let mut v: Vec<u8> = Vec::new();
    if bytes_eq(section_type, skw.as_slice()) {
        v.push(115u8);
        v.push(101u8);
        v.push(99u8);
        assert(v@ =~= kind_prefix(section_type@));
    } else if bytes_eq(section_type, sskw.as_slice()) {
        v.push(115u8);
        v.push(115u8);
        v.push(101u8);
        v.push(99u8);
        assert(v@ =~= kind_prefix(section_type@));
    } else if bytes_eq(section_type, ssskw.as_slice()) {
        v.push(115u8);
        v.push(115u8);
        v.push(115u8);
        v.push(101u8);
        v.push(99u8);
        assert(v@ =~= kind_prefix(section_type@));
    } else {
        v.push(117u8);
        v.push(110u8);
        v.push(107u8);
        v.push(110u8);
        v.push(119u8);
        v.push(110u8);
        assert(v@ =~= kind_prefix(section_type@));
    }
    v
}

/// Finds the markup command invocation at `i`, mirroring `cmd_at`.
fn find_cmd_at(s: &[u8], i: usize) -> (r: Option<(Vec<u8>, usize)>)
    requires
        i < s@.len(),
    ensures
        (r is None) == (cmd_at(s@, i as int) is None),
        r matches Some(q) ==> cmd_at(s@, i as int) matches Some(p) && q.0@ == p.0 && q.1 == p.1
            && i < q.1 <= s@.len(),
{
    if s[i] != 92 {
        return None;
    }
    let mut j: usize = i + 1;
    while j < s.len() && ((97 <= s[j] && s[j] <= 122) || (65 <= s[j] && s[j] <= 90) || (48 <= s[j]
        && s[j] <= 57) || s[j] == 95)
        invariant
            i + 1 <= j <= s@.len(),
            word_end(s@, i + 1) == word_end(s@, j as int),
        decreases s@.len() - j,
    {
        j = j + 1;
    }
    if j == i + 1 || !(j < s.len() && s[j] == 123) {
        return None;
    }
    match find_brace_close(s, j + 1, 1) {
        None => None,
        Some(c) => {
            let arg = extract(s, j + 1, c);
            let end: usize;
            if c + 1 < s.len() && s[c + 1] == 123 {
                match find_brace_close(s, c + 2, 1) {
                    Some(c2) => {
                        end = c2 + 1;
                    },
                    None => {
                        end = c + 1;
                    },
                }
            } else {
                end = c + 1;
            }
            proof {
                lemma_cmd_at_bounds(s@, i as int);
            }
            Some((arg, end))
        },
    }
}

/// One full rewriting pass, mirroring `strip_once`.
fn strip_once_exec(s: &[u8]) -> (r: Vec<u8>)
    ensures
        r@ == strip_once(s@),
{
    let mut acc: Vec<u8> = Vec::new();
    let mut i: usize = 0;
    while i < s.len()
        invariant
            0 <= i <= s@.len(),
            strip_once(s@) == acc@ + strip_from(s@, i as int),
        decreases s@.len() - i,
    {
        let ghost prev_acc = acc@;
        let ghost prev_i = i as int;
        match find_cmd_at(s, i) {
            Some((arg, end)) => {
                proof {
                    assert(strip_from(s@, prev_i) == (cmd_at(s@, prev_i)->0).0 + strip_from(
                        s@,
                        end as int,
                    ));
                }
                let mut k: usize = 0;
                while k < arg.len()
                    invariant
                        0 <= k <= arg@.len(),
                        acc@ == prev_acc + arg@.subrange(0, k as int),
                    decreases arg@.len() - k,
                {
                    acc.push(arg[k]);
                    assert(acc@ =~= prev_acc + arg@.subrange(0, k + 1));
                    k = k + 1;
                }
                assert(arg@.subrange(0, arg@.len() as int) =~= arg@);
                i = end;
                proof {
                    assert(prev_acc + (arg@ + strip_from(s@, i as int)) =~= acc@ + strip_from(
                        s@,
                        i as int,
                    ));
                }
            },
            None => {
                proof {
                    assert(strip_from(s@, prev_i) == seq![s@[prev_i]] + strip_from(
                        s@,
                        prev_i + 1,
                    ));
                }
                acc.push(s[i]);
                i = i + 1;
                proof {
                    assert(prev_acc + (seq![s@[prev_i]] + strip_from(s@, i as int)) =~= acc@
                        + strip_from(s@, i as int));
                }
            },
        }
    }
    assert(acc@ + strip_from(s@, i as int) =~= acc@);
    acc
}

/// Rewrites the title to its fixpoint, mirroring `canonical_title`.
fn canonical_exec(s: &[u8]) -> (r: Vec<u8>)
    ensures
        r@ == canonical_title(s@),
{
    let mut cur: Vec<u8> = vstd::slice::slice_to_vec(s);
    loop
        invariant
            canonical_title(cur@) == canonical_title(s@),
        decreases cur@.len(),
    {
        let next = strip_once_exec(cur.as_slice());
        if bytes_eq(next.as_slice(), cur.as_slice()) {
            proof {
                lemma_strip_shrinks(cur@);
            }
            return cur;
        }
        proof {
            lemma_strip_shrinks(cur@);
        }
        cur = next;
    }
}

/// Derives the canonical slug for a section: the kind's prefix tag, a
/// colon, and the normalized form of the title with embedded markup
/// commands reduced to their first arguments.
pub fn slugify_label(section_type: &[u8], content: &[u8]) -> (r: Vec<u8>)
    ensures
        r@ == spec_slug(section_type@, content@),
{
    let mut r = prefix_vec(section_type);
    let ghost pfx = r@;
    r.push(58u8);
    let canonical = canonical_exec(content);
    let slug = slug_bytes(canonical.as_slice());
    let ghost before = r@;
    let mut k: usize = 0;
    while k < slug.len()
        invariant
            0 <= k <= slug@.len(),
            r@ == before + slug@.subrange(0, k as int),
        decreases slug@.len() - k,
    {
        r.push(slug[k]);
        assert(r@ =~= before + slug@.subrange(0, k + 1));
        k = k + 1;
    }
    proof {
        assert(slug@.subrange(0, slug@.len() as int) =~= slug@);
        assert(before =~= pfx + seq![58u8]);
        assert(r@ =~= spec_slug(section_type@, content@));
    }
    r
}

} // verus!
