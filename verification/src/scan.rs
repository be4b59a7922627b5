//! The section recognizer: a lexical scanner that walks a document's bytes
//! and yields, per sectioning construct, its offset, kind token, raw title,
//! optional trailing comment and optional reference label.  A title whose
//! braces nest deeper than two levels, or a malformed construct, is captured
//! as an unparsable span instead of being mis-parsed.

use vstd::prelude::*;

use crate::text::{
    blanks_end, brace_close, extract, find_brace_close, find_line_end, is_line_start, line_end,
    skip_blanks, skip_spaces, spaces_end, starts_with_at, starts_with_spec,
};

verus! {

/// The token of a top-level sectioning command.
pub open spec fn kw_section() -> Seq<u8> {
    seq![115u8, 101u8, 99u8, 116u8, 105u8, 111u8, 110u8]
}

/// The token of a second-level sectioning command.
pub open spec fn kw_subsection() -> Seq<u8> {
    seq![115u8, 117u8, 98u8, 115u8, 101u8, 99u8, 116u8, 105u8, 111u8, 110u8]
}

/// The token of a third-level sectioning command.
pub open spec fn kw_subsubsection() -> Seq<u8> {
    seq![115u8, 117u8, 98u8, 115u8, 117u8, 98u8, 115u8, 101u8, 99u8, 116u8, 105u8, 111u8, 110u8]
}

/// The label construct's opening bytes.
pub open spec fn label_open() -> Seq<u8> {
    seq![92u8, 108u8, 97u8, 98u8, 101u8, 108u8, 123u8]
}

pub fn lit_section() -> (r: Vec<u8>)
    ensures
        r@ == kw_section(),
{
    let mut v: Vec<u8> = Vec::new();
    v.push(115u8);
    v.push(101u8);
    v.push(99u8);
    v.push(116u8);
    v.push(105u8);
    v.push(111u8);
    v.push(110u8);
    assert(v@ =~= kw_section());
    v
}

pub fn lit_subsection() -> (r: Vec<u8>)
    ensures
        r@ == kw_subsection(),
{
    let mut v: Vec<u8> = Vec::new();
    v.push(115u8);
    v.push(117u8);
    v.push(98u8);
    let w = lit_section();
    let mut j: usize = 0;
    while j < w.len()
        invariant
            0 <= j <= w@.len(),
            w@ == kw_section(),
            v@ == seq![115u8, 117u8, 98u8] + w@.subrange(0, j as int),
        decreases w@.len() - j,
    {
        v.push(w[j]);
        assert(v@ =~= seq![115u8, 117u8, 98u8] + w@.subrange(0, j + 1));
        j = j + 1;
    }
    assert(v@ =~= kw_subsection());
    v
}

pub fn lit_subsubsection() -> (r: Vec<u8>)
    ensures
        r@ == kw_subsubsection(),
{
    let mut v: Vec<u8> = Vec::new();
    v.push(115u8);
    v.push(117u8);
    v.push(98u8);
    let w = lit_subsection();
    let mut j: usize = 0;
    while j < w.len()
        invariant
            0 <= j <= w@.len(),
            w@ == kw_subsection(),
            v@ == seq![115u8, 117u8, 98u8] + w@.subrange(0, j as int),
        decreases w@.len() - j,
    {
        v.push(w[j]);
        assert(v@ =~= seq![115u8, 117u8, 98u8] + w@.subrange(0, j + 1));
        j = j + 1;
    }
    assert(v@ =~= kw_subsubsection());
    v
}

pub fn lit_label_open() -> (r: Vec<u8>)
    ensures
        r@ == label_open(),
{
    let mut v: Vec<u8> = Vec::new();
    v.push(92u8);
    v.push(108u8);
    v.push(97u8);
    v.push(98u8);
    v.push(101u8);
    v.push(108u8);
    v.push(123u8);
    assert(v@ =~= label_open());
    v
}

/// The sectioning keyword occurring at position `i`, longest first.
pub open spec fn keyword_at(t: Seq<u8>, i: int) -> Option<Seq<u8>> {
    if starts_with_spec(t, i, kw_subsubsection()) {
        Some(kw_subsubsection())
    } else if starts_with_spec(t, i, kw_subsection()) {
        Some(kw_subsection())
    } else if starts_with_spec(t, i, kw_section()) {
        Some(kw_section())
    } else {
        None
    }
}

/// One recognized construct, in its mathematical form.
pub ghost struct SpecMatch {
    pub offset: int,
    pub section_type: Option<Seq<u8>>,
    pub section_content: Option<Seq<u8>>,
    pub comment: Option<Seq<u8>>,
    pub label: Option<Seq<u8>>,
    pub unparsable_section: Option<Seq<u8>>,
}

/// One recognized construct: the byte offset of the line it starts on, the
/// sectioning keyword and raw title when the title could be delimited, an
/// optional same-paragraph comment, an optional observed label, and the raw
/// span when the construct could not be parsed.  `section_type` and
/// `section_content` are present exactly when `unparsable_section` is absent.
#[derive(Debug, PartialEq, Eq, Clone)]
pub struct SectionMatch {
    pub offset: usize,
    pub section_type: Option<Vec<u8>>,
    pub section_content: Option<Vec<u8>>,
    pub comment: Option<Vec<u8>>,
    pub label: Option<Vec<u8>>,
    pub unparsable_section: Option<Vec<u8>>,
}

pub open spec fn view_opt(o: Option<Vec<u8>>) -> Option<Seq<u8>> {
    match o {
        Some(v) => Some(v@),
        None => None,
    }
}

impl View for SectionMatch {
    type V = SpecMatch;

    open spec fn view(&self) -> SpecMatch {
        SpecMatch {
            offset: self.offset as int,
            section_type: view_opt(self.section_type),
            section_content: view_opt(self.section_content),
            comment: view_opt(self.comment),
            label: view_opt(self.label),
            unparsable_section: view_opt(self.unparsable_section),
        }
    }
}

/// A reference-label construct on the line starting (after blanks) at `p`:
/// the line must begin with the label opener and end with a closing brace.
/// Yields the identifier between them and the position of the line's end.
pub open spec fn label_at(t: Seq<u8>, p: int) -> Option<(Seq<u8>, int)> {
    let q = blanks_end(t, p);
    if starts_with_spec(t, q, label_open()) {
        let e = line_end(t, q);
        if e - 1 >= q + 7 && t[e - 1] == 125 {
            Some((t.subrange(q + 7, e - 1), e))
        } else {
            None
        }
    } else {
        None
    }
}

/// The match produced when a title cannot be delimited: the raw span from
/// position `p` to the end of its line, with no kind and no title.
pub open spec fn unparsable_at(t: Seq<u8>, ls: int, p: int) -> (SpecMatch, int) {
    (
        SpecMatch {
            offset: ls,
            section_type: None,
            section_content: None,
            comment: None,
            label: None,
            unparsable_section: Some(t.subrange(p, line_end(t, p))),
        },
        line_end(t, p),
    )
}

/// The match produced when the title was delimited: its closing brace sits
/// at `c`.  After it come optional blanks, an optional comment running to
/// the end of the line, and an optional label on the same line or the next.
pub open spec fn titled_at(t: Seq<u8>, ls: int, kw: Seq<u8>, p: int, c: int) -> (SpecMatch, int) {
    let title = t.subrange(p + 1, c);
    let b1 = blanks_end(t, c + 1);
    let comment: Option<Seq<u8>> = if b1 < t.len() && t[b1] == 37 {
        Some(t.subrange(b1, line_end(t, b1)))
    } else {
        None
    };
    let after = if b1 < t.len() && t[b1] == 37 {
        line_end(t, b1)
    } else {
        b1
    };
    let lab: Option<(Seq<u8>, int)> = if after < t.len() && t[after] != 10 {
        label_at(t, after)
    } else if after < t.len() {
        label_at(t, after + 1)
    } else {
        None
    };
    let end = match lab {
        Some((_l, e)) => e,
        None => if after < t.len() && t[after] == 10 {
            after + 1
        } else {
            after
        },
    };
    (
        SpecMatch {
            offset: ls,
            section_type: Some(kw),
            section_content: Some(title),
            comment,
            label: match lab {
                Some((l, _e)) => Some(l),
                None => None,
            },
            unparsable_section: None,
        },
        end,
    )
}

/// The construct recognized at line start `ls`, if any: after leading
/// blanks, a backslash and a sectioning keyword, an optional star and
/// optional spaces, then either a brace-delimited title (nested at most two
/// levels deep) with its trailing comment and label, or an unparsable span.
pub open spec fn match_at(t: Seq<u8>, ls: int) -> Option<(SpecMatch, int)> {
    let w = blanks_end(t, ls);
    if !(w < t.len() && t[w] == 92) {
        None
    } else {
        match keyword_at(t, w + 1) {
            None => None,
            Some(kw) => {
                let k = w + 1 + kw.len();
                let k2 = if k < t.len() && t[k] == 42 {
                    k + 1
                } else {
                    k as int
                };
                let p = spaces_end(t, k2);
                if p < t.len() && t[p] == 123 {
                    match brace_close(t, p + 1, 0, 2) {
                        Some(c) => Some(titled_at(t, ls, kw, p, c)),
                        None => Some(unparsable_at(t, ls, p)),
                    }
                } else {
                    Some(unparsable_at(t, ls, p))
                }
            },
        }
    }
}

pub open spec fn clip_len(t: Seq<u8>, x: int) -> int {
    if x > t.len() {
        t.len() as int
    } else {
        x
    }
}

/// The sequence of constructs recognized at or after position `pos`, in
/// document order.  A candidate can only start at the beginning of a line;
/// scanning resumes after the end of each recognized construct.
pub open spec fn scan_from(t: Seq<u8>, pos: int) -> Seq<SpecMatch>
    decreases t.len() - pos,
{
    if !(0 <= pos < t.len()) {
        Seq::empty()
    } else if !is_line_start(t, pos) {
        scan_from(t, pos + 1)
    } else {
        match match_at(t, pos) {
            Some((m, end)) => {
                let nxt = if end > pos {
                    end
                } else {
                    pos + 1
                };
                seq![m] + scan_from(t, clip_len(t, nxt))
            },
            None => scan_from(t, pos + 1),
        }
    }
}

/// All constructs recognized in `t`, in document order.
pub open spec fn spec_sections(t: Seq<u8>) -> Seq<SpecMatch> {
    scan_from(t, 0)
}

/// A recognized construct is well formed: its offset lies in the text, and
/// it carries a kind and title exactly when it is not unparsable.
pub open spec fn wf_match(t: Seq<u8>, m: SpecMatch) -> bool {
    &&& 0 <= m.offset <= t.len()
    &&& (m.unparsable_section is None <==> m.section_type is Some)
    &&& (m.section_type is Some <==> m.section_content is Some)
}

/// Finds the reference-label construct whose line starts (after blanks) at
/// `p`, mirroring `label_at`.
fn find_label_at(t: &[u8], p: usize) -> (r: Option<(Vec<u8>, usize)>)
    requires
        p <= t@.len(),
    ensures
        (r is None) == (label_at(t@, p as int) is None),
        r matches Some(q) ==> label_at(t@, p as int) matches Some(s) && q.0@ == s.0 && q.1 == s.1
            && p <= q.1 <= t@.len(),
{
    let q = skip_blanks(t, p);
    let lab = lit_label_open();
    if starts_with_at(t, q, lab.as_slice()) {
        let e = find_line_end(t, q);
        if e - q >= 8 && t[e - 1] == 125 {
            Some((extract(t, q + 7, e - 1), e))
        } else {
            None
        }
    } else {
        None
    }
}

/// Recognizes the construct at line start `ls`, mirroring `match_at`.
fn match_section_at(t: &[u8], ls: usize) -> (r: Option<(SectionMatch, usize)>)
    requires
        ls <= t@.len(),
    ensures
        (r is None) == (match_at(t@, ls as int) is None),
        r matches Some(q) ==> match_at(t@, ls as int) matches Some(s) && q.0@ == s.0 && q.1 == s.1
            && ls < q.1 <= t@.len() && wf_match(t@, q.0@),
{
    let w = skip_blanks(t, ls);
    if !(w < t.len() && t[w] == 92) {
        return None;
    }
    let wp1 = w + 1;
    let ssskw = lit_subsubsection();
    let sskw = lit_subsection();
    let skw = lit_section();
    let kwv: Vec<u8>;
    if starts_with_at(t, wp1, ssskw.as_slice()) {
        kwv = ssskw;
    } else if starts_with_at(t, wp1, sskw.as_slice()) {
        kwv = sskw;
    } else if starts_with_at(t, wp1, skw.as_slice()) {
        kwv = skw;
    } else {
        return None;
    }
    assert(keyword_at(t@, wp1 as int) == Some(kwv@));
    let k = wp1 + kwv.len();
    let k2 = if k < t.len() && t[k] == 42 {
        k + 1
    } else {
        k
    };
    let p = skip_spaces(t, k2);
    if p < t.len() && t[p] == 123 {
        match find_brace_close(t, p + 1, 2) {
            Some(c) => {
                let title = extract(t, p + 1, c);
                let b1 = skip_blanks(t, c + 1);
                let has_comment = b1 < t.len() && t[b1] == 37;
                let comment: Option<Vec<u8>>;
                let after: usize;
                if has_comment {
                    let ce = find_line_end(t, b1);
                    comment = Some(extract(t, b1, ce));
                    after = ce;
                } else {
                    comment = None;
                    after = b1;
                }
                let labres: Option<(Vec<u8>, usize)> = if after < t.len() && t[after] != 10 {
                    find_label_at(t, after)
                } else if after < t.len() {
                    find_label_at(t, after + 1)
                } else {
                    None
                };
                let label: Option<Vec<u8>>;
                let end: usize;
                match labres {
                    Some((l, e)) => {
                        label = Some(l);
                        end = e;
                    },
                    None => {
                        label = None;
                        end = if after < t.len() && t[after] == 10 {
                            after + 1
                        } else {
                            after
                        };
                    },
                }
                Some(
                    (
                        SectionMatch {
                            offset: ls,
                            section_type: Some(kwv),
                            section_content: Some(title),
                            comment,
                            label,
                            unparsable_section: None,
                        },
                        end,
                    ),
                )
            },
            None => {
                let e = find_line_end(t, p);
                Some(
                    (
                        SectionMatch {
                            offset: ls,
                            section_type: None,
                            section_content: None,
                            comment: None,
                            label: None,
                            unparsable_section: Some(extract(t, p, e)),
                        },
                        e,
                    ),
                )
            },
        }
    } else {
        let e = find_line_end(t, p);
        Some(
            (
                SectionMatch {
                    offset: ls,
                    section_type: None,
                    section_content: None,
                    comment: None,
                    label: None,
                    unparsable_section: Some(extract(t, p, e)),
                },
                e,
            ),
        )
    }
}

/// Scans the whole document and returns every recognized construct, in
/// document order.
pub fn find_sections(text: &[u8]) -> (r: Vec<SectionMatch>)
    ensures
        r@.map_values(|m: SectionMatch| m@) == spec_sections(text@),
        forall|k: int| 0 <= k < r@.len() ==> wf_match(text@, #[trigger] r@[k]@),
{
    let mut acc: Vec<SectionMatch> = Vec::new();
    let mut pos: usize = 0;
    while pos < text.len()
        invariant
            pos <= text@.len(),
            spec_sections(text@) == acc@.map_values(|m: SectionMatch| m@) + scan_from(
                text@,
                pos as int,
            ),
            forall|k: int| 0 <= k < acc@.len() ==> wf_match(text@, #[trigger] acc@[k]@),
        decreases text@.len() - pos,
    {
        let ghost prev_acc = acc@;
        let ghost prev_pos = pos as int;
        let isls = pos == 0 || text[pos - 1] == 10;
        if isls {
            match match_section_at(text, pos) {
                Some((m, end)) => {
                    proof {
                        assert(scan_from(text@, prev_pos) == seq![m@] + scan_from(
                            text@,
                            clip_len(text@, end as int),
                        ));
                        assert(clip_len(text@, end as int) == end as int);
                    }
                    acc.push(m);
                    pos = end;
                    proof {
                        assert(acc@.map_values(|m2: SectionMatch| m2@) =~= prev_acc.map_values(
                            |m2: SectionMatch| m2@,
                        ).push(m@));
                        assert(prev_acc.map_values(|m2: SectionMatch| m2@) + (seq![m@] + scan_from(
                            text@,
                            pos as int,
                        )) =~= acc@.map_values(|m2: SectionMatch| m2@) + scan_from(
                            text@,
                            pos as int,
                        ));
                    }
                },
                None => {
                    pos = pos + 1;
                },
            }
        } else {
            pos = pos + 1;
        }
    }
    assert(scan_from(text@, pos as int) =~= Seq::<SpecMatch>::empty());
    assert(acc@.map_values(|m: SectionMatch| m@) + Seq::<SpecMatch>::empty() =~= acc@.map_values(
        |m: SectionMatch| m@,
    ));
    acc
}

} // verus!
