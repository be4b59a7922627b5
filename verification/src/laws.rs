//! Document-level laws of the recognizer, the canonicalizer and the
//! reconciler, proved for every input of the stated shape.

use vstd::prelude::*;

use crate::canon::{canonical_title, cmd_at, kind_prefix, slug_text, spec_slug, strip_from, strip_once};
use crate::newline_count;
use crate::reconcile::{any_mismatch, finding_for, findings_for, is_mismatch, spec_findings, SpecFinding};
use crate::scan::{
    keyword_at, kw_section, kw_subsection, kw_subsubsection, label_open, match_at, scan_from,
    spec_sections, SpecMatch,
};
use crate::text::{blanks_end, brace_close, is_line_start, line_end, spaces_end, starts_with_spec};

verus! {

/// The opening bytes of a top-level sectioning command with its title
/// delimiter.
pub open spec fn sec_open() -> Seq<u8> {
    seq![92u8, 115u8, 101u8, 99u8, 116u8, 105u8, 111u8, 110u8, 123u8]
}

/// A whole top-level sectioning command: opener, title, closing brace.
pub open spec fn sec_cmd(title: Seq<u8>) -> Seq<u8> {
    sec_open() + title + seq![125u8]
}

/// A whole reference-label line: opener, identifier, closing brace.
pub open spec fn label_line(lab: Seq<u8>) -> Seq<u8> {
    label_open() + lab + seq![125u8]
}

/// A title is plain when it holds no brace bytes, so that the scanner can
/// always delimit it.
pub open spec fn brace_free(s: Seq<u8>) -> bool {
    forall|j: int| 0 <= j < s.len() ==> s[j] != 123 && s[j] != 125
}

/// If no newline occurs in `[i, e)` and `e` is the text's end or holds a
/// newline, the line ends at `e`.
proof fn lemma_line_end_clean(t: Seq<u8>, i: int, e: int)
    requires
        0 <= i <= e <= t.len(),
        forall|j: int| i <= j < e ==> t[j] != 10,
        e == t.len() || t[e] == 10,
    ensures
        line_end(t, i) == e,
    decreases e - i,
{
    if i < e {
        lemma_line_end_clean(t, i + 1, e);
    }
}

/// If no brace occurs in `[i, c)` and `c` holds a closing brace, scanning
/// a group's interior from `i` at depth zero finds `c`.
proof fn lemma_brace_close_clean(t: Seq<u8>, i: int, c: int, maxd: int)
    requires
        0 <= i <= c < t.len(),
        forall|j: int| i <= j < c ==> t[j] != 123 && t[j] != 125,
        t[c] == 125,
    ensures
        brace_close(t, i, 0, maxd) == Some(c),
    decreases c - i,
{
    if i < c {
        lemma_brace_close_clean(t, i + 1, c, maxd);
    }
}

/// The keyword recognized right after the backslash of `sec_cmd` is the
/// top-level one.
proof fn lemma_keyword_sec(t: Seq<u8>, title: Seq<u8>)
    requires
        sec_cmd(title).len() <= t.len(),
        forall|i: int| 0 <= i < sec_cmd(title).len() ==> t[i] == sec_cmd(title)[i],
        brace_free(title),
    ensures
        keyword_at(t, 1) == Some(kw_section()),
{
    let body = sec_cmd(title);
    assert forall|i: int| 0 <= i < 9 implies t[i] == sec_open()[i] by {
        assert(t[i] == body[i]);
        assert(body[i] == sec_open()[i]);
    }
    if starts_with_spec(t, 1, kw_subsubsection()) {
        assert(t.subrange(1, 14)[3] == kw_subsubsection()[3]);
        assert(t[4] == 115);
        assert(sec_open()[4] == 116);
        assert(false);
    }
    if starts_with_spec(t, 1, kw_subsection()) {
        assert(t.subrange(1, 11)[3] == kw_subsection()[3]);
        assert(t[4] == 115);
        assert(sec_open()[4] == 116);
        assert(false);
    }
    assert(t.subrange(1, 8) =~= kw_section()) by {
        assert forall|j: int| 0 <= j < 7 implies t.subrange(1, 8)[j] == kw_section()[j] by {
            assert(t[1 + j] == sec_open()[1 + j]);
        }
    }
    assert(starts_with_spec(t, 1, kw_section()));
}

/// On any text beginning with a whole `sec_cmd`, the construct at position
/// zero is recognized with the top-level kind, the given title, and its
/// scan continuing right after the title's closing brace.
proof fn lemma_match_sec_prefix(t: Seq<u8>, title: Seq<u8>)
    requires
        sec_cmd(title).len() <= t.len(),
        forall|i: int| 0 <= i < sec_cmd(title).len() ==> t[i] == sec_cmd(title)[i],
        brace_free(title),
    ensures
        match_at(t, 0) == Some(crate::scan::titled_at(t, 0, kw_section(), 8, 9 + title.len() as int)),
{
    let body = sec_cmd(title);
    let c = 9 + title.len() as int;
    assert forall|i: int| 0 <= i < 9 implies t[i] == sec_open()[i] by {
        assert(t[i] == body[i]);
        assert(body[i] == sec_open()[i]);
    }
    assert forall|j: int| 0 <= j < title.len() implies t[9 + j] == title[j] by {
        assert(t[9 + j] == body[9 + j]);
        assert(body[9 + j] == title[j]);
    }
    assert(t[c] == 125) by {
        assert(t[c] == body[c]);
        assert(body[c] == 125);
    }
    assert(blanks_end(t, 0) == 0);
    assert(t[0] == 92);
    lemma_keyword_sec(t, title);
    assert(t[8] == 123);
    assert(spaces_end(t, 8) == 8);
    lemma_brace_close_clean(t, 9, c, 2);
}

/// For any brace-free title, the lone sectioning command with no label is
/// recognized as exactly one match carrying the title and no label, and is
/// reported as a missing label, which marks the document as mismatched.
pub proof fn law_missing_label(title: Seq<u8>)
    requires
        brace_free(title),
    ensures
        ({
            let t = sec_cmd(title);
            &&& spec_sections(t) == seq![
                (SpecMatch {
                    offset: 0,
                    section_type: Some(kw_section()),
                    section_content: Some(title),
                    comment: None,
                    label: None,
                    unparsable_section: None,
                }),
            ]
            &&& spec_findings(t) == seq![
                (SpecFinding::MissingLabel { line: 1, expected: spec_slug(kw_section(), title) }),
            ]
            &&& any_mismatch(spec_findings(t))
        }),
{
    let t = sec_cmd(title);
    let c = 9 + title.len() as int;
    assert(t.len() == c + 1);
    lemma_match_sec_prefix(t, title);
    let m = SpecMatch {
        offset: 0,
        section_type: Some(kw_section()),
        section_content: Some(title),
        comment: None,
        label: None,
        unparsable_section: None,
    };
    assert(blanks_end(t, c + 1) == c + 1);
    assert(t.subrange(9, c) =~= title);
    assert(match_at(t, 0) == Some((m, c + 1 as int)));
    assert(is_line_start(t, 0));
    assert(scan_from(t, c + 1) =~= Seq::<SpecMatch>::empty());
    assert(spec_sections(t) =~= seq![m]);
    assert(newline_count(t, 0) == 0);
    let f = SpecFinding::MissingLabel { line: 1, expected: spec_slug(kw_section(), title) };
    assert(finding_for(t, m) == Some(f));
    assert(seq![m][0] == m);
    assert(seq![m].drop_first() =~= Seq::<SpecMatch>::empty());
    assert(findings_for(t, seq![m].drop_first()) == Seq::<SpecFinding>::empty());
    assert(findings_for(t, seq![m]) == seq![f] + findings_for(t, seq![m].drop_first()));
    assert(seq![f] + Seq::<SpecFinding>::empty() =~= seq![f]);
    assert(findings_for(t, seq![m]) =~= seq![f]);
    assert(spec_findings(t) =~= seq![f]);
    assert(is_mismatch(spec_findings(t)[0]));
}

/// On the two-line document of `law_label_comparison`, the scanner
/// recognizes one construct carrying the title and the label.
#[verifier::rlimit(100)]
proof fn lemma_labeled_match(title: Seq<u8>, lab: Seq<u8>)
    requires
        brace_free(title),
        forall|j: int| 0 <= j < lab.len() ==> lab[j] != 10,
    ensures
        ({
            let t = sec_cmd(title) + seq![10u8] + label_line(lab);
            match_at(t, 0) == Some(
                (
                    SpecMatch {
                        offset: 0,
                        section_type: Some(kw_section()),
                        section_content: Some(title),
                        comment: None,
                        label: Some(lab),
                        unparsable_section: None,
                    },
                    t.len() as int,
                ),
            )
        }),
{
    let t = sec_cmd(title) + seq![10u8] + label_line(lab);
    let c = 9 + title.len() as int;
    let q = c + 2;
    let n = t.len() as int;
    assert(n == c + 10 + lab.len());
    assert forall|i: int| 0 <= i < sec_cmd(title).len() implies t[i] == sec_cmd(title)[i] by {
        assert(t[i] == (sec_cmd(title) + seq![10u8])[i]);
    }
    lemma_match_sec_prefix(t, title);
    assert(t.subrange(9, c) =~= title);
    assert(t[c + 1] == 10) by {
        assert((sec_cmd(title) + seq![10u8])[c + 1] == 10);
    }
    assert forall|j: int| 0 <= j < 7 implies t[q + j] == label_open()[j] by {
        assert(label_line(lab)[j] == label_open()[j]);
    }
    assert forall|j: int| 0 <= j < lab.len() implies t[q + 7 + j] == lab[j] by {
        assert(label_line(lab)[7 + j] == lab[j]);
    }
    assert(t[n - 1] == 125) by {
        assert(label_line(lab)[7 + lab.len() as int] == 125);
    }
    assert(blanks_end(t, c + 1) == c + 1);
    assert(blanks_end(t, q) == q);
    assert(t.subrange(q, q + 7) =~= label_open()) by {
        assert forall|j: int| 0 <= j < 7 implies t.subrange(q, q + 7)[j] == label_open()[j] by {
            assert(t[q + j] == label_open()[j]);
        }
    }
    assert(starts_with_spec(t, q, label_open()));
    lemma_line_end_clean(t, q, n);
    assert(t.subrange(q + 7, n - 1) =~= lab);
    let m = SpecMatch {
        offset: 0,
        section_type: Some(kw_section()),
        section_content: Some(title),
        comment: None,
        label: Some(lab),
        unparsable_section: None,
    };
    assert(crate::scan::label_at(t, q) == Some((lab, n)));
    assert(match_at(t, 0) == Some((m, n)));
}

/// For any brace-free title and newline-free identifier, a sectioning
/// command followed on the next line by that label is recognized as one
/// match carrying both; the document is clean exactly when the identifier
/// equals the canonical slug, and otherwise yields one wrong-label report.
#[verifier::rlimit(100)]
pub proof fn law_label_comparison(title: Seq<u8>, lab: Seq<u8>)
    requires
        brace_free(title),
        forall|j: int| 0 <= j < lab.len() ==> lab[j] != 10,
    ensures
        ({
            let t = sec_cmd(title) + seq![10u8] + label_line(lab);
            &&& spec_sections(t) == seq![
                (SpecMatch {
                    offset: 0,
                    section_type: Some(kw_section()),
                    section_content: Some(title),
                    comment: None,
                    label: Some(lab),
                    unparsable_section: None,
                }),
            ]
            &&& (lab == spec_slug(kw_section(), title) ==> spec_findings(t)
                == Seq::<SpecFinding>::empty() && !any_mismatch(spec_findings(t)))
            &&& (lab != spec_slug(kw_section(), title) ==> spec_findings(t) == seq![
                (SpecFinding::WrongLabel {
                    line: 1,
                    observed: lab,
                    expected: spec_slug(kw_section(), title),
                }),
            ] && any_mismatch(spec_findings(t)))
        }),
{
    lemma_labeled_match(title, lab);
    let t = sec_cmd(title) + seq![10u8] + label_line(lab);
    let n = t.len() as int;
    let m = SpecMatch {
        offset: 0,
        section_type: Some(kw_section()),
        section_content: Some(title),
        comment: None,
        label: Some(lab),
        unparsable_section: None,
    };
    assert(n > 0);
    assert(is_line_start(t, 0));
    assert(crate::scan::clip_len(t, n) == n);
    assert(scan_from(t, n) =~= Seq::<SpecMatch>::empty());
    assert(seq![m] + Seq::<SpecMatch>::empty() =~= seq![m]);
    assert(scan_from(t, 0) == seq![m] + scan_from(t, n));
    assert(spec_sections(t) =~= seq![m]);
    assert(newline_count(t, 0) == 0);
    assert(seq![m][0] == m);
    assert(seq![m].drop_first() =~= Seq::<SpecMatch>::empty());
    let slug = spec_slug(kw_section(), title);
    if lab == slug {
        assert(finding_for(t, m) is None);
        assert(findings_for(t, seq![m].drop_first()) == Seq::<SpecFinding>::empty());
        assert(findings_for(t, seq![m]) == findings_for(t, seq![m].drop_first()));
        assert(findings_for(t, seq![m]) =~= Seq::<SpecFinding>::empty());
        assert(spec_findings(t) =~= Seq::<SpecFinding>::empty());
    } else {
        let f = SpecFinding::WrongLabel { line: 1, observed: lab, expected: slug };
        assert(finding_for(t, m) == Some(f));
        assert(findings_for(t, seq![m].drop_first()) == Seq::<SpecFinding>::empty());
        assert(findings_for(t, seq![m]) == seq![f] + findings_for(t, seq![m].drop_first()));
        assert(seq![f] + Seq::<SpecFinding>::empty() =~= seq![f]);
        assert(findings_for(t, seq![m]) =~= seq![f]);
        assert(spec_findings(t) =~= seq![f]);
        assert(is_mismatch(spec_findings(t)[0]));
    }
}

/// On the document of `law_comment_opt_out`, the scanner recognizes one
/// construct carrying the title, the comment and the label.
#[verifier::rlimit(100)]
proof fn lemma_commented_match(title: Seq<u8>, cmt: Seq<u8>, lab: Seq<u8>)
    requires
        brace_free(title),
        forall|j: int| 0 <= j < cmt.len() ==> cmt[j] != 10,
        forall|j: int| 0 <= j < lab.len() ==> lab[j] != 10,
    ensures
        ({
            let t = sec_cmd(title) + (seq![32u8, 37u8] + cmt) + (seq![10u8] + label_line(lab));
            match_at(t, 0) == Some(
                (
                    SpecMatch {
                        offset: 0,
                        section_type: Some(kw_section()),
                        section_content: Some(title),
                        comment: Some(seq![37u8] + cmt),
                        label: Some(lab),
                        unparsable_section: None,
                    },
                    t.len() as int,
                ),
            )
        }),
{
    let mid = seq![32u8, 37u8] + cmt;
    let tail = seq![10u8] + label_line(lab);
    let t = sec_cmd(title) + mid + tail;
    let c = 9 + title.len() as int;
    let cl = cmt.len() as int;
    let q = c + 4 + cl;
    let n = t.len() as int;
    assert(n == c + 12 + cl + lab.len());
    assert forall|i: int| 0 <= i < sec_cmd(title).len() implies t[i] == sec_cmd(title)[i] by {
        assert(t[i] == (sec_cmd(title) + mid)[i]);
    }
    lemma_match_sec_prefix(t, title);
    assert(t.subrange(9, c) =~= title);
    assert(t[c + 1] == 32) by {
        assert(t[c + 1] == (sec_cmd(title) + mid)[c + 1]);
        assert(mid[0] == 32);
    }
    assert(t[c + 2] == 37) by {
        assert(t[c + 2] == (sec_cmd(title) + mid)[c + 2]);
        assert(mid[1] == 37);
    }
    assert forall|j: int| 0 <= j < cl implies t[c + 3 + j] == cmt[j] by {
        assert(t[c + 3 + j] == (sec_cmd(title) + mid)[c + 3 + j]);
        assert(mid[2 + j] == cmt[j]);
    }
    assert(t[c + 3 + cl] == 10) by {
        assert(tail[0] == 10);
    }
    assert forall|j: int| 0 <= j < 8 + lab.len() implies t[q + j] == label_line(lab)[j] by {
        assert(t[q + j] == tail[1 + j]);
    }
    assert forall|j: int| 0 <= j < 7 implies t[q + j] == label_open()[j] by {
        assert(label_line(lab)[j] == label_open()[j]);
    }
    assert forall|j: int| 0 <= j < lab.len() implies t[q + 7 + j] == lab[j] by {
        assert(label_line(lab)[7 + j] == lab[j]);
    }
    assert(t[n - 1] == 125) by {
        assert(label_line(lab)[7 + lab.len() as int] == 125);
    }
    assert(blanks_end(t, c + 2) == c + 2);
    assert(blanks_end(t, c + 1) == c + 2);
    lemma_line_end_clean(t, c + 2, c + 3 + cl);
    assert(blanks_end(t, q) == q);
    assert(t.subrange(q, q + 7) =~= label_open()) by {
        assert forall|j: int| 0 <= j < 7 implies t.subrange(q, q + 7)[j] == label_open()[j] by {
            assert(t[q + j] == label_open()[j]);
        }
    }
    assert(starts_with_spec(t, q, label_open()));
    lemma_line_end_clean(t, q, n);
    assert(t.subrange(q + 7, n - 1) =~= lab);
    assert(t.subrange(c + 2, c + 3 + cl) =~= seq![37u8] + cmt);
    assert(crate::scan::label_at(t, q) == Some((lab, n)));
}

/// For any brace-free title, any newline-free comment containing the
/// opt-out marker, and any newline-free label, a sectioning command
/// followed by that comment and, on the next line, that label yields no
/// report at all, whether or not the label matches the canonical slug.
pub proof fn law_comment_opt_out(title: Seq<u8>, cmt: Seq<u8>, lab: Seq<u8>)
    requires
        brace_free(title),
        forall|j: int| 0 <= j < cmt.len() ==> cmt[j] != 10,
        forall|j: int| 0 <= j < lab.len() ==> lab[j] != 10,
        crate::reconcile::contains_seq(seq![37u8] + cmt, crate::reconcile::marker()),
    ensures
        ({
            let t = sec_cmd(title) + (seq![32u8, 37u8] + cmt) + (seq![10u8] + label_line(lab));
            &&& spec_sections(t) == seq![
                (SpecMatch {
                    offset: 0,
                    section_type: Some(kw_section()),
                    section_content: Some(title),
                    comment: Some(seq![37u8] + cmt),
                    label: Some(lab),
                    unparsable_section: None,
                }),
            ]
            &&& spec_findings(t) == Seq::<SpecFinding>::empty()
            &&& !any_mismatch(spec_findings(t))
        }),
{
    lemma_commented_match(title, cmt, lab);
    let t = sec_cmd(title) + (seq![32u8, 37u8] + cmt) + (seq![10u8] + label_line(lab));
    let n = t.len() as int;
    let m = SpecMatch {
        offset: 0,
        section_type: Some(kw_section()),
        section_content: Some(title),
        comment: Some(seq![37u8] + cmt),
        label: Some(lab),
        unparsable_section: None,
    };
    assert(n > 0);
    assert(is_line_start(t, 0));
    assert(crate::scan::clip_len(t, n) == n);
    assert(scan_from(t, n) =~= Seq::<SpecMatch>::empty());
    assert(seq![m] + Seq::<SpecMatch>::empty() =~= seq![m]);
    assert(scan_from(t, 0) == seq![m] + scan_from(t, n));
    assert(spec_sections(t) =~= seq![m]);
    assert(finding_for(t, m) is None);
    assert(seq![m][0] == m);
    assert(seq![m].drop_first() =~= Seq::<SpecMatch>::empty());
    assert(findings_for(t, seq![m].drop_first()) == Seq::<SpecFinding>::empty());
    assert(findings_for(t, seq![m]) == findings_for(t, seq![m].drop_first()));
    assert(spec_findings(t) =~= Seq::<SpecFinding>::empty());
}

/// A rewriting pass leaves a backslash-free text unchanged.
proof fn lemma_strip_plain(s: Seq<u8>, i: int)
    requires
        0 <= i <= s.len(),
        forall|j: int| 0 <= j < s.len() ==> s[j] != 92,
    ensures
        strip_from(s, i) == s.subrange(i, s.len() as int),
    decreases s.len() - i,
{
    if i < s.len() {
        assert(cmd_at(s, i) is None);
        lemma_strip_plain(s, i + 1);
        assert(seq![s[i]] + s.subrange(i + 1, s.len() as int) =~= s.subrange(i, s.len() as int));
    } else {
        assert(strip_from(s, i) =~= s.subrange(i, s.len() as int));
    }
}

/// Canonicalizing a title that embeds no markup command (it holds no
/// backslash) is the identity, so its slug is the plain-text slug of the
/// title itself, behind the kind's prefix.
pub proof fn law_plain_title_slug(section_type: Seq<u8>, title: Seq<u8>)
    requires
        forall|j: int| 0 <= j < title.len() ==> title[j] != 92,
    ensures
        canonical_title(title) == title,
        spec_slug(section_type, title) == kind_prefix(section_type) + seq![58u8] + slug_text(title),
{
    lemma_strip_plain(title, 0);
    assert(title.subrange(0, title.len() as int) =~= title);
    assert(strip_once(title) == title);
}

} // verus!
