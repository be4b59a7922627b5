//! The reconciler: drives the recognizer over a document, maps each match to
//! a line number, compares observed labels against the canonical slug of the
//! title, honors the opt-out marker in a trailing comment, and aggregates a
//! per-document status.

use vstd::prelude::*;

use crate::canon::{slugify_label, spec_slug};
use crate::line_number_at;
use crate::offset_to_line_number;
use crate::scan::{find_sections, spec_sections, wf_match, SpecMatch};
use crate::text::{bytes_eq, starts_with_at, starts_with_spec};

verus! {

/// The per-document result: whether any section had a missing or wrong
/// label.
#[derive(Debug, PartialEq, Eq, Structural, Clone, Copy)]
pub enum FileStatus {
    FoundLabelMismatch,
    AllLabelsMatch,
}

/// One reported problem, in its mathematical form.
pub ghost enum SpecFinding {
    Unprocessable { line: int },
    MissingLabel { line: int, expected: Seq<u8> },
    WrongLabel { line: int, observed: Seq<u8>, expected: Seq<u8> },
}

/// One reported problem: an unprocessable section (a warning), a section
/// with no label, or a section whose label differs from the expected slug.
#[derive(Debug, PartialEq, Eq, Clone)]
pub enum Finding {
    Unprocessable { line: u32 },
    MissingLabel { line: u32, expected: Vec<u8> },
    WrongLabel { line: u32, observed: Vec<u8>, expected: Vec<u8> },
}

impl View for Finding {
    type V = SpecFinding;

    open spec fn view(&self) -> SpecFinding {
        match self {
            Finding::Unprocessable { line } => SpecFinding::Unprocessable { line: *line as int },
            Finding::MissingLabel { line, expected } => (SpecFinding::MissingLabel {
                line: *line as int,
                expected: expected@,
            }),
            Finding::WrongLabel { line, observed, expected } => (SpecFinding::WrongLabel {
                line: *line as int,
                observed: observed@,
                expected: expected@,
            }),
        }
    }
}

/// The opt-out marker: a comment containing it suppresses a wrong-label
/// report.
pub open spec fn marker() -> Seq<u8> {
    seq![115u8, 107u8, 105u8, 112u8, 45u8, 108u8, 97u8, 98u8, 101u8, 108u8]
}

fn lit_marker() -> (r: Vec<u8>)
    ensures
        r@ == marker(),
{
    let mut v: Vec<u8> = Vec::new();
    v.push(115u8);
    v.push(107u8);
    v.push(105u8);
    v.push(112u8);
    v.push(45u8);
    v.push(108u8);
    v.push(97u8);
    v.push(98u8);
    v.push(101u8);
    v.push(108u8);
    assert(v@ =~= marker());
    v
}

/// `pat` occurs somewhere in `c` as a contiguous substring.
pub open spec fn contains_seq(c: Seq<u8>, pat: Seq<u8>) -> bool {
    exists|k: int| starts_with_spec(c, k, pat)
}

fn contains_bytes(c: &[u8], pat: &[u8]) -> (r: bool)
    requires
        pat@.len() > 0,
    ensures
        r == contains_seq(c@, pat@),
{
    let mut k: usize = 0;
    while k < c.len()
        invariant
            0 <= k <= c@.len(),
            pat@.len() > 0,
            forall|j: int| 0 <= j < k ==> !starts_with_spec(c@, j, pat@),
        decreases c@.len() - k,
    {
        if starts_with_at(c, k, pat) {
            return true;
        }
        k = k + 1;
    }
    assert forall|j: int| !(#[trigger] starts_with_spec(c@, j, pat@)) by {
        if starts_with_spec(c@, j, pat@) {
            assert(j + pat@.len() <= c@.len());
            assert(j < k);
        }
    }
    false
}

/// The problem reported for one recognized construct, if any: an
/// unparsable construct is a warning; a titled one is compared against the
/// canonical slug, a wrong label being suppressed when the trailing comment
/// contains the opt-out marker.
pub open spec fn finding_for(t: Seq<u8>, m: SpecMatch) -> Option<SpecFinding> {
    if m.unparsable_section is Some {
        Some(SpecFinding::Unprocessable { line: line_number_at(t, m.offset) })
    } else {
        match (m.section_type, m.section_content) {
            (Some(ty), Some(title)) => {
                let slug = spec_slug(ty, title);
                match m.label {
                    None => Some(
                        SpecFinding::MissingLabel { line: line_number_at(t, m.offset), expected: slug },
                    ),
                    Some(l) => if l == slug {
                        None
                    } else if (m.comment matches Some(c) && contains_seq(c, marker())) {
                        None
                    } else {
                        Some(
                            SpecFinding::WrongLabel {
                                line: line_number_at(t, m.offset),
                                observed: l,
                                expected: slug,
                            },
                        )
                    },
                }
            },
            _ => None,
        }
    }
}

/// The problems reported for a sequence of recognized constructs, in
/// order.
pub open spec fn findings_for(t: Seq<u8>, ms: Seq<SpecMatch>) -> Seq<SpecFinding>
    decreases ms.len(),
{
    if ms.len() == 0 {
        Seq::empty()
    } else {
        match finding_for(t, ms[0]) {
            Some(f) => seq![f] + findings_for(t, ms.drop_first()),
            None => findings_for(t, ms.drop_first()),
        }
    }
}

/// All problems reported for a document.
pub open spec fn spec_findings(t: Seq<u8>) -> Seq<SpecFinding> {
    findings_for(t, spec_sections(t))
}

/// A finding that marks the document as mismatched: a missing or wrong
/// label, but not a mere warning about an unprocessable construct.
pub open spec fn is_mismatch(f: SpecFinding) -> bool {
    f is MissingLabel || f is WrongLabel
}

pub open spec fn any_mismatch(fs: Seq<SpecFinding>) -> bool {
    exists|k: int| 0 <= k < fs.len() && is_mismatch(#[trigger] fs[k])
}

/// Scans a whole document and reports every labeling problem, together
/// with whether any of them is a missing or wrong label.
pub fn process_text(text: &[u8]) -> (r: (FileStatus, Vec<Finding>))
    requires
        text@.len() < u32::MAX,
    ensures
        r.1@.map_values(|f: Finding| f@) == spec_findings(text@),
        (r.0 == FileStatus::FoundLabelMismatch) == any_mismatch(spec_findings(text@)),
{
    let matches_vec = find_sections(text);
    let marker_vec = lit_marker();
    let mut findings: Vec<Finding> = Vec::new();
    let mut found_mismatch = false;
    let mut k: usize = 0;
    let ghost all = matches_vec@.map_values(|m: crate::scan::SectionMatch| m@);
    proof {
        assert(all.skip(0) =~= all);
    }
    while k < matches_vec.len()
        invariant
            0 <= k <= matches_vec@.len(),
            text@.len() < u32::MAX,
            marker_vec@ == marker(),
            all == matches_vec@.map_values(|m: crate::scan::SectionMatch| m@),
            all == spec_sections(text@),
            forall|j: int| 0 <= j < matches_vec@.len() ==> wf_match(
                text@,
                #[trigger] matches_vec@[j]@,
            ),
            spec_findings(text@) == findings@.map_values(|f: Finding| f@) + findings_for(
                text@,
                all.skip(k as int),
            ),
            found_mismatch == any_mismatch(findings@.map_values(|f: Finding| f@)),
        decreases matches_vec@.len() - k,
    {
        let ghost prev_findings = findings@.map_values(|f: Finding| f@);
        let ghost suffix = all.skip(k as int);
        proof {
            assert(suffix[0] == all[k as int]);
            assert(suffix.drop_first() =~= all.skip(k as int + 1));
            assert(matches_vec@[k as int]@ == all[k as int]);
        }
        let m = &matches_vec[k];
        let line = offset_to_line_number(text, m.offset);
        let mut new_finding: Option<Finding> = None;
        if m.unparsable_section.is_some() {
            new_finding = Some(Finding::Unprocessable { line });
        } else {
            let ty = match &m.section_type {
                Some(v) => v,
                None => {
                    proof {
                        assert(false);
                    }
                    unreached()
                },
            };
            let title = match &m.section_content {
                Some(v) => v,
                None => {
                    proof {
                        assert(false);
                    }
                    unreached()
                },
            };
            let slug = slugify_label(ty.as_slice(), title.as_slice());
            match &m.label {
                None => {
                    new_finding = Some(Finding::MissingLabel { line, expected: slug });
                },
                Some(l) => {
                    if bytes_eq(l.as_slice(), slug.as_slice()) {
                        new_finding = None;
                    } else {
                        let suppressed = match &m.comment {
                            Some(c) => contains_bytes(c.as_slice(), marker_vec.as_slice()),
                            None => false,
                        };
                        if suppressed {
                            new_finding = None;
                        } else {
                            new_finding = Some(
                                Finding::WrongLabel {
                                    line,
                                    observed: l.clone(),
                                    expected: slug,
                                },
                            );
                        }
                    }
                },
            }
        }
        match new_finding {
            Some(f) => {
                proof {
                    assert(finding_for(text@, all[k as int]) == Some(f@));
                    assert(findings_for(text@, suffix) == seq![f@] + findings_for(
                        text@,
                        all.skip(k as int + 1),
                    ));
                }
                let mismatch_here = match &f {
                    Finding::Unprocessable { .. } => false,
                    _ => true,
                };
                findings.push(f);
                proof {
                    assert(findings@.map_values(|f2: Finding| f2@) =~= prev_findings.push(f@));
                    assert(prev_findings + (seq![f@] + findings_for(
                        text@,
                        all.skip(k as int + 1),
                    )) =~= findings@.map_values(|f2: Finding| f2@) + findings_for(
                        text@,
                        all.skip(k as int + 1),
                    ));
                }
                if mismatch_here {
                    found_mismatch = true;
                    proof {
                        let fs = findings@.map_values(|f2: Finding| f2@);
                        assert(is_mismatch(fs[fs.len() - 1]));
                    }
                } else {
                    proof {
                        let fs = findings@.map_values(|f2: Finding| f2@);
                        assert(!is_mismatch(f@));
                        if any_mismatch(prev_findings) {
                            let j = choose|j: int|
                                0 <= j < prev_findings.len() && is_mismatch(
                                    #[trigger] prev_findings[j],
                                );
                            assert(fs[j] == prev_findings[j]);
                            assert(any_mismatch(fs));
                        }
                        if any_mismatch(fs) {
                            let j = choose|j: int|
                                0 <= j < fs.len() && is_mismatch(#[trigger] fs[j]);
                            if j < fs.len() - 1 {
                                assert(prev_findings[j] == fs[j]);
                                assert(any_mismatch(prev_findings));
                            } else {
                                assert(fs[j] == f@);
                            }
                        }
                    }
                }
            },
            None => {
                proof {
                    assert(finding_for(text@, all[k as int]) is None);
                    assert(findings_for(text@, suffix) == findings_for(
                        text@,
                        all.skip(k as int + 1),
                    ));
                }
            },
        }
        k = k + 1;
    }
    proof {
        assert(all.skip(all.len() as int) =~= Seq::<SpecMatch>::empty());
        assert(findings@.map_values(|f: Finding| f@) + Seq::<SpecFinding>::empty()
            =~= findings@.map_values(|f: Finding| f@));
    }
    let status = if found_mismatch {
        FileStatus::FoundLabelMismatch
    } else {
        FileStatus::AllLabelsMatch
    };
    (status, findings)
}

/// The outcome of handling one file of a batch: it was read and processed,
/// or reading it failed.
#[derive(Debug, PartialEq, Eq, Structural, Clone, Copy)]
pub enum FileOutcome {
    Processed(FileStatus),
    ReadFailed,
}

/// An outcome that makes the whole run fail: a read error or a label
/// mismatch.
pub open spec fn outcome_is_error(o: FileOutcome) -> bool {
    o is ReadFailed || o == FileOutcome::Processed(FileStatus::FoundLabelMismatch)
}

/// Aggregates a batch of per-file outcomes: the run fails exactly when some
/// file failed to read or held a label mismatch.
pub fn batch_has_error(outcomes: &Vec<FileOutcome>) -> (r: bool)
    ensures
        r == exists|k: int| 0 <= k < outcomes@.len() && outcome_is_error(#[trigger] outcomes@[k]),
{
    let mut k: usize = 0;
    while k < outcomes.len()
        invariant
            0 <= k <= outcomes@.len(),
            forall|j: int| 0 <= j < k ==> !outcome_is_error(#[trigger] outcomes@[j]),
        decreases outcomes@.len() - k,
    {
        let is_err = match outcomes[k] {
            FileOutcome::ReadFailed => true,
            FileOutcome::Processed(FileStatus::FoundLabelMismatch) => true,
            FileOutcome::Processed(FileStatus::AllLabelsMatch) => false,
        };
        if is_err {
            return true;
        }
        k = k + 1;
    }
    false
}

} // verus!
