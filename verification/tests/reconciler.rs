use ensure_labels::reconcile::{
    batch_has_error, process_text, FileOutcome, FileStatus, Finding,
};

#[test]
fn missing_label_is_reported() {
    let (status, findings) = process_text(b"\\section{Hello World}");
    assert_eq!(status, FileStatus::FoundLabelMismatch);
    assert_eq!(
        findings,
        vec![Finding::MissingLabel {
            line: 1,
            expected: b"sec:hello-world".to_vec(),
        }]
    );
}

#[test]
fn matching_label_is_clean() {
    let (status, findings) = process_text(b"\\section{Hello World}\n\\label{sec:hello-world}");
    assert_eq!(status, FileStatus::AllLabelsMatch);
    assert!(findings.is_empty());
}

#[test]
fn wrong_label_is_reported() {
    let (status, findings) = process_text(b"\\section{Hello World}\n\\label{sec:wrong}");
    assert_eq!(status, FileStatus::FoundLabelMismatch);
    assert_eq!(
        findings,
        vec![Finding::WrongLabel {
            line: 1,
            observed: b"sec:wrong".to_vec(),
            expected: b"sec:hello-world".to_vec(),
        }]
    );
}

#[test]
fn skip_label_marker_suppresses_wrong_label() {
    let (status, findings) =
        process_text(b"\\section{Hello World} % skip-label\n\\label{sec:wrong}");
    assert_eq!(status, FileStatus::AllLabelsMatch);
    assert!(findings.is_empty());
}

#[test]
fn comment_without_marker_keeps_wrong_label() {
    let (status, findings) =
        process_text(b"\\section{Hello World} % a remark\n\\label{sec:wrong}");
    assert_eq!(status, FileStatus::FoundLabelMismatch);
    assert_eq!(findings.len(), 1);
    assert!(matches!(findings[0], Finding::WrongLabel { line: 1, .. }));
}

#[test]
fn double_nested_title_with_matching_label_is_clean() {
    let text = "\\subsubsection{Formalization of \\texorpdfstring{\\acs{knn}}{k-NN}}\n\\label{sssec:formalization-of-knn}";
    let (status, findings) = process_text(text.as_bytes());
    assert_eq!(status, FileStatus::AllLabelsMatch);
    assert!(findings.is_empty());
}

#[test]
fn deep_nesting_is_unprocessable_but_tolerated() {
    let (status, findings) = process_text(b"\\subsection{A{B{C{D{EE}D}C}B}A}");
    assert_eq!(status, FileStatus::AllLabelsMatch);
    assert_eq!(findings, vec![Finding::Unprocessable { line: 1 }]);
}

#[test]
fn second_section_reports_its_own_line() {
    let text = "\\section{One}\n\\label{sec:one}\n\\section{Two}\n";
    let (status, findings) = process_text(text.as_bytes());
    assert_eq!(status, FileStatus::FoundLabelMismatch);
    assert_eq!(
        findings,
        vec![Finding::MissingLabel {
            line: 3,
            expected: b"sec:two".to_vec(),
        }]
    );
}

#[test]
fn batch_reports_mismatch_and_read_error_independently() {
    let files: Vec<&[u8]> = vec![
        b"\\section{One}\n\\label{sec:one}",
        b"\\section{Two}\n\\label{sec:wrong}",
        b"plain text, no sections",
    ];
    let mut outcomes: Vec<FileOutcome> = Vec::new();
    let mut all_findings: Vec<Vec<Finding>> = Vec::new();
    for f in files {
        let (status, findings) = process_text(f);
        outcomes.push(FileOutcome::Processed(status));
        all_findings.push(findings);
    }
    outcomes.push(FileOutcome::ReadFailed);
    assert!(batch_has_error(&outcomes));
    assert!(all_findings[0].is_empty());
    assert_eq!(all_findings[1].len(), 1);
    assert!(all_findings[2].is_empty());
}

#[test]
fn clean_batch_has_no_error() {
    let (status, _) = process_text(b"\\section{One}\n\\label{sec:one}");
    let outcomes = vec![
        FileOutcome::Processed(status),
        FileOutcome::Processed(FileStatus::AllLabelsMatch),
    ];
    assert!(!batch_has_error(&outcomes));
}
