use ensure_labels::scan::{find_sections, SectionMatch};

/// Parse a lone section
#[test]
fn only_section() {
    let text = r##"\section{Hello World}"##;
    let ms = find_sections(text.as_bytes());
    assert!(!ms.is_empty(), "Regex needs to match");
    let expected = SectionMatch {
        offset: 0,
        section_type: Some(b"section".to_vec()),
        section_content: Some(b"Hello World".to_vec()),
        comment: None,
        label: None,
        unparsable_section: None,
    };
    assert_eq!(ms[0], expected);
}

/// Parse a section with comment
#[test]
fn only_section_with_comment() {
    let text = r##"\section{Hello World} % Comment"##;
    let ms = find_sections(text.as_bytes());
    assert!(!ms.is_empty(), "Regex needs to match");
    let expected = SectionMatch {
        offset: 0,
        section_type: Some(b"section".to_vec()),
        section_content: Some(b"Hello World".to_vec()),
        comment: Some(b"% Comment".to_vec()),
        label: None,
        unparsable_section: None,
    };
    assert_eq!(ms[0], expected);
}

#[test]
fn section_and_label() {
    let text = "\\section{Hello World}\n\\label{Label-ABC}";
    let ms = find_sections(text.as_bytes());
    assert!(!ms.is_empty(), "Regex needs to match");
    let expected = SectionMatch {
        offset: 0,
        section_type: Some(b"section".to_vec()),
        section_content: Some(b"Hello World".to_vec()),
        comment: None,
        label: Some(b"Label-ABC".to_vec()),
        unparsable_section: None,
    };
    assert_eq!(ms[0], expected);
}

/// Parse a section and comment and label
#[test]
fn section_with_comment_and_label() {
    let text = "\\section{Hello World} % Another Comment\n\\label{Here}";
    let ms = find_sections(text.as_bytes());
    assert!(!ms.is_empty(), "Regex needs to match");
    let expected = SectionMatch {
        offset: 0,
        section_type: Some(b"section".to_vec()),
        section_content: Some(b"Hello World".to_vec()),
        comment: Some(b"% Another Comment".to_vec()),
        label: Some(b"Here".to_vec()),
        unparsable_section: None,
    };
    assert_eq!(ms[0], expected);
}

/// Put section and label on the same line
#[test]
fn section_and_label_same_line() {
    let text = r##"\section{Hello World} \label{Label-123}"##;
    let ms = find_sections(text.as_bytes());
    assert!(!ms.is_empty(), "Regex needs to match");
    let expected = SectionMatch {
        offset: 0,
        section_type: Some(b"section".to_vec()),
        section_content: Some(b"Hello World".to_vec()),
        comment: None,
        label: Some(b"Label-123".to_vec()),
        unparsable_section: None,
    };
    assert_eq!(ms[0], expected);
}

/// Check for `\section*`
#[test]
fn section_star_and_label() {
    let text = "\n\n\\section*{Hello World}\n\\label{Label-ABC}";
    let ms = find_sections(text.as_bytes());
    assert!(!ms.is_empty(), "Regex needs to match");
    let expected = SectionMatch {
        offset: 2,
        section_type: Some(b"section".to_vec()),
        section_content: Some(b"Hello World".to_vec()),
        comment: None,
        label: Some(b"Label-ABC".to_vec()),
        unparsable_section: None,
    };
    assert_eq!(ms[0], expected);
}

/// Check parsing a single latex command in section
#[test]
fn section_with_nested_command() {
    let text = r##"\section{\textbf{bold}}"##;
    let ms = find_sections(text.as_bytes());
    assert!(!ms.is_empty(), "Regex needs to match");
    let expected = SectionMatch {
        offset: 0,
        section_type: Some(b"section".to_vec()),
        section_content: Some(b"\\textbf{bold}".to_vec()),
        comment: None,
        label: None,
        unparsable_section: None,
    };
    assert_eq!(ms[0], expected);
}

/// Check parsing multiple nested latex commands in section
#[test]
fn section_with_double_nested_command_and_label() {
    let text = "\\subsubsection{Formalization of \\texorpdfstring{\\acs{knn}}{k-NN}}\n\\label{sssec:formalization-of-knn}";
    let ms = find_sections(text.as_bytes());
    assert!(!ms.is_empty(), "Regex needs to match");
    let expected = SectionMatch {
        offset: 0,
        section_type: Some(b"subsubsection".to_vec()),
        section_content: Some(b"Formalization of \\texorpdfstring{\\acs{knn}}{k-NN}".to_vec()),
        comment: None,
        label: Some(b"sssec:formalization-of-knn".to_vec()),
        unparsable_section: None,
    };
    assert_eq!(ms[0], expected);
}

/// Check using a subsection
#[test]
fn only_subsection() {
    let text = r##"\subsection{SubSec}"##;
    let ms = find_sections(text.as_bytes());
    assert!(!ms.is_empty());
    let expected = SectionMatch {
        offset: 0,
        section_type: Some(b"subsection".to_vec()),
        section_content: Some(b"SubSec".to_vec()),
        comment: None,
        label: None,
        unparsable_section: None,
    };
    assert_eq!(ms[0], expected);
}

/// Test if we can handle things outside of our current grammar: a title
/// whose braces nest three levels deep is refused, not mis-parsed.
#[test]
fn unsupported_section_content() {
    let text = r##"\subsection{A{B{C{D{EE}D}C}B}A}"##;
    let ms = find_sections(text.as_bytes());
    assert!(!ms.is_empty());
    let expected = SectionMatch {
        offset: 0,
        section_type: None,
        section_content: None,
        comment: None,
        label: None,
        unparsable_section: Some(b"{A{B{C{D{EE}D}C}B}A}".to_vec()),
    };
    assert_eq!(ms[0], expected);
}

/// A space between the command and its title delimiter is tolerated.
#[test]
fn space_before_title_brace() {
    let ms = find_sections(b"\\section {Spaced}");
    assert_eq!(ms.len(), 1);
    assert_eq!(ms[0].section_content, Some(b"Spaced".to_vec()));
}

/// A sectioning command with no title at all is still surfaced, as an
/// unparsable construct with an empty span.
#[test]
fn bare_command_is_unparsable() {
    let ms = find_sections(b"\\section");
    assert_eq!(ms.len(), 1);
    assert_eq!(ms[0].section_type, None);
    assert_eq!(ms[0].unparsable_section, Some(Vec::new()));
}

/// A sectioning command after other text on a line is not a candidate:
/// matches may only start at the beginning of a line.
#[test]
fn mid_line_command_is_not_matched() {
    let ms = find_sections(b"some text \\section{Hidden}");
    assert!(ms.is_empty());
}

/// Consecutive sections are all found, with their own offsets.
#[test]
fn consecutive_sections_are_all_found() {
    let text = "\\section{One}\n\\label{sec:one}\n\\subsection{Two}\n";
    let ms = find_sections(text.as_bytes());
    assert_eq!(ms.len(), 2);
    assert_eq!(ms[0].label, Some(b"sec:one".to_vec()));
    assert_eq!(ms[1].offset, 30);
    assert_eq!(ms[1].section_type, Some(b"subsection".to_vec()));
    assert_eq!(ms[1].label, None);
}
