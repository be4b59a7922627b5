use ensure_labels::canon::slugify_label;

#[test]
fn simple_ascii() {
    assert_eq!(slugify_label(b"section", b"Word"), b"sec:word".to_vec());
    assert_eq!(
        slugify_label(b"section", b"Hello World"),
        b"sec:hello-world".to_vec()
    );
    assert_eq!(
        slugify_label(b"subsubsection", b"Many Many words here"),
        b"sssec:many-many-words-here".to_vec()
    );
}

#[test]
fn nested_commands() {
    assert_eq!(
        slugify_label(b"section", b"\\texttt{Abc}"),
        b"sec:abc".to_vec()
    );
    assert_eq!(
        slugify_label(b"subsection", b"Something \\emph{very} important"),
        b"ssec:something-very-important".to_vec()
    );
}

#[test]
fn double_nested_commands() {
    assert_eq!(
        slugify_label(
            b"subsubsection",
            b"Formalization of \\texorpdfstring{\\acs{knn}}{k-NN}"
        ),
        b"sssec:formalization-of-knn".to_vec()
    );
}

#[test]
fn unknown_kind_prefix() {
    assert_eq!(slugify_label(b"chapter", b"Intro"), b"unknwn:intro".to_vec());
}

#[test]
fn empty_title_keeps_bare_prefix() {
    assert_eq!(slugify_label(b"section", b""), b"sec:".to_vec());
}

#[test]
fn unicode_title_transliterates() {
    assert_eq!(
        slugify_label(b"section", "Überblick".as_bytes()),
        b"sec:uberblick".to_vec()
    );
}
