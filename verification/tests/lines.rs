use ensure_labels::offset_to_line_number;

#[test]
fn ensure_labels_simple_ascii() {
    let text = "Hello\nNice\nWorld\n";
    let t = text.as_bytes();
    assert_eq!(offset_to_line_number(t, 0), 1);
    assert_eq!(offset_to_line_number(t, 1), 1);
    assert_eq!(offset_to_line_number(t, 2), 1);
    assert_eq!(offset_to_line_number(t, 3), 1);
    assert_eq!(offset_to_line_number(t, 4), 1);
    assert_eq!(offset_to_line_number(t, 5), 1);

    assert_eq!(offset_to_line_number(t, 6), 2);
    assert_eq!(offset_to_line_number(t, 7), 2);
    assert_eq!(offset_to_line_number(t, 8), 2);
    assert_eq!(offset_to_line_number(t, 9), 2);
    assert_eq!(offset_to_line_number(t, 10), 2);

    assert_eq!(offset_to_line_number(t, 11), 3);
    assert_eq!(offset_to_line_number(t, 12), 3);
    assert_eq!(offset_to_line_number(t, 13), 3);
    assert_eq!(offset_to_line_number(t, 14), 3);
    assert_eq!(offset_to_line_number(t, 15), 3);
    assert_eq!(offset_to_line_number(t, 16), 3);
}

#[test]
fn line_two_starts_at_its_first_byte() {
    let text = "aa\nbb\ncc";
    assert_eq!(offset_to_line_number(text.as_bytes(), 3), 2);
}

#[test]
fn offset_at_text_length_is_valid() {
    let text = "aa\nbb\ncc";
    assert_eq!(offset_to_line_number(text.as_bytes(), 8), 3);
}
