use slicer_toolbox::label::normalize_label;

#[test]
fn trims_and_collapses() {
    assert_eq!(normalize_label("  Foo   Bar "), "Foo Bar");
}

#[test]
fn normalization_is_idempotent_on_samples() {
    for s in ["  Foo   Bar ", "a\t\tb", " \n ", "", "already normal", "x"] {
        let once = normalize_label(s);
        let twice = normalize_label(&once);
        assert_eq!(once, twice, "not idempotent on {s:?}");
    }
}

#[test]
fn mixed_whitespace_becomes_single_spaces() {
    assert_eq!(normalize_label("a\u{a0}\u{2003}b\r\nc"), "a b c");
    assert_eq!(normalize_label("\u{3000}tip\u{3000}"), "tip");
}

#[test]
fn whitespace_only_label_becomes_empty() {
    assert_eq!(normalize_label(" \t \n "), "");
}

#[test]
fn agrees_with_the_whitespace_merging_crate() {
    for s in [
        "  Foo   Bar ",
        "Hello     World!\r\n      \"How        are\"         you?",
        "a b c",
        "x",
        "",
        "  ",
        "tab\tand\nnewline",
    ] {
        let expected = merge_whitespace_utils::merge_whitespace(s.trim()).to_string();
        assert_eq!(normalize_label(s), expected, "mismatch on {s:?}");
    }
}
