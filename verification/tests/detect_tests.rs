use detect_indent::{detect_indent, IndentKind};

#[test]
fn empty_document_detects_nothing() {
    let r = detect_indent("");
    assert_eq!(r.amount(), 0);
    assert_eq!(r.indent(), "");
    assert_eq!(r.kind(), None);
}

#[test]
fn unindented_document_detects_nothing() {
    let r = detect_indent("one\ntwo\nthree\n");
    assert_eq!(r.amount(), 0);
    assert_eq!(r.indent(), "");
    assert_eq!(r.kind(), None);
}

#[test]
fn four_space_document() {
    let doc = "module X {\n    line one\n    line two\n        nested\n        nested more\n    close\n}\n";
    let r = detect_indent(doc);
    assert_eq!(r.amount(), 4);
    assert_eq!(r.indent(), "    ");
    assert_eq!(r.kind(), Some(IndentKind::Space));
}

#[test]
fn single_tab_document() {
    let r = detect_indent("a {\n\tb\n\tc\n}\n");
    assert_eq!(r.amount(), 1);
    assert_eq!(r.indent(), "\t");
    assert_eq!(r.kind(), Some(IndentKind::Tab));
}

#[test]
fn four_tabs_per_level_document() {
    let doc = "a\n\t\t\t\tb\n\t\t\t\tc\n\t\t\t\t\t\t\t\td\nend\n";
    let r = detect_indent(doc);
    assert_eq!(r.amount(), 4);
    assert_eq!(r.indent(), "\t\t\t\t");
    assert_eq!(r.kind(), Some(IndentKind::Tab));
}

#[test]
fn mixed_document_where_spaces_dominate() {
    let doc = "a\n    b\n    c\n    d\n\te\n    f\n";
    let r = detect_indent(doc);
    assert_eq!(r.amount(), 4);
    assert_eq!(r.kind(), Some(IndentKind::Space));
}

#[test]
fn mixed_document_where_tabs_dominate() {
    let doc = "a\n\tb\n\tc\n\td\n  e\n\tf\n";
    let r = detect_indent(doc);
    assert_eq!(r.amount(), 1);
    assert_eq!(r.kind(), Some(IndentKind::Tab));
}

#[test]
fn detection_is_stable_on_its_own_indent_string() {
    let doc = "module X {\n    line one\n    line two\n        nested\n    close\n}\n";
    let first = detect_indent(doc);
    assert_eq!(first.amount(), 4);
    let again = detect_indent(first.indent());
    assert_eq!(again.amount(), first.amount());
    assert_eq!(again.kind(), first.kind());
    assert_eq!(again.indent(), first.indent());
}

#[test]
fn crlf_line_endings_are_handled() {
    let r = detect_indent("a\r\n    b\r\n    c\r\n");
    assert_eq!(r.amount(), 4);
    assert_eq!(r.kind(), Some(IndentKind::Space));
}

#[test]
fn blank_lines_are_skipped() {
    let r = detect_indent("a\n\n    b\n\n    c\n");
    assert_eq!(r.amount(), 4);
    assert_eq!(r.indent(), "    ");
    assert_eq!(r.kind(), Some(IndentKind::Space));
}

#[test]
fn blank_crlf_lines_are_skipped() {
    let r = detect_indent("    a\r\n\r\n    b\r\n");
    assert_eq!(r.amount(), 4);
    assert_eq!(r.kind(), Some(IndentKind::Space));
}

#[test]
fn mixed_leading_whitespace_measures_the_first_run() {
    let r = detect_indent("a\n \tb\n");
    assert_eq!(r.amount(), 1);
    assert_eq!(r.indent(), " ");
    assert_eq!(r.kind(), Some(IndentKind::Space));
}

#[test]
fn no_trailing_newline_still_counts_the_last_line() {
    let r = detect_indent("a\n    b");
    assert_eq!(r.amount(), 4);
    assert_eq!(r.kind(), Some(IndentKind::Space));
}

#[test]
fn space_tie_with_tabs_favours_spaces() {
    let r = detect_indent("a\n    b\n\tc\n");
    assert_eq!(r.kind(), Some(IndentKind::Space));
}
