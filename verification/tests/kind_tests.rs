use detect_indent::IndentKind;

#[test]
fn indent_kind_repeat() {
    assert_eq!(IndentKind::Space.repeat(0), "");
    assert_eq!(IndentKind::Space.repeat(1), " ");
    assert_eq!(IndentKind::Space.repeat(10), "          ");

    assert_eq!(IndentKind::Tab.repeat(0), "");
    assert_eq!(IndentKind::Tab.repeat(1), "\t");
    assert_eq!(IndentKind::Tab.repeat(10), "\t\t\t\t\t\t\t\t\t\t");
}
