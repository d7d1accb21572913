use graphql_linter::eslint_disable::{parse_eslint_directive, DirectiveKind, Suppressions};

#[test]
fn bare_disable_next_line_suppresses_all_rules() {
    let src = "# eslint-disable-next-line\ntype Query {\n  foo: String\n}\n";
    let s = Suppressions::from_source(src);
    assert!(s.is_suppressed("no-hashtag-description", 1));
    assert!(s.is_suppressed("no-hashtag-description", 2));
    assert!(s.is_suppressed("anything", 2));
    assert!(!s.is_suppressed("anything", 3));
}

#[test]
fn named_disable_next_line_suppresses_only_named_rule() {
    let src = "type User {\n  # eslint-disable-next-line noTypenamePrefix\n  userId: ID!\n}";
    let s = Suppressions::from_source(src);
    assert!(s.is_suppressed("noTypenamePrefix", 3));
    assert!(!s.is_suppressed("otherRule", 3));
}

#[test]
fn disable_enable_block() {
    let src = "# eslint-disable myRule\ntype A {}\n# eslint-enable myRule\ntype B {}\n";
    let s = Suppressions::from_source(src);
    assert!(s.is_suppressed("myRule", 2));
    assert!(!s.is_suppressed("myRule", 4));
}

#[test]
fn unclosed_disable_block_extends_to_eof() {
    let src = "# eslint-disable myRule\ntype A {}\n";
    let s = Suppressions::from_source(src);
    assert!(s.is_suppressed("myRule", 2));
    assert!(s.is_suppressed("myRule", 99));
}

#[test]
fn parse_directive_kinds() {
    let d = parse_eslint_directive("# eslint-disable-next-line a, b").unwrap();
    assert_eq!(d.kind, DirectiveKind::DisableNextLine);
    assert_eq!(d.rules, vec!["a".to_string(), "b".to_string()]);
    let d = parse_eslint_directive("# eslint-enable").unwrap();
    assert_eq!(d.kind, DirectiveKind::Enable);
    assert!(d.rules.is_empty());
    assert!(parse_eslint_directive("# just a comment").is_none());
}

#[test]
fn bare_disable_block_covers_every_rule() {
    let s = Suppressions::from_source("type A {}\n# eslint-disable\ntype B {}\n");
    assert!(!s.is_suppressed("x", 1));
    assert!(s.is_suppressed("x", 3));
    assert!(s.is_suppressed("y", 50));
}

#[test]
fn keyword_glued_to_text_is_no_directive() {
    assert!(parse_eslint_directive("# eslint-disablefoo").is_none());
    assert!(parse_eslint_directive("# eslint-enablefoo").is_none());
    assert!(parse_eslint_directive("# eslint-disable-next-linefoo").is_none());
    assert!(parse_eslint_directive("# eslint-disable\tfoo").is_some());
    assert!(parse_eslint_directive("# eslint-disable").is_some());
}
