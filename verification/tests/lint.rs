//! Tests of lint messages and snippets, and of the escaping of pattern
//! literals in regular expressions.

use libabbs::apml::lst::ApmlLst;
use libabbs::apml::pattern::{BashPattern, GlobPart};
use libabbs::lint::{level_at_least, Level, LintMessage, LintMetadata, Snippet};

static TEST_LINT: LintMetadata = LintMetadata { ident: "test-lint", level: Level::Warning, desc: "a test lint" };

#[test]
fn snippets_point_at_lines() {
    let lst = ApmlLst::parse("A=1\n\nB=2\n").unwrap();
    let s = Snippet::new("testrepo", "testrepo/app-admin/a/spec", &lst, 3);
    assert_eq!(s.path, "app-admin/a/spec");
    assert_eq!(s.line, Some(3));
    assert_eq!(s.source, None);
    let s = Snippet::new("elsewhere", "testrepo/app-admin/a/spec", &lst, 0);
    assert_eq!(s.path, "testrepo/app-admin/a/spec");
    assert_eq!(s.line, Some(1));
}

#[test]
fn messages_are_built() {
    let m = LintMessage::new(&TEST_LINT);
    assert_eq!(m.message, "a test lint");
    let m = m.message("custom".to_string()).note("n1".to_string()).note("n2".to_string());
    assert_eq!(m.message, "custom");
    assert_eq!(m.notes, vec!["n1".to_string(), "n2".to_string()]);
    assert_eq!(m.lint.ident, "test-lint");
    assert!(level_at_least(Level::Error, Level::Warning));
    assert!(!level_at_least(Level::Note, Level::Info));
}

#[test]
fn pattern_literals_are_escaped() {
    let mut result = String::new();
    BashPattern(vec![GlobPart::String("a.b(c)".to_string()), GlobPart::AnyChar]).build_regex(&mut result, true);
    assert_eq!(result, "a\\.b\\(c\\).");
}
