//! Tests of bash patterns: parsing and conversion into regular
//! expressions.

use libabbs::apml::grammar::PatCtx;
use libabbs::apml::parser;
use libabbs::apml::glob;
use libabbs::apml::glob::GlobPattern;
use libabbs::apml::pattern::{BashPattern, GlobPart, PatternList};

fn chars(i: &str) -> Vec<char> {
    i.chars().collect()
}

fn rest(i: &str, p: usize) -> &str {
    let off: usize = i.chars().take(p).map(|c| c.len_utf8()).sum();
    &i[off..]
}

fn bash_pattern(i: &str, x: PatCtx) -> Result<(&str, BashPattern), ()> {
    match parser::bash_pattern(&chars(i), 0, x) {
        Some((t, p)) => Ok((rest(i, p), t)),
        None => Err(()),
    }
}

fn pattern_part(i: &str, x: PatCtx) -> Result<(&str, GlobPart), ()> {
    match parser::pattern_part(&chars(i), 0, x) {
        Some((t, p)) => Ok((rest(i, p), t)),
        None => Err(()),
    }
}

fn pattern_list(i: &str) -> Result<(&str, PatternList), ()> {
    let (l, p) = parser::pattern_list(&chars(i), 0);
    Ok((rest(i, p), l))
}

fn pat_list() -> PatternList {
    PatternList(vec![
        BashPattern(vec![GlobPart::String("a".to_string())]),
        BashPattern(vec![GlobPart::String("b".to_string())]),
    ])
}

#[test]
fn test_bash_pattern() {
    assert_eq!(
        bash_pattern("abc*?\\a[:ascii:]a?(a|b)*(a|b)+(a|b)@(a|b)!(a|b)}a", PatCtx::Brace).unwrap(),
        (
            "}a",
            BashPattern(vec![
                GlobPart::String("abc".to_string()),
                GlobPart::AnyString,
                GlobPart::AnyChar,
                GlobPart::Escaped('a'),
                GlobPart::Range(":ascii:".to_string()),
                GlobPart::String("a".to_string()),
                GlobPart::ZeroOrOneOf(pat_list()),
                GlobPart::ZeroOrMoreOf(pat_list()),
                GlobPart::OneOrMoreOf(pat_list()),
                GlobPart::OneOf(pat_list()),
                GlobPart::Not(pat_list()),
            ])
        )
    );

    // `?` matches exactly one character, so its regular expression is `.`.
    let mut result = String::new();
    bash_pattern("abc*?\\aa?(a|b)*(a|b)+(a|b)@(a|b)!(a|b)}a", PatCtx::Brace)
        .unwrap()
        .1
        .build_regex(&mut result, false);
    assert_eq!(result, "abc.*?.aa(a|b)?(a|b)*?(a|b)+?(a|b)(?!(a|b)).*");

    let mut result = String::new();
    bash_pattern("abc*?\\aa?(a|b)*(a|b)+(a|b)@(a|b)!(a|b)}a", PatCtx::Brace)
        .unwrap()
        .1
        .build_regex(&mut result, true);
    assert_eq!(result, "abc.*.aa(a|b)?(a|b)*(a|b)+(a|b)(?!(a|b)).*");
}

#[test]
fn test_pattern_part() {
    assert_eq!(
        pattern_part("abc*", PatCtx::List).unwrap(),
        ("*", GlobPart::String("abc".to_string()))
    );
    assert_eq!(pattern_part("*", PatCtx::List).unwrap(), ("", GlobPart::AnyString));
    assert_eq!(pattern_part("?a", PatCtx::List).unwrap(), ("a", GlobPart::AnyChar));
    assert_eq!(
        pattern_part("ab}cd", PatCtx::Brace).unwrap(),
        ("}cd", GlobPart::String("ab".to_string()))
    );
}

#[test]
fn pattern_test_pattern_list() {
    assert_eq!(
        pattern_list("abc|LA?)").unwrap(),
        (
            ")",
            PatternList(vec![
                BashPattern(vec![GlobPart::String("abc".to_string()),]),
                BashPattern(vec![
                    GlobPart::String("LA".to_string()),
                    GlobPart::AnyChar,
                ]),
            ])
        )
    );
    assert_eq!(pattern_list("abc|LA?)").unwrap().1.to_string(), "abc|LA?");

    let mut result = String::new();
    pattern_list("abc|LA?)")
        .unwrap()
        .1
        .build_regex(&mut result, false);
    assert_eq!(result, "(abc|LA.)");
}

fn glob_pattern(i: &str, x: PatCtx) -> Result<(&str, GlobPattern), ()> {
    match glob::glob_pattern(&chars(i), 0, x) {
        Some((t, p)) => Ok((rest(i, p), t)),
        None => Err(()),
    }
}

fn glob_part(i: &str, x: PatCtx) -> Result<(&str, GlobPart), ()> {
    pattern_part(i, x)
}

fn glob(parts: Vec<GlobPart>) -> GlobPattern {
    BashPattern(parts)
}

fn glob_list() -> PatternList {
    PatternList(vec![
        glob(vec![GlobPart::String("a".to_string())]),
        glob(vec![GlobPart::String("b".to_string())]),
    ])
}

#[test]
fn test_glob_pattern() {
    assert_eq!(
        glob_pattern("abc*?\\a[:ascii:]a?(a|b)*(a|b)+(a|b)@(a|b)!(a|b)}a", PatCtx::Brace).unwrap(),
        (
            "}a",
            glob(vec![
                GlobPart::String("abc".to_string()),
                GlobPart::AnyString,
                GlobPart::AnyChar,
                GlobPart::Escaped('a'),
                GlobPart::Range(":ascii:".to_string()),
                GlobPart::String("a".to_string()),
                GlobPart::ZeroOrOneOf(glob_list()),
                GlobPart::ZeroOrMoreOf(glob_list()),
                GlobPart::OneOrMoreOf(glob_list()),
                GlobPart::OneOf(glob_list()),
                GlobPart::Not(glob_list()),
            ])
        )
    );

    let mut result = String::new();
    glob_pattern("abc*?\\aa?(a|b)*(a|b)+(a|b)@(a|b)!(a|b)}a", PatCtx::Brace)
        .unwrap()
        .1
        .build_regex(&mut result, false);
    assert_eq!(result, "abc.*?.aa(a|b)?(a|b)*?(a|b)+?(a|b)(?!(a|b)).*");

    let mut result = String::new();
    glob_pattern("abc*?\\aa?(a|b)*(a|b)+(a|b)@(a|b)!(a|b)}a", PatCtx::Brace)
        .unwrap()
        .1
        .build_regex(&mut result, true);
    assert_eq!(result, "abc.*.aa(a|b)?(a|b)*(a|b)+(a|b)(?!(a|b)).*");
}

#[test]
fn test_glob_part() {
    assert_eq!(glob_part("abc*", PatCtx::List).unwrap(), ("*", GlobPart::String("abc".to_string())));
    assert_eq!(glob_part("*", PatCtx::List).unwrap(), ("", GlobPart::AnyString));
    assert_eq!(glob_part("?a", PatCtx::List).unwrap(), ("a", GlobPart::AnyChar));
    assert_eq!(glob_part("ab}cd", PatCtx::Brace).unwrap(), ("}cd", GlobPart::String("ab".to_string())));
}

#[test]
fn glob_test_pattern_list() {
    assert_eq!(
        pattern_list("abc|LA?)").unwrap(),
        (
            ")",
            PatternList(vec![
                glob(vec![GlobPart::String("abc".to_string()),]),
                glob(vec![GlobPart::String("LA".to_string()), GlobPart::AnyChar,]),
            ])
        )
    );
    assert_eq!(pattern_list("abc|LA?)").unwrap().1.to_string(), "abc|LA?");

    let mut result = String::new();
    pattern_list("abc|LA?)").unwrap().1.build_regex(&mut result, false);
    assert_eq!(result, "(abc|LA.)");
}

#[test]
fn pattern_list_keeps_a_trailing_separator() {
    let (rest, list) = pattern_list("a|)").unwrap();
    assert_eq!(rest, ")");
    assert_eq!(
        list,
        PatternList(vec![BashPattern(vec![GlobPart::String("a".to_string())]), BashPattern(vec![])])
    );
    let mut result = String::new();
    list.build_regex(&mut result, true);
    assert_eq!(result, "(a|)");
}
