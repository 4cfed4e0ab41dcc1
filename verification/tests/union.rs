//! Tests of unions: printing and parsing.

use libabbs::apml::parser::ParseError;
use libabbs::apml::union::Union;

#[test]
fn test_union() {
    let mut union = Union::new("test");
    assert_eq!(union.print().to_string(), "\"test\"");
    assert_eq!(union.to_value().to_string(), "\"test\"");
    union.set_argument(Some("test".to_string()));
    assert_eq!(union.print().to_string(), "\"test::test\"");
    union.insert_property("test".into(), "test".to_string());
    assert_eq!(union.print().to_string(), "\"test::test=test::test\"");
    union.insert_property("test1".into(), "test".to_string());
    assert_eq!(union.print().to_string(), "\"test::test=test::test1=test::test\"");
}

#[test]
fn test_union_parse() {
    let union = Union::try_from("a::b=c::c=d::https://example.org").unwrap();
    assert_eq!(union.tag(), "a");
    assert_eq!(union.property("b").unwrap(), "c");
    assert_eq!(union.property("c").unwrap(), "d");
    assert_eq!(union.argument().clone().unwrap(), "https://example.org");
    let union = Union::try_from("a::b=c::c=d").unwrap();
    assert_eq!(union.tag(), "a");
    assert_eq!(union.property("b").unwrap(), "c");
    assert_eq!(union.property("c").unwrap(), "d");
    assert_eq!(*union.argument(), None);
    let union = Union::try_from("a::b=c").unwrap();
    assert_eq!(union.tag(), "a");
    assert_eq!(union.property("b").unwrap(), "c");
    assert_eq!(union.property("c"), None);
    assert_eq!(*union.argument(), None);
    let union = Union::try_from("a::https://example.org").unwrap();
    assert_eq!(union.tag(), "a");
    assert_eq!(union.argument().clone().unwrap(), "https://example.org");
    let union = Union::try_from("a::b=c::https://example.org").unwrap();
    assert_eq!(union.print().to_string(), "\"a::b=c::https://example.org\"");
}

#[test]
fn union_properties_print_in_key_order() {
    let mut union = Union::new("git");
    union.insert_property("rename".into(), "x".to_string());
    union.insert_property("commit".into(), "tags/v1".to_string());
    union.insert_property("rename".into(), "y".to_string());
    assert_eq!(union.print().to_string(), "\"git::commit=tags/v1::rename=y\"");
    let keys: Vec<&str> = union.properties().iter().map(|(k, _)| k.as_str()).collect();
    assert_eq!(keys, vec!["commit", "rename"]);
}

#[test]
fn union_parse_errors() {
    assert!(matches!(Union::try_from("::x"), Err(ParseError::SyntaxError(_))));
    assert_eq!(
        Union::try_from("  tag::k=v::arg\u{e9}x  ").err(),
        Some(ParseError::UnexpectedSource { pos: 14 })
    );
    let u = Union::try_from("  tbl::https://a.org/x$y  ").unwrap();
    assert_eq!(u.tag(), "tbl");
    assert_eq!(u.argument().clone().unwrap(), "https://a.org/x$y");
}

#[test]
fn union_text_is_escaped() {
    let u = Union::try_from("a::b=\"c$").unwrap();
    assert_eq!(u.print().to_string(), "\"a::b=\\\"c\\$\"");
}

#[test]
fn union_read_then_print_gives_text_back() {
    for text in [
        "git::commit=tags/v1::rename=y::https://example.org/a.git",
        "tbl::https://example.org/a.tar.gz",
        "a::b=c::c=d",
        "pypi",
    ] {
        let union = Union::try_from(text).unwrap();
        assert_eq!(union.print().to_string(), format!("\"{text}\""));
    }
}
