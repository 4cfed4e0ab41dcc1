//! Tests of the string arrays and their printed forms.

use libabbs::apml::array::{CollapsedArray, ExpandedArray, StringArray};

#[test]
fn test_str_array() {
    let array = StringArray::new(vec!["a".to_string(), "b".to_string()]);
    assert_eq!(array.len(), 2);
    assert_eq!(array.print().to_string(), "\"a b\"");
    assert_eq!(array.to_value().to_string(), "\"a b\"");
}

#[test]
fn test_str_array_parse() {
    let array = StringArray::from_text("a b c\n  a   b");
    assert_eq!(array.len(), 5);
    assert_eq!(array.print().to_string(), "\"a b c a b\"");
}

#[test]
fn test_str_array_format() {
    let long_str = "1234567890123456789012345678901234567890123456789012345";
    let array = StringArray::from_text(long_str);
    assert_eq!(array.len(), 1);
    assert_eq!(array.print().to_string(), format!("\"{long_str}\""));
    let array = StringArray::from_text(&format!("{long_str} {long_str} 1 {long_str}"));
    assert_eq!(array.len(), 4);
    assert_eq!(
        array.print().to_string(),
        format!("\"{long_str}\\\n\t{long_str} 1\\\n\t{long_str}\"")
    );
}

#[test]
fn test_collapsed_array() {
    let array = CollapsedArray::new(vec!["a".to_string(), "b".to_string()]);
    assert_eq!(array.len(), 2);
    assert_eq!(array.to_value().to_string(), "(\"a\" \"b\")");
    let long_str = "1234567890123456789012345678901234567890123456789012345";
    let array = CollapsedArray::new(vec![
        long_str.to_string(),
        long_str.to_string(),
        "1".to_string(),
        long_str.to_string(),
    ]);
    assert_eq!(
        array.to_value().to_string(),
        r##"("1234567890123456789012345678901234567890123456789012345"
    "1234567890123456789012345678901234567890123456789012345" "1"
    "1234567890123456789012345678901234567890123456789012345")"##
    );
}

#[test]
fn test_expanded_array() {
    let array = ExpandedArray::new(vec!["a".to_string(), "b".to_string()]);
    assert_eq!(array.len(), 2);
    assert_eq!(array.to_value().to_string(), "(\n    \"a\"\n    \"b\"\n)");
    let long_str = "1234567890123456789012345678901234567890123456789012345";
    let array = ExpandedArray::new(vec![
        long_str.to_string(),
        long_str.to_string(),
        "1".to_string(),
        long_str.to_string(),
    ]);
    assert_eq!(
        array.to_value().to_string(),
        r##"(
    "1234567890123456789012345678901234567890123456789012345"
    "1234567890123456789012345678901234567890123456789012345"
    "1"
    "1234567890123456789012345678901234567890123456789012345"
)"##
    );
}
