//! Tests of the lossless syntax tree.

use libabbs::apml::lst::{
    ApmlLst, LiteralPart, Text, Token, VariableDefinition, VariableOp, VariableValue,
};

#[test]
fn test_apml_parse() {
    let tree = ApmlLst::parse(r##"# Test APML"##).unwrap();
    println!("{:?}", &tree);
    let tree = ApmlLst::parse(r##"aaa"##).unwrap_err();
    println!("{:?}", &tree);
}

#[test]
fn lst_test_token() {
    assert!(Token::Newline.is_empty());
    assert!(Token::Spacy(' ').is_empty());
    assert!(Token::Spacy('\t').is_empty());
    assert!(!Token::Comment("Test".to_string()).is_empty());
    assert!(!Token::Variable(VariableDefinition {
        name: "Test".to_string(),
        op: VariableOp::Assignment,
        value: VariableValue::String(Box::new(Text(vec![])))
    })
    .is_empty());
}

#[test]
fn test_literal_part_escape() {
    assert!(LiteralPart::should_escape('$'));
    assert!(LiteralPart::should_escape('"'));
    assert!(LiteralPart::should_escape('\\'));
    assert!(!LiteralPart::should_escape('a'));
    assert!(!LiteralPart::should_escape(' '));
    assert_eq!(
        LiteralPart::escape("asdf"),
        vec![LiteralPart::String("asdf".into())]
    );
    assert_eq!(
        LiteralPart::escape("asd$$f\ng\\"),
        vec![
            LiteralPart::String("asd".into()),
            LiteralPart::Escaped('$'),
            LiteralPart::Escaped('$'),
            LiteralPart::String("f\ng".into()),
            LiteralPart::Escaped('\\'),
        ]
    );
}
