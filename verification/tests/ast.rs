//! Tests of the APML abstract syntax tree: emitting from the lossless tree
//! and lowering back.

use std::fmt::Debug;

use libabbs::apml::ast::{
    ApmlAst, ArrayElement, AstNode, ExpansionModifier, Text, VariableDefinition,
    VariableExpansion, VariableValue, Word,
};
use libabbs::apml::lst;
use libabbs::apml::pattern::{BashPattern, GlobPart};

/// The printed form of a lossless node.
trait Printed {
    fn printed(&self) -> String;
}

impl Printed for lst::ApmlLst {
    fn printed(&self) -> String {
        self.to_string()
    }
}

impl Printed for lst::VariableDefinition {
    fn printed(&self) -> String {
        let mut s = String::new();
        self.write(&mut s);
        s
    }
}

impl Printed for lst::VariableValue {
    fn printed(&self) -> String {
        self.to_string()
    }
}

impl Printed for lst::Text {
    fn printed(&self) -> String {
        self.to_string()
    }
}

impl Printed for lst::Word {
    fn printed(&self) -> String {
        self.to_string()
    }
}

impl Printed for lst::BracedExpansion {
    fn printed(&self) -> String {
        let mut s = String::new();
        lst::write_braced(self, &mut s);
        s
    }
}

impl Printed for lst::ExpansionModifier {
    fn printed(&self) -> String {
        let mut s = String::new();
        lst::write_modifier(self, &mut s);
        s
    }
}

impl Printed for lst::ArrayToken {
    fn printed(&self) -> String {
        self.to_string()
    }
}

fn assert_emit_fail<A: AstNode<Lst = L> + Debug, L>(source: L) {
    A::emit_from(&source).unwrap_err();
}

fn assert_emit_lower<A: AstNode<Lst = L> + Eq + Debug, L: Printed>(source: L, ast: A, lst: &str) {
    let result = A::emit_from(&source).unwrap();
    assert_eq!(result, ast);
    assert_eq!(result.lower().printed(), lst);
}

fn text_lst() -> Box<lst::Text> {
    Box::new(lst::Text(vec![lst::TextUnit::SingleQuote("foo$\\".into())]))
}

fn text_ast() -> Text {
    Text(vec![Word::Literal("foo$\\".into())])
}

fn pattern() -> Box<BashPattern> {
    Box::new(BashPattern(vec![GlobPart::String("1a".into()), GlobPart::AnyString]))
}

fn def_lst() -> lst::VariableDefinition {
    lst::VariableDefinition {
        name: "test".into(),
        op: lst::VariableOp::Assignment,
        value: lst::VariableValue::String(text_lst()),
    }
}

fn def_ast() -> VariableDefinition {
    VariableDefinition { name: "test".into(), value: VariableValue::String(Box::new(text_ast())) }
}

#[test]
fn test_apml_ast() {
    assert_emit_lower(
        lst::ApmlLst(vec![
            lst::Token::Variable(def_lst()),
            lst::Token::Newline,
            lst::Token::Spacy(' '),
            lst::Token::Variable(def_lst()),
            lst::Token::Comment("a".into()),
            lst::Token::Newline,
            lst::Token::Variable(def_lst()),
        ]),
        ApmlAst(vec![def_ast(), def_ast(), def_ast()]),
        "test=\"foo\\$\\\\\"\ntest=\"foo\\$\\\\\"\ntest=\"foo\\$\\\\\"",
    );
    assert_emit_fail::<ApmlAst, _>(lst::ApmlLst(vec![
        lst::Token::Variable(def_lst()),
        lst::Token::Variable(def_lst()),
    ]));
    assert_emit_fail::<ApmlAst, _>(lst::ApmlLst(vec![
        lst::Token::Variable(def_lst()),
        lst::Token::Spacy(' '),
        lst::Token::Variable(def_lst()),
    ]));
    assert_emit_fail::<ApmlAst, _>(lst::ApmlLst(vec![
        lst::Token::Variable(def_lst()),
        lst::Token::Comment("a".into()),
        lst::Token::Spacy(' '),
        lst::Token::Variable(def_lst()),
    ]));
}

#[test]
fn test_variable_definition() {
    assert_emit_lower(
        lst::VariableDefinition {
            name: "test".into(),
            op: lst::VariableOp::Assignment,
            value: lst::VariableValue::String(text_lst()),
        },
        VariableDefinition {
            name: "test".into(),
            value: VariableValue::String(Box::new(text_ast())),
        },
        "test=\"foo\\$\\\\\"",
    );
    assert_emit_lower(
        lst::VariableDefinition {
            name: "test".into(),
            op: lst::VariableOp::Append,
            value: lst::VariableValue::String(text_lst()),
        },
        VariableDefinition {
            name: "test".into(),
            value: VariableValue::String(Box::new(Text(vec![
                Word::Variable(VariableExpansion {
                    name: "test".into(),
                    modifier: None,
                }),
                Word::Literal("foo$\\".into()),
            ]))),
        },
        "test=\"${test}foo\\$\\\\\"",
    );
    assert_emit_lower(
        lst::VariableDefinition {
            name: "test".into(),
            op: lst::VariableOp::Assignment,
            value: lst::VariableValue::Array(vec![lst::ArrayToken::Element(text_lst())]),
        },
        VariableDefinition {
            name: "test".into(),
            value: VariableValue::Array(vec![ArrayElement::Text(Box::new(text_ast()))]),
        },
        "test=(\"foo\\$\\\\\")",
    );
    assert_emit_lower(
        lst::VariableDefinition {
            name: "test".into(),
            op: lst::VariableOp::Append,
            value: lst::VariableValue::Array(vec![lst::ArrayToken::Element(text_lst())]),
        },
        VariableDefinition {
            name: "test".into(),
            value: VariableValue::Array(vec![
                ArrayElement::ArrayInclusion("test".into()),
                ArrayElement::Text(Box::new(text_ast())),
            ]),
        },
        "test=(\"${test[@]}\" \"foo\\$\\\\\")",
    );
}

#[test]
fn ast_test_variable_value() {
    assert_emit_lower(
        lst::VariableValue::String(text_lst()),
        VariableValue::String(Box::new(text_ast())),
        "\"foo\\$\\\\\"",
    );
    assert_emit_lower(
        lst::VariableValue::Array(vec![
            lst::ArrayToken::Element(text_lst()),
            lst::ArrayToken::Spacy(' '),
            lst::ArrayToken::Element(text_lst()),
            lst::ArrayToken::Comment("a".into()),
            lst::ArrayToken::Newline,
            lst::ArrayToken::Element(text_lst()),
        ]),
        VariableValue::Array(vec![
            ArrayElement::Text(Box::new(text_ast())),
            ArrayElement::Text(Box::new(text_ast())),
            ArrayElement::Text(Box::new(text_ast())),
        ]),
        "(\"foo\\$\\\\\" \"foo\\$\\\\\" \"foo\\$\\\\\")",
    );
    assert_emit_fail::<VariableValue, _>(lst::VariableValue::Array(vec![
        lst::ArrayToken::Element(text_lst()),
        lst::ArrayToken::Element(text_lst()),
    ]));
    assert_emit_fail::<VariableValue, _>(lst::VariableValue::Array(vec![
        lst::ArrayToken::Element(text_lst()),
        lst::ArrayToken::Comment("a".into()),
        lst::ArrayToken::Spacy(' '),
        lst::ArrayToken::Element(text_lst()),
    ]));
}

#[test]
fn ast_test_text() {
    assert_emit_lower(
        lst::Text(vec![
            lst::TextUnit::SingleQuote("test".into()),
            lst::TextUnit::DoubleQuote(vec![lst::Word::Literal(lst::LiteralPart::escape(
                "test$$",
            ))]),
        ]),
        Text(vec![
            Word::Literal("test".into()),
            Word::Literal("test$$".into()),
        ]),
        "\"testtest\\$\\$\"",
    );
}

#[test]
fn ast_test_word() {
    assert_emit_lower(
        lst::Word::Literal(lst::LiteralPart::escape("test$$")),
        Word::Literal("test$$".into()),
        "test\\$\\$",
    );
    assert_emit_lower(
        lst::Word::UnbracedVariable("a".into()),
        Word::Variable(VariableExpansion {
            name: "a".into(),
            modifier: None,
        }),
        "${a}",
    );
    assert_emit_lower(
        lst::Word::BracedVariable(lst::BracedExpansion {
            name: "a".into(),
            modifier: None,
        }),
        Word::Variable(VariableExpansion {
            name: "a".into(),
            modifier: None,
        }),
        "${a}",
    );
    assert_emit_lower(
        lst::Word::Subcommand(vec![
            lst::ArrayToken::Element(Box::new(lst::Text(vec![lst::TextUnit::SingleQuote(
                "true".into(),
            )]))),
            lst::ArrayToken::Spacy(' '),
            lst::ArrayToken::Element(Box::new(lst::Text(vec![lst::TextUnit::DoubleQuote(
                vec![
                    lst::Word::Literal(vec![lst::LiteralPart::String("foo$\\".into())]),
                    lst::Word::UnbracedVariable("asdf".into()),
                ],
            )]))),
        ]),
        Word::Subcommand("$('true' \"foo$\\$asdf\")".into()),
        "$('true' \"foo$\\$asdf\")",
    );
    assert_emit_lower(
        lst::Word::Literal(lst::LiteralPart::escape("test$$\n")),
        Word::Literal("test$$\n".into()),
        "test\\$\\$\n",
    );
    assert_emit_lower(
        lst::Word::Literal(vec![
            lst::LiteralPart::String("test".into()),
            lst::LiteralPart::LineContinuation,
            lst::LiteralPart::String("test\ntest".into()),
        ]),
        Word::Literal("testtest\ntest".into()),
        "testtest\ntest",
    );
}

#[test]
fn test_variable_expansion() {
    assert_emit_lower(
        lst::BracedExpansion {
            name: "test".into(),
            modifier: None,
        },
        VariableExpansion {
            name: "test".into(),
            modifier: None,
        },
        "test",
    );
    assert_emit_lower(
        lst::BracedExpansion {
            name: "test".into(),
            modifier: Some(lst::ExpansionModifier::Length),
        },
        VariableExpansion {
            name: "test".into(),
            modifier: Some(ExpansionModifier::Length),
        },
        "#test",
    );
    assert_emit_lower(
        lst::BracedExpansion {
            name: "test".into(),
            modifier: Some(lst::ExpansionModifier::ArrayElements),
        },
        VariableExpansion {
            name: "test".into(),
            modifier: None,
        },
        "test",
    );
    assert_emit_lower(
        lst::BracedExpansion {
            name: "test".into(),
            modifier: Some(lst::ExpansionModifier::SingleWordElements),
        },
        VariableExpansion {
            name: "test".into(),
            modifier: None,
        },
        "test",
    );
}

#[test]
fn ast_test_expansion_modifier() {
    assert_emit_lower(
        lst::ExpansionModifier::Substring {
            offset: "10".into(),
            length: None,
        },
        ExpansionModifier::Substring {
            offset: 10,
            length: None,
        },
        ":10",
    );
    assert_emit_fail::<ExpansionModifier, _>(lst::ExpansionModifier::Substring {
        offset: "".into(),
        length: None,
    });
    assert_emit_lower(
        lst::ExpansionModifier::Substring {
            offset: "-1".into(),
            length: None,
        },
        ExpansionModifier::Substring {
            offset: 0,
            length: None,
        },
        ":0",
    );
    assert_emit_lower(
        lst::ExpansionModifier::Substring {
            offset: "0".into(),
            length: Some("-10".into()),
        },
        ExpansionModifier::Substring {
            offset: 0,
            length: Some(-10),
        },
        ":0:-10",
    );
    assert_emit_lower(
        lst::ExpansionModifier::StripShortestPrefix(pattern()),
        ExpansionModifier::StripShortestPrefix(pattern()),
        "#1a*",
    );
    assert_emit_lower(
        lst::ExpansionModifier::StripLongestPrefix(pattern()),
        ExpansionModifier::StripLongestPrefix(pattern()),
        "##1a*",
    );
    assert_emit_lower(
        lst::ExpansionModifier::StripShortestSuffix(pattern()),
        ExpansionModifier::StripShortestSuffix(pattern()),
        "%1a*",
    );
    assert_emit_lower(
        lst::ExpansionModifier::StripLongestSuffix(pattern()),
        ExpansionModifier::StripLongestSuffix(pattern()),
        "%%1a*",
    );
    assert_emit_lower(
        lst::ExpansionModifier::ReplaceOnce {
            pattern: pattern(),
            string: None,
        },
        ExpansionModifier::ReplaceOnce {
            pattern: pattern(),
            string: Box::new(Text(vec![])),
        },
        "/1a*/\"\"",
    );
    assert_emit_lower(
        lst::ExpansionModifier::ReplaceOnce {
            pattern: pattern(),
            string: Some(text_lst()),
        },
        ExpansionModifier::ReplaceOnce {
            pattern: pattern(),
            string: Box::new(text_ast()),
        },
        "/1a*/\"foo\\$\\\\\"",
    );
    assert_emit_lower(
        lst::ExpansionModifier::ReplaceAll {
            pattern: pattern(),
            string: None,
        },
        ExpansionModifier::ReplaceAll {
            pattern: pattern(),
            string: Box::new(Text(vec![])),
        },
        "//1a*/\"\"",
    );
    assert_emit_lower(
        lst::ExpansionModifier::ReplaceAll {
            pattern: pattern(),
            string: Some(text_lst()),
        },
        ExpansionModifier::ReplaceAll {
            pattern: pattern(),
            string: Box::new(text_ast()),
        },
        "//1a*/\"foo\\$\\\\\"",
    );
    assert_emit_lower(
        lst::ExpansionModifier::ReplacePrefix {
            pattern: pattern(),
            string: None,
        },
        ExpansionModifier::ReplacePrefix {
            pattern: pattern(),
            string: Box::new(Text(vec![])),
        },
        "/#1a*/\"\"",
    );
    assert_emit_lower(
        lst::ExpansionModifier::ReplacePrefix {
            pattern: pattern(),
            string: Some(text_lst()),
        },
        ExpansionModifier::ReplacePrefix {
            pattern: pattern(),
            string: Box::new(text_ast()),
        },
        "/#1a*/\"foo\\$\\\\\"",
    );
    assert_emit_lower(
        lst::ExpansionModifier::ReplaceSuffix {
            pattern: pattern(),
            string: None,
        },
        ExpansionModifier::ReplaceSuffix {
            pattern: pattern(),
            string: Box::new(Text(vec![])),
        },
        "/%1a*/\"\"",
    );
    assert_emit_lower(
        lst::ExpansionModifier::ReplaceSuffix {
            pattern: pattern(),
            string: Some(text_lst()),
        },
        ExpansionModifier::ReplaceSuffix {
            pattern: pattern(),
            string: Box::new(text_ast()),
        },
        "/%1a*/\"foo\\$\\\\\"",
    );
    assert_emit_lower(
        lst::ExpansionModifier::UpperOnce(pattern()),
        ExpansionModifier::UpperOnce(pattern()),
        "^1a*",
    );
    assert_emit_lower(
        lst::ExpansionModifier::UpperAll(pattern()),
        ExpansionModifier::UpperAll(pattern()),
        "^^1a*",
    );
    assert_emit_lower(
        lst::ExpansionModifier::LowerOnce(pattern()),
        ExpansionModifier::LowerOnce(pattern()),
        ",1a*",
    );
    assert_emit_lower(
        lst::ExpansionModifier::LowerAll(pattern()),
        ExpansionModifier::LowerAll(pattern()),
        ",,1a*",
    );
    assert_emit_lower(
        lst::ExpansionModifier::ErrorOnUnset(text_lst()),
        ExpansionModifier::ErrorOnUnset(Box::new(text_ast())),
        ":?\"foo\\$\\\\\"",
    );
    assert_emit_lower(
        lst::ExpansionModifier::Length,
        ExpansionModifier::Length,
        "#",
    );
    assert_emit_lower(
        lst::ExpansionModifier::WhenUnset(text_lst()),
        ExpansionModifier::WhenUnset(Box::new(text_ast())),
        ":-\"foo\\$\\\\\"",
    );
    assert_emit_lower(
        lst::ExpansionModifier::WhenSet(text_lst()),
        ExpansionModifier::WhenSet(Box::new(text_ast())),
        ":+\"foo\\$\\\\\"",
    );
    assert_emit_fail::<ExpansionModifier, _>(lst::ExpansionModifier::ArrayElements);
    assert_emit_fail::<ExpansionModifier, _>(lst::ExpansionModifier::SingleWordElements);
}

#[test]
fn test_array_element() {
    assert_emit_lower(
        lst::ArrayToken::Element(Box::new(lst::Text(vec![lst::TextUnit::DoubleQuote(vec![
            lst::Word::BracedVariable(lst::BracedExpansion {
                name: "a".into(),
                modifier: Some(lst::ExpansionModifier::ArrayElements),
            }),
        ])]))),
        ArrayElement::ArrayInclusion("a".into()),
        "\"${a[@]}\"",
    );
    assert_emit_lower(
        lst::ArrayToken::Element(Box::new(lst::Text(vec![lst::TextUnit::SingleQuote(
            "a".into(),
        )]))),
        ArrayElement::Text(Box::new(Text(vec![Word::Literal("a".into())]))),
        "\"a\"",
    );
    assert_emit_fail::<ArrayElement, _>(lst::ArrayToken::Spacy(' '));
    assert_emit_fail::<ArrayElement, _>(lst::ArrayToken::Newline);
    assert_emit_fail::<ArrayElement, _>(lst::ArrayToken::Comment("a".into()));
}

