//! Abstract syntax tree representation of APML.
//!
//! The AST keeps only what affects the evaluated result: a list of variable
//! definitions. Spaces and comments are dropped, and different lexical forms
//! of the same content are unified (`"foo"` and `'foo'` are the same text).
//!
//! An AST is [emitted](AstNode::emit_from) from a parsed LST; an LST that is
//! not grammatically valid (a definition right after another on one line,
//! for example) gives an [`EmitError`]. An AST can be
//! [lowered](AstNode::lower) back into an LST.
//!
//! Each node has a model here (`Ast*`), and emitting and lowering are stated
//! over the models of [`super::model`] as `emit_*` and `lower_*`.

use vstd::prelude::*;

use super::lst;
use super::model as lm;
use super::model::{escape_parts, print_word, unescaped};
use super::pattern::{copy_pattern, BashPattern};
use crate::num::{
    decimal, format_isize, format_usize, parse_isize, parse_isize_spec, signed_decimal,
    trim_bounds, trimmed, IntErrorKind,
};
use crate::chars::{chars_of, push_char, push_string};

verus! {

/// Why an LST cannot be emitted as an AST.
#[derive(Clone, Copy, Debug, PartialEq, Eq, Structural)]
pub enum EmitError {
    /// The LST node has no AST form.
    Unrepresentable,
    /// A substring offset or length is not an integer.
    UnparsableInt(IntErrorKind),
    /// Two root elements stand on one line without a delimiter.
    MissingRootElementDelimiter,
    /// Two array elements stand without a delimiter.
    MissingArrayElementDelimiter,
}

/// AST nodes can be emitted from their LST form and lowered into it.
pub trait AstNode: Sized {
    type Lst;

    /// Emits an LST node as an AST node.
    fn emit_from(lst: &Self::Lst) -> Result<Self, EmitError>;

    /// Lowers an AST node into an LST node.
    fn lower(&self) -> Self::Lst;
}

// ---------------------------------------------------------------------
// Nodes
// ---------------------------------------------------------------------

/// An APML abstract syntax tree: the variable definitions in order.
#[derive(Debug, PartialEq, Eq)]
pub struct ApmlAst(pub Vec<VariableDefinition>);

/// A variable definition.
///
/// Appending definitions are desugared: `NAME+="VALUE"` becomes
/// `NAME="${NAME}VALUE"` and `NAME+=(VALUES)` becomes
/// `NAME=("${NAME[@]}" VALUES)`.
#[derive(Debug, PartialEq, Eq)]
pub struct VariableDefinition {
    /// Name of the variable.
    pub name: String,
    /// Value of the variable.
    pub value: VariableValue,
}

/// A variable value.
#[derive(Debug, PartialEq, Eq)]
pub enum VariableValue {
    /// A text value.
    String(Box<Text>),
    /// An array value.
    Array(Vec<ArrayElement>),
}

/// A text made of words.
#[derive(Debug, PartialEq, Eq)]
pub struct Text(pub Vec<Word>);

/// A part of a text.
///
/// Sub-commands are kept as their source text, literal parts are joined
/// into one string, and braced and unbraced expansions are unified.
#[derive(Debug, PartialEq, Eq)]
pub enum Word {
    /// A literal string.
    Literal(String),
    /// A variable expansion.
    Variable(VariableExpansion),
    /// A complete sub-command, including `$(` and `)`.
    Subcommand(String),
}

/// A variable expansion.
#[derive(Debug, PartialEq, Eq)]
pub struct VariableExpansion {
    /// Name of the variable.
    pub name: String,
    /// Modifier to apply to the expanded value.
    pub modifier: Option<ExpansionModifier>,
}

/// A modifier in a variable expansion.
#[derive(Debug, PartialEq, Eq)]
pub enum ExpansionModifier {
    /// Reference to a substring: from `offset`, `length` characters (to the
    /// end when absent, and up to `length` before the end when negative).
    Substring { offset: usize, length: Option<isize> },
    /// Stripping the shortest matching prefix.
    StripShortestPrefix(Box<BashPattern>),
    /// Stripping the longest matching prefix.
    StripLongestPrefix(Box<BashPattern>),
    /// Stripping the shortest matching suffix.
    StripShortestSuffix(Box<BashPattern>),
    /// Stripping the longest matching suffix.
    StripLongestSuffix(Box<BashPattern>),
    /// Replacing the first match of a pattern with a text.
    ReplaceOnce { pattern: Box<BashPattern>, string: Box<Text> },
    /// Replacing all matches of a pattern with a text.
    ReplaceAll { pattern: Box<BashPattern>, string: Box<Text> },
    /// Replacing a matching prefix with a text.
    ReplacePrefix { pattern: Box<BashPattern>, string: Box<Text> },
    /// Replacing a matching suffix with a text.
    ReplaceSuffix { pattern: Box<BashPattern>, string: Box<Text> },
    /// Upper-casing the first match of a pattern.
    UpperOnce(Box<BashPattern>),
    /// Upper-casing all matches of a pattern.
    UpperAll(Box<BashPattern>),
    /// Lower-casing the first match of a pattern.
    LowerOnce(Box<BashPattern>),
    /// Lower-casing all matches of a pattern.
    LowerAll(Box<BashPattern>),
    /// Failing when the variable is unset or empty.
    ErrorOnUnset(Box<Text>),
    /// The length of the value.
    Length,
    /// A text when the variable is unset or empty.
    WhenUnset(Box<Text>),
    /// A text when the variable is set.
    WhenSet(Box<Text>),
}

/// An element of an array.
#[derive(Debug, PartialEq, Eq)]
pub enum ArrayElement {
    /// All elements of another array (`"${NAME[@]}"`).
    ArrayInclusion(String),
    /// A text element.
    Text(Box<Text>),
}

// ---------------------------------------------------------------------
// Models
// ---------------------------------------------------------------------

pub struct AstModel(pub Seq<AstDefinition>);

pub struct AstDefinition {
    pub name: Seq<char>,
    pub value: AstValue,
}

pub enum AstValue {
    String(AstText),
    Array(Seq<AstElement>),
}

pub struct AstText(pub Seq<AstWord>);

pub enum AstWord {
    Literal(Seq<char>),
    Variable(AstExpansion),
    Subcommand(Seq<char>),
}

pub struct AstExpansion {
    pub name: Seq<char>,
    pub modifier: Option<AstModifier>,
}

pub enum AstModifier {
    Substring { offset: int, length: Option<int> },
    StripShortestPrefix(lm::BashPattern),
    StripLongestPrefix(lm::BashPattern),
    StripShortestSuffix(lm::BashPattern),
    StripLongestSuffix(lm::BashPattern),
    ReplaceOnce { pattern: lm::BashPattern, string: AstText },
    ReplaceAll { pattern: lm::BashPattern, string: AstText },
    ReplacePrefix { pattern: lm::BashPattern, string: AstText },
    ReplaceSuffix { pattern: lm::BashPattern, string: AstText },
    UpperOnce(lm::BashPattern),
    UpperAll(lm::BashPattern),
    LowerOnce(lm::BashPattern),
    LowerAll(lm::BashPattern),
    ErrorOnUnset(AstText),
    Length,
    WhenUnset(AstText),
    WhenSet(AstText),
}

pub enum AstElement {
    ArrayInclusion(Seq<char>),
    Text(AstText),
}

pub open spec fn view_defs(s: Seq<VariableDefinition>) -> Seq<AstDefinition>
    decreases s,
{
    if s.len() == 0 {
        Seq::empty()
    } else {
        view_defs(s.drop_last()).push(view_def(s.last()))
    }
}

pub open spec fn view_def(d: VariableDefinition) -> AstDefinition {
    AstDefinition { name: d.name@, value: view_value(d.value) }
}

pub open spec fn view_value(v: VariableValue) -> AstValue {
    match v {
        VariableValue::String(t) => AstValue::String(view_text(*t)),
        VariableValue::Array(es) => AstValue::Array(view_elems(es@)),
    }
}

pub open spec fn view_elems(s: Seq<ArrayElement>) -> Seq<AstElement>
    decreases s,
{
    if s.len() == 0 {
        Seq::empty()
    } else {
        view_elems(s.drop_last()).push(view_elem(s.last()))
    }
}

pub open spec fn view_elem(e: ArrayElement) -> AstElement {
    match e {
        ArrayElement::ArrayInclusion(n) => AstElement::ArrayInclusion(n@),
        ArrayElement::Text(t) => AstElement::Text(view_text(*t)),
    }
}

pub open spec fn view_text(t: Text) -> AstText
    decreases t,
{
    AstText(view_words(t.0@))
}

pub open spec fn view_words(s: Seq<Word>) -> Seq<AstWord>
    decreases s,
{
    if s.len() == 0 {
        Seq::empty()
    } else {
        view_words(s.drop_last()).push(view_word(s.last()))
    }
}

pub open spec fn view_word(w: Word) -> AstWord
    decreases w,
{
    match w {
        Word::Literal(t) => AstWord::Literal(t@),
        Word::Variable(e) => AstWord::Variable(view_expansion(e)),
        Word::Subcommand(t) => AstWord::Subcommand(t@),
    }
}

pub open spec fn view_expansion(e: VariableExpansion) -> AstExpansion
    decreases e,
{
    AstExpansion {
        name: e.name@,
        modifier: match e.modifier {
            Some(m) => Some(view_modifier(m)),
            None => None,
        },
    }
}

pub open spec fn view_modifier(m: ExpansionModifier) -> AstModifier
    decreases m,
{
    match m {
        ExpansionModifier::Substring { offset, length } => AstModifier::Substring {
            offset: offset as int,
            length: match length {
                Some(l) => Some(l as int),
                None => None,
            },
        },
        ExpansionModifier::StripShortestPrefix(p) => AstModifier::StripShortestPrefix(p@),
        ExpansionModifier::StripLongestPrefix(p) => AstModifier::StripLongestPrefix(p@),
        ExpansionModifier::StripShortestSuffix(p) => AstModifier::StripShortestSuffix(p@),
        ExpansionModifier::StripLongestSuffix(p) => AstModifier::StripLongestSuffix(p@),
        ExpansionModifier::ReplaceOnce { pattern, string } => AstModifier::ReplaceOnce {
            pattern: pattern@,
            string: view_text(*string),
        },
        ExpansionModifier::ReplaceAll { pattern, string } => AstModifier::ReplaceAll {
            pattern: pattern@,
            string: view_text(*string),
        },
        ExpansionModifier::ReplacePrefix { pattern, string } => AstModifier::ReplacePrefix {
            pattern: pattern@,
            string: view_text(*string),
        },
        ExpansionModifier::ReplaceSuffix { pattern, string } => AstModifier::ReplaceSuffix {
            pattern: pattern@,
            string: view_text(*string),
        },
        ExpansionModifier::UpperOnce(p) => AstModifier::UpperOnce(p@),
        ExpansionModifier::UpperAll(p) => AstModifier::UpperAll(p@),
        ExpansionModifier::LowerOnce(p) => AstModifier::LowerOnce(p@),
        ExpansionModifier::LowerAll(p) => AstModifier::LowerAll(p@),
        ExpansionModifier::ErrorOnUnset(t) => AstModifier::ErrorOnUnset(view_text(*t)),
        ExpansionModifier::Length => AstModifier::Length,
        ExpansionModifier::WhenUnset(t) => AstModifier::WhenUnset(view_text(*t)),
        ExpansionModifier::WhenSet(t) => AstModifier::WhenSet(view_text(*t)),
    }
}

impl View for ApmlAst {
    type V = AstModel;

    open spec fn view(&self) -> AstModel {
        AstModel(view_defs(self.0@))
    }
}

impl View for VariableDefinition {
    type V = AstDefinition;

    open spec fn view(&self) -> AstDefinition {
        view_def(*self)
    }
}

impl View for VariableValue {
    type V = AstValue;

    open spec fn view(&self) -> AstValue {
        view_value(*self)
    }
}

impl View for Text {
    type V = AstText;

    open spec fn view(&self) -> AstText {
        view_text(*self)
    }
}

impl View for Word {
    type V = AstWord;

    open spec fn view(&self) -> AstWord {
        view_word(*self)
    }
}

impl View for VariableExpansion {
    type V = AstExpansion;

    open spec fn view(&self) -> AstExpansion {
        view_expansion(*self)
    }
}

impl View for ExpansionModifier {
    type V = AstModifier;

    open spec fn view(&self) -> AstModifier {
        view_modifier(*self)
    }
}

impl View for ArrayElement {
    type V = AstElement;

    open spec fn view(&self) -> AstElement {
        view_elem(*self)
    }
}

// ---------------------------------------------------------------------
// Emitting, as a specification
// ---------------------------------------------------------------------

pub open spec fn emit_word(w: lm::Word) -> Result<AstWord, EmitError>
    decreases w,
{
    match w {
        lm::Word::Literal(parts) => Ok(AstWord::Literal(unescaped(parts))),
        lm::Word::UnbracedVariable(n) => Ok(AstWord::Variable(AstExpansion { name: n, modifier: None })),
        lm::Word::BracedVariable(b) => match emit_expansion(b) {
            Ok(e) => Ok(AstWord::Variable(e)),
            Err(x) => Err(x),
        },
        lm::Word::Subcommand(_) => Ok(AstWord::Subcommand(print_word(w))),
    }
}

pub open spec fn emit_words(ws: Seq<lm::Word>) -> Result<Seq<AstWord>, EmitError>
    decreases ws,
{
    if ws.len() == 0 {
        Ok(Seq::empty())
    } else {
        match emit_words(ws.drop_last()) {
            Err(e) => Err(e),
            Ok(r) => match emit_word(ws.last()) {
                Err(e) => Err(e),
                Ok(x) => Ok(r.push(x)),
            },
        }
    }
}

pub open spec fn emit_unit(u: lm::TextUnit) -> Result<Seq<AstWord>, EmitError>
    decreases u,
{
    match u {
        lm::TextUnit::Unquoted(ws) => emit_words(ws),
        lm::TextUnit::SingleQuote(t) => Ok(seq![AstWord::Literal(t)]),
        lm::TextUnit::DoubleQuote(ws) => emit_words(ws),
    }
}

pub open spec fn emit_units(us: Seq<lm::TextUnit>) -> Result<Seq<AstWord>, EmitError>
    decreases us,
{
    if us.len() == 0 {
        Ok(Seq::empty())
    } else {
        match emit_units(us.drop_last()) {
            Err(e) => Err(e),
            Ok(r) => match emit_unit(us.last()) {
                Err(e) => Err(e),
                Ok(x) => Ok(r + x),
            },
        }
    }
}

pub open spec fn emit_text(t: lm::Text) -> Result<AstText, EmitError>
    decreases t,
{
    match emit_units(t.0) {
        Ok(ws) => Ok(AstText(ws)),
        Err(e) => Err(e),
    }
}

pub open spec fn emit_expansion(b: lm::BracedExpansion) -> Result<AstExpansion, EmitError>
    decreases b,
{
    match b.modifier {
        None => Ok(AstExpansion { name: b.name, modifier: None }),
        Some(m) => if m is ArrayElements || m is SingleWordElements {
            Ok(AstExpansion { name: b.name, modifier: None })
        } else {
            match emit_modifier(m) {
                Ok(x) => Ok(AstExpansion { name: b.name, modifier: Some(x) }),
                Err(e) => Err(e),
            }
        },
    }
}

/// A substring offset or length: a decimal integer with white space around.
pub open spec fn emit_number(t: Seq<char>) -> Result<int, EmitError> {
    match parse_isize_spec(trimmed(t)) {
        Ok(v) => Ok(v),
        Err(k) => Err(EmitError::UnparsableInt(k)),
    }
}

pub open spec fn emit_opt_text(t: Option<lm::Text>) -> Result<AstText, EmitError>
    decreases t,
{
    match t {
        None => Ok(AstText(Seq::empty())),
        Some(t) => emit_text(t),
    }
}

pub open spec fn emit_modifier(m: lm::ExpansionModifier) -> Result<AstModifier, EmitError>
    decreases m,
{
    match m {
        lm::ExpansionModifier::Substring { offset, length } => match emit_number(offset) {
            Err(e) => Err(e),
            Ok(o) => {
                let off = if o < 0 {
                    0
                } else {
                    o
                };
                match length {
                    None => Ok(AstModifier::Substring { offset: off, length: None }),
                    Some(l) => match emit_number(l) {
                        Err(e) => Err(e),
                        Ok(v) => Ok(AstModifier::Substring { offset: off, length: Some(v) }),
                    },
                }
            },
        },
        lm::ExpansionModifier::StripShortestPrefix(p) => Ok(AstModifier::StripShortestPrefix(p)),
        lm::ExpansionModifier::StripLongestPrefix(p) => Ok(AstModifier::StripLongestPrefix(p)),
        lm::ExpansionModifier::StripShortestSuffix(p) => Ok(AstModifier::StripShortestSuffix(p)),
        lm::ExpansionModifier::StripLongestSuffix(p) => Ok(AstModifier::StripLongestSuffix(p)),
        lm::ExpansionModifier::ReplaceOnce { pattern, string } => match emit_opt_text(string) {
            Ok(t) => Ok(AstModifier::ReplaceOnce { pattern, string: t }),
            Err(e) => Err(e),
        },
        lm::ExpansionModifier::ReplaceAll { pattern, string } => match emit_opt_text(string) {
            Ok(t) => Ok(AstModifier::ReplaceAll { pattern, string: t }),
            Err(e) => Err(e),
        },
        lm::ExpansionModifier::ReplacePrefix { pattern, string } => match emit_opt_text(string) {
            Ok(t) => Ok(AstModifier::ReplacePrefix { pattern, string: t }),
            Err(e) => Err(e),
        },
        lm::ExpansionModifier::ReplaceSuffix { pattern, string } => match emit_opt_text(string) {
            Ok(t) => Ok(AstModifier::ReplaceSuffix { pattern, string: t }),
            Err(e) => Err(e),
        },
        lm::ExpansionModifier::UpperOnce(p) => Ok(AstModifier::UpperOnce(p)),
        lm::ExpansionModifier::UpperAll(p) => Ok(AstModifier::UpperAll(p)),
        lm::ExpansionModifier::LowerOnce(p) => Ok(AstModifier::LowerOnce(p)),
        lm::ExpansionModifier::LowerAll(p) => Ok(AstModifier::LowerAll(p)),
        lm::ExpansionModifier::ErrorOnUnset(t) => match emit_text(t) {
            Ok(x) => Ok(AstModifier::ErrorOnUnset(x)),
            Err(e) => Err(e),
        },
        lm::ExpansionModifier::Length => Ok(AstModifier::Length),
        lm::ExpansionModifier::WhenUnset(t) => match emit_text(t) {
            Ok(x) => Ok(AstModifier::WhenUnset(x)),
            Err(e) => Err(e),
        },
        lm::ExpansionModifier::WhenSet(t) => match emit_text(t) {
            Ok(x) => Ok(AstModifier::WhenSet(x)),
            Err(e) => Err(e),
        },
        lm::ExpansionModifier::ArrayElements => Err(EmitError::Unrepresentable),
        lm::ExpansionModifier::SingleWordElements => Err(EmitError::Unrepresentable),
    }
}

/// The array that an element text `"${NAME[@]}"` includes, if it is one.
pub open spec fn inclusion_name(t: lm::Text) -> Option<Seq<char>> {
    if t.0.len() == 1 {
        let ws = match t.0[0] {
            lm::TextUnit::Unquoted(ws) => ws,
            lm::TextUnit::DoubleQuote(ws) => ws,
            lm::TextUnit::SingleQuote(_) => Seq::empty(),
        };
        if ws.len() == 1 {
            match ws[0] {
                lm::Word::BracedVariable(b) => if b.modifier == Some(
                    lm::ExpansionModifier::ArrayElements,
                ) {
                    Some(b.name)
                } else {
                    None
                },
                _ => None,
            }
        } else {
            None
        }
    } else {
        None
    }
}

pub open spec fn emit_elem(t: lm::ArrayToken) -> Result<AstElement, EmitError> {
    match t {
        lm::ArrayToken::Element(text) => match inclusion_name(text) {
            Some(n) => Ok(AstElement::ArrayInclusion(n)),
            None => match emit_text(text) {
                Ok(x) => Ok(AstElement::Text(x)),
                Err(e) => Err(e),
            },
        },
        _ => Err(EmitError::Unrepresentable),
    }
}

/// Reading state between elements: ready for an element (0), after an
/// element (1), or in a comment until the next newline (2).
pub open spec fn emit_array_run(ts: Seq<lm::ArrayToken>) -> Result<(Seq<AstElement>, int), EmitError>
    decreases ts.len(),
{
    if ts.len() == 0 {
        Ok((Seq::empty(), 0))
    } else {
        match emit_array_run(ts.drop_last()) {
            Err(e) => Err(e),
            Ok((r, st)) => match ts.last() {
                lm::ArrayToken::Spacy(_) => Ok(
                    (
                        r,
                        if st == 2 {
                            2
                        } else {
                            0
                        },
                    ),
                ),
                lm::ArrayToken::Newline => Ok((r, 0)),
                lm::ArrayToken::Comment(_) => Ok((r, 2)),
                lm::ArrayToken::Element(_) => if st == 0 {
                    match emit_elem(ts.last()) {
                        Ok(x) => Ok((r.push(x), 1)),
                        Err(e) => Err(e),
                    }
                } else {
                    Err(EmitError::MissingArrayElementDelimiter)
                },
            },
        }
    }
}

pub open spec fn emit_value(v: lm::VariableValue) -> Result<AstValue, EmitError> {
    match v {
        lm::VariableValue::String(t) => match emit_text(t) {
            Ok(x) => Ok(AstValue::String(x)),
            Err(e) => Err(e),
        },
        lm::VariableValue::Array(ts) => match emit_array_run(ts) {
            Ok((es, _)) => Ok(AstValue::Array(es)),
            Err(e) => Err(e),
        },
    }
}

pub open spec fn emit_def(d: lm::VariableDefinition) -> Result<AstDefinition, EmitError> {
    match emit_value(d.value) {
        Err(e) => Err(e),
        Ok(v) => Ok(
            AstDefinition {
                name: d.name,
                value: match d.op {
                    lst::VariableOp::Assignment => v,
                    lst::VariableOp::Append => match v {
                        AstValue::String(t) => AstValue::String(
                            AstText(
                                seq![AstWord::Variable(AstExpansion { name: d.name, modifier: None })]
                                    + t.0,
                            ),
                        ),
                        AstValue::Array(es) => AstValue::Array(
                            seq![AstElement::ArrayInclusion(d.name)] + es,
                        ),
                    },
                },
            },
        ),
    }
}

/// Reading state between definitions: ready (0), after a definition (1), or
/// in a comment until the next newline (2).
pub open spec fn emit_defs_run(ts: Seq<lm::Token>) -> Result<(Seq<AstDefinition>, int), EmitError>
    decreases ts.len(),
{
    if ts.len() == 0 {
        Ok((Seq::empty(), 0))
    } else {
        match emit_defs_run(ts.drop_last()) {
            Err(e) => Err(e),
            Ok((r, st)) => match ts.last() {
                lm::Token::Spacy(_) => Ok((r, st)),
                lm::Token::Newline => Ok((r, 0)),
                lm::Token::Comment(_) => Ok((r, 2)),
                lm::Token::Variable(d) => if st == 0 {
                    match emit_def(d) {
                        Ok(x) => Ok((r.push(x), 1)),
                        Err(e) => Err(e),
                    }
                } else {
                    Err(EmitError::MissingRootElementDelimiter)
                },
            },
        }
    }
}

pub open spec fn emit_ast(l: lm::Lst) -> Result<AstModel, EmitError> {
    match emit_defs_run(l.0) {
        Ok((ds, _)) => Ok(AstModel(ds)),
        Err(e) => Err(e),
    }
}

// ---------------------------------------------------------------------
// Lowering, as a specification
// ---------------------------------------------------------------------

pub open spec fn lower_word(w: AstWord) -> lm::Word
    decreases w,
{
    match w {
        AstWord::Literal(t) => lm::Word::Literal(escape_parts(t)),
        AstWord::Variable(e) => lm::Word::BracedVariable(lower_expansion(e)),
        AstWord::Subcommand(t) => lm::Word::Literal(seq![lm::LiteralPart::String(t)]),
    }
}

pub open spec fn lower_words(ws: Seq<AstWord>) -> Seq<lm::Word>
    decreases ws,
{
    if ws.len() == 0 {
        Seq::empty()
    } else {
        lower_words(ws.drop_last()).push(lower_word(ws.last()))
    }
}

/// A text is lowered into one double-quoted unit.
pub open spec fn lower_text(t: AstText) -> lm::Text
    decreases t,
{
    lm::Text(seq![lm::TextUnit::DoubleQuote(lower_words(t.0))])
}

pub open spec fn lower_expansion(e: AstExpansion) -> lm::BracedExpansion
    decreases e,
{
    lm::BracedExpansion {
        name: e.name,
        modifier: match e.modifier {
            Some(m) => Some(lower_modifier(m)),
            None => None,
        },
    }
}

pub open spec fn lower_modifier(m: AstModifier) -> lm::ExpansionModifier
    decreases m,
{
    match m {
        AstModifier::Substring { offset, length } => lm::ExpansionModifier::Substring {
            offset: signed_decimal(offset),
            length: match length {
                Some(l) => Some(signed_decimal(l)),
                None => None,
            },
        },
        AstModifier::StripShortestPrefix(p) => lm::ExpansionModifier::StripShortestPrefix(p),
        AstModifier::StripLongestPrefix(p) => lm::ExpansionModifier::StripLongestPrefix(p),
        AstModifier::StripShortestSuffix(p) => lm::ExpansionModifier::StripShortestSuffix(p),
        AstModifier::StripLongestSuffix(p) => lm::ExpansionModifier::StripLongestSuffix(p),
        AstModifier::ReplaceOnce { pattern, string } => lm::ExpansionModifier::ReplaceOnce {
            pattern,
            string: Some(lower_text(string)),
        },
        AstModifier::ReplaceAll { pattern, string } => lm::ExpansionModifier::ReplaceAll {
            pattern,
            string: Some(lower_text(string)),
        },
        AstModifier::ReplacePrefix { pattern, string } => lm::ExpansionModifier::ReplacePrefix {
            pattern,
            string: Some(lower_text(string)),
        },
        AstModifier::ReplaceSuffix { pattern, string } => lm::ExpansionModifier::ReplaceSuffix {
            pattern,
            string: Some(lower_text(string)),
        },
        AstModifier::UpperOnce(p) => lm::ExpansionModifier::UpperOnce(p),
        AstModifier::UpperAll(p) => lm::ExpansionModifier::UpperAll(p),
        AstModifier::LowerOnce(p) => lm::ExpansionModifier::LowerOnce(p),
        AstModifier::LowerAll(p) => lm::ExpansionModifier::LowerAll(p),
        AstModifier::ErrorOnUnset(t) => lm::ExpansionModifier::ErrorOnUnset(lower_text(t)),
        AstModifier::Length => lm::ExpansionModifier::Length,
        AstModifier::WhenUnset(t) => lm::ExpansionModifier::WhenUnset(lower_text(t)),
        AstModifier::WhenSet(t) => lm::ExpansionModifier::WhenSet(lower_text(t)),
    }
}

/// The element text `"${NAME[@]}"`.
pub open spec fn inclusion_text(name: Seq<char>) -> lm::Text {
    lm::Text(
        seq![
            lm::TextUnit::DoubleQuote(
                seq![
                    lm::Word::BracedVariable(
                        lm::BracedExpansion {
                            name,
                            modifier: Some(lm::ExpansionModifier::ArrayElements),
                        },
                    ),
                ],
            ),
        ],
    )
}

pub open spec fn lower_elem(e: AstElement) -> lm::ArrayToken {
    match e {
        AstElement::ArrayInclusion(n) => lm::ArrayToken::Element(inclusion_text(n)),
        AstElement::Text(t) => lm::ArrayToken::Element(lower_text(t)),
    }
}

/// Elements separated by single spaces.
pub open spec fn lower_elems(es: Seq<AstElement>) -> Seq<lm::ArrayToken>
    decreases es.len(),
{
    if es.len() == 0 {
        Seq::empty()
    } else if es.len() == 1 {
        seq![lower_elem(es[0])]
    } else {
        lower_elems(es.drop_last()).push(lm::ArrayToken::Spacy(' ')).push(lower_elem(es.last()))
    }
}

pub open spec fn lower_value(v: AstValue) -> lm::VariableValue {
    match v {
        AstValue::String(t) => lm::VariableValue::String(lower_text(t)),
        AstValue::Array(es) => lm::VariableValue::Array(lower_elems(es)),
    }
}

pub open spec fn lower_def(d: AstDefinition) -> lm::VariableDefinition {
    lm::VariableDefinition {
        name: d.name,
        op: lst::VariableOp::Assignment,
        value: lower_value(d.value),
    }
}

/// Definitions separated by newlines.
pub open spec fn lower_defs(ds: Seq<AstDefinition>) -> Seq<lm::Token>
    decreases ds.len(),
{
    if ds.len() == 0 {
        Seq::empty()
    } else if ds.len() == 1 {
        seq![lm::Token::Variable(lower_def(ds[0]))]
    } else {
        lower_defs(ds.drop_last()).push(lm::Token::Newline).push(
            lm::Token::Variable(lower_def(ds.last())),
        )
    }
}

pub open spec fn lower_ast(a: AstModel) -> lm::Lst {
    lm::Lst(lower_defs(a.0))
}

// ---------------------------------------------------------------------
// Facts about views
// ---------------------------------------------------------------------

proof fn lemma_view_words_append(a: Seq<Word>, b: Seq<Word>)
    ensures
        view_words(a + b) == view_words(a) + view_words(b),
    decreases b.len(),
{
    if b.len() == 0 {
        assert(a + b =~= a);
        assert(view_words(a) + view_words(b) =~= view_words(a));
    } else {
        assert((a + b).drop_last() =~= a + b.drop_last());
        lemma_view_words_append(a, b.drop_last());
        assert(view_words(a + b) =~= view_words(a) + view_words(b));
    }
}

proof fn lemma_view_words_prepend(x: Word, b: Seq<Word>)
    ensures
        view_words(seq![x] + b) == seq![view_word(x)] + view_words(b),
{
    lemma_view_words_append(seq![x], b);
    lemma_view_words_push(Seq::<Word>::empty(), x);
    assert(Seq::<Word>::empty().push(x) =~= seq![x]);
}

proof fn lemma_view_elems_prepend(x: ArrayElement, b: Seq<ArrayElement>)
    ensures
        view_elems(seq![x] + b) == seq![view_elem(x)] + view_elems(b),
    decreases b.len(),
{
    if b.len() == 0 {
        assert(seq![x] + b =~= Seq::<ArrayElement>::empty().push(x));
        lemma_view_elems_push(Seq::<ArrayElement>::empty(), x);
        assert(seq![view_elem(x)] + view_elems(b) =~= seq![view_elem(x)]);
    } else {
        assert((seq![x] + b).drop_last() =~= seq![x] + b.drop_last());
        lemma_view_elems_prepend(x, b.drop_last());
        assert(view_elems(seq![x] + b) =~= seq![view_elem(x)] + view_elems(b));
    }
}

proof fn lemma_lst_words_take(s: Seq<lst::Word>, i: int)
    requires
        0 <= i < s.len(),
    ensures
        lst::view_words(s.take(i + 1)) == lst::view_words(s.take(i)).push(lst::view_word(s[i])),
{
    assert(s.take(i + 1).drop_last() =~= s.take(i));
    assert(s.take(i + 1).last() == s[i]);
}

proof fn lemma_lst_units_take(s: Seq<lst::TextUnit>, i: int)
    requires
        0 <= i < s.len(),
    ensures
        lst::view_units(s.take(i + 1)) == lst::view_units(s.take(i)).push(lst::view_unit(s[i])),
{
    assert(s.take(i + 1).drop_last() =~= s.take(i));
    assert(s.take(i + 1).last() == s[i]);
}

proof fn lemma_lst_atoks_take(s: Seq<lst::ArrayToken>, i: int)
    requires
        0 <= i < s.len(),
    ensures
        lst::view_atoks(s.take(i + 1)) == lst::view_atoks(s.take(i)).push(lst::view_atok(s[i])),
{
    assert(s.take(i + 1).drop_last() =~= s.take(i));
    assert(s.take(i + 1).last() == s[i]);
}

proof fn lemma_lst_tokens_take(s: Seq<lst::Token>, i: int)
    requires
        0 <= i < s.len(),
    ensures
        lst::view_tokens(s.take(i + 1)) == lst::view_tokens(s.take(i)).push(lst::view_token(s[i])),
{
    assert(s.take(i + 1).drop_last() =~= s.take(i));
    assert(s.take(i + 1).last() == s[i]);
}

pub(crate) proof fn lemma_emit_words_push(a: Seq<lm::Word>, w: lm::Word)
    ensures
        emit_words(a.push(w)) == match emit_words(a) {
            Err(e) => Err(e),
            Ok(r) => match emit_word(w) {
                Err(e) => Err(e),
                Ok(x) => Ok(r.push(x)),
            },
        },
{
    assert(a.push(w).drop_last() =~= a);
}

pub(crate) proof fn lemma_emit_units_push(a: Seq<lm::TextUnit>, u: lm::TextUnit)
    ensures
        emit_units(a.push(u)) == match emit_units(a) {
            Err(e) => Err(e),
            Ok(r) => match emit_unit(u) {
                Err(e) => Err(e),
                Ok(x) => Ok(r + x),
            },
        },
{
    assert(a.push(u).drop_last() =~= a);
}

pub(crate) proof fn lemma_emit_array_push(a: Seq<lm::ArrayToken>, t: lm::ArrayToken)
    ensures
        emit_array_run(a.push(t)) == match emit_array_run(a) {
            Err(e) => Err(e),
            Ok((r, st)) => match t {
                lm::ArrayToken::Spacy(_) => Ok(
                    (
                        r,
                        if st == 2 {
                            2int
                        } else {
                            0int
                        },
                    ),
                ),
                lm::ArrayToken::Newline => Ok((r, 0int)),
                lm::ArrayToken::Comment(_) => Ok((r, 2int)),
                lm::ArrayToken::Element(_) => if st == 0 {
                    match emit_elem(t) {
                        Ok(x) => Ok((r.push(x), 1int)),
                        Err(e) => Err(e),
                    }
                } else {
                    Err(EmitError::MissingArrayElementDelimiter)
                },
            },
        },
{
    assert(a.push(t).drop_last() =~= a);
}

pub(crate) proof fn lemma_emit_defs_push(a: Seq<lm::Token>, t: lm::Token)
    ensures
        emit_defs_run(a.push(t)) == match emit_defs_run(a) {
            Err(e) => Err(e),
            Ok((r, st)) => match t {
                lm::Token::Spacy(_) => Ok((r, st)),
                lm::Token::Newline => Ok((r, 0int)),
                lm::Token::Comment(_) => Ok((r, 2int)),
                lm::Token::Variable(d) => if st == 0 {
                    match emit_def(d) {
                        Ok(x) => Ok((r.push(x), 1int)),
                        Err(e) => Err(e),
                    }
                } else {
                    Err(EmitError::MissingRootElementDelimiter)
                },
            },
        },
{
    assert(a.push(t).drop_last() =~= a);
}

proof fn lemma_view_words_push(a: Seq<Word>, w: Word)
    ensures
        view_words(a.push(w)) == view_words(a).push(view_word(w)),
{
    assert(a.push(w).drop_last() =~= a);
}

proof fn lemma_view_elems_push(a: Seq<ArrayElement>, e: ArrayElement)
    ensures
        view_elems(a.push(e)) == view_elems(a).push(view_elem(e)),
{
    assert(a.push(e).drop_last() =~= a);
}

proof fn lemma_view_defs_push(a: Seq<VariableDefinition>, d: VariableDefinition)
    ensures
        view_defs(a.push(d)) == view_defs(a).push(view_def(d)),
{
    assert(a.push(d).drop_last() =~= a);
}

proof fn lemma_words_err(s: Seq<lst::Word>, k: int, n: int)
    requires
        0 <= k <= n <= s.len(),
        emit_words(lst::view_words(s.take(k))) is Err,
    ensures
        emit_words(lst::view_words(s.take(n))) == emit_words(lst::view_words(s.take(k))),
    decreases n - k,
{
    if n > k {
        lemma_words_err(s, k, n - 1);
        lemma_lst_words_take(s, n - 1);
        lemma_emit_words_push(lst::view_words(s.take(n - 1)), lst::view_word(s[n - 1]));
    }
}

proof fn lemma_units_err(s: Seq<lst::TextUnit>, k: int, n: int)
    requires
        0 <= k <= n <= s.len(),
        emit_units(lst::view_units(s.take(k))) is Err,
    ensures
        emit_units(lst::view_units(s.take(n))) == emit_units(lst::view_units(s.take(k))),
    decreases n - k,
{
    if n > k {
        lemma_units_err(s, k, n - 1);
        lemma_lst_units_take(s, n - 1);
        lemma_emit_units_push(lst::view_units(s.take(n - 1)), lst::view_unit(s[n - 1]));
    }
}

#[verifier::spinoff_prover]
proof fn lemma_array_err(s: Seq<lst::ArrayToken>, k: int, n: int)
    requires
        0 <= k <= n <= s.len(),
        emit_array_run(lst::view_atoks(s.take(k))) is Err,
    ensures
        emit_array_run(lst::view_atoks(s.take(n))) == emit_array_run(lst::view_atoks(s.take(k))),
    decreases n - k,
{
    if n > k {
        lemma_array_err(s, k, n - 1);
        lemma_lst_atoks_take(s, n - 1);
        lemma_emit_array_push(lst::view_atoks(s.take(n - 1)), lst::view_atok(s[n - 1]));
    }
}

#[verifier::spinoff_prover]
#[verifier::rlimit(30)]
proof fn lemma_defs_err(s: Seq<lst::Token>, k: int, n: int)
    requires
        0 <= k <= n <= s.len(),
        emit_defs_run(lst::view_tokens(s.take(k))) is Err,
    ensures
        emit_defs_run(lst::view_tokens(s.take(n))) == emit_defs_run(lst::view_tokens(s.take(k))),
    decreases n - k,
{
    if n > k {
        lemma_defs_err(s, k, n - 1);
        lemma_lst_tokens_take(s, n - 1);
        lemma_emit_defs_push(lst::view_tokens(s.take(n - 1)), lst::view_token(s[n - 1]));
    }
}

// ---------------------------------------------------------------------
// Emitting
// ---------------------------------------------------------------------

/// The text of literal parts with their escapes resolved.
fn emit_literal(parts: &Vec<lst::LiteralPart>) -> (res: String)
    ensures
        res@ == unescaped(lst::view_parts(parts@)),
{
    let ghost s = parts@;
    let mut out = String::new();
    let mut i: usize = 0;
    while i < parts.len()
        invariant
            s == parts@,
            0 <= i <= s.len(),
            out@ == unescaped(lst::view_parts(s.take(i as int))),
        decreases s.len() - i,
    {
        let ghost before = out@;
        match &parts[i] {
            lst::LiteralPart::String(t) => {
                push_string(&mut out, t.as_str());
            },
            lst::LiteralPart::Escaped(c) => {
                push_char(&mut out, *c);
            },
            lst::LiteralPart::LineContinuation => {},
        }
        proof {
            let a = lst::view_parts(s.take(i as int));
            let b = lst::view_parts(s.take(i + 1));
            assert(b =~= a.push(lst::view_part(s[i as int])));
            assert(b.drop_last() =~= a);
            assert(out@ =~= unescaped(b));
        }
        i = i + 1;
    }
    assert(s.take(s.len() as int) =~= s);
    out
}

fn emit_word_node(w: &lst::Word) -> (res: Result<Word, EmitError>)
    ensures
        match res {
            Ok(x) => emit_word(lst::view_word(*w)) == Ok::<AstWord, EmitError>(view_word(x)),
            Err(e) => emit_word(lst::view_word(*w)) == Err::<AstWord, EmitError>(e),
        },
    decreases w, 0int,
{
    match w {
        lst::Word::Literal(parts) => Ok(Word::Literal(emit_literal(parts))),
        lst::Word::UnbracedVariable(n) => Ok(
            Word::Variable(VariableExpansion { name: n.clone(), modifier: None }),
        ),
        lst::Word::BracedVariable(b) => match emit_expansion_node(b) {
            Ok(e) => Ok(Word::Variable(e)),
            Err(e) => Err(e),
        },
        lst::Word::Subcommand(_) => Ok(Word::Subcommand(w.to_string())),
    }
}

fn emit_words_node(ws: &Vec<lst::Word>) -> (res: Result<Vec<Word>, EmitError>)
    ensures
        match res {
            Ok(v) => emit_words(lst::view_words(ws@)) == Ok::<Seq<AstWord>, EmitError>(
                view_words(v@),
            ),
            Err(e) => emit_words(lst::view_words(ws@)) == Err::<Seq<AstWord>, EmitError>(e),
        },
    decreases ws, 0int,
{
    let ghost s = ws@;
    let mut out: Vec<Word> = Vec::new();
    let mut i: usize = 0;
    while i < ws.len()
        invariant
            s == ws@,
            0 <= i <= s.len(),
            emit_words(lst::view_words(s.take(i as int))) == Ok::<Seq<AstWord>, EmitError>(
                view_words(out@),
            ),
        decreases s.len() - i,
    {
        let ghost before = out@;
        proof {
            lemma_lst_words_take(s, i as int);
            lemma_emit_words_push(lst::view_words(s.take(i as int)), lst::view_word(s[i as int]));
        }
        match emit_word_node(&ws[i]) {
            Ok(x) => {
                out.push(x);
                proof {
                    lemma_view_words_push(before, x);
                }
            },
            Err(e) => {
                proof {
                    lemma_words_err(s, i + 1, s.len() as int);
                    assert(s.take(s.len() as int) =~= s);
                }
                return Err(e);
            },
        }
        i = i + 1;
    }
    assert(s.take(s.len() as int) =~= s);
    Ok(out)
}

fn emit_unit_node(u: &lst::TextUnit) -> (res: Result<Vec<Word>, EmitError>)
    ensures
        match res {
            Ok(v) => emit_unit(lst::view_unit(*u)) == Ok::<Seq<AstWord>, EmitError>(
                view_words(v@),
            ),
            Err(e) => emit_unit(lst::view_unit(*u)) == Err::<Seq<AstWord>, EmitError>(e),
        },
    decreases u, 0int,
{
    match u {
        lst::TextUnit::Unquoted(ws) => emit_words_node(ws),
        lst::TextUnit::SingleQuote(t) => {
            let mut v: Vec<Word> = Vec::new();
            v.push(Word::Literal(t.clone()));
            proof {
                lemma_view_words_push(Seq::<Word>::empty(), v@[0]);
                assert(v@ =~= Seq::<Word>::empty().push(v@[0]));
            }
            Ok(v)
        },
        lst::TextUnit::DoubleQuote(ws) => emit_words_node(ws),
    }
}

fn emit_text_node(t: &lst::Text) -> (res: Result<Text, EmitError>)
    ensures
        match res {
            Ok(x) => emit_text(lst::view_text(*t)) == Ok::<AstText, EmitError>(view_text(x)),
            Err(e) => emit_text(lst::view_text(*t)) == Err::<AstText, EmitError>(e),
        },
    decreases t, 0int,
{
    let ghost s = t.0@;
    let mut out: Vec<Word> = Vec::new();
    let mut i: usize = 0;
    while i < t.0.len()
        invariant
            s == t.0@,
            0 <= i <= s.len(),
            emit_units(lst::view_units(s.take(i as int))) == Ok::<Seq<AstWord>, EmitError>(
                view_words(out@),
            ),
        decreases s.len() - i,
    {
        assert(decreases_to!(t => t.0));
        let ghost before = out@;
        proof {
            lemma_lst_units_take(s, i as int);
            lemma_emit_units_push(lst::view_units(s.take(i as int)), lst::view_unit(s[i as int]));
        }
        match emit_unit_node(&t.0[i]) {
            Ok(more) => {
                let mut more = more;
                let ghost m = more@;
                out.append(&mut more);
                proof {
                    lemma_view_words_append(before, m);
                }
            },
            Err(e) => {
                proof {
                    lemma_units_err(s, i + 1, s.len() as int);
                    assert(s.take(s.len() as int) =~= s);
                }
                return Err(e);
            },
        }
        i = i + 1;
    }
    assert(s.take(s.len() as int) =~= s);
    Ok(Text(out))
}

fn emit_opt_text_node(t: &Option<Box<lst::Text>>) -> (res: Result<Text, EmitError>)
    ensures
        match res {
            Ok(x) => emit_opt_text(lst::view_opt_text(*t)) == Ok::<AstText, EmitError>(
                view_text(x),
            ),
            Err(e) => emit_opt_text(lst::view_opt_text(*t)) == Err::<AstText, EmitError>(e),
        },
    decreases t, 0int,
{
    match t {
        Some(b) => emit_text_node(b),
        None => {
            let v: Vec<Word> = Vec::new();
            assert(view_words(v@) =~= Seq::<AstWord>::empty());
            Ok(Text(v))
        },
    }
}

fn emit_number_node(t: &String) -> (res: Result<isize, EmitError>)
    ensures
        match res {
            Ok(v) => emit_number(t@) == Ok::<int, EmitError>(v as int),
            Err(e) => emit_number(t@) == Err::<int, EmitError>(e),
        },
{
    let cs = chars_of(t.as_str());
    let (a, b) = trim_bounds(&cs);
    match parse_isize(&cs, a, b) {
        Ok(v) => Ok(v),
        Err(k) => Err(EmitError::UnparsableInt(k)),
    }
}

fn emit_substring_node(offset: &String, length: &Option<String>) -> (res: Result<
    ExpansionModifier,
    EmitError,
>)
    ensures
        match res {
            Ok(x) => emit_modifier(
                lm::ExpansionModifier::Substring {
                    offset: offset@,
                    length: match length {
                        Some(l) => Some(l@),
                        None => None,
                    },
                },
            ) == Ok::<AstModifier, EmitError>(view_modifier(x)),
            Err(e) => emit_modifier(
                lm::ExpansionModifier::Substring {
                    offset: offset@,
                    length: match length {
                        Some(l) => Some(l@),
                        None => None,
                    },
                },
            ) == Err::<AstModifier, EmitError>(e),
        },
{
    let o = match emit_number_node(offset) {
        Ok(o) => o,
        Err(e) => {
            return Err(e);
        },
    };
    let off: usize = if o < 0 {
        0
    } else {
        o as usize
    };
    match length {
        None => Ok(ExpansionModifier::Substring { offset: off, length: None }),
        Some(l) => match emit_number_node(l) {
            Ok(v) => Ok(ExpansionModifier::Substring { offset: off, length: Some(v) }),
            Err(e) => Err(e),
        },
    }
}

fn emit_pattern_box(p: &Box<BashPattern>) -> (res: Box<BashPattern>)
    ensures
        (*res)@ == (**p)@,
{
    Box::new(copy_pattern(p))
}

fn emit_pattern_modifier_node(m: &lst::ExpansionModifier) -> (res: ExpansionModifier)
    requires
        m is StripShortestPrefix || m is StripLongestPrefix || m is StripShortestSuffix
            || m is StripLongestSuffix || m is UpperOnce || m is UpperAll || m is LowerOnce
            || m is LowerAll,
    ensures
        emit_modifier(lst::view_modifier(*m)) == Ok::<AstModifier, EmitError>(view_modifier(res)),
{
    match m {
        lst::ExpansionModifier::StripShortestPrefix(p) => ExpansionModifier::StripShortestPrefix(
            emit_pattern_box(p),
        ),
        lst::ExpansionModifier::StripLongestPrefix(p) => ExpansionModifier::StripLongestPrefix(
            emit_pattern_box(p),
        ),
        lst::ExpansionModifier::StripShortestSuffix(p) => ExpansionModifier::StripShortestSuffix(
            emit_pattern_box(p),
        ),
        lst::ExpansionModifier::StripLongestSuffix(p) => ExpansionModifier::StripLongestSuffix(
            emit_pattern_box(p),
        ),
        lst::ExpansionModifier::UpperOnce(p) => ExpansionModifier::UpperOnce(emit_pattern_box(p)),
        lst::ExpansionModifier::UpperAll(p) => ExpansionModifier::UpperAll(emit_pattern_box(p)),
        lst::ExpansionModifier::LowerOnce(p) => ExpansionModifier::LowerOnce(emit_pattern_box(p)),
        _ => {
            let p = match m {
                lst::ExpansionModifier::LowerAll(p) => p,
                _ => {
                    assert(false);
                    return ExpansionModifier::Length;
                },
            };
            ExpansionModifier::LowerAll(emit_pattern_box(p))
        },
    }
}

#[verifier::spinoff_prover]
#[verifier::rlimit(100)]
fn emit_replace_modifier_node(m: &lst::ExpansionModifier) -> (res: Result<
    ExpansionModifier,
    EmitError,
>)
    requires
        m is ReplaceOnce || m is ReplaceAll || m is ReplacePrefix || m is ReplaceSuffix,
    ensures
        match res {
            Ok(x) => emit_modifier(lst::view_modifier(*m)) == Ok::<AstModifier, EmitError>(
                view_modifier(x),
            ),
            Err(e) => emit_modifier(lst::view_modifier(*m)) == Err::<AstModifier, EmitError>(e),
        },
    decreases m, 0int,
{
    match m {
        lst::ExpansionModifier::ReplaceOnce { pattern, string } => match emit_opt_text_node(string) {
            Ok(t) => Ok(
                ExpansionModifier::ReplaceOnce { pattern: emit_pattern_box(pattern), string: Box::new(t) },
            ),
            Err(e) => Err(e),
        },
        lst::ExpansionModifier::ReplaceAll { pattern, string } => match emit_opt_text_node(string) {
            Ok(t) => Ok(
                ExpansionModifier::ReplaceAll { pattern: emit_pattern_box(pattern), string: Box::new(t) },
            ),
            Err(e) => Err(e),
        },
        lst::ExpansionModifier::ReplacePrefix { pattern, string } => match emit_opt_text_node(
            string,
        ) {
            Ok(t) => Ok(
                ExpansionModifier::ReplacePrefix {
                    pattern: emit_pattern_box(pattern),
                    string: Box::new(t),
                },
            ),
            Err(e) => Err(e),
        },
        lst::ExpansionModifier::ReplaceSuffix { pattern, string } => match emit_opt_text_node(
            string,
        ) {
            Ok(t) => Ok(
                ExpansionModifier::ReplaceSuffix {
                    pattern: emit_pattern_box(pattern),
                    string: Box::new(t),
                },
            ),
            Err(e) => Err(e),
        },
        _ => Err(EmitError::Unrepresentable),
    }
}

#[verifier::spinoff_prover]
#[verifier::rlimit(100)]
fn emit_text_modifier_node(m: &lst::ExpansionModifier) -> (res: Result<ExpansionModifier, EmitError>)
    requires
        m is ErrorOnUnset || m is WhenUnset || m is WhenSet,
    ensures
        match res {
            Ok(x) => emit_modifier(lst::view_modifier(*m)) == Ok::<AstModifier, EmitError>(
                view_modifier(x),
            ),
            Err(e) => emit_modifier(lst::view_modifier(*m)) == Err::<AstModifier, EmitError>(e),
        },
    decreases m, 0int,
{
    let t: &Box<lst::Text> = match m {
        lst::ExpansionModifier::ErrorOnUnset(t) => t,
        lst::ExpansionModifier::WhenUnset(t) => t,
        lst::ExpansionModifier::WhenSet(t) => t,
        _ => {
            return Err(EmitError::Unrepresentable);
        },
    };
    let ghost tv = lst::view_text(**t);
    assert(emit_modifier(lst::view_modifier(*m)) == match emit_text(tv) {
        Ok(x) => Ok(
            if m is ErrorOnUnset {
                AstModifier::ErrorOnUnset(x)
            } else if m is WhenUnset {
                AstModifier::WhenUnset(x)
            } else {
                AstModifier::WhenSet(x)
            },
        ),
        Err(e) => Err(e),
    });
    match emit_text_node(t) {
        Ok(x) => {
            let b = Box::new(x);
            let r = match m {
                lst::ExpansionModifier::ErrorOnUnset(_) => ExpansionModifier::ErrorOnUnset(b),
                lst::ExpansionModifier::WhenUnset(_) => ExpansionModifier::WhenUnset(b),
                _ => ExpansionModifier::WhenSet(b),
            };
            Ok(r)
        },
        Err(e) => Err(e),
    }
}

#[verifier::spinoff_prover]
#[verifier::rlimit(60)]
fn emit_modifier_node(m: &lst::ExpansionModifier) -> (res: Result<ExpansionModifier, EmitError>)
    ensures
        match res {
            Ok(x) => emit_modifier(lst::view_modifier(*m)) == Ok::<AstModifier, EmitError>(
                view_modifier(x),
            ),
            Err(e) => emit_modifier(lst::view_modifier(*m)) == Err::<AstModifier, EmitError>(e),
        },
    decreases m, 1int,
{
    match m {
        lst::ExpansionModifier::Substring { offset, length } => emit_substring_node(offset, length),
        lst::ExpansionModifier::ReplaceOnce { .. } => emit_replace_modifier_node(m),
        lst::ExpansionModifier::ReplaceAll { .. } => emit_replace_modifier_node(m),
        lst::ExpansionModifier::ReplacePrefix { .. } => emit_replace_modifier_node(m),
        lst::ExpansionModifier::ReplaceSuffix { .. } => emit_replace_modifier_node(m),
        lst::ExpansionModifier::ErrorOnUnset(_) => emit_text_modifier_node(m),
        lst::ExpansionModifier::WhenUnset(_) => emit_text_modifier_node(m),
        lst::ExpansionModifier::WhenSet(_) => emit_text_modifier_node(m),
        lst::ExpansionModifier::Length => Ok(ExpansionModifier::Length),
        lst::ExpansionModifier::ArrayElements => Err(EmitError::Unrepresentable),
        lst::ExpansionModifier::SingleWordElements => Err(EmitError::Unrepresentable),
        _ => Ok(emit_pattern_modifier_node(m)),
    }
}

fn emit_expansion_node(b: &lst::BracedExpansion) -> (res: Result<VariableExpansion, EmitError>)
    ensures
        match res {
            Ok(x) => emit_expansion(lst::view_braced(*b)) == Ok::<AstExpansion, EmitError>(
                view_expansion(x),
            ),
            Err(e) => emit_expansion(lst::view_braced(*b)) == Err::<AstExpansion, EmitError>(e),
        },
    decreases b, 0int,
{
    match &b.modifier {
        None => Ok(VariableExpansion { name: b.name.clone(), modifier: None }),
        Some(m) => match m {
            lst::ExpansionModifier::ArrayElements => Ok(
                VariableExpansion { name: b.name.clone(), modifier: None },
            ),
            lst::ExpansionModifier::SingleWordElements => Ok(
                VariableExpansion { name: b.name.clone(), modifier: None },
            ),
            _ => match emit_modifier_node(m) {
                Ok(x) => Ok(VariableExpansion { name: b.name.clone(), modifier: Some(x) }),
                Err(e) => Err(e),
            },
        },
    }
}

/// The array that an element text includes, if it is `"${NAME[@]}"`.
fn inclusion_of(t: &lst::Text) -> (res: Option<String>)
    ensures
        match res {
            Some(n) => inclusion_name(lst::view_text(*t)) == Some(n@),
            None => inclusion_name(lst::view_text(*t)) is None,
        },
{
    if t.0.len() != 1 {
        return None;
    }
    proof {
        lemma_lst_units_take(t.0@, 0);
        assert(t.0@.take(1) =~= t.0@);
        assert(t.0@.take(0) =~= Seq::<lst::TextUnit>::empty());
    }
    let ws = match &t.0[0] {
        lst::TextUnit::Unquoted(ws) => ws,
        lst::TextUnit::DoubleQuote(ws) => ws,
        lst::TextUnit::SingleQuote(_) => {
            return None;
        },
    };
    if ws.len() != 1 {
        return None;
    }
    proof {
        lemma_lst_words_take(ws@, 0);
        assert(ws@.take(1) =~= ws@);
        assert(ws@.take(0) =~= Seq::<lst::Word>::empty());
    }
    match &ws[0] {
        lst::Word::BracedVariable(b) => match &b.modifier {
            Some(lst::ExpansionModifier::ArrayElements) => Some(b.name.clone()),
            _ => None,
        },
        _ => None,
    }
}

fn emit_elem_node(tok: &lst::ArrayToken) -> (res: Result<ArrayElement, EmitError>)
    ensures
        match res {
            Ok(x) => emit_elem(lst::view_atok(*tok)) == Ok::<AstElement, EmitError>(view_elem(x)),
            Err(e) => emit_elem(lst::view_atok(*tok)) == Err::<AstElement, EmitError>(e),
        },
{
    match tok {
        lst::ArrayToken::Element(text) => match inclusion_of(text) {
            Some(n) => Ok(ArrayElement::ArrayInclusion(n)),
            None => match emit_text_node(text) {
                Ok(x) => Ok(ArrayElement::Text(Box::new(x))),
                Err(e) => Err(e),
            },
        },
        _ => Err(EmitError::Unrepresentable),
    }
}

fn emit_array_node(ts: &Vec<lst::ArrayToken>) -> (res: Result<Vec<ArrayElement>, EmitError>)
    ensures
        match res {
            Ok(v) => emit_array_run(lst::view_atoks(ts@)) is Ok && emit_array_run(
                lst::view_atoks(ts@),
            )->Ok_0.0 == view_elems(v@),
            Err(e) => emit_array_run(lst::view_atoks(ts@)) == Err::<(Seq<AstElement>, int), EmitError>(
                e,
            ),
        },
{
    let ghost s = ts@;
    let mut out: Vec<ArrayElement> = Vec::new();
    let mut state: u8 = 0;
    let mut i: usize = 0;
    while i < ts.len()
        invariant
            s == ts@,
            0 <= i <= s.len(),
            state <= 2,
            emit_array_run(lst::view_atoks(s.take(i as int))) == Ok::<
                (Seq<AstElement>, int),
                EmitError,
            >((view_elems(out@), state as int)),
        decreases s.len() - i,
    {
        let ghost before = out@;
        proof {
            lemma_lst_atoks_take(s, i as int);
            lemma_emit_array_push(lst::view_atoks(s.take(i as int)), lst::view_atok(s[i as int]));
        }
        match &ts[i] {
            lst::ArrayToken::Spacy(_) => {
                if state != 2 {
                    state = 0;
                }
            },
            lst::ArrayToken::Newline => {
                state = 0;
            },
            lst::ArrayToken::Comment(_) => {
                state = 2;
            },
            lst::ArrayToken::Element(_) => {
                if state == 0 {
                    match emit_elem_node(&ts[i]) {
                        Ok(x) => {
                            out.push(x);
                            proof {
                                lemma_view_elems_push(before, x);
                            }
                            state = 1;
                        },
                        Err(e) => {
                            proof {
                                lemma_array_err(s, i + 1, s.len() as int);
                                assert(s.take(s.len() as int) =~= s);
                            }
                            return Err(e);
                        },
                    }
                } else {
                    proof {
                        lemma_array_err(s, i + 1, s.len() as int);
                        assert(s.take(s.len() as int) =~= s);
                    }
                    return Err(EmitError::MissingArrayElementDelimiter);
                }
            },
        }
        i = i + 1;
    }
    assert(s.take(s.len() as int) =~= s);
    Ok(out)
}

fn emit_value_node(v: &lst::VariableValue) -> (res: Result<VariableValue, EmitError>)
    ensures
        match res {
            Ok(x) => emit_value(lst::view_value(*v)) == Ok::<AstValue, EmitError>(view_value(x)),
            Err(e) => emit_value(lst::view_value(*v)) == Err::<AstValue, EmitError>(e),
        },
{
    match v {
        lst::VariableValue::String(t) => match emit_text_node(t) {
            Ok(x) => Ok(VariableValue::String(Box::new(x))),
            Err(e) => Err(e),
        },
        lst::VariableValue::Array(ts) => match emit_array_node(ts) {
            Ok(es) => Ok(VariableValue::Array(es)),
            Err(e) => Err(e),
        },
    }
}

fn emit_def_node(d: &lst::VariableDefinition) -> (res: Result<VariableDefinition, EmitError>)
    ensures
        match res {
            Ok(x) => emit_def(lst::view_def(*d)) == Ok::<AstDefinition, EmitError>(view_def(x)),
            Err(e) => emit_def(lst::view_def(*d)) == Err::<AstDefinition, EmitError>(e),
        },
{
    let value = match emit_value_node(&d.value) {
        Ok(v) => v,
        Err(e) => {
            return Err(e);
        },
    };
    let value = match d.op {
        lst::VariableOp::Assignment => value,
        lst::VariableOp::Append => match value {
            VariableValue::String(text) => {
                let mut words = text.0;
                let ghost before = words@;
                let w = Word::Variable(VariableExpansion { name: d.name.clone(), modifier: None });
                words.insert(0, w);
                proof {
                    assert(words@ =~= seq![w] + before);
                    lemma_view_words_prepend(w, before);
                }
                VariableValue::String(Box::new(Text(words)))
            },
            VariableValue::Array(elements) => {
                let mut elements = elements;
                let ghost before = elements@;
                let e = ArrayElement::ArrayInclusion(d.name.clone());
                elements.insert(0, e);
                proof {
                    assert(elements@ =~= seq![e] + before);
                    lemma_view_elems_prepend(e, before);
                }
                VariableValue::Array(elements)
            },
        },
    };
    Ok(VariableDefinition { name: d.name.clone(), value })
}

#[verifier::spinoff_prover]
#[verifier::rlimit(60)]
fn emit_ast_node(l: &lst::ApmlLst) -> (res: Result<ApmlAst, EmitError>)
    ensures
        match res {
            Ok(x) => emit_ast(l@) == Ok::<AstModel, EmitError>(x@),
            Err(e) => emit_ast(l@) == Err::<AstModel, EmitError>(e),
        },
{
    let ghost s = l.0@;
    let mut out: Vec<VariableDefinition> = Vec::new();
    let mut state: u8 = 0;
    let mut i: usize = 0;
    while i < l.0.len()
        invariant
            s == l.0@,
            0 <= i <= s.len(),
            state <= 2,
            emit_defs_run(lst::view_tokens(s.take(i as int))) == Ok::<
                (Seq<AstDefinition>, int),
                EmitError,
            >((view_defs(out@), state as int)),
        decreases s.len() - i,
    {
        let ghost before = out@;
        proof {
            lemma_lst_tokens_take(s, i as int);
            lemma_emit_defs_push(lst::view_tokens(s.take(i as int)), lst::view_token(s[i as int]));
        }
        match &l.0[i] {
            lst::Token::Spacy(_) => {},
            lst::Token::Newline => {
                state = 0;
            },
            lst::Token::Comment(_) => {
                state = 2;
            },
            lst::Token::Variable(def) => {
                if state == 0 {
                    match emit_def_node(def) {
                        Ok(x) => {
                            out.push(x);
                            proof {
                                lemma_view_defs_push(before, x);
                            }
                            state = 1;
                        },
                        Err(e) => {
                            proof {
                                lemma_defs_err(s, i + 1, s.len() as int);
                                assert(s.take(s.len() as int) =~= s);
                            }
                            return Err(e);
                        },
                    }
                } else {
                    proof {
                        lemma_defs_err(s, i + 1, s.len() as int);
                        assert(s.take(s.len() as int) =~= s);
                    }
                    return Err(EmitError::MissingRootElementDelimiter);
                }
            },
        }
        i = i + 1;
    }
    assert(s.take(s.len() as int) =~= s);
    Ok(ApmlAst(out))
}

// ---------------------------------------------------------------------
// Lowering
// ---------------------------------------------------------------------

proof fn lemma_lst_words_push(a: Seq<lst::Word>, w: lst::Word)
    ensures
        lst::view_words(a.push(w)) == lst::view_words(a).push(lst::view_word(w)),
{
    assert(a.push(w).drop_last() =~= a);
}

proof fn lemma_lst_units_push(a: Seq<lst::TextUnit>, u: lst::TextUnit)
    ensures
        lst::view_units(a.push(u)) == lst::view_units(a).push(lst::view_unit(u)),
{
    assert(a.push(u).drop_last() =~= a);
}

proof fn lemma_lst_atoks_push(a: Seq<lst::ArrayToken>, t: lst::ArrayToken)
    ensures
        lst::view_atoks(a.push(t)) == lst::view_atoks(a).push(lst::view_atok(t)),
{
    assert(a.push(t).drop_last() =~= a);
}

proof fn lemma_lst_tokens_push(a: Seq<lst::Token>, t: lst::Token)
    ensures
        lst::view_tokens(a.push(t)) == lst::view_tokens(a).push(lst::view_token(t)),
{
    assert(a.push(t).drop_last() =~= a);
}

pub(crate) proof fn lemma_lower_words_push(a: Seq<AstWord>, w: AstWord)
    ensures
        lower_words(a.push(w)) == lower_words(a).push(lower_word(w)),
{
    assert(a.push(w).drop_last() =~= a);
}

pub(crate) proof fn lemma_view_words_take(s: Seq<Word>, i: int)
    requires
        0 <= i < s.len(),
    ensures
        view_words(s.take(i + 1)) == view_words(s.take(i)).push(view_word(s[i])),
{
    assert(s.take(i + 1).drop_last() =~= s.take(i));
    assert(s.take(i + 1).last() == s[i]);
}

pub(crate) proof fn lemma_view_elems_take(s: Seq<ArrayElement>, i: int)
    requires
        0 <= i < s.len(),
    ensures
        view_elems(s.take(i + 1)) == view_elems(s.take(i)).push(view_elem(s[i])),
{
    assert(s.take(i + 1).drop_last() =~= s.take(i));
    assert(s.take(i + 1).last() == s[i]);
}

pub(crate) proof fn lemma_view_defs_take(s: Seq<VariableDefinition>, i: int)
    requires
        0 <= i < s.len(),
    ensures
        view_defs(s.take(i + 1)) == view_defs(s.take(i)).push(view_def(s[i])),
{
    assert(s.take(i + 1).drop_last() =~= s.take(i));
    assert(s.take(i + 1).last() == s[i]);
}

fn lower_word_node(w: &Word) -> (res: lst::Word)
    ensures
        lst::view_word(res) == lower_word(view_word(*w)),
    decreases w, 0int,
{
    match w {
        Word::Literal(t) => lst::Word::Literal(lst::LiteralPart::escape(t.as_str())),
        Word::Variable(e) => lst::Word::BracedVariable(lower_expansion_node(e)),
        Word::Subcommand(t) => {
            let mut parts: Vec<lst::LiteralPart> = Vec::new();
            parts.push(lst::LiteralPart::String(t.clone()));
            assert(lst::view_parts(parts@) =~= seq![lm::LiteralPart::String(t@)]);
            lst::Word::Literal(parts)
        },
    }
}

fn lower_words_node(ws: &Vec<Word>) -> (res: Vec<lst::Word>)
    ensures
        lst::view_words(res@) == lower_words(view_words(ws@)),
    decreases ws, 0int,
{
    let ghost s = ws@;
    let mut out: Vec<lst::Word> = Vec::new();
    let mut i: usize = 0;
    while i < ws.len()
        invariant
            s == ws@,
            0 <= i <= s.len(),
            lst::view_words(out@) == lower_words(view_words(s.take(i as int))),
        decreases s.len() - i,
    {
        let x = lower_word_node(&ws[i]);
        let ghost before = out@;
        out.push(x);
        proof {
            lemma_lst_words_push(before, x);
            lemma_view_words_take(s, i as int);
            lemma_lower_words_push(view_words(s.take(i as int)), view_word(s[i as int]));
        }
        i = i + 1;
    }
    assert(s.take(s.len() as int) =~= s);
    out
}

fn lower_text_node(t: &Text) -> (res: lst::Text)
    ensures
        lst::view_text(res) == lower_text(view_text(*t)),
    decreases t, 0int,
{
    assert(decreases_to!(t => t.0));
    let ws = lower_words_node(&t.0);
    let mut units: Vec<lst::TextUnit> = Vec::new();
    units.push(lst::TextUnit::DoubleQuote(ws));
    proof {
        lemma_lst_units_push(Seq::<lst::TextUnit>::empty(), units@[0]);
        assert(units@ =~= Seq::<lst::TextUnit>::empty().push(units@[0]));
        assert(lst::view_units(units@) =~= seq![lm::TextUnit::DoubleQuote(lst::view_words(ws@))]);
    }
    lst::Text(units)
}

fn copy_pattern_box(p: &Box<BashPattern>) -> (res: Box<BashPattern>)
    ensures
        (*res)@ == (**p)@,
{
    Box::new(copy_pattern(p))
}

#[verifier::spinoff_prover]
#[verifier::rlimit(100)]
fn lower_modifier_node(m: &ExpansionModifier) -> (res: lst::ExpansionModifier)
    ensures
        lst::view_modifier(res) == lower_modifier(view_modifier(*m)),
    decreases m, 0int,
{
    match m {
        ExpansionModifier::Substring { offset, length } => {
            let o = format_usize(*offset);
            let l = match length {
                Some(v) => Some(format_isize(*v)),
                None => None,
            };
            lst::ExpansionModifier::Substring { offset: o, length: l }
        },
        ExpansionModifier::StripShortestPrefix(p) => lst::ExpansionModifier::StripShortestPrefix(
            copy_pattern_box(p),
        ),
        ExpansionModifier::StripLongestPrefix(p) => lst::ExpansionModifier::StripLongestPrefix(
            copy_pattern_box(p),
        ),
        ExpansionModifier::StripShortestSuffix(p) => lst::ExpansionModifier::StripShortestSuffix(
            copy_pattern_box(p),
        ),
        ExpansionModifier::StripLongestSuffix(p) => lst::ExpansionModifier::StripLongestSuffix(
            copy_pattern_box(p),
        ),
        ExpansionModifier::ReplaceOnce { pattern, string } => lst::ExpansionModifier::ReplaceOnce {
            pattern: copy_pattern_box(pattern),
            string: Some(Box::new(lower_text_node(string))),
        },
        ExpansionModifier::ReplaceAll { pattern, string } => lst::ExpansionModifier::ReplaceAll {
            pattern: copy_pattern_box(pattern),
            string: Some(Box::new(lower_text_node(string))),
        },
        ExpansionModifier::ReplacePrefix { pattern, string } => lst::ExpansionModifier::ReplacePrefix {
            pattern: copy_pattern_box(pattern),
            string: Some(Box::new(lower_text_node(string))),
        },
        ExpansionModifier::ReplaceSuffix { pattern, string } => lst::ExpansionModifier::ReplaceSuffix {
            pattern: copy_pattern_box(pattern),
            string: Some(Box::new(lower_text_node(string))),
        },
        ExpansionModifier::UpperOnce(p) => lst::ExpansionModifier::UpperOnce(copy_pattern_box(p)),
        ExpansionModifier::UpperAll(p) => lst::ExpansionModifier::UpperAll(copy_pattern_box(p)),
        ExpansionModifier::LowerOnce(p) => lst::ExpansionModifier::LowerOnce(copy_pattern_box(p)),
        ExpansionModifier::LowerAll(p) => lst::ExpansionModifier::LowerAll(copy_pattern_box(p)),
        ExpansionModifier::ErrorOnUnset(t) => lst::ExpansionModifier::ErrorOnUnset(Box::new(lower_text_node(t))),
        ExpansionModifier::Length => lst::ExpansionModifier::Length,
        ExpansionModifier::WhenUnset(t) => lst::ExpansionModifier::WhenUnset(Box::new(lower_text_node(t))),
        ExpansionModifier::WhenSet(t) => lst::ExpansionModifier::WhenSet(Box::new(lower_text_node(t))),
    }
}

fn lower_expansion_node(e: &VariableExpansion) -> (res: lst::BracedExpansion)
    ensures
        lst::view_braced(res) == lower_expansion(view_expansion(*e)),
    decreases e, 0int,
{
    let modifier = match &e.modifier {
        Some(m) => Some(lower_modifier_node(m)),
        None => None,
    };
    lst::BracedExpansion { name: e.name.clone(), modifier }
}

fn lower_elem_node(e: &ArrayElement) -> (res: lst::ArrayToken)
    ensures
        lst::view_atok(res) == lower_elem(view_elem(*e)),
{
    match e {
        ArrayElement::ArrayInclusion(n) => {
            let b = lst::BracedExpansion {
                name: n.clone(),
                modifier: Some(lst::ExpansionModifier::ArrayElements),
            };
            let mut words: Vec<lst::Word> = Vec::new();
            words.push(lst::Word::BracedVariable(b));
            let mut units: Vec<lst::TextUnit> = Vec::new();
            units.push(lst::TextUnit::DoubleQuote(words));
            proof {
                lemma_lst_words_push(Seq::<lst::Word>::empty(), words@[0]);
                assert(words@ =~= Seq::<lst::Word>::empty().push(words@[0]));
                lemma_lst_units_push(Seq::<lst::TextUnit>::empty(), units@[0]);
                assert(units@ =~= Seq::<lst::TextUnit>::empty().push(units@[0]));
            }
            lst::ArrayToken::Element(Box::new(lst::Text(units)))
        },
        ArrayElement::Text(t) => lst::ArrayToken::Element(Box::new(lower_text_node(t))),
    }
}

fn lower_elems_node(es: &Vec<ArrayElement>) -> (res: Vec<lst::ArrayToken>)
    ensures
        lst::view_atoks(res@) == lower_elems(view_elems(es@)),
{
    let ghost s = es@;
    let mut out: Vec<lst::ArrayToken> = Vec::new();
    let mut i: usize = 0;
    while i < es.len()
        invariant
            s == es@,
            0 <= i <= s.len(),
            lst::view_atoks(out@) == lower_elems(view_elems(s.take(i as int))),
            i == 0 ==> out@.len() == 0,
        decreases s.len() - i,
    {
        let ghost before = out@;
        let ghost vb = view_elems(s.take(i as int));
        proof {
            lemma_view_elems_take(s, i as int);
        }
        let ghost va = view_elems(s.take(i + 1));
        if i > 0 {
            out.push(lst::ArrayToken::Spacy(' '));
        }
        let x = lower_elem_node(&es[i]);
        out.push(x);
        proof {
            assert(va.drop_last() =~= vb);
            if i == 0 {
                assert(vb.len() == 0);
                assert(out@ =~= Seq::<lst::ArrayToken>::empty().push(x));
                lemma_lst_atoks_push(Seq::<lst::ArrayToken>::empty(), x);
                assert(lst::view_atoks(out@) =~= seq![lst::view_atok(x)]);
            } else {
                assert(out@.drop_last().drop_last() =~= before);
                assert(out@.drop_last() =~= before.push(lst::ArrayToken::Spacy(' ')));
                lemma_lst_atoks_push(before, lst::ArrayToken::Spacy(' '));
                lemma_lst_atoks_push(before.push(lst::ArrayToken::Spacy(' ')), x);
                assert(out@ =~= before.push(lst::ArrayToken::Spacy(' ')).push(x));
            }
        }
        i = i + 1;
    }
    assert(s.take(s.len() as int) =~= s);
    out
}

fn lower_value_node(v: &VariableValue) -> (res: lst::VariableValue)
    ensures
        lst::view_value(res) == lower_value(view_value(*v)),
{
    match v {
        VariableValue::String(t) => lst::VariableValue::String(Box::new(lower_text_node(t))),
        VariableValue::Array(es) => lst::VariableValue::Array(lower_elems_node(es)),
    }
}

fn lower_def_node(d: &VariableDefinition) -> (res: lst::VariableDefinition)
    ensures
        lst::view_def(res) == lower_def(view_def(*d)),
{
    lst::VariableDefinition {
        name: d.name.clone(),
        op: lst::VariableOp::Assignment,
        value: lower_value_node(&d.value),
    }
}

fn lower_ast_node(a: &ApmlAst) -> (res: lst::ApmlLst)
    ensures
        res@ == lower_ast(a@),
{
    let ghost s = a.0@;
    let mut out: Vec<lst::Token> = Vec::new();
    let mut i: usize = 0;
    while i < a.0.len()
        invariant
            s == a.0@,
            0 <= i <= s.len(),
            lst::view_tokens(out@) == lower_defs(view_defs(s.take(i as int))),
            i == 0 ==> out@.len() == 0,
        decreases s.len() - i,
    {
        let ghost before = out@;
        let ghost vb = view_defs(s.take(i as int));
        proof {
            lemma_view_defs_take(s, i as int);
        }
        let ghost va = view_defs(s.take(i + 1));
        if i > 0 {
            out.push(lst::Token::Newline);
        }
        let x = lst::Token::Variable(lower_def_node(&a.0[i]));
        out.push(x);
        proof {
            assert(va.drop_last() =~= vb);
            if i == 0 {
                assert(vb.len() == 0);
                assert(out@ =~= Seq::<lst::Token>::empty().push(x));
                lemma_lst_tokens_push(Seq::<lst::Token>::empty(), x);
                assert(lst::view_tokens(out@) =~= seq![lst::view_token(x)]);
            } else {
                assert(out@.drop_last().drop_last() =~= before);
                assert(out@.drop_last() =~= before.push(lst::Token::Newline));
                lemma_lst_tokens_push(before, lst::Token::Newline);
                lemma_lst_tokens_push(before.push(lst::Token::Newline), x);
                assert(out@ =~= before.push(lst::Token::Newline).push(x));
            }
        }
        i = i + 1;
    }
    assert(s.take(s.len() as int) =~= s);
    lst::ApmlLst(out)
}

// ---------------------------------------------------------------------
// The node trait
// ---------------------------------------------------------------------

impl AstNode for ApmlAst {
    type Lst = lst::ApmlLst;

    fn emit_from(lst: &lst::ApmlLst) -> (res: Result<ApmlAst, EmitError>)
        ensures
            match res {
                Ok(x) => emit_ast(lst@) == Ok::<AstModel, EmitError>(x@),
                Err(e) => emit_ast(lst@) == Err::<AstModel, EmitError>(e),
            },
    {
        emit_ast_node(lst)
    }

    fn lower(&self) -> (res: lst::ApmlLst)
        ensures
            res@ == lower_ast(self@),
    {
        lower_ast_node(self)
    }
}

impl AstNode for VariableDefinition {
    type Lst = lst::VariableDefinition;

    fn emit_from(lst: &lst::VariableDefinition) -> (res: Result<VariableDefinition, EmitError>)
        ensures
            match res {
                Ok(x) => emit_def(lst::view_def(*lst)) == Ok::<AstDefinition, EmitError>(x@),
                Err(e) => emit_def(lst::view_def(*lst)) == Err::<AstDefinition, EmitError>(e),
            },
    {
        emit_def_node(lst)
    }

    fn lower(&self) -> (res: lst::VariableDefinition)
        ensures
            lst::view_def(res) == lower_def(self@),
    {
        lower_def_node(self)
    }
}

impl AstNode for VariableValue {
    type Lst = lst::VariableValue;

    fn emit_from(lst: &lst::VariableValue) -> (res: Result<VariableValue, EmitError>)
        ensures
            match res {
                Ok(x) => emit_value(lst@) == Ok::<AstValue, EmitError>(x@),
                Err(e) => emit_value(lst@) == Err::<AstValue, EmitError>(e),
            },
    {
        emit_value_node(lst)
    }

    fn lower(&self) -> (res: lst::VariableValue)
        ensures
            res@ == lower_value(self@),
    {
        lower_value_node(self)
    }
}

impl AstNode for Text {
    type Lst = lst::Text;

    fn emit_from(lst: &lst::Text) -> (res: Result<Text, EmitError>)
        ensures
            match res {
                Ok(x) => emit_text(lst@) == Ok::<AstText, EmitError>(x@),
                Err(e) => emit_text(lst@) == Err::<AstText, EmitError>(e),
            },
    {
        emit_text_node(lst)
    }

    fn lower(&self) -> (res: lst::Text)
        ensures
            res@ == lower_text(self@),
    {
        lower_text_node(self)
    }
}

impl AstNode for Word {
    type Lst = lst::Word;

    fn emit_from(lst: &lst::Word) -> (res: Result<Word, EmitError>)
        ensures
            match res {
                Ok(x) => emit_word(lst@) == Ok::<AstWord, EmitError>(x@),
                Err(e) => emit_word(lst@) == Err::<AstWord, EmitError>(e),
            },
    {
        emit_word_node(lst)
    }

    fn lower(&self) -> (res: lst::Word)
        ensures
            res@ == lower_word(self@),
    {
        lower_word_node(self)
    }
}

impl AstNode for VariableExpansion {
    type Lst = lst::BracedExpansion;

    fn emit_from(lst: &lst::BracedExpansion) -> (res: Result<VariableExpansion, EmitError>)
        ensures
            match res {
                Ok(x) => emit_expansion(lst::view_braced(*lst)) == Ok::<AstExpansion, EmitError>(
                    x@,
                ),
                Err(e) => emit_expansion(lst::view_braced(*lst)) == Err::<AstExpansion, EmitError>(
                    e,
                ),
            },
    {
        emit_expansion_node(lst)
    }

    fn lower(&self) -> (res: lst::BracedExpansion)
        ensures
            lst::view_braced(res) == lower_expansion(self@),
    {
        lower_expansion_node(self)
    }
}

impl AstNode for ExpansionModifier {
    type Lst = lst::ExpansionModifier;

    fn emit_from(lst: &lst::ExpansionModifier) -> (res: Result<ExpansionModifier, EmitError>)
        ensures
            match res {
                Ok(x) => emit_modifier(lst::view_modifier(*lst)) == Ok::<AstModifier, EmitError>(
                    x@,
                ),
                Err(e) => emit_modifier(lst::view_modifier(*lst)) == Err::<AstModifier, EmitError>(
                    e,
                ),
            },
    {
        emit_modifier_node(lst)
    }

    fn lower(&self) -> (res: lst::ExpansionModifier)
        ensures
            lst::view_modifier(res) == lower_modifier(self@),
    {
        lower_modifier_node(self)
    }
}

impl AstNode for ArrayElement {
    type Lst = lst::ArrayToken;

    fn emit_from(lst: &lst::ArrayToken) -> (res: Result<ArrayElement, EmitError>)
        ensures
            match res {
                Ok(x) => emit_elem(lst@) == Ok::<AstElement, EmitError>(x@),
                Err(e) => emit_elem(lst@) == Err::<AstElement, EmitError>(e),
            },
    {
        emit_elem_node(lst)
    }

    fn lower(&self) -> (res: lst::ArrayToken)
        ensures
            res@ == lower_elem(self@),
    {
        lower_elem_node(self)
    }
}

} // verus!
