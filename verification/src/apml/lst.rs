//! Lossless syntax tree representation of APML.
//!
//! The LST corresponds to the source text character by character, so that
//! printing a parsed tree gives back exactly the source (see
//! [`super::parser`]).
//!
//! The root of LST is [`ApmlLst`], which is made up by a list of
//! [tokens](Token). A token may be a [`VariableDefinition`], a space-like
//! character, a comment, or a newline.
//!
//! Every node has a view in [`super::model`]; printing is stated over those
//! views.

use vstd::prelude::*;

use super::model;
use super::model::{
    print_atok, print_atoks, print_braced, print_lst, print_modifier, print_part, print_parts,
    print_text, print_token, print_tokens, print_unit, print_units, print_value, print_word,
    print_words, replacement_text, escapes_in_quotes, unescaped, escaped_form, escape_parts,
    lemma_escape_parts,
};
use super::pattern::{view_pattern, BashPattern};
use crate::chars::{chars_of, push_char, push_string};

verus! {

/// A APML lossless syntax tree, consisting of a list of tokens.
#[derive(Debug, PartialEq, Eq)]
pub struct ApmlLst(pub Vec<Token>);

/// A token in the LST.
#[derive(Debug, PartialEq, Eq)]
pub enum Token {
    /// A space-like character (`' '` or `'\t'`).
    Spacy(char),
    /// A newline character (`'\n'`).
    Newline,
    /// A comment (`"#<text>"`).
    Comment(String),
    /// A variable definition.
    Variable(VariableDefinition),
}

/// A variable definition (`"<name>=<value>"`).
#[derive(Debug, PartialEq, Eq)]
pub struct VariableDefinition {
    /// Name of the variable.
    pub name: String,
    /// Binary operator.
    pub op: VariableOp,
    /// Value of the variable.
    pub value: VariableValue,
}

/// A variable operator.
#[derive(Debug, Clone, Copy, PartialEq, Eq, Hash, Structural)]
pub enum VariableOp {
    /// Value assignment (`'='`).
    Assignment,
    /// Appending (`"+="`).
    Append,
}

/// Value of a variable.
#[derive(Debug, PartialEq, Eq)]
pub enum VariableValue {
    /// A string value (`"<text>"`).
    String(Box<Text>),
    /// A array value (`"(<tokens>)"`).
    Array(Vec<ArrayToken>),
}

/// A section of text, made up of several text units.
///
/// For example, `abc'123'` is made up of an unquoted unit `abc` and a
/// single-quoted unit `123`.
#[derive(Debug, PartialEq, Eq)]
pub struct Text(pub Vec<TextUnit>);

/// A unit of text.
#[derive(Debug, PartialEq, Eq)]
pub enum TextUnit {
    /// An unquoted text unit (`"<words>"`).
    Unquoted(Vec<Word>),
    /// A single-quoted text unit (`"'<text>'"`).
    SingleQuote(String),
    /// A double-quoted text unit (`"\"<words>\""`).
    DoubleQuote(Vec<Word>),
}

/// A word is a part of a text unit.
#[derive(Debug, PartialEq, Eq)]
pub enum Word {
    /// A literal string (`"<parts>"`).
    Literal(Vec<LiteralPart>),
    /// An unbraced variable expansion (`"$<var>"`).
    UnbracedVariable(String),
    /// A braced variable expansion (`"${<expansion>}"`).
    BracedVariable(BracedExpansion),
    /// A sub-command expansion (`"$(<tokens>)"`).
    Subcommand(Vec<ArrayToken>),
}

/// A element of literal words.
#[derive(Debug, PartialEq, Eq)]
pub enum LiteralPart {
    /// A string (`"<text>"`).
    String(String),
    /// An escaped character (`"\\<char>"`).
    Escaped(char),
    /// A tag for discarded newlines (`"\\\n"`).
    LineContinuation,
}

/// A braced variable expansion (`"<name>[modifier]"`).
///
/// For [`ExpansionModifier::Length`], the format is `"#<name>"`.
#[derive(Debug, PartialEq, Eq)]
pub struct BracedExpansion {
    /// Name of the variable.
    pub name: String,
    /// Modifier to apply to the expanded value.
    pub modifier: Option<ExpansionModifier>,
}

/// A modifier in the braced variable expansion.
#[derive(Debug, PartialEq, Eq)]
pub enum ExpansionModifier {
    /// Reference to a substring (`":offset"` or `":offset:length"`).
    Substring {
        /// Offset.
        offset: String,
        /// Length.
        length: Option<String>,
    },
    /// Stripping the shortest matching prefix (`"#<pattern>"`).
    StripShortestPrefix(Box<BashPattern>),
    /// Stripping the longest matching prefix (`"##<pattern>"`).
    StripLongestPrefix(Box<BashPattern>),
    /// Stripping the shortest matching suffix (`"%<pattern>"`).
    StripShortestSuffix(Box<BashPattern>),
    /// Stripping the longest matching suffix (`"%%<pattern>"`).
    StripLongestSuffix(Box<BashPattern>),
    /// Replacing the first match of a pattern with a text (`"/<pattern>[/<string>]"`).
    ReplaceOnce { pattern: Box<BashPattern>, string: Option<Box<Text>> },
    /// Replacing all matches of a pattern with a text (`"//<pattern>[/<string>]"`).
    ReplaceAll { pattern: Box<BashPattern>, string: Option<Box<Text>> },
    /// Replacing the prefix of a pattern with a text (`"/#<pattern>[/<string>]"`).
    ReplacePrefix { pattern: Box<BashPattern>, string: Option<Box<Text>> },
    /// Replacing the suffix of a pattern with a text (`"/%<pattern>[/<string>]"`).
    ReplaceSuffix { pattern: Box<BashPattern>, string: Option<Box<Text>> },
    /// Upper-casify the first match of a pattern (`"^<pattern>"`).
    UpperOnce(Box<BashPattern>),
    /// Upper-casify all matches of a pattern (`"^^<pattern>"`).
    UpperAll(Box<BashPattern>),
    /// Lower-casify the first match of a pattern (`",<pattern>"`).
    LowerOnce(Box<BashPattern>),
    /// Lower-casify all matches of a pattern (`",,<pattern>"`).
    LowerAll(Box<BashPattern>),
    /// Producing errors when the variable is unset or null (`":?<text>"`).
    ErrorOnUnset(Box<Text>),
    /// Returning the length of the variable (format: `"#<name>"`).
    Length,
    /// Returning a text when the variable is unset or null (`":-<text>"`).
    WhenUnset(Box<Text>),
    /// Returning a text when the variable is set (`":+<text>"`).
    WhenSet(Box<Text>),
    /// Expands to array elements (`"[@]"`).
    ArrayElements,
    /// Expands to a string of array elements concatenated with space (`"[*]"`).
    SingleWordElements,
}

/// A token in an array variable value.
#[derive(Debug, PartialEq, Eq)]
pub enum ArrayToken {
    /// A space-like character.
    Spacy(char),
    /// A newline character.
    Newline,
    /// A comment (`"#<text>"`).
    Comment(String),
    /// A array element (`"<text>"`).
    Element(Box<Text>),
}

// ---------------------------------------------------------------------
// Views
// ---------------------------------------------------------------------

pub open spec fn view_tokens(s: Seq<Token>) -> Seq<model::Token>
    decreases s,
{
    if s.len() == 0 {
        Seq::empty()
    } else {
        view_tokens(s.drop_last()).push(view_token(s.last()))
    }
}

pub open spec fn view_token(t: Token) -> model::Token {
    match t {
        Token::Spacy(c) => model::Token::Spacy(c),
        Token::Newline => model::Token::Newline,
        Token::Comment(c) => model::Token::Comment(c@),
        Token::Variable(d) => model::Token::Variable(view_def(d)),
    }
}

pub open spec fn view_def(d: VariableDefinition) -> model::VariableDefinition {
    model::VariableDefinition { name: d.name@, op: d.op, value: view_value(d.value) }
}

pub open spec fn view_value(v: VariableValue) -> model::VariableValue {
    match v {
        VariableValue::String(t) => model::VariableValue::String(view_text(*t)),
        VariableValue::Array(ts) => model::VariableValue::Array(view_atoks(ts@)),
    }
}

pub open spec fn view_text(t: Text) -> model::Text
    decreases t,
{
    model::Text(view_units(t.0@))
}

pub open spec fn view_units(s: Seq<TextUnit>) -> Seq<model::TextUnit>
    decreases s,
{
    if s.len() == 0 {
        Seq::empty()
    } else {
        view_units(s.drop_last()).push(view_unit(s.last()))
    }
}

pub open spec fn view_unit(u: TextUnit) -> model::TextUnit
    decreases u,
{
    match u {
        TextUnit::Unquoted(ws) => model::TextUnit::Unquoted(view_words(ws@)),
        TextUnit::SingleQuote(t) => model::TextUnit::SingleQuote(t@),
        TextUnit::DoubleQuote(ws) => model::TextUnit::DoubleQuote(view_words(ws@)),
    }
}

pub open spec fn view_words(s: Seq<Word>) -> Seq<model::Word>
    decreases s,
{
    if s.len() == 0 {
        Seq::empty()
    } else {
        view_words(s.drop_last()).push(view_word(s.last()))
    }
}

pub open spec fn view_word(w: Word) -> model::Word
    decreases w,
{
    match w {
        Word::Literal(parts) => model::Word::Literal(view_parts(parts@)),
        Word::UnbracedVariable(n) => model::Word::UnbracedVariable(n@),
        Word::BracedVariable(e) => model::Word::BracedVariable(view_braced(e)),
        Word::Subcommand(ts) => model::Word::Subcommand(view_atoks(ts@)),
    }
}

pub open spec fn view_parts(s: Seq<LiteralPart>) -> Seq<model::LiteralPart> {
    s.map_values(|p: LiteralPart| view_part(p))
}

pub open spec fn view_part(p: LiteralPart) -> model::LiteralPart {
    match p {
        LiteralPart::String(t) => model::LiteralPart::String(t@),
        LiteralPart::Escaped(c) => model::LiteralPart::Escaped(c),
        LiteralPart::LineContinuation => model::LiteralPart::LineContinuation,
    }
}

pub open spec fn view_braced(e: BracedExpansion) -> model::BracedExpansion
    decreases e,
{
    model::BracedExpansion {
        name: e.name@,
        modifier: match e.modifier {
            Some(m) => Some(view_modifier(m)),
            None => None,
        },
    }
}

pub open spec fn view_opt_text(t: Option<Box<Text>>) -> Option<model::Text>
    decreases t,
{
    match t {
        Some(b) => Some(view_text(*b)),
        None => None,
    }
}

pub open spec fn view_modifier(m: ExpansionModifier) -> model::ExpansionModifier
    decreases m,
{
    match m {
        ExpansionModifier::Substring { offset, length } => model::ExpansionModifier::Substring {
            offset: offset@,
            length: match length {
                Some(l) => Some(l@),
                None => None,
            },
        },
        ExpansionModifier::StripShortestPrefix(p) => model::ExpansionModifier::StripShortestPrefix(
            view_pattern(*p),
        ),
        ExpansionModifier::StripLongestPrefix(p) => model::ExpansionModifier::StripLongestPrefix(
            view_pattern(*p),
        ),
        ExpansionModifier::StripShortestSuffix(p) => model::ExpansionModifier::StripShortestSuffix(
            view_pattern(*p),
        ),
        ExpansionModifier::StripLongestSuffix(p) => model::ExpansionModifier::StripLongestSuffix(
            view_pattern(*p),
        ),
        ExpansionModifier::ReplaceOnce { pattern, string } => model::ExpansionModifier::ReplaceOnce {
            pattern: view_pattern(*pattern),
            string: view_opt_text(string),
        },
        ExpansionModifier::ReplaceAll { pattern, string } => model::ExpansionModifier::ReplaceAll {
            pattern: view_pattern(*pattern),
            string: view_opt_text(string),
        },
        ExpansionModifier::ReplacePrefix {
            pattern,
            string,
        } => model::ExpansionModifier::ReplacePrefix {
            pattern: view_pattern(*pattern),
            string: view_opt_text(string),
        },
        ExpansionModifier::ReplaceSuffix {
            pattern,
            string,
        } => model::ExpansionModifier::ReplaceSuffix {
            pattern: view_pattern(*pattern),
            string: view_opt_text(string),
        },
        ExpansionModifier::UpperOnce(p) => model::ExpansionModifier::UpperOnce(view_pattern(*p)),
        ExpansionModifier::UpperAll(p) => model::ExpansionModifier::UpperAll(view_pattern(*p)),
        ExpansionModifier::LowerOnce(p) => model::ExpansionModifier::LowerOnce(view_pattern(*p)),
        ExpansionModifier::LowerAll(p) => model::ExpansionModifier::LowerAll(view_pattern(*p)),
        ExpansionModifier::ErrorOnUnset(t) => model::ExpansionModifier::ErrorOnUnset(
            view_text(*t),
        ),
        ExpansionModifier::Length => model::ExpansionModifier::Length,
        ExpansionModifier::WhenUnset(t) => model::ExpansionModifier::WhenUnset(view_text(*t)),
        ExpansionModifier::WhenSet(t) => model::ExpansionModifier::WhenSet(view_text(*t)),
        ExpansionModifier::ArrayElements => model::ExpansionModifier::ArrayElements,
        ExpansionModifier::SingleWordElements => model::ExpansionModifier::SingleWordElements,
    }
}

pub open spec fn view_atoks(s: Seq<ArrayToken>) -> Seq<model::ArrayToken>
    decreases s,
{
    if s.len() == 0 {
        Seq::empty()
    } else {
        view_atoks(s.drop_last()).push(view_atok(s.last()))
    }
}

pub open spec fn view_atok(t: ArrayToken) -> model::ArrayToken
    decreases t,
{
    match t {
        ArrayToken::Spacy(c) => model::ArrayToken::Spacy(c),
        ArrayToken::Newline => model::ArrayToken::Newline,
        ArrayToken::Comment(c) => model::ArrayToken::Comment(c@),
        ArrayToken::Element(t) => model::ArrayToken::Element(view_text(*t)),
    }
}

impl View for ApmlLst {
    type V = model::Lst;

    open spec fn view(&self) -> model::Lst {
        model::Lst(view_tokens(self.0@))
    }
}

impl View for Token {
    type V = model::Token;

    open spec fn view(&self) -> model::Token {
        view_token(*self)
    }
}

impl View for VariableValue {
    type V = model::VariableValue;

    open spec fn view(&self) -> model::VariableValue {
        view_value(*self)
    }
}

impl View for Text {
    type V = model::Text;

    open spec fn view(&self) -> model::Text {
        view_text(*self)
    }
}

impl View for Word {
    type V = model::Word;

    open spec fn view(&self) -> model::Word {
        view_word(*self)
    }
}

impl View for LiteralPart {
    type V = model::LiteralPart;

    open spec fn view(&self) -> model::LiteralPart {
        view_part(*self)
    }
}

impl View for ArrayToken {
    type V = model::ArrayToken;

    open spec fn view(&self) -> model::ArrayToken {
        view_atok(*self)
    }
}

} // verus!

verus! {

// ---------------------------------------------------------------------
// Printing
// ---------------------------------------------------------------------

use super::pattern::write_pattern;

/// Appends the source text of a text.
pub fn write_text(t: &Text, out: &mut String)
    ensures
        final(out)@ == old(out)@ + print_text(t@),
    decreases t,
{
    let ghost s = t.0@;
    let mut i: usize = 0;
    while i < t.0.len()
        invariant
            s == t.0@,
            0 <= i <= s.len(),
            out@ == old(out)@ + print_units(view_units(s.take(i as int))),
        decreases s.len() - i,
    {
        assert(decreases_to!(t => t.0));
        write_unit(&t.0[i], out);
        proof {
            let a = s.take(i as int);
            assert(s.take(i + 1).drop_last() =~= a);
            let va = view_units(a);
            assert(view_units(s.take(i + 1)) == va.push(view_unit(s[i as int])));
            assert(va.push(view_unit(s[i as int])).drop_last() =~= va);
        }
        i = i + 1;
    }
    assert(s.take(s.len() as int) =~= s);
}

/// Appends the source text of a text unit.
pub fn write_unit(u: &TextUnit, out: &mut String)
    ensures
        final(out)@ == old(out)@ + print_unit(view_unit(*u)),
    decreases u,
{
    match u {
        TextUnit::Unquoted(ws) => {
            write_words(ws, out);
        },
        TextUnit::SingleQuote(t) => {
            push_char(out, '\'');
            push_string(out, t.as_str());
            push_char(out, '\'');
            assert(out@ =~= old(out)@ + print_unit(view_unit(*u)));
        },
        TextUnit::DoubleQuote(ws) => {
            push_char(out, '"');
            write_words(ws, out);
            push_char(out, '"');
            assert(out@ =~= old(out)@ + print_unit(view_unit(*u)));
        },
    }
}

/// Appends the source text of a list of words.
pub fn write_words(ws: &Vec<Word>, out: &mut String)
    ensures
        final(out)@ == old(out)@ + print_words(view_words(ws@)),
    decreases ws,
{
    let ghost s = ws@;
    let mut i: usize = 0;
    while i < ws.len()
        invariant
            s == ws@,
            0 <= i <= s.len(),
            out@ == old(out)@ + print_words(view_words(s.take(i as int))),
        decreases s.len() - i,
    {
        write_word(&ws[i], out);
        proof {
            let a = s.take(i as int);
            assert(s.take(i + 1).drop_last() =~= a);
            let va = view_words(a);
            assert(view_words(s.take(i + 1)) == va.push(view_word(s[i as int])));
            assert(va.push(view_word(s[i as int])).drop_last() =~= va);
        }
        i = i + 1;
    }
    assert(s.take(s.len() as int) =~= s);
}

/// Appends the source text of a word.
pub fn write_word(w: &Word, out: &mut String)
    ensures
        final(out)@ == old(out)@ + print_word(view_word(*w)),
    decreases w,
{
    match w {
        Word::Literal(parts) => {
            write_parts(parts, out);
        },
        Word::UnbracedVariable(n) => {
            push_char(out, '$');
            push_string(out, n.as_str());
            assert(out@ =~= old(out)@ + print_word(view_word(*w)));
        },
        Word::BracedVariable(e) => {
            push_char(out, '$');
            push_char(out, '{');
            write_braced(e, out);
            push_char(out, '}');
            assert(out@ =~= old(out)@ + print_word(view_word(*w)));
        },
        Word::Subcommand(ts) => {
            push_char(out, '$');
            push_char(out, '(');
            write_atoks(ts, out);
            push_char(out, ')');
            assert(out@ =~= old(out)@ + print_word(view_word(*w)));
        },
    }
}

/// Appends the source text of a literal part.
pub fn write_part(p: &LiteralPart, out: &mut String)
    ensures
        final(out)@ == old(out)@ + print_part(view_part(*p)),
{
    match p {
        LiteralPart::String(t) => {
            push_string(out, t.as_str());
        },
        LiteralPart::Escaped(c) => {
            push_char(out, '\\');
            push_char(out, *c);
            assert(out@ =~= old(out)@ + print_part(view_part(*p)));
        },
        LiteralPart::LineContinuation => {
            push_char(out, '\\');
            push_char(out, '\n');
            assert(out@ =~= old(out)@ + print_part(view_part(*p)));
        },
    }
}

/// Appends the source text of literal parts.
pub fn write_parts(ps: &Vec<LiteralPart>, out: &mut String)
    ensures
        final(out)@ == old(out)@ + print_parts(view_parts(ps@)),
{
    let ghost s = ps@;
    let mut i: usize = 0;
    while i < ps.len()
        invariant
            s == ps@,
            0 <= i <= s.len(),
            out@ == old(out)@ + print_parts(view_parts(s.take(i as int))),
        decreases s.len() - i,
    {
        write_part(&ps[i], out);
        proof {
            let a = s.take(i as int);
            let va = view_parts(a);
            assert(view_parts(s.take(i + 1)) =~= va.push(view_part(s[i as int])));
            assert(va.push(view_part(s[i as int])).drop_last() =~= va);
        }
        i = i + 1;
    }
    assert(s.take(s.len() as int) =~= s);
}

/// Appends the source text of a braced expansion.
pub fn write_braced(e: &BracedExpansion, out: &mut String)
    ensures
        final(out)@ == old(out)@ + print_braced(view_braced(*e)),
    decreases e,
{
    match &e.modifier {
        Some(ExpansionModifier::Length) => {
            push_char(out, '#');
            push_string(out, e.name.as_str());
            assert(out@ =~= old(out)@ + print_braced(view_braced(*e)));
        },
        None => {
            push_string(out, e.name.as_str());
        },
        Some(m) => {
            push_string(out, e.name.as_str());
            write_modifier(m, out);
            assert(out@ =~= old(out)@ + print_braced(view_braced(*e)));
        },
    }
}

/// Appends `"<op><pattern>"`.
fn write_op_pattern(op: &str, p: &BashPattern, out: &mut String)
    ensures
        final(out)@ == old(out)@ + op@ + super::model::print_pattern(p@),
{
    push_string(out, op);
    write_pattern(p, out);
    assert(out@ =~= old(out)@ + op@ + super::model::print_pattern(p@));
}

/// Appends a replacing modifier.
fn write_replacement(
    op: &str,
    p: &BashPattern,
    string: &Option<Box<Text>>,
    out: &mut String,
)
    ensures
        final(out)@ == old(out)@ + replacement_text(
            op@,
            super::model::print_pattern(p@),
            match view_opt_text(*string) {
                Some(t) => Some(print_text(t)),
                None => None,
            },
        ),
    decreases string,
{
    write_op_pattern(op, p, out);
    match string {
        Some(t) => {
            push_char(out, '/');
            write_text(t, out);
        },
        None => {},
    }
    assert(out@ =~= old(out)@ + replacement_text(
        op@,
        super::model::print_pattern(p@),
        match view_opt_text(*string) {
            Some(t) => Some(print_text(t)),
            None => None,
        },
    ));
}

/// Appends the source text of an expansion modifier.
#[verifier::spinoff_prover]
#[verifier::rlimit(60)]
pub fn write_modifier(m: &ExpansionModifier, out: &mut String)
    ensures
        final(out)@ == old(out)@ + print_modifier(view_modifier(*m)),
    decreases m,
{
    match m {
        ExpansionModifier::Substring { offset, length } => {
            push_char(out, ':');
            push_string(out, offset.as_str());
            match length {
                Some(l) => {
                    push_char(out, ':');
                    push_string(out, l.as_str());
                },
                None => {},
            }
            assert(out@ =~= old(out)@ + print_modifier(view_modifier(*m)));
        },
        ExpansionModifier::StripShortestPrefix(p) => {
            proof { reveal_strlit("#"); }
            write_op_pattern("#", p, out);
        },
        ExpansionModifier::StripLongestPrefix(p) => {
            proof { reveal_strlit("##"); }
            write_op_pattern("##", p, out);
        },
        ExpansionModifier::StripShortestSuffix(p) => {
            proof { reveal_strlit("%"); }
            write_op_pattern("%", p, out);
        },
        ExpansionModifier::StripLongestSuffix(p) => {
            proof { reveal_strlit("%%"); }
            write_op_pattern("%%", p, out);
        },
        ExpansionModifier::ReplaceOnce { pattern, string } => {
            proof { reveal_strlit("/"); }
            write_replacement("/", pattern, string, out);
        },
        ExpansionModifier::ReplaceAll { pattern, string } => {
            proof { reveal_strlit("//"); }
            write_replacement("//", pattern, string, out);
        },
        ExpansionModifier::ReplacePrefix { pattern, string } => {
            proof { reveal_strlit("/#"); }
            write_replacement("/#", pattern, string, out);
        },
        ExpansionModifier::ReplaceSuffix { pattern, string } => {
            proof { reveal_strlit("/%"); }
            write_replacement("/%", pattern, string, out);
        },
        ExpansionModifier::UpperOnce(p) => {
            proof { reveal_strlit("^"); }
            write_op_pattern("^", p, out);
        },
        ExpansionModifier::UpperAll(p) => {
            proof { reveal_strlit("^^"); }
            write_op_pattern("^^", p, out);
        },
        ExpansionModifier::LowerOnce(p) => {
            proof { reveal_strlit(","); }
            write_op_pattern(",", p, out);
        },
        ExpansionModifier::LowerAll(p) => {
            proof { reveal_strlit(",,"); }
            write_op_pattern(",,", p, out);
        },
        ExpansionModifier::ErrorOnUnset(t) => {
            proof { reveal_strlit(":?"); }
            push_string(out, ":?");
            write_text(t, out);
            assert(out@ =~= old(out)@ + print_modifier(view_modifier(*m)));
        },
        ExpansionModifier::Length => {
            push_char(out, '#');
            assert(out@ =~= old(out)@ + print_modifier(view_modifier(*m)));
        },
        ExpansionModifier::WhenUnset(t) => {
            proof { reveal_strlit(":-"); }
            push_string(out, ":-");
            write_text(t, out);
            assert(out@ =~= old(out)@ + print_modifier(view_modifier(*m)));
        },
        ExpansionModifier::WhenSet(t) => {
            proof { reveal_strlit(":+"); }
            push_string(out, ":+");
            write_text(t, out);
            assert(out@ =~= old(out)@ + print_modifier(view_modifier(*m)));
        },
        ExpansionModifier::ArrayElements => {
            proof { reveal_strlit("[@]"); }
            push_string(out, "[@]");
            assert(out@ =~= old(out)@ + print_modifier(view_modifier(*m)));
        },
        ExpansionModifier::SingleWordElements => {
            proof { reveal_strlit("[*]"); }
            push_string(out, "[*]");
            assert(out@ =~= old(out)@ + print_modifier(view_modifier(*m)));
        },
    }
}

/// Appends the source text of array tokens.
pub fn write_atoks(ts: &Vec<ArrayToken>, out: &mut String)
    ensures
        final(out)@ == old(out)@ + print_atoks(view_atoks(ts@)),
    decreases ts,
{
    let ghost s = ts@;
    let mut i: usize = 0;
    while i < ts.len()
        invariant
            s == ts@,
            0 <= i <= s.len(),
            out@ == old(out)@ + print_atoks(view_atoks(s.take(i as int))),
        decreases s.len() - i,
    {
        write_atok(&ts[i], out);
        proof {
            let a = s.take(i as int);
            assert(s.take(i + 1).drop_last() =~= a);
            let va = view_atoks(a);
            assert(view_atoks(s.take(i + 1)) == va.push(view_atok(s[i as int])));
            assert(va.push(view_atok(s[i as int])).drop_last() =~= va);
        }
        i = i + 1;
    }
    assert(s.take(s.len() as int) =~= s);
}

/// Appends the source text of an array token.
pub fn write_atok(t: &ArrayToken, out: &mut String)
    ensures
        final(out)@ == old(out)@ + print_atok(view_atok(*t)),
    decreases t,
{
    match t {
        ArrayToken::Spacy(c) => {
            push_char(out, *c);
            assert(out@ =~= old(out)@ + print_atok(view_atok(*t)));
        },
        ArrayToken::Newline => {
            push_char(out, '\n');
            assert(out@ =~= old(out)@ + print_atok(view_atok(*t)));
        },
        ArrayToken::Comment(c) => {
            push_char(out, '#');
            push_string(out, c.as_str());
            assert(out@ =~= old(out)@ + print_atok(view_atok(*t)));
        },
        ArrayToken::Element(text) => {
            write_text(text, out);
        },
    }
}

/// Appends the source text of a variable value.
pub fn write_value(v: &VariableValue, out: &mut String)
    ensures
        final(out)@ == old(out)@ + print_value(v@),
{
    match v {
        VariableValue::String(t) => {
            write_text(t, out);
        },
        VariableValue::Array(ts) => {
            push_char(out, '(');
            write_atoks(ts, out);
            push_char(out, ')');
            assert(out@ =~= old(out)@ + print_value(v@));
        },
    }
}

/// Appends the source text of a token.
pub fn write_token(t: &Token, out: &mut String)
    ensures
        final(out)@ == old(out)@ + print_token(t@),
{
    match t {
        Token::Spacy(c) => {
            push_char(out, *c);
            assert(out@ =~= old(out)@ + print_token(t@));
        },
        Token::Newline => {
            push_char(out, '\n');
            assert(out@ =~= old(out)@ + print_token(t@));
        },
        Token::Comment(c) => {
            push_char(out, '#');
            push_string(out, c.as_str());
            assert(out@ =~= old(out)@ + print_token(t@));
        },
        Token::Variable(d) => {
            d.write(out);
        },
    }
}

impl VariableDefinition {
    /// Appends the source text of the definition.
    pub fn write(&self, out: &mut String)
        ensures
            final(out)@ == old(out)@ + print_token(model::Token::Variable(view_def(*self))),
    {
        push_string(out, self.name.as_str());
        match self.op {
            VariableOp::Assignment => push_char(out, '='),
            VariableOp::Append => {
                push_char(out, '+');
                push_char(out, '=');
            },
        }
        write_value(&self.value, out);
        assert(out@ =~= old(out)@ + print_token(model::Token::Variable(view_def(*self))));
    }
}

impl ApmlLst {
    /// Prints the tree into its source text.
    pub fn to_string(&self) -> (res: String)
        ensures
            res@ == print_lst(self@),
    {
        let ghost s = self.0@;
        let mut out = String::new();
        let mut i: usize = 0;
        while i < self.0.len()
            invariant
                s == self.0@,
                0 <= i <= s.len(),
                out@ == print_tokens(view_tokens(s.take(i as int))),
            decreases s.len() - i,
        {
            write_token(&self.0[i], &mut out);
            proof {
                let a = s.take(i as int);
                assert(s.take(i + 1).drop_last() =~= a);
                let va = view_tokens(a);
                assert(view_tokens(s.take(i + 1)) == va.push(view_token(s[i as int])));
                assert(va.push(view_token(s[i as int])).drop_last() =~= va);
            }
            i = i + 1;
        }
        assert(s.take(s.len() as int) =~= s);
        out
    }
}

impl Token {
    /// Prints the token into its source text.
    pub fn to_string(&self) -> (res: String)
        ensures
            res@ == print_token(self@),
    {
        let mut out = String::new();
        write_token(self, &mut out);
        assert(out@ =~= print_token(self@));
        out
    }

    /// Returns if the token is a space or a newline.
    pub fn is_empty(&self) -> (res: bool)
        ensures
            res == (*self is Newline || *self is Spacy),
    {
        match self {
            Token::Newline | Token::Spacy(_) => true,
            _ => false,
        }
    }
}

impl VariableValue {
    /// Prints the value into its source text.
    pub fn to_string(&self) -> (res: String)
        ensures
            res@ == print_value(self@),
    {
        let mut out = String::new();
        write_value(self, &mut out);
        assert(out@ =~= print_value(self@));
        out
    }
}

impl Text {
    /// Prints the text into its source text.
    pub fn to_string(&self) -> (res: String)
        ensures
            res@ == print_text(self@),
    {
        let mut out = String::new();
        write_text(self, &mut out);
        assert(out@ =~= print_text(self@));
        out
    }
}

impl Word {
    /// Prints the word into its source text.
    pub fn to_string(&self) -> (res: String)
        ensures
            res@ == print_word(self@),
    {
        let mut out = String::new();
        write_word(self, &mut out);
        assert(out@ =~= print_word(self@));
        out
    }
}

impl ArrayToken {
    /// Prints the token into its source text.
    pub fn to_string(&self) -> (res: String)
        ensures
            res@ == print_atok(self@),
    {
        let mut out = String::new();
        write_atok(self, &mut out);
        assert(out@ =~= print_atok(self@));
        out
    }
}

impl LiteralPart {
    /// Returns if a character should be escaped when used in double-quoted
    /// words.
    pub fn should_escape(ch: char) -> (res: bool)
        ensures
            res == escapes_in_quotes(ch),
    {
        ch == '$' || ch == '"' || ch == '\\'
    }

    /// Produces a list of literal parts, escaping the characters that need
    /// to be escaped when used in double-quoted words.
    ///
    /// The parts stand for `text` again, and they are the only parts in
    /// [`escaped_form`] that do: maximal runs of plain characters, each
    /// character that needs it escaped on its own.
    pub fn escape(text: &str) -> (res: Vec<LiteralPart>)
        ensures
            view_parts(res@) == escape_parts(text@),
            unescaped(view_parts(res@)) == text@,
            escaped_form(view_parts(res@)),
    {
        let cs = chars_of(text);
        let mut result: Vec<LiteralPart> = Vec::new();
        let mut buffer = String::new();
        let mut i: usize = 0;
        while i < cs.len()
            invariant
                cs@ == text@,
                0 <= i <= cs@.len(),
                buffer@.len() > 0 <==> (i > 0 && !escapes_in_quotes(cs@[i - 1])),
                buffer@.len() == 0 ==> view_parts(result@) == escape_parts(cs@.take(i as int)),
                buffer@.len() > 0 ==> view_parts(result@).push(model::LiteralPart::String(buffer@))
                    == escape_parts(cs@.take(i as int)),
            decreases cs@.len() - i,
        {
            let ch = cs[i];
            let ghost pre = cs@.take(i as int);
            let ghost post = cs@.take(i + 1);
            proof {
                assert(post.drop_last() =~= pre);
                assert(post.last() == ch);
            }
            if Self::should_escape(ch) {
                if !buffer.as_str().is_empty() {
                    let ghost b = buffer@;
                    let mut done = String::new();
                    std::mem::swap(&mut done, &mut buffer);
                    let ghost before = view_parts(result@);
                    result.push(LiteralPart::String(done));
                    proof {
                        assert(view_parts(result@) =~= before.push(model::LiteralPart::String(b)));
                    }
                }
                let ghost mid = view_parts(result@);
                result.push(LiteralPart::Escaped(ch));
                proof {
                    assert(view_parts(result@) =~= mid.push(model::LiteralPart::Escaped(ch)));
                }
            } else {
                let ghost b = buffer@;
                push_char(&mut buffer, ch);
                proof {
                    let r = escape_parts(pre);
                    if b.len() > 0 {
                        assert(r.last() == model::LiteralPart::String(b));
                        assert(r.update(r.len() - 1, model::LiteralPart::String(b.push(ch)))
                            =~= view_parts(result@).push(model::LiteralPart::String(buffer@)));
                    } else {
                        assert(buffer@ =~= seq![ch]);
                        if i > 0 {
                            assert(escapes_in_quotes(cs@[i - 1]));
                            assert(pre.last() == cs@[i - 1]);
                            assert(r.last() == model::LiteralPart::Escaped(cs@[i - 1]));
                        }
                    }
                }
            }
            i = i + 1;
        }
        if !buffer.as_str().is_empty() {
            let ghost before = view_parts(result@);
            let ghost b = buffer@;
            result.push(LiteralPart::String(buffer));
            proof {
                assert(view_parts(result@) =~= before.push(model::LiteralPart::String(b)));
            }
        }
        proof {
            assert(cs@.take(cs@.len() as int) =~= cs@);
            lemma_escape_parts(text@);
        }
        result
    }
}

} // verus!
