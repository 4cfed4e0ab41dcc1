//! Mathematical model of the APML lossless syntax tree.
//!
//! Every node of [`super::lst`] has a view in this module, in which strings
//! are character sequences and vectors are sequences. The grammar of
//! [`super::parser`] and the printing of the tree are stated over these
//! values.

use vstd::prelude::*;

use super::lst::VariableOp;

verus! {

/// Model of `lst::ApmlLst`.
pub struct Lst(pub Seq<Token>);

/// Model of `lst::Token`.
pub enum Token {
    Spacy(char),
    Newline,
    Comment(Seq<char>),
    Variable(VariableDefinition),
}

/// Model of `lst::VariableDefinition`.
pub struct VariableDefinition {
    pub name: Seq<char>,
    pub op: VariableOp,
    pub value: VariableValue,
}

/// Model of `lst::VariableValue`.
pub enum VariableValue {
    String(Text),
    Array(Seq<ArrayToken>),
}

/// Model of `lst::Text`.
pub struct Text(pub Seq<TextUnit>);

/// Model of `lst::TextUnit`.
pub enum TextUnit {
    Unquoted(Seq<Word>),
    SingleQuote(Seq<char>),
    DoubleQuote(Seq<Word>),
}

/// Model of `lst::Word`.
pub enum Word {
    Literal(Seq<LiteralPart>),
    UnbracedVariable(Seq<char>),
    BracedVariable(BracedExpansion),
    Subcommand(Seq<ArrayToken>),
}

/// Model of `lst::LiteralPart`.
pub enum LiteralPart {
    String(Seq<char>),
    Escaped(char),
    LineContinuation,
}

/// Model of `lst::BracedExpansion`.
pub struct BracedExpansion {
    pub name: Seq<char>,
    pub modifier: Option<ExpansionModifier>,
}

/// Model of `lst::ExpansionModifier`.
pub enum ExpansionModifier {
    Substring { offset: Seq<char>, length: Option<Seq<char>> },
    StripShortestPrefix(BashPattern),
    StripLongestPrefix(BashPattern),
    StripShortestSuffix(BashPattern),
    StripLongestSuffix(BashPattern),
    ReplaceOnce { pattern: BashPattern, string: Option<Text> },
    ReplaceAll { pattern: BashPattern, string: Option<Text> },
    ReplacePrefix { pattern: BashPattern, string: Option<Text> },
    ReplaceSuffix { pattern: BashPattern, string: Option<Text> },
    UpperOnce(BashPattern),
    UpperAll(BashPattern),
    LowerOnce(BashPattern),
    LowerAll(BashPattern),
    ErrorOnUnset(Text),
    Length,
    WhenUnset(Text),
    WhenSet(Text),
    ArrayElements,
    SingleWordElements,
}

/// Model of `lst::ArrayToken`.
pub enum ArrayToken {
    Spacy(char),
    Newline,
    Comment(Seq<char>),
    Element(Text),
}

/// Model of `pattern::BashPattern`.
pub struct BashPattern(pub Seq<GlobPart>);

/// Model of `pattern::GlobPart`.
pub enum GlobPart {
    String(Seq<char>),
    Escaped(char),
    AnyString,
    AnyChar,
    Range(Seq<char>),
    ZeroOrOneOf(PatternList),
    ZeroOrMoreOf(PatternList),
    OneOrMoreOf(PatternList),
    OneOf(PatternList),
    Not(PatternList),
}

/// Model of `pattern::PatternList`.
pub struct PatternList(pub Seq<BashPattern>);

// ---------------------------------------------------------------------
// Printing: the source text that each node stands for.
// ---------------------------------------------------------------------

pub open spec fn print_lst(l: Lst) -> Seq<char> {
    print_tokens(l.0)
}

pub open spec fn print_tokens(s: Seq<Token>) -> Seq<char>
    decreases s,
{
    if s.len() == 0 {
        Seq::empty()
    } else {
        print_tokens(s.drop_last()) + print_token(s.last())
    }
}

pub open spec fn print_op(op: VariableOp) -> Seq<char> {
    match op {
        VariableOp::Assignment => seq!['='],
        VariableOp::Append => seq!['+', '='],
    }
}

pub open spec fn print_token(t: Token) -> Seq<char>
    decreases t,
{
    match t {
        Token::Spacy(c) => seq![c],
        Token::Newline => seq!['\n'],
        Token::Comment(c) => seq!['#'] + c,
        Token::Variable(d) => d.name + print_op(d.op) + print_value(d.value),
    }
}

pub open spec fn print_value(v: VariableValue) -> Seq<char>
    decreases v,
{
    match v {
        VariableValue::String(t) => print_text(t),
        VariableValue::Array(ts) => seq!['('] + print_atoks(ts) + seq![')'],
    }
}

pub open spec fn print_atoks(s: Seq<ArrayToken>) -> Seq<char>
    decreases s,
{
    if s.len() == 0 {
        Seq::empty()
    } else {
        print_atoks(s.drop_last()) + print_atok(s.last())
    }
}

pub open spec fn print_atok(t: ArrayToken) -> Seq<char>
    decreases t,
{
    match t {
        ArrayToken::Spacy(c) => seq![c],
        ArrayToken::Newline => seq!['\n'],
        ArrayToken::Comment(c) => seq!['#'] + c,
        ArrayToken::Element(text) => print_text(text),
    }
}

pub open spec fn print_text(t: Text) -> Seq<char>
    decreases t,
{
    print_units(t.0)
}

pub open spec fn print_units(s: Seq<TextUnit>) -> Seq<char>
    decreases s,
{
    if s.len() == 0 {
        Seq::empty()
    } else {
        print_units(s.drop_last()) + print_unit(s.last())
    }
}

pub open spec fn print_unit(u: TextUnit) -> Seq<char>
    decreases u,
{
    match u {
        TextUnit::Unquoted(ws) => print_words(ws),
        TextUnit::SingleQuote(t) => seq!['\''] + t + seq!['\''],
        TextUnit::DoubleQuote(ws) => seq!['"'] + print_words(ws) + seq!['"'],
    }
}

pub open spec fn print_words(s: Seq<Word>) -> Seq<char>
    decreases s,
{
    if s.len() == 0 {
        Seq::empty()
    } else {
        print_words(s.drop_last()) + print_word(s.last())
    }
}

pub open spec fn print_word(w: Word) -> Seq<char>
    decreases w,
{
    match w {
        Word::Literal(parts) => print_parts(parts),
        Word::UnbracedVariable(n) => seq!['$'] + n,
        Word::BracedVariable(e) => seq!['$', '{'] + print_braced(e) + seq!['}'],
        Word::Subcommand(ts) => seq!['$', '('] + print_atoks(ts) + seq![')'],
    }
}

pub open spec fn print_parts(s: Seq<LiteralPart>) -> Seq<char>
    decreases s,
{
    if s.len() == 0 {
        Seq::empty()
    } else {
        print_parts(s.drop_last()) + print_part(s.last())
    }
}

pub open spec fn print_part(p: LiteralPart) -> Seq<char> {
    match p {
        LiteralPart::String(t) => t,
        LiteralPart::Escaped(c) => seq!['\\', c],
        LiteralPart::LineContinuation => seq!['\\', '\n'],
    }
}

pub open spec fn print_braced(e: BracedExpansion) -> Seq<char>
    decreases e,
{
    match e.modifier {
        Some(ExpansionModifier::Length) => seq!['#'] + e.name,
        None => e.name,
        Some(m) => e.name + print_modifier(m),
    }
}

/// Joins a replacing modifier from its printed parts.
pub open spec fn replacement_text(
    prefix: Seq<char>,
    pattern: Seq<char>,
    string: Option<Seq<char>>,
) -> Seq<char> {
    match string {
        Some(t) => prefix + pattern + seq!['/'] + t,
        None => prefix + pattern,
    }
}

pub open spec fn print_modifier(m: ExpansionModifier) -> Seq<char>
    decreases m,
{
    match m {
        ExpansionModifier::Substring { offset, length } => match length {
            None => seq![':'] + offset,
            Some(l) => seq![':'] + offset + seq![':'] + l,
        },
        ExpansionModifier::StripShortestPrefix(p) => seq!['#'] + print_pattern(p),
        ExpansionModifier::StripLongestPrefix(p) => seq!['#', '#'] + print_pattern(p),
        ExpansionModifier::StripShortestSuffix(p) => seq!['%'] + print_pattern(p),
        ExpansionModifier::StripLongestSuffix(p) => seq!['%', '%'] + print_pattern(p),
        ExpansionModifier::ReplaceOnce { pattern, string } => replacement_text(
            seq!['/'],
            print_pattern(pattern),
            match string {
                Some(t) => Some(print_text(t)),
                None => None,
            },
        ),
        ExpansionModifier::ReplaceAll { pattern, string } => replacement_text(
            seq!['/', '/'],
            print_pattern(pattern),
            match string {
                Some(t) => Some(print_text(t)),
                None => None,
            },
        ),
        ExpansionModifier::ReplacePrefix { pattern, string } => replacement_text(
            seq!['/', '#'],
            print_pattern(pattern),
            match string {
                Some(t) => Some(print_text(t)),
                None => None,
            },
        ),
        ExpansionModifier::ReplaceSuffix { pattern, string } => replacement_text(
            seq!['/', '%'],
            print_pattern(pattern),
            match string {
                Some(t) => Some(print_text(t)),
                None => None,
            },
        ),
        ExpansionModifier::UpperOnce(p) => seq!['^'] + print_pattern(p),
        ExpansionModifier::UpperAll(p) => seq!['^', '^'] + print_pattern(p),
        ExpansionModifier::LowerOnce(p) => seq![','] + print_pattern(p),
        ExpansionModifier::LowerAll(p) => seq![',', ','] + print_pattern(p),
        ExpansionModifier::ErrorOnUnset(t) => seq![':', '?'] + print_text(t),
        ExpansionModifier::Length => seq!['#'],
        ExpansionModifier::WhenUnset(t) => seq![':', '-'] + print_text(t),
        ExpansionModifier::WhenSet(t) => seq![':', '+'] + print_text(t),
        ExpansionModifier::ArrayElements => seq!['[', '@', ']'],
        ExpansionModifier::SingleWordElements => seq!['[', '*', ']'],
    }
}

pub open spec fn print_pattern(p: BashPattern) -> Seq<char>
    decreases p,
{
    print_globs(p.0)
}

pub open spec fn print_globs(s: Seq<GlobPart>) -> Seq<char>
    decreases s,
{
    if s.len() == 0 {
        Seq::empty()
    } else {
        print_globs(s.drop_last()) + print_glob(s.last())
    }
}

pub open spec fn print_glob(g: GlobPart) -> Seq<char>
    decreases g,
{
    match g {
        GlobPart::String(t) => t,
        GlobPart::Escaped(c) => seq!['\\', c],
        GlobPart::AnyString => seq!['*'],
        GlobPart::AnyChar => seq!['?'],
        GlobPart::Range(r) => seq!['['] + r + seq![']'],
        GlobPart::ZeroOrOneOf(l) => seq!['?', '('] + print_plist(l) + seq![')'],
        GlobPart::ZeroOrMoreOf(l) => seq!['*', '('] + print_plist(l) + seq![')'],
        GlobPart::OneOrMoreOf(l) => seq!['+', '('] + print_plist(l) + seq![')'],
        GlobPart::OneOf(l) => seq!['@', '('] + print_plist(l) + seq![')'],
        GlobPart::Not(l) => seq!['!', '('] + print_plist(l) + seq![')'],
    }
}

pub open spec fn print_plist(l: PatternList) -> Seq<char>
    decreases l,
{
    print_patterns(l.0)
}

/// Patterns joined with `'|'`.
pub open spec fn print_patterns(s: Seq<BashPattern>) -> Seq<char>
    decreases s,
{
    if s.len() == 0 {
        Seq::empty()
    } else if s.len() == 1 {
        print_pattern(s[0])
    } else {
        print_patterns(s.drop_last()) + seq!['|'] + print_pattern(s.last())
    }
}

// ---------------------------------------------------------------------
// Escaping inside double quotes
// ---------------------------------------------------------------------

/// The characters that must be escaped in a double-quoted word.
pub open spec fn escapes_in_quotes(c: char) -> bool {
    c == '$' || c == '"' || c == '\\'
}

/// The text that literal parts stand for once their escapes are resolved.
pub open spec fn unescaped(s: Seq<LiteralPart>) -> Seq<char>
    decreases s.len(),
{
    if s.len() == 0 {
        Seq::empty()
    } else {
        unescaped(s.drop_last()) + match s.last() {
            LiteralPart::String(t) => t,
            LiteralPart::Escaped(c) => seq![c],
            LiteralPart::LineContinuation => Seq::empty(),
        }
    }
}

/// A literal part as escaping makes it: a non-empty string of characters
/// that need no escape, or an escaped character that needs one.
pub open spec fn escaped_part(p: LiteralPart) -> bool {
    match p {
        LiteralPart::String(t) => t.len() > 0 && forall|j: int|
            0 <= j < t.len() ==> !escapes_in_quotes(#[trigger] t[j]),
        LiteralPart::Escaped(c) => escapes_in_quotes(c),
        LiteralPart::LineContinuation => false,
    }
}

/// Literal parts in the form escaping produces: every part is an escaped
/// part and no two strings are adjacent.
pub open spec fn escaped_form(s: Seq<LiteralPart>) -> bool {
    &&& forall|i: int| 0 <= i < s.len() ==> escaped_part(#[trigger] s[i])
    &&& forall|i: int|
        0 <= i < s.len() - 1 ==> !(#[trigger] s[i] is String && s[i + 1] is String)
}

/// The literal parts that escaping gives for a text, built character by
/// character: a character that needs it is escaped on its own, the others
/// extend the string part before them.
pub open spec fn escape_parts(s: Seq<char>) -> Seq<LiteralPart>
    decreases s.len(),
{
    if s.len() == 0 {
        Seq::empty()
    } else {
        let r = escape_parts(s.drop_last());
        let c = s.last();
        if escapes_in_quotes(c) {
            r.push(LiteralPart::Escaped(c))
        } else if r.len() > 0 && r.last() is String {
            r.update(r.len() - 1, LiteralPart::String(r.last()->String_0.push(c)))
        } else {
            r.push(LiteralPart::String(seq![c]))
        }
    }
}

/// Escaping can be undone, and it produces the escaped form.
pub proof fn lemma_escape_parts(s: Seq<char>)
    ensures
        unescaped(escape_parts(s)) == s,
        escaped_form(escape_parts(s)),
    decreases s.len(),
{
    if s.len() > 0 {
        let d = s.drop_last();
        lemma_escape_parts(d);
        let r = escape_parts(d);
        let c = s.last();
        assert(s =~= d.push(c));
        if escapes_in_quotes(c) {
            lemma_escape_step_escaped(d, c);
        } else if r.len() > 0 && r.last() is String {
            lemma_escape_step_extend(d, c);
        } else {
            lemma_escape_step_new(d, c);
        }
    }
}

#[verifier::spinoff_prover]
proof fn lemma_escape_step_escaped(d: Seq<char>, c: char)
    requires
        unescaped(escape_parts(d)) == d,
        escaped_form(escape_parts(d)),
        escapes_in_quotes(c),
    ensures
        unescaped(escape_parts(d.push(c))) == d.push(c),
        escaped_form(escape_parts(d.push(c))),
{
    let s = d.push(c);
    assert(s.drop_last() =~= d);
    let r = escape_parts(d);
    let e = escape_parts(s);
    assert(e == r.push(LiteralPart::Escaped(c)));
    assert(e.drop_last() =~= r);
}

#[verifier::spinoff_prover]
#[verifier::rlimit(30)]
proof fn lemma_escape_step_extend(d: Seq<char>, c: char)
    requires
        unescaped(escape_parts(d)) == d,
        escaped_form(escape_parts(d)),
        !escapes_in_quotes(c),
        escape_parts(d).len() > 0,
        escape_parts(d).last() is String,
    ensures
        unescaped(escape_parts(d.push(c))) == d.push(c),
        escaped_form(escape_parts(d.push(c))),
{
    let s = d.push(c);
    assert(s.drop_last() =~= d);
    let r = escape_parts(d);
    let t = r.last()->String_0;
    let e = escape_parts(s);
    assert(e == r.update(r.len() - 1, LiteralPart::String(t.push(c))));
    assert(e.drop_last() =~= r.drop_last());
    assert(r.drop_last().push(r.last()) =~= r);
    assert(unescaped(r) == unescaped(r.drop_last()) + t);
    assert(s =~= unescaped(r.drop_last()) + t.push(c));
    assert forall|i: int| 0 <= i < e.len() implies escaped_part(#[trigger] e[i]) by {
        if i == e.len() - 1 {
            assert(escaped_part(r[i]));
        }
    }
    assert forall|i: int| 0 <= i < e.len() - 1 implies !(#[trigger] e[i] is String && e[i
        + 1] is String) by {
        assert(!(r[i] is String && r[i + 1] is String));
    }
}

#[verifier::spinoff_prover]
#[verifier::rlimit(30)]
proof fn lemma_escape_step_new(d: Seq<char>, c: char)
    requires
        unescaped(escape_parts(d)) == d,
        escaped_form(escape_parts(d)),
        !escapes_in_quotes(c),
        !(escape_parts(d).len() > 0 && escape_parts(d).last() is String),
    ensures
        unescaped(escape_parts(d.push(c))) == d.push(c),
        escaped_form(escape_parts(d.push(c))),
{
    let s = d.push(c);
    assert(s.drop_last() =~= d);
    let r = escape_parts(d);
    let e = escape_parts(s);
    assert(e == r.push(LiteralPart::String(seq![c])));
    assert(e.drop_last() =~= r);
    assert forall|i: int| 0 <= i < e.len() - 1 implies !(#[trigger] e[i] is String && e[i
        + 1] is String) by {
        if i < e.len() - 2 {
            assert(!(r[i] is String && r[i + 1] is String));
        }
    }
}

} // verus!
