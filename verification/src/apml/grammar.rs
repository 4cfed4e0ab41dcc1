//! The APML grammar, stated as a specification over character sequences.
//!
//! Each nonterminal is a spec function from a character sequence `s` and a
//! start position `p` to an optional pair of the parsed node (in the
//! [model](super::model)) and the end position. The alternatives are tried
//! in order and the first that succeeds wins (ordered choice); repetitions
//! are greedy. [`super::parser`] implements exactly these functions.

use vstd::prelude::*;

use super::model::{
    ArrayToken, BashPattern, BracedExpansion, ExpansionModifier, GlobPart, LiteralPart, Lst,
    PatternList, Text, TextUnit, Token, VariableDefinition, VariableValue, Word,
};
use crate::apml::lst::VariableOp;
use crate::chars::char_is_alphanumeric;

verus! {

/// The context in which a text is parsed; it decides which characters end
/// an unquoted word.
#[derive(Clone, Copy, Debug, PartialEq, Eq, Structural)]
pub enum TextCtx {
    /// A string variable value: ends at `' '` and `'#'`.
    Value,
    /// An array element: ends at `' '`, `'#'` and `')'`.
    Element,
    /// A text inside a braced expansion: ends at `'}'`.
    Expansion,
}

/// The context in which a word is parsed.
#[derive(Clone, Copy, Debug, PartialEq, Eq, Structural)]
pub enum WordCtx {
    Unquoted(TextCtx),
    DoubleQuoted,
}

/// The context in which a pattern is parsed; it decides which characters
/// end a literal pattern part.
#[derive(Clone, Copy, Debug, PartialEq, Eq, Structural)]
pub enum PatCtx {
    /// Ends at `'}'`.
    Brace,
    /// Ends at `'}'` and `'/'`.
    BraceSlash,
    /// Ends at `'|'` and `')'`.
    List,
}

/// The character classes of the runs that the grammar takes.
#[derive(Clone, Copy, Debug, PartialEq, Eq, Structural)]
pub enum Run {
    /// Variable name characters: alphanumeric or `'_'`.
    Name,
    /// Anything but `'\''`.
    NotQuote,
    /// Anything but `'\n'`.
    NotNewline,
    /// Anything but `']'`.
    NotBracket,
    /// Digits, `' '`, `'\n'`, `'-'` and `'\t'`.
    Number,
    /// Literal characters of a word.
    Literal(WordCtx),
    /// Literal characters of a pattern.
    Glob(PatCtx),
}

pub open spec fn text_cond(ctx: TextCtx, c: char) -> bool {
    match ctx {
        TextCtx::Value => c != ' ' && c != '#',
        TextCtx::Element => c != ' ' && c != '#' && c != ')',
        TextCtx::Expansion => c != '}',
    }
}

pub open spec fn literal_cond(w: WordCtx, c: char) -> bool {
    match w {
        WordCtx::Unquoted(t) => text_cond(t, c) && c != '\'' && c != '\n',
        WordCtx::DoubleQuoted => true,
    }
}

/// The characters that can be escaped with a backslash in a word.
pub open spec fn escapable(w: WordCtx, c: char) -> bool {
    match w {
        WordCtx::Unquoted(_) => true,
        WordCtx::DoubleQuoted => c == '$' || c == '\\' || c == '"' || c == '`',
    }
}

pub open spec fn pat_excluded(x: PatCtx, c: char) -> bool {
    match x {
        PatCtx::Brace => c == '}',
        PatCtx::BraceSlash => c == '}' || c == '/',
        PatCtx::List => c == '|' || c == ')',
    }
}

pub open spec fn is_ascii_digit(c: char) -> bool {
    '0' <= c && c <= '9'
}

pub open spec fn run_ok(k: Run, c: char) -> bool {
    match k {
        Run::Name => char_is_alphanumeric(c) || c == '_',
        Run::NotQuote => c != '\'',
        Run::NotNewline => c != '\n',
        Run::NotBracket => c != ']',
        Run::Number => is_ascii_digit(c) || c == ' ' || c == '\n' || c == '-' || c == '\t',
        Run::Literal(w) => c != '$' && c != '"' && c != '\\' && literal_cond(w, c),
        Run::Glob(x) => c != '[' && c != '*' && c != '?' && c != '\\' && !pat_excluded(x, c),
    }
}

/// The end of the longest run of `k` characters starting at `p`.
pub open spec fn run_end(s: Seq<char>, p: int, k: Run) -> int
    decreases s.len() - p,
{
    if 0 <= p < s.len() && run_ok(k, s[p]) {
        run_end(s, p + 1, k)
    } else {
        p
    }
}

/// `s` has the character `c` at `p`.
pub open spec fn at(s: Seq<char>, p: int, c: char) -> bool {
    0 <= p < s.len() && s[p] == c
}

/// `s` has the characters `c1 c2` at `p`.
pub open spec fn at2(s: Seq<char>, p: int, c1: char, c2: char) -> bool {
    at(s, p, c1) && at(s, p + 1, c2)
}

pub open spec fn valid_pos(s: Seq<char>, p: int) -> bool {
    0 <= p <= s.len()
}

/// A variable name: a non-empty run of name characters.
pub open spec fn name(s: Seq<char>, p: int) -> Option<(Seq<char>, int)> {
    let e = run_end(s, p, Run::Name);
    if valid_pos(s, p) && e > p {
        Some((s.subrange(p, e), e))
    } else {
        None
    }
}

/// A comment body: everything up to (not including) the next newline.
pub open spec fn comment_end(s: Seq<char>, p: int) -> int {
    run_end(s, p, Run::NotNewline)
}

/// A literal part of a word.
pub open spec fn literal_part(s: Seq<char>, p: int, w: WordCtx) -> Option<(LiteralPart, int)> {
    if !valid_pos(s, p) {
        None
    } else if at2(s, p, '\\', '\n') {
        Some((LiteralPart::LineContinuation, p + 2))
    } else if at(s, p, '\\') && p + 1 < s.len() && escapable(w, s[p + 1]) {
        Some((LiteralPart::Escaped(s[p + 1]), p + 2))
    } else if at(s, p, '\\') && p + 1 < s.len() {
        Some((LiteralPart::String(s.subrange(p, p + 2)), p + 2))
    } else {
        let e = run_end(s, p, Run::Literal(w));
        if e > p {
            Some((LiteralPart::String(s.subrange(p, e)), e))
        } else {
            None
        }
    }
}

/// Zero or more literal parts.
pub open spec fn literal_parts(s: Seq<char>, p: int, w: WordCtx) -> (Seq<LiteralPart>, int)
    decreases s.len() - p,
{
    if !valid_pos(s, p) {
        (Seq::empty(), p)
    } else {
        match literal_part(s, p, w) {
            Some((x, q)) => if p < q <= s.len() {
                let (r, e) = literal_parts(s, q, w);
                (seq![x] + r, e)
            } else {
                (Seq::empty(), p)
            },
            None => (Seq::empty(), p),
        }
    }
}

/// The offset or length of a substring modifier.
pub open spec fn number(s: Seq<char>, p: int) -> Option<(Seq<char>, int)> {
    let e = run_end(s, p, Run::Number);
    if valid_pos(s, p) && e > p {
        Some((s.subrange(p, e), e))
    } else {
        None
    }
}

/// A substring modifier (`":offset"` or `":offset:length"`).
pub open spec fn substring(s: Seq<char>, p: int) -> Option<(ExpansionModifier, int)> {
    if at(s, p, ':') {
        match number(s, p + 1) {
            Some((offset, q)) => if at(s, q, ':') {
                match number(s, q + 1) {
                    Some((length, r)) => Some(
                        (ExpansionModifier::Substring { offset, length: Some(length) }, r),
                    ),
                    None => Some((ExpansionModifier::Substring { offset, length: None }, q)),
                }
            } else {
                Some((ExpansionModifier::Substring { offset, length: None }, q))
            },
            None => None,
        }
    } else {
        None
    }
}

/// The extended-glob operator that opens a pattern list.
pub open spec fn list_glob(op: char, l: PatternList) -> GlobPart {
    if op == '?' {
        GlobPart::ZeroOrOneOf(l)
    } else if op == '*' {
        GlobPart::ZeroOrMoreOf(l)
    } else if op == '+' {
        GlobPart::OneOrMoreOf(l)
    } else if op == '@' {
        GlobPart::OneOf(l)
    } else {
        GlobPart::Not(l)
    }
}

pub open spec fn is_list_op(c: char) -> bool {
    c == '?' || c == '*' || c == '+' || c == '@' || c == '!'
}

/// A pattern part.
pub open spec fn pattern_part(s: Seq<char>, p: int, x: PatCtx) -> Option<(GlobPart, int)>
    decreases s.len() - p, 0int,
{
    if !valid_pos(s, p) {
        None
    } else if at(s, p, '\\') && p + 1 < s.len() {
        Some((GlobPart::Escaped(s[p + 1]), p + 2))
    } else if p + 1 < s.len() && is_list_op(s[p]) && s[p + 1] == '(' && ({
        let (l, q) = pattern_list(s, p + 2, false);
        at(s, q, ')')
    }) {
        let (l, q) = pattern_list(s, p + 2, false);
        Some((list_glob(s[p], l), q + 1))
    } else if at(s, p, '*') {
        Some((GlobPart::AnyString, p + 1))
    } else if at(s, p, '?') {
        Some((GlobPart::AnyChar, p + 1))
    } else if at(s, p, '[') && ({
        let e = run_end(s, p + 1, Run::NotBracket);
        e > p + 1 && at(s, e, ']')
    }) {
        let e = run_end(s, p + 1, Run::NotBracket);
        Some((GlobPart::Range(s.subrange(p + 1, e)), e + 1))
    } else {
        let e = run_end(s, p, Run::Glob(x));
        if e > p {
            Some((GlobPart::String(s.subrange(p, e)), e))
        } else {
            None
        }
    }
}

/// Zero or more pattern parts.
pub open spec fn pattern_parts(s: Seq<char>, p: int, x: PatCtx) -> (Seq<GlobPart>, int)
    decreases s.len() - p, 1int,
{
    if !valid_pos(s, p) {
        (Seq::empty(), p)
    } else {
        match pattern_part(s, p, x) {
            Some((g, q)) => if p < q <= s.len() {
                let (r, e) = pattern_parts(s, q, x);
                (seq![g] + r, e)
            } else {
                (Seq::empty(), p)
            },
            None => (Seq::empty(), p),
        }
    }
}

/// A pattern: one or more pattern parts.
pub open spec fn pattern(s: Seq<char>, p: int, x: PatCtx) -> Option<(BashPattern, int)>
    decreases s.len() - p, 2int,
{
    if !valid_pos(s, p) {
        None
    } else {
        let (g, e) = pattern_parts(s, p, x);
        if g.len() > 0 {
            Some((BashPattern(g), e))
        } else {
            None
        }
    }
}

/// The patterns of a list, each followed by an optional `'|'`. `sep` tells
/// that a `'|'` was read just before `p`: where no pattern follows it, the
/// list ends with an empty pattern, the empty alternative it stands for
/// (as in `?(a|)`).
pub open spec fn pattern_list(s: Seq<char>, p: int, sep: bool) -> (PatternList, int)
    decreases s.len() - p, 3int,
{
    let none = if sep {
        PatternList(seq![BashPattern(Seq::empty())])
    } else {
        PatternList(Seq::empty())
    };
    if !valid_pos(s, p) {
        (none, p)
    } else {
        match pattern(s, p, PatCtx::List) {
            Some((pt, q)) => {
                let q2 = if at(s, q, '|') {
                    q + 1
                } else {
                    q
                };
                if p < q2 <= s.len() {
                    let (r, e) = pattern_list(s, q2, at(s, q, '|'));
                    (PatternList(seq![pt] + r.0), e)
                } else {
                    (none, p)
                }
            },
            None => (none, p),
        }
    }
}

/// The body of a replacing modifier: a pattern and an optional `"/<text>"`.
pub open spec fn replace_body(s: Seq<char>, p: int) -> Option<(BashPattern, Option<Text>, int)>
    decreases s.len() - p, 4int,
{
    if !valid_pos(s, p) {
        None
    } else {
        match pattern(s, p, PatCtx::BraceSlash) {
            Some((pt, q)) => if at(s, q, '/') && q + 1 <= s.len() && q + 1 > p {
                let (us, r) = text_units(s, q + 1, TextCtx::Expansion);
                Some((pt, Some(Text(us)), r))
            } else {
                Some((pt, None, q))
            },
            None => None,
        }
    }
}

/// The modifier that a pattern operator builds.
pub open spec fn pattern_modifier(op: PatOp, pt: BashPattern) -> ExpansionModifier {
    match op {
        PatOp::LongestPrefix => ExpansionModifier::StripLongestPrefix(pt),
        PatOp::ShortestPrefix => ExpansionModifier::StripShortestPrefix(pt),
        PatOp::LongestSuffix => ExpansionModifier::StripLongestSuffix(pt),
        PatOp::ShortestSuffix => ExpansionModifier::StripShortestSuffix(pt),
        PatOp::UpperAll => ExpansionModifier::UpperAll(pt),
        PatOp::UpperOnce => ExpansionModifier::UpperOnce(pt),
        PatOp::LowerAll => ExpansionModifier::LowerAll(pt),
        PatOp::LowerOnce => ExpansionModifier::LowerOnce(pt),
    }
}

/// The modifier that a replacing operator builds.
pub open spec fn replace_modifier(
    op: ReplOp,
    pattern: BashPattern,
    string: Option<Text>,
) -> ExpansionModifier {
    match op {
        ReplOp::All => ExpansionModifier::ReplaceAll { pattern, string },
        ReplOp::Prefix => ExpansionModifier::ReplacePrefix { pattern, string },
        ReplOp::Suffix => ExpansionModifier::ReplaceSuffix { pattern, string },
        ReplOp::Once => ExpansionModifier::ReplaceOnce { pattern, string },
    }
}

/// The kinds of modifiers that take a text.
pub open spec fn text_modifier(op: char, t: Text) -> ExpansionModifier {
    if op == '?' {
        ExpansionModifier::ErrorOnUnset(t)
    } else if op == '-' {
        ExpansionModifier::WhenUnset(t)
    } else {
        ExpansionModifier::WhenSet(t)
    }
}

/// The operators of modifiers that take a pattern only.
#[derive(Clone, Copy, Debug, PartialEq, Eq, Structural)]
pub enum PatOp {
    LongestPrefix,
    ShortestPrefix,
    LongestSuffix,
    ShortestSuffix,
    UpperAll,
    UpperOnce,
    LowerAll,
    LowerOnce,
}

pub open spec fn pat_op_seq(op: PatOp) -> Seq<char> {
    match op {
        PatOp::LongestPrefix => seq!['#', '#'],
        PatOp::ShortestPrefix => seq!['#'],
        PatOp::LongestSuffix => seq!['%', '%'],
        PatOp::ShortestSuffix => seq!['%'],
        PatOp::UpperAll => seq!['^', '^'],
        PatOp::UpperOnce => seq!['^'],
        PatOp::LowerAll => seq![',', ','],
        PatOp::LowerOnce => seq![','],
    }
}

/// The operators of replacing modifiers.
#[derive(Clone, Copy, Debug, PartialEq, Eq, Structural)]
pub enum ReplOp {
    All,
    Prefix,
    Suffix,
    Once,
}

pub open spec fn repl_op_seq(op: ReplOp) -> Seq<char> {
    match op {
        ReplOp::All => seq!['/', '/'],
        ReplOp::Prefix => seq!['/', '#'],
        ReplOp::Suffix => seq!['/', '%'],
        ReplOp::Once => seq!['/'],
    }
}

/// `s` has `t` at `p`.
pub open spec fn starts_with_at(s: Seq<char>, p: int, t: Seq<char>) -> bool {
    0 <= p && p + t.len() <= s.len() && s.subrange(p, p + t.len()) == t
}

/// A pattern modifier with operator `op`, if it applies at `p`.
pub open spec fn try_pattern_modifier(s: Seq<char>, p: int, op: PatOp) -> Option<
    (ExpansionModifier, int),
>
    decreases s.len() - p, 5int,
{
    if valid_pos(s, p) && starts_with_at(s, p, pat_op_seq(op)) {
        match pattern(s, p + pat_op_seq(op).len(), PatCtx::Brace) {
            Some((pt, q)) => Some((pattern_modifier(op, pt), q)),
            None => None,
        }
    } else {
        None
    }
}

/// A replace modifier with operator `op`, if it applies at `p`.
pub open spec fn try_replace_modifier(s: Seq<char>, p: int, op: ReplOp) -> Option<
    (ExpansionModifier, int),
>
    decreases s.len() - p, 5int,
{
    if valid_pos(s, p) && starts_with_at(s, p, repl_op_seq(op)) {
        match replace_body(s, p + repl_op_seq(op).len()) {
            Some((pt, t, q)) => Some((replace_modifier(op, pt, t), q)),
            None => None,
        }
    } else {
        None
    }
}

/// A text modifier (`":?"`, `":-"` or `":+"`), if it applies at `p`.
pub open spec fn try_text_modifier(s: Seq<char>, p: int, op: char) -> Option<
    (ExpansionModifier, int),
>
    decreases s.len() - p, 5int,
{
    if valid_pos(s, p) && at2(s, p, ':', op) {
        let (us, q) = text_units(s, p + 2, TextCtx::Expansion);
        Some((text_modifier(op, Text(us)), q))
    } else {
        None
    }
}

/// An expansion modifier.
pub open spec fn expansion_modifier(s: Seq<char>, p: int) -> Option<(ExpansionModifier, int)>
    decreases s.len() - p, 6int,
{
    if !valid_pos(s, p) {
        None
    } else if try_pattern_modifier(s, p, PatOp::LongestPrefix) is Some {
        try_pattern_modifier(s, p, PatOp::LongestPrefix)
    } else if try_pattern_modifier(s, p, PatOp::ShortestPrefix) is Some {
        try_pattern_modifier(s, p, PatOp::ShortestPrefix)
    } else if try_pattern_modifier(s, p, PatOp::LongestSuffix) is Some {
        try_pattern_modifier(s, p, PatOp::LongestSuffix)
    } else if try_pattern_modifier(s, p, PatOp::ShortestSuffix) is Some {
        try_pattern_modifier(s, p, PatOp::ShortestSuffix)
    } else if try_replace_modifier(s, p, ReplOp::All) is Some {
        try_replace_modifier(s, p, ReplOp::All)
    } else if try_replace_modifier(s, p, ReplOp::Prefix) is Some {
        try_replace_modifier(s, p, ReplOp::Prefix)
    } else if try_replace_modifier(s, p, ReplOp::Suffix) is Some {
        try_replace_modifier(s, p, ReplOp::Suffix)
    } else if try_replace_modifier(s, p, ReplOp::Once) is Some {
        try_replace_modifier(s, p, ReplOp::Once)
    } else if try_pattern_modifier(s, p, PatOp::UpperAll) is Some {
        try_pattern_modifier(s, p, PatOp::UpperAll)
    } else if try_pattern_modifier(s, p, PatOp::UpperOnce) is Some {
        try_pattern_modifier(s, p, PatOp::UpperOnce)
    } else if try_pattern_modifier(s, p, PatOp::LowerAll) is Some {
        try_pattern_modifier(s, p, PatOp::LowerAll)
    } else if try_pattern_modifier(s, p, PatOp::LowerOnce) is Some {
        try_pattern_modifier(s, p, PatOp::LowerOnce)
    } else if try_text_modifier(s, p, '?') is Some {
        try_text_modifier(s, p, '?')
    } else if try_text_modifier(s, p, '-') is Some {
        try_text_modifier(s, p, '-')
    } else if try_text_modifier(s, p, '+') is Some {
        try_text_modifier(s, p, '+')
    } else if substring(s, p) is Some {
        substring(s, p)
    } else if starts_with_at(s, p, seq!['[', '@', ']']) {
        Some((ExpansionModifier::ArrayElements, p + 3))
    } else if starts_with_at(s, p, seq!['[', '*', ']']) {
        Some((ExpansionModifier::SingleWordElements, p + 3))
    } else {
        None
    }
}

/// A braced expansion (the part between `"${"` and `'}'`).
pub open spec fn braced_expansion(s: Seq<char>, p: int) -> Option<(BracedExpansion, int)>
    decreases s.len() - p, 7int,
{
    if !valid_pos(s, p) {
        None
    } else if at(s, p, '#') && name(s, p + 1) is Some {
        let (n, q) = name(s, p + 1)->0;
        Some((BracedExpansion { name: n, modifier: Some(ExpansionModifier::Length) }, q))
    } else {
        match name(s, p) {
            Some((n, q)) => if p < q <= s.len() {
                match expansion_modifier(s, q) {
                    Some((m, r)) => Some((BracedExpansion { name: n, modifier: Some(m) }, r)),
                    None => Some((BracedExpansion { name: n, modifier: None }, q)),
                }
            } else {
                None
            },
            None => None,
        }
    }
}

/// A word.
pub open spec fn word(s: Seq<char>, p: int, w: WordCtx) -> Option<(Word, int)>
    decreases s.len() - p, 8int,
{
    if !valid_pos(s, p) {
        None
    } else if at2(s, p, '$', '{') && ({
        match braced_expansion(s, p + 2) {
            Some((b, q)) => at(s, q, '}'),
            None => false,
        }
    }) {
        let (b, q) = braced_expansion(s, p + 2)->0;
        Some((Word::BracedVariable(b), q + 1))
    } else if at(s, p, '$') && name(s, p + 1) is Some {
        let (n, q) = name(s, p + 1)->0;
        Some((Word::UnbracedVariable(n), q))
    } else if at2(s, p, '$', '(') && ({
        let (ts, q) = array_tokens(s, p + 2);
        at(s, q, ')')
    }) {
        let (ts, q) = array_tokens(s, p + 2);
        Some((Word::Subcommand(ts), q + 1))
    } else {
        let (parts, e) = literal_parts(s, p, w);
        if parts.len() > 0 {
            Some((Word::Literal(parts), e))
        } else {
            None
        }
    }
}

/// Zero or more words.
pub open spec fn words(s: Seq<char>, p: int, w: WordCtx) -> (Seq<Word>, int)
    decreases s.len() - p, 9int,
{
    if !valid_pos(s, p) {
        (Seq::empty(), p)
    } else {
        match word(s, p, w) {
            Some((x, q)) => if p < q <= s.len() {
                let (r, e) = words(s, q, w);
                (seq![x] + r, e)
            } else {
                (Seq::empty(), p)
            },
            None => (Seq::empty(), p),
        }
    }
}

/// A text unit.
pub open spec fn text_unit(s: Seq<char>, p: int, ctx: TextCtx) -> Option<(TextUnit, int)>
    decreases s.len() - p, 10int,
{
    if !valid_pos(s, p) {
        None
    } else if at(s, p, '\'') && at(s, run_end(s, p + 1, Run::NotQuote), '\'') {
        let e = run_end(s, p + 1, Run::NotQuote);
        Some((TextUnit::SingleQuote(s.subrange(p + 1, e)), e + 1))
    } else if at(s, p, '"') && ({
        let (ws, q) = words(s, p + 1, WordCtx::DoubleQuoted);
        at(s, q, '"')
    }) {
        let (ws, q) = words(s, p + 1, WordCtx::DoubleQuoted);
        Some((TextUnit::DoubleQuote(ws), q + 1))
    } else {
        let (ws, q) = words(s, p, WordCtx::Unquoted(ctx));
        if ws.len() > 0 {
            Some((TextUnit::Unquoted(ws), q))
        } else {
            None
        }
    }
}

/// Zero or more text units.
pub open spec fn text_units(s: Seq<char>, p: int, ctx: TextCtx) -> (Seq<TextUnit>, int)
    decreases s.len() - p, 11int,
{
    if !valid_pos(s, p) {
        (Seq::empty(), p)
    } else {
        match text_unit(s, p, ctx) {
            Some((u, q)) => if p < q <= s.len() {
                let (r, e) = text_units(s, q, ctx);
                (seq![u] + r, e)
            } else {
                (Seq::empty(), p)
            },
            None => (Seq::empty(), p),
        }
    }
}

/// A token of an array value or a sub-command.
pub open spec fn array_token(s: Seq<char>, p: int) -> Option<(ArrayToken, int)>
    decreases s.len() - p, 12int,
{
    if !valid_pos(s, p) {
        None
    } else if at(s, p, ' ') || at(s, p, '\t') {
        Some((ArrayToken::Spacy(s[p]), p + 1))
    } else if at(s, p, '\n') {
        Some((ArrayToken::Newline, p + 1))
    } else if at(s, p, '#') {
        let e = comment_end(s, p + 1);
        Some((ArrayToken::Comment(s.subrange(p + 1, e)), e))
    } else {
        let (us, q) = text_units(s, p, TextCtx::Element);
        if us.len() > 0 {
            Some((ArrayToken::Element(Text(us)), q))
        } else {
            None
        }
    }
}

/// Zero or more array tokens.
pub open spec fn array_tokens(s: Seq<char>, p: int) -> (Seq<ArrayToken>, int)
    decreases s.len() - p, 13int,
{
    if !valid_pos(s, p) {
        (Seq::empty(), p)
    } else {
        match array_token(s, p) {
            Some((t, q)) => if p < q <= s.len() {
                let (r, e) = array_tokens(s, q);
                (seq![t] + r, e)
            } else {
                (Seq::empty(), p)
            },
            None => (Seq::empty(), p),
        }
    }
}

/// A variable operator.
pub open spec fn variable_op(s: Seq<char>, p: int) -> Option<(VariableOp, int)> {
    if at(s, p, '=') {
        Some((VariableOp::Assignment, p + 1))
    } else if at2(s, p, '+', '=') {
        Some((VariableOp::Append, p + 2))
    } else {
        None
    }
}

/// A variable value.
pub open spec fn variable_value(s: Seq<char>, p: int) -> (VariableValue, int) {
    if at(s, p, '(') && at(s, array_tokens(s, p + 1).1, ')') {
        let (ts, q) = array_tokens(s, p + 1);
        (VariableValue::Array(ts), q + 1)
    } else {
        let (us, q) = text_units(s, p, TextCtx::Value);
        (VariableValue::String(Text(us)), q)
    }
}

/// A variable definition.
pub open spec fn variable_def(s: Seq<char>, p: int) -> Option<(VariableDefinition, int)> {
    match name(s, p) {
        Some((n, q)) => match variable_op(s, q) {
            Some((op, r)) => {
                let (v, e) = variable_value(s, r);
                Some((VariableDefinition { name: n, op, value: v }, e))
            },
            None => None,
        },
        None => None,
    }
}

/// A top-level token.
pub open spec fn token(s: Seq<char>, p: int) -> Option<(Token, int)> {
    if !valid_pos(s, p) {
        None
    } else if at(s, p, ' ') || at(s, p, '\t') {
        Some((Token::Spacy(s[p]), p + 1))
    } else if at(s, p, '\n') {
        Some((Token::Newline, p + 1))
    } else if at(s, p, '#') {
        let e = comment_end(s, p + 1);
        Some((Token::Comment(s.subrange(p + 1, e)), e))
    } else {
        match variable_def(s, p) {
            Some((d, e)) => Some((Token::Variable(d), e)),
            None => None,
        }
    }
}

/// Zero or more top-level tokens.
pub open spec fn tokens(s: Seq<char>, p: int) -> (Seq<Token>, int)
    decreases s.len() - p,
{
    if !valid_pos(s, p) {
        (Seq::empty(), p)
    } else {
        match token(s, p) {
            Some((t, q)) => if p < q <= s.len() {
                let (r, e) = tokens(s, q);
                (seq![t] + r, e)
            } else {
                (Seq::empty(), p)
            },
            None => (Seq::empty(), p),
        }
    }
}

/// The longest prefix of `s` that the grammar reads as tokens.
pub open spec fn apml_lst(s: Seq<char>) -> (Lst, int) {
    let (ts, e) = tokens(s, 0);
    (Lst(ts), e)
}

} // verus!
