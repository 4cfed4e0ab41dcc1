//! The APML parser: reads source text into a [lossless syntax tree][super::lst].
//!
//! Every function here computes exactly the nonterminal of
//! [`super::grammar`] of the same name, and the tree it returns prints back
//! to the text it consumed (see [`lemma_lst_prints_source`]).

use vstd::prelude::*;

use super::grammar;
use super::grammar::{PatCtx, PatOp, ReplOp, Run, TextCtx, WordCtx};
use super::lst::{
    view_atok, view_atoks, view_braced, view_def, view_part, view_parts, view_text, view_token,
    view_tokens, view_unit, view_units, view_word, view_words, ApmlLst, ArrayToken,
    BracedExpansion, ExpansionModifier, LiteralPart, Text, TextUnit, Token, VariableDefinition,
    VariableOp, VariableValue, Word,
};
use super::model;
use super::pattern::{
    view_glob, view_globs, view_pattern, view_patterns, view_plist, BashPattern, GlobPart,
    PatternList,
};
use crate::chars::{chars_of, is_alphanumeric, string_from_chars};

verus! {

/// Errors produced while parsing the input source.
#[derive(Debug, PartialEq, Eq)]
pub enum ParseError {
    /// The input is not valid.
    SyntaxError(String),
    /// Some text at the given position (counted in bytes, from one) cannot
    /// be read.
    UnexpectedSource { pos: usize },
}

pub fn text_cond(ctx: TextCtx, c: char) -> (res: bool)
    ensures
        res == grammar::text_cond(ctx, c),
{
    match ctx {
        TextCtx::Value => c != ' ' && c != '#',
        TextCtx::Element => c != ' ' && c != '#' && c != ')',
        TextCtx::Expansion => c != '}',
    }
}

pub fn literal_cond(w: WordCtx, c: char) -> (res: bool)
    ensures
        res == grammar::literal_cond(w, c),
{
    match w {
        WordCtx::Unquoted(t) => text_cond(t, c) && c != '\'' && c != '\n',
        WordCtx::DoubleQuoted => true,
    }
}

pub fn escapable(w: WordCtx, c: char) -> (res: bool)
    ensures
        res == grammar::escapable(w, c),
{
    match w {
        WordCtx::Unquoted(_) => true,
        WordCtx::DoubleQuoted => c == '$' || c == '\\' || c == '"' || c == '`',
    }
}

pub fn pat_excluded(x: PatCtx, c: char) -> (res: bool)
    ensures
        res == grammar::pat_excluded(x, c),
{
    match x {
        PatCtx::Brace => c == '}',
        PatCtx::BraceSlash => c == '}' || c == '/',
        PatCtx::List => c == '|' || c == ')',
    }
}

pub fn run_ok(k: Run, c: char) -> (res: bool)
    ensures
        res == grammar::run_ok(k, c),
{
    match k {
        Run::Name => is_alphanumeric(c) || c == '_',
        Run::NotQuote => c != '\'',
        Run::NotNewline => c != '\n',
        Run::NotBracket => c != ']',
        Run::Number => ('0' <= c && c <= '9') || c == ' ' || c == '\n' || c == '-' || c == '\t',
        Run::Literal(w) => c != '$' && c != '"' && c != '\\' && literal_cond(w, c),
        Run::Glob(x) => c != '[' && c != '*' && c != '?' && c != '\\' && !pat_excluded(x, c),
    }
}

/// The end of the longest run of `k` characters starting at `p`.
pub fn run_end(s: &Vec<char>, p: usize, k: Run) -> (res: usize)
    requires
        p <= s@.len() < usize::MAX,
    ensures
        res as int == grammar::run_end(s@, p as int, k),
        p <= res <= s@.len(),
{
    let mut i = p;
    loop
        invariant
            p <= i <= s@.len(),
            grammar::run_end(s@, p as int, k) == grammar::run_end(s@, i as int, k),
        ensures
            p <= i <= s@.len(),
            grammar::run_end(s@, p as int, k) == i,
        decreases s@.len() - i,
    {
        if i >= s.len() {
            break;
        }
        if !run_ok(k, s[i]) {
            break;
        }
        i = i + 1;
    }
    i
}

fn at(s: &Vec<char>, p: usize, c: char) -> (res: bool)
    ensures
        res == grammar::at(s@, p as int, c),
{
    p < s.len() && s[p] == c
}

fn at2(s: &Vec<char>, p: usize, c1: char, c2: char) -> (res: bool)
    ensures
        res == grammar::at2(s@, p as int, c1, c2),
{
    p < s.len() && s[p] == c1 && p < s.len() - 1 && s[p + 1] == c2
}

/// A variable name.
pub fn name(s: &Vec<char>, p: usize) -> (res: Option<(String, usize)>)
    requires
        p <= s@.len() < usize::MAX,
    ensures
        match res {
            Some((n, e)) => grammar::name(s@, p as int) == Some((n@, e as int)),
            None => grammar::name(s@, p as int) is None,
        },
        res matches Some((_, e)) ==> p < e <= s@.len(),
{
    let e = run_end(s, p, Run::Name);
    if e > p {
        Some((string_from_chars(s, p, e), e))
    } else {
        None
    }
}

/// A literal part of a word.
pub fn literal_part(s: &Vec<char>, p: usize, w: WordCtx) -> (res: Option<(LiteralPart, usize)>)
    requires
        p <= s@.len() < usize::MAX,
    ensures
        match res {
            Some((x, e)) => grammar::literal_part(s@, p as int, w) == Some(
                (view_part(x), e as int),
            ),
            None => grammar::literal_part(s@, p as int, w) is None,
        },
{
    if at2(s, p, '\\', '\n') {
        Some((LiteralPart::LineContinuation, p + 2))
    } else if at(s, p, '\\') && p + 1 < s.len() && escapable(w, s[p + 1]) {
        Some((LiteralPart::Escaped(s[p + 1]), p + 2))
    } else if at(s, p, '\\') && p + 1 < s.len() {
        Some((LiteralPart::String(string_from_chars(s, p, p + 2)), p + 2))
    } else {
        let e = run_end(s, p, Run::Literal(w));
        if e > p {
            Some((LiteralPart::String(string_from_chars(s, p, e)), e))
        } else {
            None
        }
    }
}

/// Zero or more literal parts.
pub fn literal_parts(s: &Vec<char>, p: usize, w: WordCtx) -> (res: (Vec<LiteralPart>, usize))
    requires
        p <= s@.len() < usize::MAX,
    ensures
        grammar::literal_parts(s@, p as int, w) == (view_parts(res.0@), res.1 as int),
        p <= res.1 <= s@.len(),
{
    let mut acc: Vec<LiteralPart> = Vec::new();
    let mut q = p;
    loop
        invariant
            p <= q <= s@.len() < usize::MAX,
            grammar::literal_parts(s@, p as int, w).0 == view_parts(acc@)
                + grammar::literal_parts(s@, q as int, w).0,
            grammar::literal_parts(s@, p as int, w).1 == grammar::literal_parts(s@, q as int, w).1,
        ensures
            p <= q <= s@.len(),
            grammar::literal_parts(s@, p as int, w).0 == view_parts(acc@),
            grammar::literal_parts(s@, p as int, w).1 == q,
        decreases s@.len() - q,
    {
        match literal_part(s, q, w) {
            Some((x, q2)) => {
                if q < q2 && q2 <= s.len() {
                    let ghost old_acc = acc@;
                    acc.push(x);
                    proof {
                        let r = grammar::literal_parts(s@, q2 as int, w).0;
                        assert(view_parts(acc@) =~= view_parts(old_acc).push(view_part(x)));
                        assert(view_parts(old_acc) + (seq![view_part(x)] + r) =~= view_parts(acc@)
                            + r);
                    }
                    q = q2;
                } else {
                    assert(view_parts(acc@) + Seq::<model::LiteralPart>::empty() =~= view_parts(acc@));
                    break;
                }
            },
            None => {
                assert(view_parts(acc@) + Seq::<model::LiteralPart>::empty() =~= view_parts(acc@));
                break;
            },
        }
    }
    (acc, q)
}

/// The offset or length of a substring modifier.
fn number(s: &Vec<char>, p: usize) -> (res: Option<(String, usize)>)
    requires
        p <= s@.len() < usize::MAX,
    ensures
        match res {
            Some((n, e)) => grammar::number(s@, p as int) == Some((n@, e as int)),
            None => grammar::number(s@, p as int) is None,
        },
        res matches Some((_, e)) ==> p < e <= s@.len(),
{
    let e = run_end(s, p, Run::Number);
    if e > p {
        Some((string_from_chars(s, p, e), e))
    } else {
        None
    }
}

/// A substring modifier.
pub fn substring(s: &Vec<char>, p: usize) -> (res: Option<(ExpansionModifier, usize)>)
    requires
        p <= s@.len() < usize::MAX,
    ensures
        match res {
            Some((m, e)) => grammar::substring(s@, p as int) == Some(
                (super::lst::view_modifier(m), e as int),
            ),
            None => grammar::substring(s@, p as int) is None,
        },
        res matches Some((_, e)) ==> p < e <= s@.len(),
{
    if at(s, p, ':') {
        match number(s, p + 1) {
            Some((offset, q)) => {
                if at(s, q, ':') {
                    match number(s, q + 1) {
                        Some((length, r)) => Some(
                            (ExpansionModifier::Substring { offset, length: Some(length) }, r),
                        ),
                        None => Some((ExpansionModifier::Substring { offset, length: None }, q)),
                    }
                } else {
                    Some((ExpansionModifier::Substring { offset, length: None }, q))
                }
            },
            None => None,
        }
    } else {
        None
    }
}


fn is_list_op(c: char) -> (res: bool)
    ensures
        res == grammar::is_list_op(c),
{
    c == '?' || c == '*' || c == '+' || c == '@' || c == '!'
}

fn list_glob(op: char, l: PatternList) -> (res: GlobPart)
    ensures
        view_glob(res) == grammar::list_glob(op, view_plist(l)),
{
    if op == '?' {
        GlobPart::ZeroOrOneOf(l)
    } else if op == '*' {
        GlobPart::ZeroOrMoreOf(l)
    } else if op == '+' {
        GlobPart::OneOrMoreOf(l)
    } else if op == '@' {
        GlobPart::OneOf(l)
    } else {
        GlobPart::Not(l)
    }
}

/// A pattern part.
pub fn pattern_part(s: &Vec<char>, p: usize, x: PatCtx) -> (res: Option<(GlobPart, usize)>)
    requires
        p <= s@.len() < usize::MAX,
    ensures
        match res {
            Some((g, e)) => grammar::pattern_part(s@, p as int, x) == Some((view_glob(g), e as int))
                && p <= e <= s@.len(),
            None => grammar::pattern_part(s@, p as int, x) is None,
        },
    decreases s@.len() - p, 0int,
{
    if at(s, p, '\\') && p + 1 < s.len() {
        let g = GlobPart::Escaped(s[p + 1]);
        proof {
            lemma_view_escaped_glob(s@[p + 1]);
        }
        return Some((g, p + 2));
    }
    if p + 1 < s.len() && is_list_op(s[p]) && s[p + 1] == '(' {
        let (l, q) = pattern_list(s, p + 2);
        if at(s, q, ')') {
            return Some((list_glob(s[p], l), q + 1));
        }
    }
    if at(s, p, '*') {
        return Some((GlobPart::AnyString, p + 1));
    }
    if at(s, p, '?') {
        return Some((GlobPart::AnyChar, p + 1));
    }
    if at(s, p, '[') {
        let e = run_end(s, p + 1, Run::NotBracket);
        if e > p + 1 && at(s, e, ']') {
            return Some((GlobPart::Range(string_from_chars(s, p + 1, e)), e + 1));
        }
    }
    let e = run_end(s, p, Run::Glob(x));
    if e > p {
        Some((GlobPart::String(string_from_chars(s, p, e)), e))
    } else {
        None
    }
}

/// Zero or more pattern parts.
pub fn pattern_parts(s: &Vec<char>, p: usize, x: PatCtx) -> (res: (Vec<GlobPart>, usize))
    requires
        p <= s@.len() < usize::MAX,
    ensures
        grammar::pattern_parts(s@, p as int, x) == (view_globs(res.0@), res.1 as int),
        p <= res.1 <= s@.len(),
    decreases s@.len() - p, 1int,
{
    let mut acc: Vec<GlobPart> = Vec::new();
    let mut q = p;
    loop
        invariant
            p <= q <= s@.len() < usize::MAX,
            grammar::pattern_parts(s@, p as int, x).0 == view_globs(acc@)
                + grammar::pattern_parts(s@, q as int, x).0,
            grammar::pattern_parts(s@, p as int, x).1 == grammar::pattern_parts(s@, q as int, x).1,
        ensures
            p <= q <= s@.len(),
            grammar::pattern_parts(s@, p as int, x).0 == view_globs(acc@),
            grammar::pattern_parts(s@, p as int, x).1 == q,
        decreases s@.len() - q,
    {
        match pattern_part(s, q, x) {
            Some((g, q2)) => {
                if q < q2 && q2 <= s.len() {
                    let ghost old_acc = acc@;
                    acc.push(g);
                    proof {
                        let r = grammar::pattern_parts(s@, q2 as int, x).0;
                        assert(acc@.drop_last() =~= old_acc);
                        assert(view_globs(old_acc) + (seq![view_glob(g)] + r) =~= view_globs(acc@)
                            + r);
                    }
                    q = q2;
                } else {
                    assert(view_globs(acc@) + Seq::<model::GlobPart>::empty() =~= view_globs(acc@));
                    break;
                }
            },
            None => {
                assert(view_globs(acc@) + Seq::<model::GlobPart>::empty() =~= view_globs(acc@));
                break;
            },
        }
    }
    (acc, q)
}

/// A bash pattern: one or more pattern parts.
pub fn bash_pattern(s: &Vec<char>, p: usize, x: PatCtx) -> (res: Option<(BashPattern, usize)>)
    requires
        p <= s@.len() < usize::MAX,
    ensures
        match res {
            Some((pt, e)) => grammar::pattern(s@, p as int, x) == Some((view_pattern(pt), e as int))
                && p <= e <= s@.len(),
            None => grammar::pattern(s@, p as int, x) is None,
        },
    decreases s@.len() - p, 2int,
{
    let (g, e) = pattern_parts(s, p, x);
    if g.len() > 0 {
        Some((BashPattern(g), e))
    } else {
        None
    }
}

/// A list of patterns separated by `'|'`; a `'|'` that no pattern follows
/// ends the list with an empty pattern.
pub fn pattern_list(s: &Vec<char>, p: usize) -> (res: (PatternList, usize))
    requires
        p <= s@.len() < usize::MAX,
    ensures
        grammar::pattern_list(s@, p as int, false) == (view_plist(res.0), res.1 as int),
        p <= res.1 <= s@.len(),
    decreases s@.len() - p, 3int,
{
    let mut acc: Vec<BashPattern> = Vec::new();
    let mut q = p;
    let mut sep = false;
    loop
        invariant_except_break
            grammar::pattern_list(s@, p as int, false).0.0 == view_patterns(acc@)
                + grammar::pattern_list(s@, q as int, sep).0.0,
            grammar::pattern_list(s@, p as int, false).1 == grammar::pattern_list(s@, q as int, sep).1,
        invariant
            p <= q <= s@.len() < usize::MAX,
        ensures
            p <= q <= s@.len(),
            grammar::pattern_list(s@, p as int, false).0.0 == view_patterns(acc@),
            grammar::pattern_list(s@, p as int, false).1 == q,
        decreases s@.len() - q,
    {
        match bash_pattern(s, q, PatCtx::List) {
            Some((pt, q1)) => {
                let bar = at(s, q1, '|');
                let q2 = if bar {
                    q1 + 1
                } else {
                    q1
                };
                if q < q2 && q2 <= s.len() {
                    let ghost old_acc = acc@;
                    acc.push(pt);
                    proof {
                        let r = grammar::pattern_list(s@, q2 as int, bar).0.0;
                        assert(acc@.drop_last() =~= old_acc);
                        assert(view_patterns(old_acc) + (seq![view_pattern(pt)] + r)
                            =~= view_patterns(acc@) + r);
                    }
                    q = q2;
                    sep = bar;
                } else {
                    close_list(&mut acc, sep);
                    break;
                }
            },
            None => {
                close_list(&mut acc, sep);
                break;
            },
        }
    }
    (PatternList(acc), q)
}

/// Ends a list of patterns: with an empty pattern after a `'|'`.
fn close_list(acc: &mut Vec<BashPattern>, sep: bool)
    ensures
        view_patterns(final(acc)@) == view_patterns(old(acc)@) + (if sep {
            seq![model::BashPattern(Seq::empty())]
        } else {
            Seq::<model::BashPattern>::empty()
        }),
{
    let ghost old_acc = acc@;
    if sep {
        let e = BashPattern(Vec::new());
        assert(view_pattern(e) == model::BashPattern(Seq::<model::GlobPart>::empty())) by {
            assert(e.0@ =~= Seq::<GlobPart>::empty());
        }
        acc.push(e);
        assert(acc@.drop_last() =~= old_acc);
        assert(view_patterns(acc@) =~= view_patterns(old_acc) + seq![model::BashPattern(Seq::empty())]);
    } else {
        assert(view_patterns(acc@) =~= view_patterns(old_acc) + Seq::<model::BashPattern>::empty());
    }
}

/// The body of a replacing modifier.
pub fn replace_body(s: &Vec<char>, p: usize) -> (res: Option<(BashPattern, Option<Text>, usize)>)
    requires
        p <= s@.len() < usize::MAX,
    ensures
        match res {
            Some((pt, t, e)) => grammar::replace_body(s@, p as int) == Some(
                (
                    view_pattern(pt),
                    match t {
                        Some(t) => Some(view_text(t)),
                        None => None,
                    },
                    e as int,
                ),
            ) && p <= e <= s@.len(),
            None => grammar::replace_body(s@, p as int) is None,
        },
    decreases s@.len() - p, 4int,
{
    match bash_pattern(s, p, PatCtx::BraceSlash) {
        Some((pt, q)) => {
            if at(s, q, '/') && q + 1 <= s.len() && q + 1 > p {
                let (us, r) = text_units(s, q + 1, TextCtx::Expansion);
                Some((pt, Some(Text(us)), r))
            } else {
                Some((pt, None, q))
            }
        },
        None => None,
    }
}

/// Finds the operator `c1 [c2]` at `p`; returns the position after it.
fn starts_op(s: &Vec<char>, p: usize, c1: char, c2: Option<char>) -> (res: Option<usize>)
    requires
        p <= s@.len() < usize::MAX,
    ensures
        ({
            let op = match c2 {
                Some(c) => seq![c1, c],
                None => seq![c1],
            };
            match res {
                Some(e) => grammar::starts_with_at(s@, p as int, op) && e == p + op.len(),
                None => !grammar::starts_with_at(s@, p as int, op),
            }
        }),
{
    match c2 {
        Some(c) => {
            if at2(s, p, c1, c) {
                assert(s@.subrange(p as int, p + 2) =~= seq![c1, c]);
                Some(p + 2)
            } else {
                proof {
                    if grammar::starts_with_at(s@, p as int, seq![c1, c]) {
                        assert(s@.subrange(p as int, p + 2)[0] == c1);
                        assert(s@.subrange(p as int, p + 2)[1] == c);
                    }
                }
                None
            }
        },
        None => {
            if at(s, p, c1) {
                assert(s@.subrange(p as int, p + 1) =~= seq![c1]);
                Some(p + 1)
            } else {
                proof {
                    if grammar::starts_with_at(s@, p as int, seq![c1]) {
                        assert(s@.subrange(p as int, p + 1)[0] == c1);
                    }
                }
                None
            }
        },
    }
}

fn pat_op_chars(op: PatOp) -> (res: (char, Option<char>))
    ensures
        grammar::pat_op_seq(op) == match res.1 {
            Some(c) => seq![res.0, c],
            None => seq![res.0],
        },
{
    match op {
        PatOp::LongestPrefix => ('#', Some('#')),
        PatOp::ShortestPrefix => ('#', None),
        PatOp::LongestSuffix => ('%', Some('%')),
        PatOp::ShortestSuffix => ('%', None),
        PatOp::UpperAll => ('^', Some('^')),
        PatOp::UpperOnce => ('^', None),
        PatOp::LowerAll => (',', Some(',')),
        PatOp::LowerOnce => (',', None),
    }
}

fn repl_op_chars(op: ReplOp) -> (res: (char, Option<char>))
    ensures
        grammar::repl_op_seq(op) == match res.1 {
            Some(c) => seq![res.0, c],
            None => seq![res.0],
        },
{
    match op {
        ReplOp::All => ('/', Some('/')),
        ReplOp::Prefix => ('/', Some('#')),
        ReplOp::Suffix => ('/', Some('%')),
        ReplOp::Once => ('/', None),
    }
}

fn pattern_modifier(op: PatOp, pt: BashPattern) -> (res: ExpansionModifier)
    ensures
        super::lst::view_modifier(res) == grammar::pattern_modifier(op, view_pattern(pt)),
{
    let b = Box::new(pt);
    match op {
        PatOp::LongestPrefix => ExpansionModifier::StripLongestPrefix(b),
        PatOp::ShortestPrefix => ExpansionModifier::StripShortestPrefix(b),
        PatOp::LongestSuffix => ExpansionModifier::StripLongestSuffix(b),
        PatOp::ShortestSuffix => ExpansionModifier::StripShortestSuffix(b),
        PatOp::UpperAll => ExpansionModifier::UpperAll(b),
        PatOp::UpperOnce => ExpansionModifier::UpperOnce(b),
        PatOp::LowerAll => ExpansionModifier::LowerAll(b),
        PatOp::LowerOnce => ExpansionModifier::LowerOnce(b),
    }
}

fn replace_modifier(op: ReplOp, pt: BashPattern, t: Option<Text>) -> (res: ExpansionModifier)
    ensures
        super::lst::view_modifier(res) == grammar::replace_modifier(
            op,
            view_pattern(pt),
            match t {
                Some(t) => Some(view_text(t)),
                None => None,
            },
        ),
{
    let pattern = Box::new(pt);
    let string = match t {
        Some(t) => Some(Box::new(t)),
        None => None,
    };
    match op {
        ReplOp::All => ExpansionModifier::ReplaceAll { pattern, string },
        ReplOp::Prefix => ExpansionModifier::ReplacePrefix { pattern, string },
        ReplOp::Suffix => ExpansionModifier::ReplaceSuffix { pattern, string },
        ReplOp::Once => ExpansionModifier::ReplaceOnce { pattern, string },
    }
}

/// A pattern modifier with operator `op`, if it applies at `p`.
fn try_pattern_modifier(s: &Vec<char>, p: usize, op: PatOp) -> (res: Option<
    (ExpansionModifier, usize),
>)
    requires
        p <= s@.len() < usize::MAX,
    ensures
        match res {
            Some((m, e)) => grammar::try_pattern_modifier(s@, p as int, op) == Some(
                (super::lst::view_modifier(m), e as int),
            ) && p <= e <= s@.len(),
            None => grammar::try_pattern_modifier(s@, p as int, op) is None,
        },
    decreases s@.len() - p, 5int,
{
    let (c1, c2) = pat_op_chars(op);
    match starts_op(s, p, c1, c2) {
        Some(q) => match bash_pattern(s, q, PatCtx::Brace) {
            Some((pt, e)) => Some((pattern_modifier(op, pt), e)),
            None => None,
        },
        None => None,
    }
}

/// A replacing modifier with operator `op`, if it applies at `p`.
fn try_replace_modifier(s: &Vec<char>, p: usize, op: ReplOp) -> (res: Option<
    (ExpansionModifier, usize),
>)
    requires
        p <= s@.len() < usize::MAX,
    ensures
        match res {
            Some((m, e)) => grammar::try_replace_modifier(s@, p as int, op) == Some(
                (super::lst::view_modifier(m), e as int),
            ) && p <= e <= s@.len(),
            None => grammar::try_replace_modifier(s@, p as int, op) is None,
        },
    decreases s@.len() - p, 5int,
{
    let (c1, c2) = repl_op_chars(op);
    match starts_op(s, p, c1, c2) {
        Some(q) => match replace_body(s, q) {
            Some((pt, t, e)) => Some((replace_modifier(op, pt, t), e)),
            None => None,
        },
        None => None,
    }
}

fn text_modifier(op: char, t: Text) -> (res: ExpansionModifier)
    ensures
        super::lst::view_modifier(res) == grammar::text_modifier(op, view_text(t)),
{
    if op == '?' {
        ExpansionModifier::ErrorOnUnset(Box::new(t))
    } else if op == '-' {
        ExpansionModifier::WhenUnset(Box::new(t))
    } else {
        ExpansionModifier::WhenSet(Box::new(t))
    }
}

/// A text modifier, if it applies at `p`.
fn try_text_modifier(s: &Vec<char>, p: usize, op: char) -> (res: Option<(ExpansionModifier, usize)>)
    requires
        p <= s@.len() < usize::MAX,
    ensures
        match res {
            Some((m, e)) => grammar::try_text_modifier(s@, p as int, op) == Some(
                (super::lst::view_modifier(m), e as int),
            ) && p <= e <= s@.len(),
            None => grammar::try_text_modifier(s@, p as int, op) is None,
        },
    decreases s@.len() - p, 5int,
{
    if at2(s, p, ':', op) {
        let (us, q) = text_units(s, p + 2, TextCtx::Expansion);
        Some((text_modifier(op, Text(us)), q))
    } else {
        None
    }
}

/// An expansion modifier.
#[verifier::rlimit(50)]
pub fn expansion_modifier(s: &Vec<char>, p: usize) -> (res: Option<(ExpansionModifier, usize)>)
    requires
        p <= s@.len() < usize::MAX,
    ensures
        match res {
            Some((m, e)) => grammar::expansion_modifier(s@, p as int) == Some(
                (super::lst::view_modifier(m), e as int),
            ) && p <= e <= s@.len(),
            None => grammar::expansion_modifier(s@, p as int) is None,
        },
    decreases s@.len() - p, 6int,
{
    let r = try_pattern_modifier(s, p, PatOp::LongestPrefix);
    if r.is_some() {
        return r;
    }
    let r = try_pattern_modifier(s, p, PatOp::ShortestPrefix);
    if r.is_some() {
        return r;
    }
    let r = try_pattern_modifier(s, p, PatOp::LongestSuffix);
    if r.is_some() {
        return r;
    }
    let r = try_pattern_modifier(s, p, PatOp::ShortestSuffix);
    if r.is_some() {
        return r;
    }
    let r = try_replace_modifier(s, p, ReplOp::All);
    if r.is_some() {
        return r;
    }
    let r = try_replace_modifier(s, p, ReplOp::Prefix);
    if r.is_some() {
        return r;
    }
    let r = try_replace_modifier(s, p, ReplOp::Suffix);
    if r.is_some() {
        return r;
    }
    let r = try_replace_modifier(s, p, ReplOp::Once);
    if r.is_some() {
        return r;
    }
    let r = try_pattern_modifier(s, p, PatOp::UpperAll);
    if r.is_some() {
        return r;
    }
    let r = try_pattern_modifier(s, p, PatOp::UpperOnce);
    if r.is_some() {
        return r;
    }
    let r = try_pattern_modifier(s, p, PatOp::LowerAll);
    if r.is_some() {
        return r;
    }
    let r = try_pattern_modifier(s, p, PatOp::LowerOnce);
    if r.is_some() {
        return r;
    }
    let r = try_text_modifier(s, p, '?');
    if r.is_some() {
        return r;
    }
    let r = try_text_modifier(s, p, '-');
    if r.is_some() {
        return r;
    }
    let r = try_text_modifier(s, p, '+');
    if r.is_some() {
        return r;
    }
    let r = substring(s, p);
    if r.is_some() {
        return r;
    }
    if p < s.len() && s.len() - p > 2 && s[p] == '[' && s[p + 1] == '@' && s[p + 2] == ']' {
        assert(s@.subrange(p as int, p + 3) =~= seq!['[', '@', ']']);
        return Some((ExpansionModifier::ArrayElements, p + 3));
    }
    if p < s.len() && s.len() - p > 2 && s[p] == '[' && s[p + 1] == '*' && s[p + 2] == ']' {
        assert(s@.subrange(p as int, p + 3) =~= seq!['[', '*', ']']);
        return Some((ExpansionModifier::SingleWordElements, p + 3));
    }
    proof {
        if grammar::starts_with_at(s@, p as int, seq!['[', '@', ']']) {
            assert(s@.subrange(p as int, p + 3)[1] == '@');
        }
        if grammar::starts_with_at(s@, p as int, seq!['[', '*', ']']) {
            assert(s@.subrange(p as int, p + 3)[1] == '*');
        }
    }
    None
}

/// A braced expansion.
pub fn braced_expansion(s: &Vec<char>, p: usize) -> (res: Option<(BracedExpansion, usize)>)
    requires
        p <= s@.len() < usize::MAX,
    ensures
        match res {
            Some((b, e)) => grammar::braced_expansion(s@, p as int) == Some(
                (view_braced(b), e as int),
            ) && p <= e <= s@.len(),
            None => grammar::braced_expansion(s@, p as int) is None,
        },
    decreases s@.len() - p, 7int,
{
    if at(s, p, '#') {
        match name(s, p + 1) {
            Some((n, q)) => {
                return Some(
                    (BracedExpansion { name: n, modifier: Some(ExpansionModifier::Length) }, q),
                );
            },
            None => {},
        }
    }
    match name(s, p) {
        Some((n, q)) => {
            if p < q && q <= s.len() {
                match expansion_modifier(s, q) {
                    Some((m, r)) => Some((BracedExpansion { name: n, modifier: Some(m) }, r)),
                    None => Some((BracedExpansion { name: n, modifier: None }, q)),
                }
            } else {
                None
            }
        },
        None => None,
    }
}

/// A word.
pub fn word(s: &Vec<char>, p: usize, w: WordCtx) -> (res: Option<(Word, usize)>)
    requires
        p <= s@.len() < usize::MAX,
    ensures
        match res {
            Some((x, e)) => grammar::word(s@, p as int, w) == Some((view_word(x), e as int)) && p
                <= e <= s@.len(),
            None => grammar::word(s@, p as int, w) is None,
        },
    decreases s@.len() - p, 8int,
{
    if at2(s, p, '$', '{') {
        match braced_expansion(s, p + 2) {
            Some((b, q)) => {
                if at(s, q, '}') {
                    return Some((Word::BracedVariable(b), q + 1));
                }
            },
            None => {},
        }
    }
    if at(s, p, '$') {
        match name(s, p + 1) {
            Some((n, q)) => {
                return Some((Word::UnbracedVariable(n), q));
            },
            None => {},
        }
    }
    if at2(s, p, '$', '(') {
        let (ts, q) = array_tokens(s, p + 2);
        if at(s, q, ')') {
            return Some((Word::Subcommand(ts), q + 1));
        }
    }
    let (parts, e) = literal_parts(s, p, w);
    if parts.len() > 0 {
        Some((Word::Literal(parts), e))
    } else {
        None
    }
}

/// Zero or more words.
pub fn words(s: &Vec<char>, p: usize, w: WordCtx) -> (res: (Vec<Word>, usize))
    requires
        p <= s@.len() < usize::MAX,
    ensures
        grammar::words(s@, p as int, w) == (view_words(res.0@), res.1 as int),
        p <= res.1 <= s@.len(),
    decreases s@.len() - p, 9int,
{
    let mut acc: Vec<Word> = Vec::new();
    let mut q = p;
    loop
        invariant
            p <= q <= s@.len() < usize::MAX,
            grammar::words(s@, p as int, w).0 == view_words(acc@) + grammar::words(
                s@,
                q as int,
                w,
            ).0,
            grammar::words(s@, p as int, w).1 == grammar::words(s@, q as int, w).1,
        ensures
            p <= q <= s@.len(),
            grammar::words(s@, p as int, w).0 == view_words(acc@),
            grammar::words(s@, p as int, w).1 == q,
        decreases s@.len() - q,
    {
        match word(s, q, w) {
            Some((x, q2)) => {
                if q < q2 && q2 <= s.len() {
                    let ghost old_acc = acc@;
                    acc.push(x);
                    proof {
                        let r = grammar::words(s@, q2 as int, w).0;
                        assert(acc@.drop_last() =~= old_acc);
                        assert(view_words(old_acc) + (seq![view_word(x)] + r) =~= view_words(acc@)
                            + r);
                    }
                    q = q2;
                } else {
                    assert(view_words(acc@) + Seq::<model::Word>::empty() =~= view_words(acc@));
                    break;
                }
            },
            None => {
                assert(view_words(acc@) + Seq::<model::Word>::empty() =~= view_words(acc@));
                break;
            },
        }
    }
    (acc, q)
}

/// A text unit.
pub fn text_unit(s: &Vec<char>, p: usize, ctx: TextCtx) -> (res: Option<(TextUnit, usize)>)
    requires
        p <= s@.len() < usize::MAX,
    ensures
        match res {
            Some((u, e)) => grammar::text_unit(s@, p as int, ctx) == Some((view_unit(u), e as int))
                && p <= e <= s@.len(),
            None => grammar::text_unit(s@, p as int, ctx) is None,
        },
    decreases s@.len() - p, 10int,
{
    if at(s, p, '\'') {
        let e = run_end(s, p + 1, Run::NotQuote);
        if at(s, e, '\'') {
            return Some((TextUnit::SingleQuote(string_from_chars(s, p + 1, e)), e + 1));
        }
    }
    if at(s, p, '"') {
        let (ws, q) = words(s, p + 1, WordCtx::DoubleQuoted);
        if at(s, q, '"') {
            return Some((TextUnit::DoubleQuote(ws), q + 1));
        }
    }
    let (ws, q) = words(s, p, WordCtx::Unquoted(ctx));
    if ws.len() > 0 {
        Some((TextUnit::Unquoted(ws), q))
    } else {
        None
    }
}

/// Zero or more text units.
pub fn text_units(s: &Vec<char>, p: usize, ctx: TextCtx) -> (res: (Vec<TextUnit>, usize))
    requires
        p <= s@.len() < usize::MAX,
    ensures
        grammar::text_units(s@, p as int, ctx) == (view_units(res.0@), res.1 as int),
        p <= res.1 <= s@.len(),
    decreases s@.len() - p, 11int,
{
    let mut acc: Vec<TextUnit> = Vec::new();
    let mut q = p;
    loop
        invariant
            p <= q <= s@.len() < usize::MAX,
            grammar::text_units(s@, p as int, ctx).0 == view_units(acc@) + grammar::text_units(
                s@,
                q as int,
                ctx,
            ).0,
            grammar::text_units(s@, p as int, ctx).1 == grammar::text_units(s@, q as int, ctx).1,
        ensures
            p <= q <= s@.len(),
            grammar::text_units(s@, p as int, ctx).0 == view_units(acc@),
            grammar::text_units(s@, p as int, ctx).1 == q,
        decreases s@.len() - q,
    {
        match text_unit(s, q, ctx) {
            Some((u, q2)) => {
                if q < q2 && q2 <= s.len() {
                    let ghost old_acc = acc@;
                    acc.push(u);
                    proof {
                        let r = grammar::text_units(s@, q2 as int, ctx).0;
                        assert(acc@.drop_last() =~= old_acc);
                        assert(view_units(old_acc) + (seq![view_unit(u)] + r) =~= view_units(acc@)
                            + r);
                    }
                    q = q2;
                } else {
                    assert(view_units(acc@) + Seq::<model::TextUnit>::empty() =~= view_units(acc@));
                    break;
                }
            },
            None => {
                assert(view_units(acc@) + Seq::<model::TextUnit>::empty() =~= view_units(acc@));
                break;
            },
        }
    }
    (acc, q)
}

/// A token of an array value or a sub-command.
pub fn array_token(s: &Vec<char>, p: usize) -> (res: Option<(ArrayToken, usize)>)
    requires
        p <= s@.len() < usize::MAX,
    ensures
        match res {
            Some((t, e)) => grammar::array_token(s@, p as int) == Some((view_atok(t), e as int)) && p
                <= e <= s@.len(),
            None => grammar::array_token(s@, p as int) is None,
        },
    decreases s@.len() - p, 12int,
{
    if at(s, p, ' ') || at(s, p, '\t') {
        Some((ArrayToken::Spacy(s[p]), p + 1))
    } else if at(s, p, '\n') {
        Some((ArrayToken::Newline, p + 1))
    } else if at(s, p, '#') {
        let e = run_end(s, p + 1, Run::NotNewline);
        Some((ArrayToken::Comment(string_from_chars(s, p + 1, e)), e))
    } else {
        let (us, q) = text_units(s, p, TextCtx::Element);
        if us.len() > 0 {
            Some((ArrayToken::Element(Box::new(Text(us))), q))
        } else {
            None
        }
    }
}

/// Zero or more array tokens.
pub fn array_tokens(s: &Vec<char>, p: usize) -> (res: (Vec<ArrayToken>, usize))
    requires
        p <= s@.len() < usize::MAX,
    ensures
        grammar::array_tokens(s@, p as int) == (view_atoks(res.0@), res.1 as int),
        p <= res.1 <= s@.len(),
    decreases s@.len() - p, 13int,
{
    let mut acc: Vec<ArrayToken> = Vec::new();
    let mut q = p;
    loop
        invariant
            p <= q <= s@.len() < usize::MAX,
            grammar::array_tokens(s@, p as int).0 == view_atoks(acc@) + grammar::array_tokens(
                s@,
                q as int,
            ).0,
            grammar::array_tokens(s@, p as int).1 == grammar::array_tokens(s@, q as int).1,
        ensures
            p <= q <= s@.len(),
            grammar::array_tokens(s@, p as int).0 == view_atoks(acc@),
            grammar::array_tokens(s@, p as int).1 == q,
        decreases s@.len() - q,
    {
        match array_token(s, q) {
            Some((t, q2)) => {
                if q < q2 && q2 <= s.len() {
                    let ghost old_acc = acc@;
                    acc.push(t);
                    proof {
                        let r = grammar::array_tokens(s@, q2 as int).0;
                        assert(acc@.drop_last() =~= old_acc);
                        assert(view_atoks(old_acc) + (seq![view_atok(t)] + r) =~= view_atoks(acc@)
                            + r);
                    }
                    q = q2;
                } else {
                    assert(view_atoks(acc@) + Seq::<model::ArrayToken>::empty() =~= view_atoks(
                        acc@,
                    ));
                    break;
                }
            },
            None => {
                assert(view_atoks(acc@) + Seq::<model::ArrayToken>::empty() =~= view_atoks(acc@));
                break;
            },
        }
    }
    (acc, q)
}

} // verus!

verus! {

proof fn lemma_view_escaped_glob(c: char)
    ensures
        view_glob(GlobPart::Escaped(c)) == model::GlobPart::Escaped(c),
{
}

} // verus!

verus! {

/// A variable operator.
pub fn variable_op(s: &Vec<char>, p: usize) -> (res: Option<(VariableOp, usize)>)
    requires
        p <= s@.len() < usize::MAX,
    ensures
        match res {
            Some((op, e)) => grammar::variable_op(s@, p as int) == Some((op, e as int)) && p < e
                <= s@.len(),
            None => grammar::variable_op(s@, p as int) is None,
        },
{
    if at(s, p, '=') {
        Some((VariableOp::Assignment, p + 1))
    } else if at2(s, p, '+', '=') {
        Some((VariableOp::Append, p + 2))
    } else {
        None
    }
}

/// A variable value.
pub fn variable_value(s: &Vec<char>, p: usize) -> (res: (VariableValue, usize))
    requires
        p <= s@.len() < usize::MAX,
    ensures
        grammar::variable_value(s@, p as int) == (res.0@, res.1 as int),
        p <= res.1 <= s@.len(),
{
    if at(s, p, '(') {
        let (ts, q) = array_tokens(s, p + 1);
        if at(s, q, ')') {
            return (VariableValue::Array(ts), q + 1);
        }
    }
    let (us, q) = text_units(s, p, TextCtx::Value);
    (VariableValue::String(Box::new(Text(us))), q)
}

/// A variable definition.
pub fn variable_def(s: &Vec<char>, p: usize) -> (res: Option<(VariableDefinition, usize)>)
    requires
        p <= s@.len() < usize::MAX,
    ensures
        match res {
            Some((d, e)) => grammar::variable_def(s@, p as int) == Some((view_def(d), e as int))
                && p < e <= s@.len(),
            None => grammar::variable_def(s@, p as int) is None,
        },
{
    match name(s, p) {
        Some((n, q)) => match variable_op(s, q) {
            Some((op, r)) => {
                let (v, e) = variable_value(s, r);
                Some((VariableDefinition { name: n, op, value: v }, e))
            },
            None => None,
        },
        None => None,
    }
}

/// A top-level token.
pub fn token(s: &Vec<char>, p: usize) -> (res: Option<(Token, usize)>)
    requires
        p <= s@.len() < usize::MAX,
    ensures
        match res {
            Some((t, e)) => grammar::token(s@, p as int) == Some((view_token(t), e as int)) && p < e
                <= s@.len(),
            None => grammar::token(s@, p as int) is None,
        },
{
    if at(s, p, ' ') || at(s, p, '\t') {
        Some((Token::Spacy(s[p]), p + 1))
    } else if at(s, p, '\n') {
        Some((Token::Newline, p + 1))
    } else if at(s, p, '#') {
        let e = run_end(s, p + 1, Run::NotNewline);
        Some((Token::Comment(string_from_chars(s, p + 1, e)), e))
    } else {
        match variable_def(s, p) {
            Some((d, e)) => Some((Token::Variable(d), e)),
            None => None,
        }
    }
}

/// Parses the longest prefix of the source that reads as tokens; returns
/// the tree and the position where reading stopped.
pub fn apml_lst(s: &Vec<char>) -> (res: (ApmlLst, usize))
    requires
        s@.len() < usize::MAX,
    ensures
        grammar::apml_lst(s@) == (res.0@, res.1 as int),
        res.1 <= s@.len(),
{
    let mut acc: Vec<Token> = Vec::new();
    let mut q: usize = 0;
    loop
        invariant
            q <= s@.len() < usize::MAX,
            grammar::tokens(s@, 0).0 == view_tokens(acc@) + grammar::tokens(s@, q as int).0,
            grammar::tokens(s@, 0).1 == grammar::tokens(s@, q as int).1,
        ensures
            q <= s@.len(),
            grammar::tokens(s@, 0).0 == view_tokens(acc@),
            grammar::tokens(s@, 0).1 == q,
        decreases s@.len() - q,
    {
        match token(s, q) {
            Some((t, q2)) => {
                let ghost old_acc = acc@;
                acc.push(t);
                proof {
                    let r = grammar::tokens(s@, q2 as int).0;
                    assert(acc@.drop_last() =~= old_acc);
                    assert(view_tokens(old_acc) + (seq![view_token(t)] + r) =~= view_tokens(acc@)
                        + r);
                }
                q = q2;
            },
            None => {
                assert(view_tokens(acc@) + Seq::<model::Token>::empty() =~= view_tokens(acc@));
                break;
            },
        }
    }
    (ApmlLst(acc), q)
}

/// The number of bytes of the UTF-8 encoding of a character.
pub open spec fn utf8_width(c: char) -> nat {
    if (c as u32) < 0x80 {
        1
    } else if (c as u32) < 0x800 {
        2
    } else if (c as u32) < 0x10000 {
        3
    } else {
        4
    }
}

/// The number of bytes of the UTF-8 encoding of a string.
pub open spec fn utf8_len(s: Seq<char>) -> nat
    decreases s.len(),
{
    if s.len() == 0 {
        0
    } else {
        utf8_len(s.drop_last()) + utf8_width(s.last())
    }
}

/// The byte offset of the character position `n` of `s`.
pub(crate) fn byte_offset(s: &Vec<char>, n: usize) -> (res: usize)
    requires
        n <= s@.len(),
        utf8_len(s@) < usize::MAX,
    ensures
        res == utf8_len(s@.take(n as int)),
{
    let mut i: usize = 0;
    let mut acc: usize = 0;
    while i < n
        invariant
            i <= n <= s@.len(),
            utf8_len(s@) < usize::MAX,
            acc == utf8_len(s@.take(i as int)),
        decreases n - i,
    {
        let c = s[i];
        let w: usize = if (c as u32) < 0x80 {
            1
        } else if (c as u32) < 0x800 {
            2
        } else if (c as u32) < 0x10000 {
            3
        } else {
            4
        };
        proof {
            assert(s@.take(i + 1).drop_last() =~= s@.take(i as int));
            lemma_utf8_len_prefix(s@, i + 1);
        }
        acc = acc + w;
        i = i + 1;
    }
    acc
}

/// A prefix is no longer than the whole when encoded.
pub(crate) proof fn lemma_utf8_len_prefix(s: Seq<char>, n: int)
    requires
        0 <= n <= s.len(),
    ensures
        utf8_len(s.take(n)) <= utf8_len(s),
    decreases s.len() - n,
{
    if n < s.len() {
        lemma_utf8_len_prefix(s, n + 1);
        assert(s.take(n + 1).drop_last() =~= s.take(n));
    } else {
        assert(s.take(n) =~= s);
    }
}

/// What [`ApmlLst::parse`] gives for a source: the tree when the grammar
/// reads the whole source, and otherwise the position (in bytes, from one)
/// of the first character it cannot read.
pub open spec fn parse_result(src: Seq<char>) -> Result<model::Lst, usize> {
    let (l, e) = grammar::apml_lst(src);
    if e == src.len() {
        Ok(l)
    } else {
        Err((utf8_len(src.take(e)) + 1) as usize)
    }
}

impl ApmlLst {
    /// Parses a APML source string into a lossless syntax tree.
    ///
    /// [`ParseError::UnexpectedSource`] is produced when some text of the
    /// input cannot be read.
    pub fn parse(src: &str) -> (res: Result<ApmlLst, ParseError>)
        requires
            utf8_len(src@) < usize::MAX,
        ensures
            match res {
                Ok(l) => parse_result(src@) == Ok::<model::Lst, usize>(l@),
                Err(ParseError::UnexpectedSource { pos }) => parse_result(src@) == Err::<
                    model::Lst,
                    usize,
                >(pos),
                Err(ParseError::SyntaxError(_)) => false,
            },
    {
        let s = chars_of(src);
        proof {
            lemma_utf8_len_bounds_len(s@);
        }
        let (lst, end) = apml_lst(&s);
        if end != s.len() {
            let off = byte_offset(&s, end);
            proof {
                lemma_utf8_len_prefix(s@, end as int);
            }
            return Err(ParseError::UnexpectedSource { pos: off + 1 });
        }
        Ok(lst)
    }
}

/// A string has at least as many bytes as characters.
pub(crate) proof fn lemma_utf8_len_bounds_len(s: Seq<char>)
    ensures
        s.len() <= utf8_len(s),
    decreases s.len(),
{
    if s.len() > 0 {
        lemma_utf8_len_bounds_len(s.drop_last());
    }
}

} // verus!
