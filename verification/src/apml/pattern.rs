//! Bash pattern matching used in APML.

use vstd::prelude::*;

use super::model;

verus! {

/// A pattern, consisting of one or more [`GlobPart`]s.
#[derive(Debug, PartialEq, Eq)]
pub struct BashPattern(pub Vec<GlobPart>);

/// A element of [pattern][BashPattern].
#[derive(Debug, PartialEq, Eq)]
pub enum GlobPart {
    /// Matches a fixed string (`"<text>"`).
    String(String),
    /// Matches an escaped character (`"\\<char>"`).
    Escaped(char),
    /// Matches any string (`'*'`).
    AnyString,
    /// Matches any single character (`'?'`).
    AnyChar,
    /// Matches a characters range (`"[<range>]"`).
    Range(String),
    /// Matches zero or one occurrence of some patterns (`"?(<PATTERNS>)"`).
    ZeroOrOneOf(PatternList),
    /// Matches zero or more occurrence of some patterns (`"*(<PATTERNS>)"`).
    ZeroOrMoreOf(PatternList),
    /// Matches one or more occurrence of some patterns (`"+(<PATTERNS>)"`).
    OneOrMoreOf(PatternList),
    /// Matches one of some patterns (`"@(<PATTERNS>)"`).
    OneOf(PatternList),
    /// Matches anything except of some patterns (`"!(<PATTERNS>)"`).
    Not(PatternList),
}

/// A list of patterns.
#[derive(Debug, PartialEq, Eq)]
pub struct PatternList(pub Vec<BashPattern>);

pub open spec fn view_pattern(p: BashPattern) -> model::BashPattern
    decreases p,
{
    model::BashPattern(view_globs(p.0@))
}

pub open spec fn view_globs(s: Seq<GlobPart>) -> Seq<model::GlobPart>
    decreases s,
{
    if s.len() == 0 {
        Seq::empty()
    } else {
        view_globs(s.drop_last()).push(view_glob(s.last()))
    }
}

pub open spec fn view_glob(g: GlobPart) -> model::GlobPart
    decreases g,
{
    match g {
        GlobPart::String(t) => model::GlobPart::String(t@),
        GlobPart::Escaped(c) => model::GlobPart::Escaped(c),
        GlobPart::AnyString => model::GlobPart::AnyString,
        GlobPart::AnyChar => model::GlobPart::AnyChar,
        GlobPart::Range(r) => model::GlobPart::Range(r@),
        GlobPart::ZeroOrOneOf(l) => model::GlobPart::ZeroOrOneOf(view_plist(l)),
        GlobPart::ZeroOrMoreOf(l) => model::GlobPart::ZeroOrMoreOf(view_plist(l)),
        GlobPart::OneOrMoreOf(l) => model::GlobPart::OneOrMoreOf(view_plist(l)),
        GlobPart::OneOf(l) => model::GlobPart::OneOf(view_plist(l)),
        GlobPart::Not(l) => model::GlobPart::Not(view_plist(l)),
    }
}

pub open spec fn view_plist(l: PatternList) -> model::PatternList
    decreases l,
{
    model::PatternList(view_patterns(l.0@))
}

pub open spec fn view_patterns(s: Seq<BashPattern>) -> Seq<model::BashPattern>
    decreases s,
{
    if s.len() == 0 {
        Seq::empty()
    } else {
        view_patterns(s.drop_last()).push(view_pattern(s.last()))
    }
}

impl View for BashPattern {
    type V = model::BashPattern;

    open spec fn view(&self) -> model::BashPattern {
        view_pattern(*self)
    }
}

impl View for GlobPart {
    type V = model::GlobPart;

    open spec fn view(&self) -> model::GlobPart {
        view_glob(*self)
    }
}

impl View for PatternList {
    type V = model::PatternList;

    open spec fn view(&self) -> model::PatternList {
        view_plist(*self)
    }
}

} // verus!

verus! {

// ---------------------------------------------------------------------
// Printing
// ---------------------------------------------------------------------

use super::model::{print_glob, print_globs, print_pattern, print_patterns, print_plist};
use crate::chars::{push_char, push_string};

/// Appends the source text of a pattern.
pub fn write_pattern(p: &BashPattern, out: &mut String)
    ensures
        final(out)@ == old(out)@ + print_pattern(p@),
    decreases p,
{
    let ghost s = p.0@;
    let mut i: usize = 0;
    while i < p.0.len()
        invariant
            s == p.0@,
            0 <= i <= s.len(),
            out@ == old(out)@ + print_globs(view_globs(s.take(i as int))),
        decreases s.len() - i,
    {
        assert(decreases_to!(p => p.0));
        write_glob(&p.0[i], out);
        proof {
            let a = s.take(i as int);
            assert(s.take(i + 1).drop_last() =~= a);
            let va = view_globs(a);
            assert(view_globs(s.take(i + 1)) == va.push(view_glob(s[i as int])));
            assert(va.push(view_glob(s[i as int])).drop_last() =~= va);
        }
        i = i + 1;
    }
    assert(s.take(s.len() as int) =~= s);
}

/// Appends the source text of a pattern part.
pub fn write_glob(g: &GlobPart, out: &mut String)
    ensures
        final(out)@ == old(out)@ + print_glob(g@),
    decreases g,
{
    match g {
        GlobPart::String(t) => {
            push_string(out, t.as_str());
        },
        GlobPart::Escaped(c) => {
            push_char(out, '\\');
            push_char(out, *c);
            assert(out@ =~= old(out)@ + print_glob(g@));
        },
        GlobPart::AnyString => {
            push_char(out, '*');
            assert(out@ =~= old(out)@ + print_glob(g@));
        },
        GlobPart::AnyChar => {
            push_char(out, '?');
            assert(out@ =~= old(out)@ + print_glob(g@));
        },
        GlobPart::Range(r) => {
            push_char(out, '[');
            push_string(out, r.as_str());
            push_char(out, ']');
            assert(out@ =~= old(out)@ + print_glob(g@));
        },
        GlobPart::ZeroOrOneOf(l) => {
            push_char(out, '?');
            push_char(out, '(');
            write_plist(l, out);
            push_char(out, ')');
            assert(out@ =~= old(out)@ + print_glob(g@));
        },
        GlobPart::ZeroOrMoreOf(l) => {
            push_char(out, '*');
            push_char(out, '(');
            write_plist(l, out);
            push_char(out, ')');
            assert(out@ =~= old(out)@ + print_glob(g@));
        },
        GlobPart::OneOrMoreOf(l) => {
            push_char(out, '+');
            push_char(out, '(');
            write_plist(l, out);
            push_char(out, ')');
            assert(out@ =~= old(out)@ + print_glob(g@));
        },
        GlobPart::OneOf(l) => {
            push_char(out, '@');
            push_char(out, '(');
            write_plist(l, out);
            push_char(out, ')');
            assert(out@ =~= old(out)@ + print_glob(g@));
        },
        GlobPart::Not(l) => {
            push_char(out, '!');
            push_char(out, '(');
            write_plist(l, out);
            push_char(out, ')');
            assert(out@ =~= old(out)@ + print_glob(g@));
        },
    }
}

/// Appends the source text of a pattern list (patterns joined with `'|'`).
pub fn write_plist(l: &PatternList, out: &mut String)
    ensures
        final(out)@ == old(out)@ + print_plist(l@),
    decreases l,
{
    let ghost s = l.0@;
    let mut i: usize = 0;
    while i < l.0.len()
        invariant
            s == l.0@,
            0 <= i <= s.len(),
            out@ == old(out)@ + print_patterns(view_patterns(s.take(i as int))),
        decreases s.len() - i,
    {
        assert(decreases_to!(l => l.0));
        let ghost before = out@;
        if i > 0 {
            push_char(out, '|');
        }
        write_pattern(&l.0[i], out);
        proof {
            let a = s.take(i as int);
            assert(s.take(i + 1).drop_last() =~= a);
            let va = view_patterns(a);
            assert(view_patterns(s.take(i + 1)) == va.push(view_pattern(s[i as int])));
            let vb = va.push(view_pattern(s[i as int]));
            assert(vb.drop_last() =~= va);
            if i == 0 {
                assert(a.len() == 0);
                assert(print_patterns(vb) == print_pattern(vb[0]));
            }
            assert(out@ =~= old(out)@ + print_patterns(vb));
        }
        i = i + 1;
    }
    assert(s.take(s.len() as int) =~= s);
}

impl BashPattern {
    /// Prints the pattern into its source text.
    pub fn to_string(&self) -> (res: String)
        ensures
            res@ == print_pattern(self@),
    {
        let mut out = String::new();
        write_pattern(self, &mut out);
        assert(out@ =~= print_pattern(self@));
        out
    }
}

impl PatternList {
    /// Prints the pattern list into its source text.
    pub fn to_string(&self) -> (res: String)
        ensures
            res@ == print_plist(self@),
    {
        let mut out = String::new();
        write_plist(self, &mut out);
        assert(out@ =~= print_plist(self@));
        out
    }
}

// ---------------------------------------------------------------------
// Copying
// ---------------------------------------------------------------------

/// Copies a pattern.
pub fn copy_pattern(p: &BashPattern) -> (res: BashPattern)
    ensures
        res@ == p@,
    decreases p,
{
    let ghost s = p.0@;
    let mut out: Vec<GlobPart> = Vec::new();
    let mut i: usize = 0;
    while i < p.0.len()
        invariant
            s == p.0@,
            0 <= i <= s.len(),
            view_globs(out@) == view_globs(s.take(i as int)),
        decreases s.len() - i,
    {
        assert(decreases_to!(p => p.0));
        let g = copy_glob(&p.0[i]);
        let ghost before = out@;
        out.push(g);
        proof {
            assert(out@.drop_last() =~= before);
            assert(s.take(i + 1).drop_last() =~= s.take(i as int));
        }
        i = i + 1;
    }
    assert(s.take(s.len() as int) =~= s);
    BashPattern(out)
}

/// Copies a pattern part.
pub fn copy_glob(g: &GlobPart) -> (res: GlobPart)
    ensures
        res@ == g@,
    decreases g,
{
    match g {
        GlobPart::String(t) => GlobPart::String(t.clone()),
        GlobPart::Escaped(c) => GlobPart::Escaped(*c),
        GlobPart::AnyString => GlobPart::AnyString,
        GlobPart::AnyChar => GlobPart::AnyChar,
        GlobPart::Range(r) => GlobPart::Range(r.clone()),
        GlobPart::ZeroOrOneOf(l) => GlobPart::ZeroOrOneOf(copy_plist(l)),
        GlobPart::ZeroOrMoreOf(l) => GlobPart::ZeroOrMoreOf(copy_plist(l)),
        GlobPart::OneOrMoreOf(l) => GlobPart::OneOrMoreOf(copy_plist(l)),
        GlobPart::OneOf(l) => GlobPart::OneOf(copy_plist(l)),
        GlobPart::Not(l) => GlobPart::Not(copy_plist(l)),
    }
}

/// Copies a pattern list.
pub fn copy_plist(l: &PatternList) -> (res: PatternList)
    ensures
        res@ == l@,
    decreases l,
{
    let ghost s = l.0@;
    let mut out: Vec<BashPattern> = Vec::new();
    let mut i: usize = 0;
    while i < l.0.len()
        invariant
            s == l.0@,
            0 <= i <= s.len(),
            view_patterns(out@) == view_patterns(s.take(i as int)),
        decreases s.len() - i,
    {
        assert(decreases_to!(l => l.0));
        let q = copy_pattern(&l.0[i]);
        let ghost before = out@;
        out.push(q);
        proof {
            assert(out@.drop_last() =~= before);
            assert(s.take(i + 1).drop_last() =~= s.take(i as int));
        }
        i = i + 1;
    }
    assert(s.take(s.len() as int) =~= s);
    PatternList(out)
}

// ---------------------------------------------------------------------
// Regular expressions
// ---------------------------------------------------------------------

use crate::matcher::{compile, escape_text, regex_escaped, Matcher, regex_compiles};

pub open spec fn lazy_mark(greedy: bool) -> Seq<char> {
    if greedy {
        Seq::empty()
    } else {
        seq!['?']
    }
}

/// The regular expression of a pattern.
pub open spec fn globs_regex(s: Seq<model::GlobPart>, greedy: bool) -> Seq<char>
    decreases s,
{
    if s.len() == 0 {
        Seq::empty()
    } else {
        globs_regex(s.drop_last(), greedy) + glob_regex(s.last(), greedy)
    }
}

pub open spec fn glob_regex(g: model::GlobPart, greedy: bool) -> Seq<char>
    decreases g,
{
    match g {
        model::GlobPart::String(t) => regex_escaped(t),
        model::GlobPart::Escaped(c) => regex_escaped(seq![c]),
        model::GlobPart::AnyString => seq!['.', '*'] + lazy_mark(greedy),
        model::GlobPart::AnyChar => seq!['.'],
        model::GlobPart::Range(r) => seq!['['] + r + seq![']'],
        model::GlobPart::ZeroOrOneOf(l) => plist_regex(l, greedy) + seq!['?'],
        model::GlobPart::ZeroOrMoreOf(l) => plist_regex(l, greedy) + seq!['*'] + lazy_mark(greedy),
        model::GlobPart::OneOrMoreOf(l) => plist_regex(l, greedy) + seq!['+'] + lazy_mark(greedy),
        model::GlobPart::OneOf(l) => plist_regex(l, greedy),
        model::GlobPart::Not(l) => seq!['(', '?', '!'] + plist_regex(l, greedy) + seq![')', '.', '*'],
    }
}

/// A group of alternatives: the patterns joined with `'|'`.
pub open spec fn plist_regex(l: model::PatternList, greedy: bool) -> Seq<char>
    decreases l,
{
    seq!['('] + patterns_regex(l.0, greedy) + seq![')']
}

pub open spec fn patterns_regex(s: Seq<model::BashPattern>, greedy: bool) -> Seq<char>
    decreases s,
{
    if s.len() == 0 {
        Seq::empty()
    } else if s.len() == 1 {
        globs_regex(s[0].0, greedy)
    } else {
        patterns_regex(s.drop_last(), greedy) + seq!['|'] + globs_regex(s.last().0, greedy)
    }
}

pub open spec fn pattern_regex(p: model::BashPattern, greedy: bool) -> Seq<char> {
    globs_regex(p.0, greedy)
}

fn push_lazy(out: &mut String, greedy: bool)
    ensures
        final(out)@ == old(out)@ + lazy_mark(greedy),
{
    if !greedy {
        push_char(out, '?');
    } else {
        assert(old(out)@ + lazy_mark(greedy) =~= old(out)@);
    }
}

fn build_glob_regex(g: &GlobPart, out: &mut String, greedy: bool)
    ensures
        final(out)@ == old(out)@ + glob_regex(g@, greedy),
    decreases g,
{
    match g {
        GlobPart::String(t) => {
            let e = escape_text(t.as_str());
            push_string(out, e.as_str());
        },
        GlobPart::Escaped(c) => {
            let mut one = String::new();
            push_char(&mut one, *c);
            assert(one@ =~= seq![*c]);
            let e = escape_text(one.as_str());
            push_string(out, e.as_str());
        },
        GlobPart::AnyString => {
            push_char(out, '.');
            push_char(out, '*');
            push_lazy(out, greedy);
            assert(out@ =~= old(out)@ + glob_regex(g@, greedy));
        },
        GlobPart::AnyChar => {
            push_char(out, '.');
            assert(out@ =~= old(out)@ + glob_regex(g@, greedy));
        },
        GlobPart::Range(r) => {
            push_char(out, '[');
            push_string(out, r.as_str());
            push_char(out, ']');
            assert(out@ =~= old(out)@ + glob_regex(g@, greedy));
        },
        GlobPart::ZeroOrOneOf(l) => {
            build_plist_regex(l, out, greedy);
            push_char(out, '?');
            assert(out@ =~= old(out)@ + glob_regex(g@, greedy));
        },
        GlobPart::ZeroOrMoreOf(l) => {
            build_plist_regex(l, out, greedy);
            push_char(out, '*');
            push_lazy(out, greedy);
            assert(out@ =~= old(out)@ + glob_regex(g@, greedy));
        },
        GlobPart::OneOrMoreOf(l) => {
            build_plist_regex(l, out, greedy);
            push_char(out, '+');
            push_lazy(out, greedy);
            assert(out@ =~= old(out)@ + glob_regex(g@, greedy));
        },
        GlobPart::OneOf(l) => {
            build_plist_regex(l, out, greedy);
        },
        GlobPart::Not(l) => {
            push_char(out, '(');
            push_char(out, '?');
            push_char(out, '!');
            build_plist_regex(l, out, greedy);
            push_char(out, ')');
            push_char(out, '.');
            push_char(out, '*');
            assert(out@ =~= old(out)@ + glob_regex(g@, greedy));
        },
    }
}

fn build_plist_regex(l: &PatternList, out: &mut String, greedy: bool)
    ensures
        final(out)@ == old(out)@ + plist_regex(l@, greedy),
    decreases l,
{
    let ghost s = l.0@;
    push_char(out, '(');
    let ghost start = out@;
    let mut i: usize = 0;
    while i < l.0.len()
        invariant
            s == l.0@,
            0 <= i <= s.len(),
            out@ == start + patterns_regex(view_patterns(s.take(i as int)), greedy),
        decreases s.len() - i,
    {
        assert(decreases_to!(l => l.0));
        if i > 0 {
            push_char(out, '|');
        }
        build_pattern_regex(&l.0[i], out, greedy);
        proof {
            let a = s.take(i as int);
            assert(s.take(i + 1).drop_last() =~= a);
            let va = view_patterns(a);
            let vb = va.push(view_pattern(s[i as int]));
            assert(view_patterns(s.take(i + 1)) == vb);
            assert(vb.drop_last() =~= va);
            if i == 0 {
                assert(a.len() == 0);
                assert(patterns_regex(vb, greedy) == globs_regex(vb[0].0, greedy));
            }
            assert(out@ =~= start + patterns_regex(vb, greedy));
        }
        i = i + 1;
    }
    assert(s.take(s.len() as int) =~= s);
    push_char(out, ')');
    assert(out@ =~= old(out)@ + plist_regex(l@, greedy));
}

fn build_pattern_regex(p: &BashPattern, out: &mut String, greedy: bool)
    ensures
        final(out)@ == old(out)@ + pattern_regex(p@, greedy),
    decreases p,
{
    let ghost s = p.0@;
    let mut i: usize = 0;
    while i < p.0.len()
        invariant
            s == p.0@,
            0 <= i <= s.len(),
            out@ == old(out)@ + globs_regex(view_globs(s.take(i as int)), greedy),
        decreases s.len() - i,
    {
        assert(decreases_to!(p => p.0));
        build_glob_regex(&p.0[i], out, greedy);
        proof {
            let a = s.take(i as int);
            assert(s.take(i + 1).drop_last() =~= a);
            let va = view_globs(a);
            assert(view_globs(s.take(i + 1)) == va.push(view_glob(s[i as int])));
            assert(va.push(view_glob(s[i as int])).drop_last() =~= va);
        }
        i = i + 1;
    }
    assert(s.take(s.len() as int) =~= s);
}

impl BashPattern {
    /// Appends the regular expression of the pattern.
    ///
    /// `greedy` decides whether `*` matches as much as it can.
    pub fn build_regex(&self, result: &mut String, greedy: bool)
        ensures
            final(result)@ == old(result)@ + pattern_regex(self@, greedy),
    {
        build_pattern_regex(self, result, greedy)
    }

    /// Compiles the pattern, between `before` and `after`, into a regular
    /// expression.
    pub fn to_regex(&self, before: &str, after: &str, greedy: bool) -> (res: Result<
        Matcher,
        regex::Error,
    >)
        ensures
            res.is_ok() == regex_compiles(before@ + pattern_regex(self@, greedy) + after@),
            match res {
                Ok(m) => m.source() == before@ + pattern_regex(self@, greedy) + after@,
                Err(_) => true,
            },
    {
        let mut src = String::new();
        push_string(&mut src, before);
        self.build_regex(&mut src, greedy);
        push_string(&mut src, after);
        assert(src@ =~= before@ + pattern_regex(self@, greedy) + after@);
        compile(src)
    }
}

impl PatternList {
    /// Appends the regular expression of the pattern list: a group of the
    /// patterns as alternatives.
    pub fn build_regex(&self, result: &mut String, greedy: bool)
        ensures
            final(result)@ == old(result)@ + plist_regex(self@, greedy),
    {
        build_plist_regex(self, result, greedy)
    }
}

} // verus!
