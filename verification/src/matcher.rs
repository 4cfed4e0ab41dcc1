//! Regular expressions from the `regex` crate, as the evaluator uses them.
//!
//! A [`Matcher`] is a compiled regular expression together with its source
//! text. What matching and replacing produce is named by functions of the
//! source text and the inputs (`regex_replacen`, with `regex_replace_first`
//! and `regex_replace_all` for its two uses); the regex crate decides them.

use vstd::prelude::*;

use crate::chars::push_char;

verus! {

/// `regex::Regex`, a compiled regular expression.
#[verifier::external_type_specification]
#[verifier::external_body]
pub struct ExRegex(regex::Regex);

/// `regex::Error`, why a regular expression does not compile.
#[verifier::external_type_specification]
#[verifier::external_body]
pub struct ExRegexError(regex::Error);

/// The characters that have a meaning in a regular expression.
pub open spec fn regex_meta(c: char) -> bool {
    c == '\\' || c == '.' || c == '+' || c == '*' || c == '?' || c == '(' || c == ')' || c == '|'
        || c == '[' || c == ']' || c == '{' || c == '}' || c == '^' || c == '$' || c == '#' || c
        == '&' || c == '-' || c == '~'
}

/// A text with a backslash before each meta character.
pub open spec fn regex_escaped(t: Seq<char>) -> Seq<char>
    decreases t.len(),
{
    if t.len() == 0 {
        Seq::empty()
    } else {
        regex_escaped(t.drop_last()) + if regex_meta(t.last()) {
            seq!['\\', t.last()]
        } else {
            seq![t.last()]
        }
    }
}

/// Calls `regex::escape`, which puts a backslash before every meta
/// character of the text and copies the other characters.
#[verifier::external_body]
pub(crate) fn escape_text(t: &str) -> (res: String)
    ensures
        res@ == regex_escaped(t@),
{
    regex::escape(t)
}

/// Whether the regex crate compiles a regular expression (multi-line and
/// Unicode mode, case-sensitive).
pub uninterp spec fn regex_compiles(src: Seq<char>) -> bool;

/// How the matches of a regular expression are replaced.
pub enum Replacement {
    /// By a replacement text, in which `$name` and `${name}` stand for
    /// capture groups.
    Expand(Seq<char>),
    /// By a text taken as it is.
    Literal(Seq<char>),
    /// By the match, upper-cased in ASCII.
    Upper,
    /// By the match, lower-cased in ASCII.
    Lower,
}

/// The result of replacing the first `limit` matches of the regular
/// expression `src` in `text`, all of them where `limit` is 0.
pub uninterp spec fn regex_replacen(src: Seq<char>, text: Seq<char>, limit: nat, rep: Replacement) -> Seq<
    char,
>;

/// The result of replacing the first match of the regular expression
/// `src` in `text`.
pub open spec fn regex_replace_first(src: Seq<char>, text: Seq<char>, rep: Replacement) -> Seq<char> {
    regex_replacen(src, text, 1, rep)
}

/// The result of replacing all matches of the regular expression `src` in
/// `text`.
pub open spec fn regex_replace_all(src: Seq<char>, text: Seq<char>, rep: Replacement) -> Seq<char> {
    regex_replacen(src, text, 0, rep)
}

/// A compiled regular expression and the source it was compiled from.
pub struct Matcher {
    source: String,
    regex: regex::Regex,
}

impl Matcher {
    /// The source of the regular expression.
    pub closed spec fn source(&self) -> Seq<char> {
        self.source@
    }
}

/// Calls `regex::RegexBuilder::build` on `src` with case-insensitivity off,
/// multi-line and Unicode mode on; whether it succeeds is named by
/// [`regex_compiles`], a function of the source alone.
#[verifier::external_body]
fn build_regex_matcher(src: &str) -> (res: Result<regex::Regex, regex::Error>)
    ensures
        res.is_ok() == regex_compiles(src@),
{
    regex::RegexBuilder::new(src).case_insensitive(false).multi_line(true).unicode(true).build()
}

/// Compiles a regular expression.
pub fn compile(src: String) -> (res: Result<Matcher, regex::Error>)
    ensures
        res.is_ok() == regex_compiles(src@),
        match res {
            Ok(m) => m.source() == src@,
            Err(_) => true,
        },
{
    match build_regex_matcher(src.as_str()) {
        Ok(regex) => Ok(Matcher { source: src, regex }),
        Err(e) => Err(e),
    }
}

/// Calls `regex::Regex::replacen` with a replacement text, in which `$name`
/// and `${name}` stand for capture groups; the result is named by
/// [`regex_replacen`] over the source.
#[verifier::external_body]
fn replacen_expand(m: &Matcher, text: &str, limit: usize, rep: &str) -> (res: String)
    ensures
        res@ == regex_replacen(m.source(), text@, limit as nat, Replacement::Expand(rep@)),
{
    m.regex.replacen(text, limit, rep).into_owned()
}

/// Calls `regex::Regex::replacen` with `regex::NoExpand`, a replacement
/// text taken as it is; the result is named by [`regex_replacen`] over the
/// source.
#[verifier::external_body]
fn replacen_literal(m: &Matcher, text: &str, limit: usize, rep: &str) -> (res: String)
    ensures
        res@ == regex_replacen(m.source(), text@, limit as nat, Replacement::Literal(rep@)),
{
    m.regex.replacen(text, limit, regex::NoExpand(rep)).into_owned()
}

/// Calls `regex::Regex::replacen`, replacing each match by [`ascii_upper`]
/// of it; the result is named by [`regex_replacen`] over the source.
#[verifier::external_body]
fn replacen_upper(m: &Matcher, text: &str, limit: usize) -> (res: String)
    ensures
        res@ == regex_replacen(m.source(), text@, limit as nat, Replacement::Upper),
{
    m.regex.replacen(text, limit, |c: &regex::Captures| ascii_upper(&c[0])).into_owned()
}

/// Calls `regex::Regex::replacen`, replacing each match by [`ascii_lower`]
/// of it; the result is named by [`regex_replacen`] over the source.
#[verifier::external_body]
fn replacen_lower(m: &Matcher, text: &str, limit: usize) -> (res: String)
    ensures
        res@ == regex_replacen(m.source(), text@, limit as nat, Replacement::Lower),
{
    m.regex.replacen(text, limit, |c: &regex::Captures| ascii_lower(&c[0])).into_owned()
}

/// Replaces the first `limit` matches, all of them where `limit` is 0.
fn replacen(m: &Matcher, text: &str, limit: usize, rep: &Rep) -> (res: String)
    ensures
        res@ == regex_replacen(m.source(), text@, limit as nat, rep@),
{
    match rep {
        Rep::Expand(t) => replacen_expand(m, text, limit, t.as_str()),
        Rep::Literal(t) => replacen_literal(m, text, limit, t.as_str()),
        Rep::Upper => replacen_upper(m, text, limit),
        Rep::Lower => replacen_lower(m, text, limit),
    }
}

/// Replaces the first match of the regular expression in `text`.
pub(crate) fn replace_first(m: &Matcher, text: &str, rep: &Rep) -> (res: String)
    ensures
        res@ == regex_replace_first(m.source(), text@, rep@),
{
    replacen(m, text, 1, rep)
}

/// Replaces all matches of the regular expression in `text`.
pub(crate) fn replace_all(m: &Matcher, text: &str, rep: &Rep) -> (res: String)
    ensures
        res@ == regex_replace_all(m.source(), text@, rep@),
{
    replacen(m, text, 0, rep)
}

/// The groups that the first match of the regular expression `src` in
/// `text` captures, looked up by the given names: `None` when nothing
/// matches, and for each name the text of its group, `None` when the group
/// took no part in the match.
pub uninterp spec fn regex_named_captures(src: Seq<char>, text: Seq<char>, names: Seq<Seq<char>>) -> Option<
    Seq<Option<Seq<char>>>,
>;

pub open spec fn strings_of(v: Seq<String>) -> Seq<Seq<char>> {
    v.map_values(|s: String| s@)
}

pub open spec fn optional_strings_of(v: Seq<Option<String>>) -> Seq<Option<Seq<char>>> {
    v.map_values(
        |s: Option<String>|
            match s {
                Some(t) => Some(t@),
                None => None,
            },
    )
}

/// Calls `regex::Regex::captures` on the compiled expression and
/// `regex::Captures::name` for each of the names; the result is named by
/// [`regex_named_captures`] over the source, and holds one entry per name.
#[verifier::external_body]
pub(crate) fn named_captures(m: &Matcher, text: &str, names: &Vec<String>) -> (res: Option<
    Vec<Option<String>>,
>)
    ensures
        match res {
            Some(v) => regex_named_captures(m.source(), text@, strings_of(names@)) == Some(
                optional_strings_of(v@),
            ) && v@.len() == names@.len(),
            None => regex_named_captures(m.source(), text@, strings_of(names@)) is None,
        },
{
    m.regex.captures(text).map(|c| names.iter().map(|n| c.name(n).map(|x| x.as_str().to_owned())).collect())
}

/// A replacement for the matches of a regular expression.
pub enum Rep {
    Expand(String),
    Literal(String),
    Upper,
    Lower,
}

impl View for Rep {
    type V = Replacement;

    open spec fn view(&self) -> Replacement {
        match self {
            Rep::Expand(t) => Replacement::Expand(t@),
            Rep::Literal(t) => Replacement::Literal(t@),
            Rep::Upper => Replacement::Upper,
            Rep::Lower => Replacement::Lower,
        }
    }
}

/// The text with ASCII letters upper-cased.
pub open spec fn ascii_upper_spec(t: Seq<char>) -> Seq<char> {
    t.map_values(|c: char| if 'a' <= c && c <= 'z' {
        ((c as u32) - 32) as char
    } else {
        c
    })
}

/// The text with ASCII letters lower-cased.
pub open spec fn ascii_lower_spec(t: Seq<char>) -> Seq<char> {
    t.map_values(|c: char| if 'A' <= c && c <= 'Z' {
        ((c as u32) + 32) as char
    } else {
        c
    })
}

/// Upper-cases the ASCII letters of a text.
pub fn ascii_upper(t: &str) -> (res: String)
    ensures
        res@ == ascii_upper_spec(t@),
{
    let cs = crate::chars::chars_of(t);
    let mut out = String::new();
    let mut i: usize = 0;
    while i < cs.len()
        invariant
            cs@ == t@,
            0 <= i <= cs@.len(),
            out@ == ascii_upper_spec(cs@.take(i as int)),
        decreases cs@.len() - i,
    {
        let c = cs[i];
        let d = if 'a' <= c && c <= 'z' {
            char_shift_down(c)
        } else {
            c
        };
        push_char(&mut out, d);
        i = i + 1;
        assert(out@ =~= ascii_upper_spec(cs@.take(i as int)));
    }
    assert(cs@.take(cs@.len() as int) =~= cs@);
    out
}

/// Lower-cases the ASCII letters of a text.
pub fn ascii_lower(t: &str) -> (res: String)
    ensures
        res@ == ascii_lower_spec(t@),
{
    let cs = crate::chars::chars_of(t);
    let mut out = String::new();
    let mut i: usize = 0;
    while i < cs.len()
        invariant
            cs@ == t@,
            0 <= i <= cs@.len(),
            out@ == ascii_lower_spec(cs@.take(i as int)),
        decreases cs@.len() - i,
    {
        let c = cs[i];
        let d = if 'A' <= c && c <= 'Z' {
            char_shift_up(c)
        } else {
            c
        };
        push_char(&mut out, d);
        i = i + 1;
        assert(out@ =~= ascii_lower_spec(cs@.take(i as int)));
    }
    assert(cs@.take(cs@.len() as int) =~= cs@);
    out
}

fn char_shift_down(c: char) -> (res: char)
    requires
        'a' <= c <= 'z',
    ensures
        res == ((c as u32) - 32) as char,
{
    let v = (c as u32) - 32;
    assert(0x41 <= v <= 0x5a);
    char_of_ascii(v)
}

fn char_shift_up(c: char) -> (res: char)
    requires
        'A' <= c <= 'Z',
    ensures
        res == ((c as u32) + 32) as char,
{
    let v = (c as u32) + 32;
    char_of_ascii(v)
}

/// The character of an ASCII code.
fn char_of_ascii(v: u32) -> (res: char)
    requires
        v < 0x80,
    ensures
        res == v as char,
{
    let b = v as u8;
    b as char
}

} // verus!
