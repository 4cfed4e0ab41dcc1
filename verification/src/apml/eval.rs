//! APML expression evaluator.
//!
//! Evaluation is stated over the AST models as `eval_*` spec functions that
//! give an [`Outcome`]: a value, or a failure the evaluator reports. A
//! substring whose byte range cuts a character, leaves the value or
//! overflows fails with [`EvalError::Range`].

use vstd::prelude::*;

use super::ast::{
    AstDefinition, AstElement, AstModel, AstModifier, AstText, AstValue, AstWord, ApmlAst,
    ArrayElement, ExpansionModifier, Text, VariableDefinition, VariableValue as AstVariableValue,
    Word, view_defs, view_elems, view_words,
};
use super::context::{
    fields, value_array, value_string, ApmlContext, VarValue, VariableValue, strings_view,
};
use super::model;
use super::parser::{utf8_len, utf8_width};
use super::pattern::pattern_regex;
use crate::chars::{chars_of, push_string, string_from_chars};
use crate::matcher::{
    regex_compiles, regex_replace_all, regex_replace_first, replace_all, replace_first, Rep,
    Replacement,
};
use crate::num::{decimal, format_usize};

verus! {

/// Why evaluation fails.
#[derive(Debug)]
pub enum EvalError {
    /// A pattern gives a regular expression that does not compile.
    RegexError(regex::Error),
    /// A required variable is unset; the text is the message.
    Unset(String),
    /// The byte range of a substring cuts a character, leaves the value, or
    /// does not fit in a machine word.
    Range,
}

/// Model of [`EvalError`].
pub enum Failure {
    Regex,
    Unset(Seq<char>),
    Range,
}

impl View for EvalError {
    type V = Failure;

    open spec fn view(&self) -> Failure {
        match self {
            EvalError::RegexError(_) => Failure::Regex,
            EvalError::Unset(t) => Failure::Unset(t@),
            EvalError::Range => Failure::Range,
        }
    }
}

/// What evaluating something gives.
pub enum Outcome<T> {
    Done(T),
    Failed(Failure),
}

/// The value of a variable, or an empty string when it is unset.
pub open spec fn lookup(ctx: Map<Seq<char>, VarValue>, name: Seq<char>) -> VarValue {
    if ctx.contains_key(name) {
        ctx[name]
    } else {
        VarValue::Str(Seq::empty())
    }
}

pub open spec fn value_empty(v: VarValue) -> bool {
    match v {
        VarValue::Str(t) => t.len() == 0,
        VarValue::Arr(a) => a.len() == 0,
    }
}

/// The length of a value: bytes of a string, elements of an array.
pub open spec fn value_len(v: VarValue) -> nat {
    match v {
        VarValue::Str(t) => (vstd::utf8::encode_utf8(t).len() as usize) as nat,
        VarValue::Arr(a) => (a.len() as usize) as nat,
    }
}

/// The first character position, from `k` on, at which `s` has `b` bytes
/// before it.
pub open spec fn byte_index_from(s: Seq<char>, b: int, k: int) -> Option<int>
    decreases s.len() + 1 - k,
{
    if k < 0 || k > s.len() {
        None
    } else if utf8_len(s.take(k)) == b {
        Some(k)
    } else {
        byte_index_from(s, b, k + 1)
    }
}

/// The characters between the byte offsets `a` and `b`, when both fall on
/// character boundaries in order.
pub open spec fn byte_slice(s: Seq<char>, a: int, b: int) -> Option<Seq<char>> {
    match (byte_index_from(s, a, 0), byte_index_from(s, b, 0)) {
        (Some(i), Some(j)) => if i <= j {
            Some(s.subrange(i, j))
        } else {
            None
        },
        _ => None,
    }
}

pub open spec fn slice_outcome(s: Seq<char>, a: int, b: int) -> Outcome<Seq<char>> {
    match byte_slice(s, a, b) {
        Some(t) => Outcome::Done(t),
        None => Outcome::Failed(Failure::Range),
    }
}

/// A substring by byte offset and length (see
/// `ExpansionModifier::Substring`): the bytes `[offset, offset + length)`,
/// cut at the end of the string; for a negative length, up to `length`
/// bytes before the end.
pub open spec fn substring_outcome(s: Seq<char>, offset: int, length: Option<int>) -> Outcome<
    Seq<char>,
> {
    let len = utf8_len(s) as int;
    if len > usize::MAX {
        Outcome::Failed(Failure::Range)
    } else {
        match length {
        None => slice_outcome(s, offset, len),
        Some(l) => if l > 0 {
            if offset + l > usize::MAX {
                Outcome::Failed(Failure::Range)
            } else {
                slice_outcome(
                    s,
                    offset,
                    if offset + l < len {
                        offset + l
                    } else {
                        len
                    },
                )
            }
        } else if l == 0 {
            slice_outcome(s, offset, offset)
        } else if -l > isize::MAX || -l > len {
            Outcome::Failed(Failure::Range)
        } else {
            slice_outcome(s, offset, len + l)
        },
        }
    }
}

/// Replacing in a value with the regular expression of a pattern.
pub open spec fn regex_outcome(
    before: Seq<char>,
    p: model::BashPattern,
    after: Seq<char>,
    greedy: bool,
    text: Seq<char>,
    rep: Replacement,
    all: bool,
) -> Outcome<Seq<char>> {
    let src = before + pattern_regex(p, greedy) + after;
    if !regex_compiles(src) {
        Outcome::Failed(Failure::Regex)
    } else if all {
        Outcome::Done(regex_replace_all(src, text, rep))
    } else {
        Outcome::Done(regex_replace_first(src, text, rep))
    }
}

/// Replacing in a value with a text that is evaluated after the regular
/// expression compiles.
pub open spec fn replace_outcome(
    ctx: Map<Seq<char>, VarValue>,
    before: Seq<char>,
    p: model::BashPattern,
    after: Seq<char>,
    text: Seq<char>,
    string: AstText,
    all: bool,
) -> Outcome<Seq<char>>
    decreases string, 1int,
{
    let src = before + pattern_regex(p, true) + after;
    if !regex_compiles(src) {
        Outcome::Failed(Failure::Regex)
    } else {
        match eval_text(ctx, string) {
            Outcome::Done(r) => if all {
                Outcome::Done(regex_replace_all(src, text, Replacement::Literal(r)))
            } else {
                Outcome::Done(regex_replace_first(src, text, Replacement::Literal(r)))
            },
            Outcome::Failed(f) => Outcome::Failed(f),
        }
    }
}

/// The replacement that keeps what a modifier's expression captures as
/// `rest`: the value without the stripped prefix or suffix.
pub open spec fn rest_of_match() -> Replacement {
    Replacement::Expand("${rest}"@)
}

/// Applies an expansion modifier to the value of a variable.
pub open spec fn apply_modifier(ctx: Map<Seq<char>, VarValue>, m: AstModifier, v: VarValue) -> Outcome<
    Seq<char>,
>
    decreases m, 0int,
{
    let s = value_string(v);
    match m {
        AstModifier::Substring { offset, length } => substring_outcome(s, offset, length),
        AstModifier::StripShortestPrefix(p) => regex_outcome(
            "^(?:"@,
            p,
            ")?(?P<rest>.*)$"@,
            false,
            s,
            rest_of_match(),
            false,
        ),
        AstModifier::StripLongestPrefix(p) => regex_outcome(
            "^(?:"@,
            p,
            ")?(?P<rest>.*?)$"@,
            true,
            s,
            rest_of_match(),
            false,
        ),
        AstModifier::StripShortestSuffix(p) => regex_outcome(
            "^(?P<rest>.*)(?:"@,
            p,
            ")$"@,
            false,
            s,
            rest_of_match(),
            false,
        ),
        AstModifier::StripLongestSuffix(p) => regex_outcome(
            "^(?P<rest>.*?)(?:"@,
            p,
            ")$"@,
            true,
            s,
            rest_of_match(),
            false,
        ),
        AstModifier::ReplaceOnce { pattern, string } => replace_outcome(
            ctx,
            Seq::empty(),
            pattern,
            Seq::empty(),
            s,
            string,
            false,
        ),
        AstModifier::ReplaceAll { pattern, string } => replace_outcome(
            ctx,
            Seq::empty(),
            pattern,
            Seq::empty(),
            s,
            string,
            true,
        ),
        AstModifier::ReplacePrefix { pattern, string } => replace_outcome(
            ctx,
            seq!['^'],
            pattern,
            Seq::empty(),
            s,
            string,
            true,
        ),
        AstModifier::ReplaceSuffix { pattern, string } => replace_outcome(
            ctx,
            Seq::empty(),
            pattern,
            seq!['$'],
            s,
            string,
            true,
        ),
        AstModifier::UpperOnce(p) => regex_outcome(
            Seq::empty(),
            p,
            Seq::empty(),
            true,
            s,
            Replacement::Upper,
            false,
        ),
        AstModifier::UpperAll(p) => regex_outcome(
            Seq::empty(),
            p,
            Seq::empty(),
            true,
            s,
            Replacement::Upper,
            true,
        ),
        AstModifier::LowerOnce(p) => regex_outcome(
            Seq::empty(),
            p,
            Seq::empty(),
            true,
            s,
            Replacement::Lower,
            false,
        ),
        AstModifier::LowerAll(p) => regex_outcome(
            Seq::empty(),
            p,
            Seq::empty(),
            true,
            s,
            Replacement::Lower,
            true,
        ),
        AstModifier::ErrorOnUnset(t) => if value_empty(v) {
            match eval_text(ctx, t) {
                Outcome::Done(msg) => Outcome::Failed(Failure::Unset(msg)),
                Outcome::Failed(f) => Outcome::Failed(f),
            }
        } else {
            Outcome::Done(s)
        },
        AstModifier::Length => Outcome::Done(decimal(value_len(v))),
        AstModifier::WhenUnset(t) => if value_empty(v) {
            eval_text(ctx, t)
        } else {
            Outcome::Done(s)
        },
        AstModifier::WhenSet(t) => if !value_empty(v) {
            eval_text(ctx, t)
        } else {
            Outcome::Done(s)
        },
    }
}

/// The modifiers that test whether a value is set: `${name:-text}` keeps a
/// non-empty value and gives the text for an empty one; `${name:+text}`
/// gives the text for a non-empty value and keeps an empty one;
/// `${name:?text}` keeps a non-empty value and fails with the text as its
/// message for an empty one. The text is evaluated only where it is used.
pub proof fn lemma_set_tests(ctx: Map<Seq<char>, VarValue>, v: VarValue, t: AstText)
    ensures
        ({
            let set = match v {
                VarValue::Str(x) => x.len() > 0,
                VarValue::Arr(a) => a.len() > 0,
            };
            &&& set ==> apply_modifier(ctx, AstModifier::WhenUnset(t), v) == Outcome::Done(
                value_string(v),
            )
            &&& !set ==> apply_modifier(ctx, AstModifier::WhenUnset(t), v) == eval_text(ctx, t)
            &&& set ==> apply_modifier(ctx, AstModifier::WhenSet(t), v) == eval_text(ctx, t)
            &&& !set ==> apply_modifier(ctx, AstModifier::WhenSet(t), v) == Outcome::Done(
                value_string(v),
            )
            &&& set ==> apply_modifier(ctx, AstModifier::ErrorOnUnset(t), v) == Outcome::Done(
                value_string(v),
            )
            &&& !set ==> match eval_text(ctx, t) {
                Outcome::Done(msg) => apply_modifier(ctx, AstModifier::ErrorOnUnset(t), v)
                    == Outcome::<Seq<char>>::Failed(Failure::Unset(msg)),
                Outcome::Failed(f) => apply_modifier(ctx, AstModifier::ErrorOnUnset(t), v)
                    == Outcome::<Seq<char>>::Failed(f),
            }
        }),
{
}

pub open spec fn eval_word(ctx: Map<Seq<char>, VarValue>, w: AstWord) -> Outcome<Seq<char>>
    decreases w, 0int,
{
    match w {
        AstWord::Literal(t) => Outcome::Done(t),
        AstWord::Subcommand(t) => Outcome::Done(t),
        AstWord::Variable(e) => match e.modifier {
            None => Outcome::Done(value_string(lookup(ctx, e.name))),
            Some(m) => apply_modifier(ctx, m, lookup(ctx, e.name)),
        },
    }
}

pub open spec fn eval_words(ctx: Map<Seq<char>, VarValue>, ws: Seq<AstWord>) -> Outcome<Seq<char>>
    decreases ws, 0int,
{
    if ws.len() == 0 {
        Outcome::Done(Seq::empty())
    } else {
        match eval_words(ctx, ws.drop_last()) {
            Outcome::Done(r) => match eval_word(ctx, ws.last()) {
                Outcome::Done(x) => Outcome::Done(r + x),
                Outcome::Failed(f) => Outcome::Failed(f),
            },
            Outcome::Failed(f) => Outcome::Failed(f),
        }
    }
}

/// The string a text evaluates to: its words evaluated and joined.
pub open spec fn eval_text(ctx: Map<Seq<char>, VarValue>, t: AstText) -> Outcome<Seq<char>>
    decreases t, 0int,
{
    eval_words(ctx, t.0)
}

pub open spec fn eval_elems(ctx: Map<Seq<char>, VarValue>, es: Seq<AstElement>) -> Outcome<
    Seq<Seq<char>>,
>
    decreases es.len(),
{
    if es.len() == 0 {
        Outcome::Done(Seq::empty())
    } else {
        match eval_elems(ctx, es.drop_last()) {
            Outcome::Done(r) => match es.last() {
                AstElement::ArrayInclusion(n) => Outcome::Done(r + value_array(lookup(ctx, n))),
                AstElement::Text(t) => match eval_text(ctx, t) {
                    Outcome::Done(x) => Outcome::Done(r.push(x)),
                    Outcome::Failed(f) => Outcome::Failed(f),
                },
            },
            Outcome::Failed(f) => Outcome::Failed(f),
        }
    }
}

pub open spec fn eval_value(ctx: Map<Seq<char>, VarValue>, v: AstValue) -> Outcome<VarValue> {
    match v {
        AstValue::String(t) => match eval_text(ctx, t) {
            Outcome::Done(x) => Outcome::Done(VarValue::Str(x)),
            Outcome::Failed(f) => Outcome::Failed(f),
        },
        AstValue::Array(es) => match eval_elems(ctx, es) {
            Outcome::Done(x) => Outcome::Done(VarValue::Arr(x)),
            Outcome::Failed(f) => Outcome::Failed(f),
        },
    }
}

/// Evaluates definitions in order, each seeing the ones before it; gives
/// the variables defined so far and how the evaluation ended.
pub open spec fn eval_defs(ctx: Map<Seq<char>, VarValue>, ds: Seq<AstDefinition>) -> (
    Map<Seq<char>, VarValue>,
    Outcome<()>,
)
    decreases ds.len(),
{
    if ds.len() == 0 {
        (ctx, Outcome::Done(()))
    } else {
        let (c, o) = eval_defs(ctx, ds.drop_last());
        match o {
            Outcome::Done(_) => match eval_value(c, ds.last().value) {
                Outcome::Done(v) => (c.insert(ds.last().name, v), Outcome::Done(())),
                Outcome::Failed(f) => (c, Outcome::Failed(f)),
            },
            _ => (c, o),
        }
    }
}

// ---------------------------------------------------------------------
// Byte offsets
// ---------------------------------------------------------------------

proof fn lemma_utf8_len_le(s: Seq<char>)
    ensures
        utf8_len(s) <= 4 * s.len(),
    decreases s.len(),
{
    if s.len() > 0 {
        lemma_utf8_len_le(s.drop_last());
    }
}

pub(crate) fn char_width(c: char) -> (w: u128)
    ensures
        w == utf8_width(c),
{
    if (c as u32) < 0x80 {
        1
    } else if (c as u32) < 0x800 {
        2
    } else if (c as u32) < 0x10000 {
        3
    } else {
        4
    }
}

/// The character position at which `cs` has `b` bytes before it.
fn byte_index(cs: &Vec<char>, b: usize) -> (res: Option<usize>)
    ensures
        match res {
            Some(k) => byte_index_from(cs@, b as int, 0) == Some(k as int),
            None => byte_index_from(cs@, b as int, 0) is None,
        },
{
    let mut i: usize = 0;
    let mut acc: u128 = 0;
    proof {
        lemma_utf8_len_le(cs@);
    }
    loop
        invariant
            0 <= i <= cs@.len(),
            acc == utf8_len(cs@.take(i as int)),
            utf8_len(cs@) <= 4 * cs@.len(),
            byte_index_from(cs@, b as int, 0) == byte_index_from(cs@, b as int, i as int),
        decreases cs@.len() - i,
    {
        if acc == b as u128 {
            return Some(i);
        }
        if i == cs.len() {
            assert(byte_index_from(cs@, b as int, i + 1) is None);
            return None;
        }
        proof {
            assert(cs@.take(i + 1).drop_last() =~= cs@.take(i as int));
            lemma_utf8_prefix_le(cs@, i + 1);
        }
        acc = acc + char_width(cs[i]);
        i = i + 1;
    }
}

proof fn lemma_utf8_prefix_le(s: Seq<char>, n: int)
    requires
        0 <= n <= s.len(),
    ensures
        utf8_len(s.take(n)) <= utf8_len(s),
    decreases s.len() - n,
{
    if n < s.len() {
        lemma_utf8_prefix_le(s, n + 1);
        assert(s.take(n + 1).drop_last() =~= s.take(n));
    } else {
        assert(s.take(n) =~= s);
    }
}

/// The characters between two byte offsets; `None` when an offset is not a
/// character boundary or the offsets are out of order.
fn slice_by_bytes(cs: &Vec<char>, a: usize, b: usize) -> (res: Option<String>)
    ensures
        match res {
            Some(t) => byte_slice(cs@, a as int, b as int) == Some(t@),
            None => byte_slice(cs@, a as int, b as int) is None,
        },
{
    let i = match byte_index(cs, a) {
        Some(i) => i,
        None => {
            return None;
        },
    };
    let j = match byte_index(cs, b) {
        Some(j) => j,
        None => {
            return None;
        },
    };
    proof {
        lemma_byte_index_bounds(cs@, a as int, 0);
        lemma_byte_index_bounds(cs@, b as int, 0);
    }
    if i <= j {
        Some(string_from_chars(cs.as_slice(), i, j))
    } else {
        None
    }
}

proof fn lemma_byte_index_bounds(s: Seq<char>, b: int, k: int)
    ensures
        match byte_index_from(s, b, k) {
            Some(i) => 0 <= i <= s.len(),
            None => true,
        },
    decreases s.len() + 1 - k,
{
    if 0 <= k <= s.len() && utf8_len(s.take(k)) != b {
        lemma_byte_index_bounds(s, b, k + 1);
    }
}

/// The number of bytes of a string.
pub(crate) fn byte_len(cs: &Vec<char>) -> (res: u128)
    ensures
        res == utf8_len(cs@),
        res <= 4 * cs@.len(),
{
    let mut i: usize = 0;
    let mut acc: u128 = 0;
    proof {
        lemma_utf8_len_le(cs@);
    }
    while i < cs.len()
        invariant
            0 <= i <= cs@.len(),
            acc == utf8_len(cs@.take(i as int)),
            utf8_len(cs@) <= 4 * cs@.len(),
        decreases cs@.len() - i,
    {
        proof {
            assert(cs@.take(i + 1).drop_last() =~= cs@.take(i as int));
            lemma_utf8_prefix_le(cs@, i + 1);
        }
        acc = acc + char_width(cs[i]);
        i = i + 1;
    }
    assert(cs@.take(cs@.len() as int) =~= cs@);
    acc
}

/// A substring by byte offset and length.
fn substring_of(s: &String, offset: usize, length: Option<isize>) -> (res: Result<String, EvalError>)
    ensures
        match res {
            Ok(t) => substring_outcome(
                s@,
                offset as int,
                match length {
                    Some(l) => Some(l as int),
                    None => None,
                },
            ) == Outcome::Done(t@),
            Err(e) => substring_outcome(
                s@,
                offset as int,
                match length {
                    Some(l) => Some(l as int),
                    None => None,
                },
            ) == Outcome::<Seq<char>>::Failed(e@),
        },
{
    let cs = chars_of(s.as_str());
    let len = byte_len(&cs);
    if len > usize::MAX as u128 {
        return Err(EvalError::Range);
    }
    let end: u128 = match length {
        None => len,
        Some(l) => if l > 0 {
            let e = offset as u128 + l as u128;
            if e > usize::MAX as u128 {
                return Err(EvalError::Range);
            }
            if e < len {
                e
            } else {
                len
            }
        } else if l == 0 {
            offset as u128
        } else {
            if l == isize::MIN || (-(l as i128)) as u128 > len {
                return Err(EvalError::Range);
            }
            len - ((-(l as i128)) as u128)
        },
    };
    match slice_by_bytes(&cs, offset, end as usize) {
        Some(t) => Ok(t),
        None => Err(EvalError::Range),
    }
}

// ---------------------------------------------------------------------
// Evaluating
// ---------------------------------------------------------------------

use super::pattern::BashPattern;

/// Replaces in `text` with the regular expression `before`, the pattern,
/// `after`.
fn regex_apply(
    p: &BashPattern,
    before: &str,
    after: &str,
    greedy: bool,
    text: &String,
    rep: Rep,
    all: bool,
) -> (res: Result<String, EvalError>)
    ensures
        match res {
            Ok(r) => regex_outcome(before@, p@, after@, greedy, text@, rep@, all) == Outcome::Done(
                r@,
            ),
            Err(e) => regex_outcome(before@, p@, after@, greedy, text@, rep@, all)
                == Outcome::<Seq<char>>::Failed(e@),
        },
{
    match p.to_regex(before, after, greedy) {
        Err(e) => Err(EvalError::RegexError(e)),
        Ok(m) => if all {
            Ok(replace_all(&m, text.as_str(), &rep))
        } else {
            Ok(replace_first(&m, text.as_str(), &rep))
        },
    }
}

/// Replaces in `text` with the regular expression of a pattern and the
/// evaluated replacement text.
fn replace_apply(
    ctx: &ApmlContext,
    p: &BashPattern,
    before: &str,
    after: &str,
    text: &String,
    string: &Text,
    all: bool,
) -> (res: Result<String, EvalError>)
    requires
        ctx.wf(),
    ensures
        match res {
            Ok(r) => replace_outcome(ctx@, before@, p@, after@, text@, string@, all)
                == Outcome::Done(r@),
            Err(e) => replace_outcome(ctx@, before@, p@, after@, text@, string@, all)
                == Outcome::<Seq<char>>::Failed(e@),
        },
    decreases string, 1int,
{
    match p.to_regex(before, after, true) {
        Err(e) => Err(EvalError::RegexError(e)),
        Ok(m) => {
            let r = match eval_text_exec(ctx, string) {
                Ok(r) => r,
                Err(e) => {
                    return Err(e);
                },
            };
            let rep = Rep::Literal(r);
            if all {
                Ok(replace_all(&m, text.as_str(), &rep))
            } else {
                Ok(replace_first(&m, text.as_str(), &rep))
            }
        },
    }
}

fn rest_rep() -> (res: Rep)
    ensures
        res@ == rest_of_match(),
{
    Rep::Expand("${rest}".to_string())
}

fn length_of(v: &VariableValue) -> (res: String)
    ensures
        res@ == decimal(value_len(v@)),
{
    let n = v.len();
    format_usize(n)
}

/// Applies an expansion modifier to the value of a variable.
#[verifier::spinoff_prover]
#[verifier::rlimit(60)]
fn apply_modifier_exec(ctx: &ApmlContext, m: &ExpansionModifier, v: VariableValue) -> (res: Result<
    String,
    EvalError,
>)
    requires
        ctx.wf(),
    ensures
        match res {
            Ok(r) => apply_modifier(ctx@, m@, v@) == Outcome::Done(r@),
            Err(e) => apply_modifier(ctx@, m@, v@) == Outcome::<Seq<char>>::Failed(e@),
        },
    decreases m, 0int,
{
    let empty = v.is_empty();
    let s = v.as_string();
    match m {
        ExpansionModifier::Substring { offset, length } => substring_of(&s, *offset, *length),
        ExpansionModifier::StripShortestPrefix(p) => {
            regex_apply(p, "^(?:", ")?(?P<rest>.*)$", false, &s, rest_rep(), false)
        },
        ExpansionModifier::StripLongestPrefix(p) => {
            regex_apply(p, "^(?:", ")?(?P<rest>.*?)$", true, &s, rest_rep(), false)
        },
        ExpansionModifier::StripShortestSuffix(p) => {
            regex_apply(p, "^(?P<rest>.*)(?:", ")$", false, &s, rest_rep(), false)
        },
        ExpansionModifier::StripLongestSuffix(p) => {
            regex_apply(p, "^(?P<rest>.*?)(?:", ")$", true, &s, rest_rep(), false)
        },
        ExpansionModifier::ReplaceOnce { pattern, string } => {
            proof {
                reveal_strlit("");
                assert(""@ =~= Seq::<char>::empty());
            }
            replace_apply(ctx, pattern, "", "", &s, string, false)
        },
        ExpansionModifier::ReplaceAll { pattern, string } => {
            proof {
                reveal_strlit("");
                assert(""@ =~= Seq::<char>::empty());
            }
            replace_apply(ctx, pattern, "", "", &s, string, true)
        },
        ExpansionModifier::ReplacePrefix { pattern, string } => {
            proof {
                reveal_strlit("");
                reveal_strlit("^");
                assert(""@ =~= Seq::<char>::empty());
                assert("^"@ =~= seq!['^']);
            }
            replace_apply(ctx, pattern, "^", "", &s, string, true)
        },
        ExpansionModifier::ReplaceSuffix { pattern, string } => {
            proof {
                reveal_strlit("");
                reveal_strlit("$");
                assert(""@ =~= Seq::<char>::empty());
                assert("$"@ =~= seq!['$']);
            }
            replace_apply(ctx, pattern, "", "$", &s, string, true)
        },
        ExpansionModifier::UpperOnce(p) => {
            proof {
                reveal_strlit("");
                assert(""@ =~= Seq::<char>::empty());
            }
            regex_apply(p, "", "", true, &s, Rep::Upper, false)
        },
        ExpansionModifier::UpperAll(p) => {
            proof {
                reveal_strlit("");
                assert(""@ =~= Seq::<char>::empty());
            }
            regex_apply(p, "", "", true, &s, Rep::Upper, true)
        },
        ExpansionModifier::LowerOnce(p) => {
            proof {
                reveal_strlit("");
                assert(""@ =~= Seq::<char>::empty());
            }
            regex_apply(p, "", "", true, &s, Rep::Lower, false)
        },
        ExpansionModifier::LowerAll(p) => {
            proof {
                reveal_strlit("");
                assert(""@ =~= Seq::<char>::empty());
            }
            regex_apply(p, "", "", true, &s, Rep::Lower, true)
        },
        ExpansionModifier::ErrorOnUnset(t) => if empty {
            match eval_text_exec(ctx, t) {
                Ok(msg) => Err(EvalError::Unset(msg)),
                Err(e) => Err(e),
            }
        } else {
            Ok(s)
        },
        ExpansionModifier::Length => Ok(length_of(&v)),
        ExpansionModifier::WhenUnset(t) => if empty {
            eval_text_exec(ctx, t)
        } else {
            Ok(s)
        },
        ExpansionModifier::WhenSet(t) => if !empty {
            eval_text_exec(ctx, t)
        } else {
            Ok(s)
        },
    }
}

fn eval_word_exec(ctx: &ApmlContext, w: &Word) -> (res: Result<String, EvalError>)
    requires
        ctx.wf(),
    ensures
        match res {
            Ok(r) => eval_word(ctx@, w@) == Outcome::Done(r@),
            Err(e) => eval_word(ctx@, w@) == Outcome::<Seq<char>>::Failed(e@),
        },
    decreases w, 0int,
{
    match w {
        Word::Literal(t) => Ok(t.clone()),
        Word::Subcommand(t) => Ok(t.clone()),
        Word::Variable(e) => {
            let v = ctx.read(e.name.as_str());
            match &e.modifier {
                None => Ok(v.into_string()),
                Some(m) => apply_modifier_exec(ctx, m, v),
            }
        },
    }
}

/// Evaluates a text into a string.
pub fn eval_text_exec(ctx: &ApmlContext, t: &Text) -> (res: Result<String, EvalError>)
    requires
        ctx.wf(),
    ensures
        match res {
            Ok(r) => eval_text(ctx@, t@) == Outcome::Done(r@),
            Err(e) => eval_text(ctx@, t@) == Outcome::<Seq<char>>::Failed(e@),
        },
    decreases t, 0int,
{
    let ghost s = t.0@;
    let mut out = String::new();
    let mut i: usize = 0;
    while i < t.0.len()
        invariant
            s == t.0@,
            ctx.wf(),
            0 <= i <= s.len(),
            eval_words(ctx@, view_words(s.take(i as int))) == Outcome::Done(out@),
        decreases s.len() - i,
    {
        assert(decreases_to!(t => t.0));
        proof {
            lemma_view_words_take_ast(s, i as int);
            lemma_eval_words_push(
                ctx@,
                view_words(s.take(i as int)),
                super::ast::view_word(s[i as int]),
            );
        }
        match eval_word_exec(ctx, &t.0[i]) {
            Ok(x) => {
                push_string(&mut out, x.as_str());
            },
            Err(e) => {
                proof {
                    lemma_eval_words_fail(ctx@, s, i + 1, s.len() as int);
                    assert(s.take(s.len() as int) =~= s);
                }
                return Err(e);
            },
        }
        i = i + 1;
    }
    assert(s.take(s.len() as int) =~= s);
    Ok(out)
}

proof fn lemma_view_words_take_ast(s: Seq<Word>, i: int)
    requires
        0 <= i < s.len(),
    ensures
        view_words(s.take(i + 1)) == view_words(s.take(i)).push(super::ast::view_word(s[i])),
{
    assert(s.take(i + 1).drop_last() =~= s.take(i));
    assert(s.take(i + 1).last() == s[i]);
}

proof fn lemma_eval_words_push(ctx: Map<Seq<char>, VarValue>, a: Seq<AstWord>, w: AstWord)
    ensures
        eval_words(ctx, a.push(w)) == match eval_words(ctx, a) {
            Outcome::Done(r) => match eval_word(ctx, w) {
                Outcome::Done(x) => Outcome::Done(r + x),
                Outcome::Failed(f) => Outcome::Failed(f),
            },
            Outcome::Failed(f) => Outcome::Failed(f),
        },
{
    assert(a.push(w).drop_last() =~= a);
}

/// A prefix that fails makes the whole fail the same way.
proof fn lemma_eval_words_fail(ctx: Map<Seq<char>, VarValue>, s: Seq<Word>, k: int, n: int)
    requires
        0 <= k <= n <= s.len(),
        eval_words(ctx, view_words(s.take(k))) is Failed,
    ensures
        eval_words(ctx, view_words(s.take(n))) == eval_words(ctx, view_words(s.take(k))),
    decreases n - k,
{
    if n > k {
        lemma_eval_words_fail(ctx, s, k, n - 1);
        lemma_view_words_take_ast(s, n - 1);
        lemma_eval_words_push(ctx, view_words(s.take(n - 1)), super::ast::view_word(s[n - 1]));
    }
}

proof fn lemma_view_elems_take_ast(s: Seq<ArrayElement>, i: int)
    requires
        0 <= i < s.len(),
    ensures
        view_elems(s.take(i + 1)) == view_elems(s.take(i)).push(super::ast::view_elem(s[i])),
{
    assert(s.take(i + 1).drop_last() =~= s.take(i));
    assert(s.take(i + 1).last() == s[i]);
}

proof fn lemma_eval_elems_push(ctx: Map<Seq<char>, VarValue>, a: Seq<AstElement>, e: AstElement)
    ensures
        eval_elems(ctx, a.push(e)) == match eval_elems(ctx, a) {
            Outcome::Done(r) => match e {
                AstElement::ArrayInclusion(n) => Outcome::Done(r + value_array(lookup(ctx, n))),
                AstElement::Text(t) => match eval_text(ctx, t) {
                    Outcome::Done(x) => Outcome::Done(r.push(x)),
                    Outcome::Failed(f) => Outcome::Failed(f),
                },
            },
            Outcome::Failed(f) => Outcome::Failed(f),
        },
{
    assert(a.push(e).drop_last() =~= a);
}

proof fn lemma_eval_elems_fail(ctx: Map<Seq<char>, VarValue>, s: Seq<ArrayElement>, k: int, n: int)
    requires
        0 <= k <= n <= s.len(),
        eval_elems(ctx, view_elems(s.take(k))) is Failed,
    ensures
        eval_elems(ctx, view_elems(s.take(n))) == eval_elems(ctx, view_elems(s.take(k))),
    decreases n - k,
{
    if n > k {
        lemma_eval_elems_fail(ctx, s, k, n - 1);
        lemma_view_elems_take_ast(s, n - 1);
        lemma_eval_elems_push(ctx, view_elems(s.take(n - 1)), super::ast::view_elem(s[n - 1]));
    }
}

fn eval_elems_exec(ctx: &ApmlContext, es: &Vec<ArrayElement>) -> (res: Result<Vec<String>, EvalError>)
    requires
        ctx.wf(),
    ensures
        match res {
            Ok(v) => eval_elems(ctx@, view_elems(es@)) == Outcome::Done(strings_view(v@)),
            Err(e) => eval_elems(ctx@, view_elems(es@)) == Outcome::<Seq<Seq<char>>>::Failed(e@),
        },
{
    let ghost s = es@;
    let mut out: Vec<String> = Vec::new();
    let mut i: usize = 0;
    assert(s.take(0) =~= Seq::<ArrayElement>::empty());
    assert(strings_view(out@) =~= Seq::<Seq<char>>::empty());
    while i < es.len()
        invariant
            s == es@,
            ctx.wf(),
            0 <= i <= s.len(),
            eval_elems(ctx@, view_elems(s.take(i as int))) == Outcome::Done(strings_view(out@)),
        decreases s.len() - i,
    {
        proof {
            lemma_view_elems_take_ast(s, i as int);
            lemma_eval_elems_push(
                ctx@,
                view_elems(s.take(i as int)),
                super::ast::view_elem(s[i as int]),
            );
        }
        let ghost before = out@;
        match &es[i] {
            ArrayElement::ArrayInclusion(name) => {
                let v = ctx.read(name.as_str());
                let mut more = v.into_array();
                let ghost m = more@;
                out.append(&mut more);
                assert(strings_view(out@) =~= strings_view(before) + strings_view(m));
            },
            ArrayElement::Text(t) => match eval_text_exec(ctx, t) {
                Ok(x) => {
                    out.push(x);
                    assert(strings_view(out@) =~= strings_view(before).push(x@));
                },
                Err(e) => {
                    proof {
                        lemma_eval_elems_fail(ctx@, s, i + 1, s.len() as int);
                        assert(s.take(s.len() as int) =~= s);
                    }
                    return Err(e);
                },
            },
        }
        i = i + 1;
    }
    assert(s.take(s.len() as int) =~= s);
    Ok(out)
}

fn eval_value_exec(ctx: &ApmlContext, v: &AstVariableValue) -> (res: Result<VariableValue, EvalError>)
    requires
        ctx.wf(),
    ensures
        match res {
            Ok(x) => eval_value(ctx@, v@) == Outcome::Done(x@),
            Err(e) => eval_value(ctx@, v@) == Outcome::<VarValue>::Failed(e@),
        },
{
    match v {
        AstVariableValue::String(t) => match eval_text_exec(ctx, t) {
            Ok(x) => Ok(VariableValue::String(x)),
            Err(e) => Err(e),
        },
        AstVariableValue::Array(es) => match eval_elems_exec(ctx, es) {
            Ok(x) => Ok(VariableValue::Array(x)),
            Err(e) => Err(e),
        },
    }
}

proof fn lemma_view_defs_take_ast(s: Seq<VariableDefinition>, i: int)
    requires
        0 <= i < s.len(),
    ensures
        view_defs(s.take(i + 1)) == view_defs(s.take(i)).push(super::ast::view_def(s[i])),
{
    assert(s.take(i + 1).drop_last() =~= s.take(i));
    assert(s.take(i + 1).last() == s[i]);
}

proof fn lemma_eval_defs_push(ctx: Map<Seq<char>, VarValue>, a: Seq<AstDefinition>, d: AstDefinition)
    ensures
        eval_defs(ctx, a.push(d)) == match eval_defs(ctx, a).1 {
            Outcome::Done(_) => match eval_value(eval_defs(ctx, a).0, d.value) {
                Outcome::Done(v) => (eval_defs(ctx, a).0.insert(d.name, v), Outcome::Done(())),
                Outcome::Failed(f) => (eval_defs(ctx, a).0, Outcome::Failed(f)),
            },
            _ => eval_defs(ctx, a),
        },
{
    assert(a.push(d).drop_last() =~= a);
}

proof fn lemma_eval_defs_fail(ctx: Map<Seq<char>, VarValue>, s: Seq<VariableDefinition>, k: int, n: int)
    requires
        0 <= k <= n <= s.len(),
        eval_defs(ctx, view_defs(s.take(k))).1 is Failed,
    ensures
        eval_defs(ctx, view_defs(s.take(n))) == eval_defs(ctx, view_defs(s.take(k))),
    decreases n - k,
{
    if n > k {
        lemma_eval_defs_fail(ctx, s, k, n - 1);
        lemma_view_defs_take_ast(s, n - 1);
        lemma_eval_defs_push(ctx, view_defs(s.take(n - 1)), super::ast::view_def(s[n - 1]));
    }
}

/// Evaluates the definitions of an AST in order into a context.
///
/// On failure the context holds the variables defined before the failing
/// definition.
pub fn eval_ast(apml: &mut ApmlContext, tree: &ApmlAst) -> (res: Result<(), EvalError>)
    requires
        old(apml).wf(),
    ensures
        final(apml).wf(),
        final(apml)@ == eval_defs(old(apml)@, tree@.0).0,
        match res {
            Ok(_) => eval_defs(old(apml)@, tree@.0).1 is Done,
            Err(e) => eval_defs(old(apml)@, tree@.0).1 == Outcome::<()>::Failed(e@),
        },
{
    let ghost s = tree.0@;
    let ghost start = apml@;
    let mut i: usize = 0;
    assert(s.take(0) =~= Seq::<VariableDefinition>::empty());
    while i < tree.0.len()
        invariant
            s == tree.0@,
            tree@.0 == view_defs(s),
            start == old(apml)@,
            apml.wf(),
            0 <= i <= s.len(),
            eval_defs(start, view_defs(s.take(i as int))) == (apml@, Outcome::Done(())),
        decreases s.len() - i,
    {
        proof {
            lemma_view_defs_take_ast(s, i as int);
            lemma_eval_defs_push(start, view_defs(s.take(i as int)), super::ast::view_def(s[i as int]));
        }
        let def = &tree.0[i];
        match eval_value_exec(apml, &def.value) {
            Ok(v) => {
                apml.insert(def.name.clone(), v);
            },
            Err(e) => {
                proof {
                    assert(eval_defs(start, view_defs(s.take(i + 1))).1 == Outcome::<()>::Failed(
                        e@,
                    ));
                    lemma_eval_defs_fail(start, s, i + 1, s.len() as int);
                    assert(s.take(s.len() as int) =~= s);
                    assert(eval_defs(start, view_defs(s)) == eval_defs(
                        start,
                        view_defs(s.take(i + 1)),
                    ));
                    assert(start == old(apml)@);
                    assert(eval_defs(old(apml)@, tree@.0).1 == Outcome::<()>::Failed(e@));
                    assert(eval_defs(old(apml)@, tree@.0).0 == apml@);
                }
                return Err(e);
            },
        }
        i = i + 1;
    }
    assert(s.take(s.len() as int) =~= s);
    Ok(())
}

// ---------------------------------------------------------------------
// Evaluating sources
// ---------------------------------------------------------------------

use super::ast::{emit_ast, AstNode, EmitError};
use super::lst::ApmlLst;
use super::parser::{parse_result, ParseError};

/// Why a source cannot be evaluated.
#[derive(Debug)]
pub enum ApmlError {
    Parse(ParseError),
    Emit(EmitError),
    Eval(EvalError),
}

/// Evaluating an AST from an empty context.
pub open spec fn ast_outcome(a: AstModel) -> (Map<Seq<char>, VarValue>, Outcome<()>) {
    eval_defs(Map::empty(), a.0)
}

impl ApmlContext {
    /// Evaluates an APML AST in a new context.
    pub fn eval_ast(ast: &ApmlAst) -> (res: Result<ApmlContext, ApmlError>)
        ensures
            match res {
                Ok(c) => c.wf() && ast_outcome(ast@) == (c@, Outcome::<()>::Done(())),
                Err(ApmlError::Eval(e)) => ast_outcome(ast@).1 == Outcome::<()>::Failed(e@),
                Err(_) => false,
            },
    {
        let mut apml = ApmlContext::new();
        match eval_ast(&mut apml, ast) {
            Ok(()) => Ok(apml),
            Err(e) => Err(ApmlError::Eval(e)),
        }
    }

    /// Emits and evaluates an APML LST.
    pub fn eval_lst(lst: &ApmlLst) -> (res: Result<ApmlContext, ApmlError>)
        ensures
            match res {
                Ok(c) => c.wf() && match emit_ast(lst@) {
                    Ok(a) => ast_outcome(a) == (c@, Outcome::<()>::Done(())),
                    Err(_) => false,
                },
                Err(ApmlError::Emit(e)) => emit_ast(lst@) == Err::<AstModel, EmitError>(e),
                Err(ApmlError::Eval(e)) => match emit_ast(lst@) {
                    Ok(a) => ast_outcome(a).1 == Outcome::<()>::Failed(e@),
                    Err(_) => false,
                },
                Err(ApmlError::Parse(_)) => false,
            },
    {
        match ApmlAst::emit_from(lst) {
            Ok(ast) => Self::eval_ast(&ast),
            Err(e) => Err(ApmlError::Emit(e)),
        }
    }

    /// Parses APML source and evaluates it.
    pub fn eval_source(src: &str) -> (res: Result<ApmlContext, ApmlError>)
        requires
            utf8_len(src@) < usize::MAX,
        ensures
            match res {
                Ok(c) => c.wf() && match parse_result(src@) {
                    Ok(l) => match emit_ast(l) {
                        Ok(a) => ast_outcome(a) == (c@, Outcome::<()>::Done(())),
                        Err(_) => false,
                    },
                    Err(_) => false,
                },
                Err(ApmlError::Parse(ParseError::UnexpectedSource { pos })) => parse_result(src@)
                    == Err::<model::Lst, usize>(pos),
                Err(ApmlError::Parse(ParseError::SyntaxError(_))) => false,
                Err(ApmlError::Emit(e)) => match parse_result(src@) {
                    Ok(l) => emit_ast(l) == Err::<AstModel, EmitError>(e),
                    Err(_) => false,
                },
                Err(ApmlError::Eval(e)) => match parse_result(src@) {
                    Ok(l) => match emit_ast(l) {
                        Ok(a) => ast_outcome(a).1 == Outcome::<()>::Failed(e@),
                        Err(_) => false,
                    },
                    Err(_) => false,
                },
            },
    {
        match ApmlLst::parse(src) {
            Ok(lst) => Self::eval_lst(&lst),
            Err(e) => Err(ApmlError::Parse(e)),
        }
    }
}

} // verus!
