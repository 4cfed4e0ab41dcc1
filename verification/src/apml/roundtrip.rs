//! Printing a parsed tree gives back the source text it was read from, for
//! every source: the grammar keeps each character it reads in the tree
//! (a `'|'` that ends a pattern list stands before an empty pattern).

use vstd::prelude::*;

use super::grammar::{
    array_token, array_tokens, at, at2, braced_expansion, comment_end, expansion_modifier,
    list_glob, literal_part, literal_parts, name, number, pat_op_seq, pattern, pattern_list, pattern_part,
    pattern_parts, repl_op_seq, replace_body, run_end, starts_with_at, substring, text_unit,
    text_units, token, tokens, try_pattern_modifier, try_replace_modifier, try_text_modifier,
    valid_pos, variable_def, variable_op, variable_value, word, words, apml_lst, PatCtx, PatOp,
    ReplOp, Run, TextCtx, WordCtx,
};
use super::parser::parse_result;
use super::model::{
    print_atok, print_atoks, print_braced, print_glob, print_globs, print_lst, print_modifier,
    print_op, print_part, print_parts, print_pattern, print_patterns, print_plist, print_text,
    print_token, print_tokens, print_unit, print_units, print_value, print_word, print_words,
    replacement_text, ArrayToken, BashPattern, GlobPart, LiteralPart, PatternList, Text, TextUnit, Token, Word,
};

verus! {

// ---------------------------------------------------------------------
// Branches of the grammar
// ---------------------------------------------------------------------

pub open spec fn braced_branch(s: Seq<char>, p: int) -> bool {
    at2(s, p, '$', '{') && match braced_expansion(s, p + 2) {
        Some((b, q)) => at(s, q, '}'),
        None => false,
    }
}

pub open spec fn subcommand_branch(s: Seq<char>, p: int) -> bool {
    at2(s, p, '$', '(') && ({
        let (ts, q) = array_tokens(s, p + 2);
        at(s, q, ')')
    })
}

pub open spec fn single_quote_branch(s: Seq<char>, p: int) -> bool {
    at(s, p, '\'') && at(s, run_end(s, p + 1, Run::NotQuote), '\'')
}

pub open spec fn double_quote_branch(s: Seq<char>, p: int) -> bool {
    at(s, p, '"') && ({
        let (ws, q) = words(s, p + 1, WordCtx::DoubleQuoted);
        at(s, q, '"')
    })
}

pub open spec fn array_value_branch(s: Seq<char>, p: int) -> bool {
    at(s, p, '(') && at(s, array_tokens(s, p + 1).1, ')')
}

// ---------------------------------------------------------------------
// Facts about sequences and printing
// ---------------------------------------------------------------------

proof fn lemma_join(s: Seq<char>, a: int, b: int, c: int)
    requires
        0 <= a <= b <= c <= s.len(),
    ensures
        s.subrange(a, b) + s.subrange(b, c) == s.subrange(a, c),
{
    assert(s.subrange(a, b) + s.subrange(b, c) =~= s.subrange(a, c));
}

/// A middle part between an opening of two characters and a closing one.
proof fn lemma_wrap(s: Seq<char>, p: int, c1: char, c2: char, mid: Seq<char>, q: int, close: char)
    requires
        0 <= p,
        p + 2 <= q < s.len(),
        s[p] == c1,
        s[p + 1] == c2,
        mid == s.subrange(p + 2, q),
        s[q] == close,
    ensures
        seq![c1, c2] + mid + seq![close] == s.subrange(p, q + 1),
{
    assert(seq![c1, c2] + mid + seq![close] =~= s.subrange(p, q + 1));
}

proof fn lemma_run_end_bounds(s: Seq<char>, p: int, k: Run)
    requires
        valid_pos(s, p),
    ensures
        p <= run_end(s, p, k) <= s.len(),
    decreases s.len() - p,
{
    if p < s.len() && super::grammar::run_ok(k, s[p]) {
        lemma_run_end_bounds(s, p + 1, k);
    }
}

proof fn lemma_prepend_parts(x: LiteralPart, r: Seq<LiteralPart>)
    ensures
        print_parts(seq![x] + r) == print_part(x) + print_parts(r),
    decreases r.len(),
{
    let xs = seq![x] + r;
    assert(xs.last() == if r.len() == 0 { x } else { r.last() });
    if r.len() == 0 {
        assert(xs.drop_last() =~= Seq::<LiteralPart>::empty());
        assert(print_parts(xs.drop_last()) == Seq::<char>::empty());
        assert(print_parts(r) == Seq::<char>::empty());
        assert(print_part(x) + print_parts(r) =~= print_part(x));
        assert(Seq::<char>::empty() + print_part(x) =~= print_part(x));
    } else {
        assert(xs.drop_last() =~= seq![x] + r.drop_last());
        lemma_prepend_parts(x, r.drop_last());
        assert(print_part(x) + print_parts(r) =~= print_part(x) + print_parts(r.drop_last())
            + print_part(r.last()));
    }
}

proof fn lemma_prepend_words(x: Word, r: Seq<Word>)
    ensures
        print_words(seq![x] + r) == print_word(x) + print_words(r),
    decreases r.len(),
{
    let xs = seq![x] + r;
    assert(xs.last() == if r.len() == 0 { x } else { r.last() });
    if r.len() == 0 {
        assert(xs.drop_last() =~= Seq::<Word>::empty());
        assert(print_words(xs.drop_last()) == Seq::<char>::empty());
        assert(print_words(r) == Seq::<char>::empty());
        assert(print_word(x) + print_words(r) =~= print_word(x));
        assert(Seq::<char>::empty() + print_word(x) =~= print_word(x));
    } else {
        assert(xs.drop_last() =~= seq![x] + r.drop_last());
        lemma_prepend_words(x, r.drop_last());
        assert(print_word(x) + print_words(r) =~= print_word(x) + print_words(r.drop_last())
            + print_word(r.last()));
    }
}

proof fn lemma_prepend_units(x: TextUnit, r: Seq<TextUnit>)
    ensures
        print_units(seq![x] + r) == print_unit(x) + print_units(r),
    decreases r.len(),
{
    let xs = seq![x] + r;
    assert(xs.last() == if r.len() == 0 { x } else { r.last() });
    if r.len() == 0 {
        assert(xs.drop_last() =~= Seq::<TextUnit>::empty());
        assert(print_units(xs.drop_last()) == Seq::<char>::empty());
        assert(print_units(r) == Seq::<char>::empty());
        assert(print_unit(x) + print_units(r) =~= print_unit(x));
        assert(Seq::<char>::empty() + print_unit(x) =~= print_unit(x));
    } else {
        assert(xs.drop_last() =~= seq![x] + r.drop_last());
        lemma_prepend_units(x, r.drop_last());
        assert(print_unit(x) + print_units(r) =~= print_unit(x) + print_units(r.drop_last())
            + print_unit(r.last()));
    }
}

proof fn lemma_prepend_atoks(x: ArrayToken, r: Seq<ArrayToken>)
    ensures
        print_atoks(seq![x] + r) == print_atok(x) + print_atoks(r),
    decreases r.len(),
{
    let xs = seq![x] + r;
    assert(xs.last() == if r.len() == 0 { x } else { r.last() });
    if r.len() == 0 {
        assert(xs.drop_last() =~= Seq::<ArrayToken>::empty());
        assert(print_atoks(xs.drop_last()) == Seq::<char>::empty());
        assert(print_atoks(r) == Seq::<char>::empty());
        assert(print_atok(x) + print_atoks(r) =~= print_atok(x));
        assert(Seq::<char>::empty() + print_atok(x) =~= print_atok(x));
    } else {
        assert(xs.drop_last() =~= seq![x] + r.drop_last());
        lemma_prepend_atoks(x, r.drop_last());
        assert(print_atok(x) + print_atoks(r) =~= print_atok(x) + print_atoks(r.drop_last())
            + print_atok(r.last()));
    }
}

proof fn lemma_prepend_globs(x: GlobPart, r: Seq<GlobPart>)
    ensures
        print_globs(seq![x] + r) == print_glob(x) + print_globs(r),
    decreases r.len(),
{
    let xs = seq![x] + r;
    assert(xs.last() == if r.len() == 0 { x } else { r.last() });
    if r.len() == 0 {
        assert(xs.drop_last() =~= Seq::<GlobPart>::empty());
        assert(print_globs(xs.drop_last()) == Seq::<char>::empty());
        assert(print_globs(r) == Seq::<char>::empty());
        assert(print_glob(x) + print_globs(r) =~= print_glob(x));
        assert(Seq::<char>::empty() + print_glob(x) =~= print_glob(x));
    } else {
        assert(xs.drop_last() =~= seq![x] + r.drop_last());
        lemma_prepend_globs(x, r.drop_last());
        assert(print_glob(x) + print_globs(r) =~= print_glob(x) + print_globs(r.drop_last())
            + print_glob(r.last()));
    }
}

proof fn lemma_prepend_tokens(x: Token, r: Seq<Token>)
    ensures
        print_tokens(seq![x] + r) == print_token(x) + print_tokens(r),
    decreases r.len(),
{
    let xs = seq![x] + r;
    assert(xs.last() == if r.len() == 0 { x } else { r.last() });
    if r.len() == 0 {
        assert(xs.drop_last() =~= Seq::<Token>::empty());
        assert(print_tokens(xs.drop_last()) == Seq::<char>::empty());
        assert(print_tokens(r) == Seq::<char>::empty());
        assert(print_token(x) + print_tokens(r) =~= print_token(x));
        assert(Seq::<char>::empty() + print_token(x) =~= print_token(x));
    } else {
        assert(xs.drop_last() =~= seq![x] + r.drop_last());
        lemma_prepend_tokens(x, r.drop_last());
        assert(print_token(x) + print_tokens(r) =~= print_token(x) + print_tokens(r.drop_last())
            + print_token(r.last()));
    }
}

proof fn lemma_prepend_patterns(x: BashPattern, r: Seq<BashPattern>)
    ensures
        r.len() == 0 ==> print_patterns(seq![x] + r) == print_pattern(x),
        r.len() > 0 ==> print_patterns(seq![x] + r) == print_pattern(x) + seq!['|']
            + print_patterns(r),
    decreases r.len(),
{
    let xs = seq![x] + r;
    if r.len() == 0 {
        assert(xs =~= seq![x]);
        assert(xs[0] == x);
    } else if r.len() == 1 {
        assert(xs.drop_last() =~= seq![x]);
        assert(xs.drop_last()[0] == x);
        assert(xs.last() == r[0]);
        assert(print_patterns(xs.drop_last()) == print_pattern(x));
        assert(print_patterns(r) == print_pattern(r[0]));
    } else {
        assert(xs.last() == r.last());
        assert((seq![x] + r).drop_last() =~= seq![x] + r.drop_last());
        lemma_prepend_patterns(x, r.drop_last());
        assert(print_pattern(x) + seq!['|'] + print_patterns(r) =~= print_pattern(x) + seq!['|']
            + print_patterns(r.drop_last()) + seq!['|'] + print_pattern(r.last()));
    }
}

/// Where a run of pattern parts ends, no further pattern starts.
proof fn lemma_pattern_parts_bounds(s: Seq<char>, p: int, x: PatCtx)
    requires
        valid_pos(s, p),
    ensures
        p <= pattern_parts(s, p, x).1 <= s.len(),
        pattern_parts(s, p, x).0.len() > 0 ==> pattern_parts(s, p, x).1 > p,
        pattern(s, pattern_parts(s, p, x).1, x) is None,
    decreases s.len() - p,
{
    match pattern_part(s, p, x) {
        Some((g, q)) => if p < q <= s.len() {
            lemma_pattern_parts_bounds(s, q, x);
        } else {
        },
        None => {},
    }
}

// ---------------------------------------------------------------------
// Patterns
// ---------------------------------------------------------------------

proof fn lemma_print_list_glob(op: char, l: PatternList)
    requires
        super::grammar::is_list_op(op),
    ensures
        print_glob(list_glob(op, l)) == seq![op, '('] + print_plist(l) + seq![')'],
{
}

proof fn lemma_pattern_part(s: Seq<char>, p: int, x: PatCtx)
    requires
        valid_pos(s, p),
    ensures
        match pattern_part(s, p, x) {
            Some((g, q)) => p < q <= s.len() && print_glob(g) == s.subrange(p, q),
            None => true,
        },
    decreases s.len() - p, 0int,
{
    if at(s, p, '\\') && p + 1 < s.len() {
        assert(seq!['\\', s[p + 1]] =~= s.subrange(p, p + 2));
    } else if p + 1 < s.len() && super::grammar::is_list_op(s[p]) && s[p + 1] == '(' && ({
        let (l, q) = pattern_list(s, p + 2, false);
        at(s, q, ')')
    }) {
        let (l, q) = pattern_list(s, p + 2, false);
        lemma_plist(s, p + 2, false);
        lemma_print_list_glob(s[p], l);
        assert(seq![s[p], '('] + s.subrange(p + 2, q) + seq![')'] =~= s.subrange(p, q + 1));
    } else if at(s, p, '*') {
        assert(seq!['*'] =~= s.subrange(p, p + 1));
    } else if at(s, p, '?') {
        assert(seq!['?'] =~= s.subrange(p, p + 1));
    } else if at(s, p, '[') && ({
        let e = run_end(s, p + 1, Run::NotBracket);
        e > p + 1 && at(s, e, ']')
    }) {
        let e = run_end(s, p + 1, Run::NotBracket);
        assert(seq!['['] + s.subrange(p + 1, e) + seq![']'] =~= s.subrange(p, e + 1));
    } else {
        lemma_run_end_bounds(s, p, Run::Glob(x));
    }
}

proof fn lemma_pattern_parts(s: Seq<char>, p: int, x: PatCtx)
    requires
        valid_pos(s, p),
    ensures
        p <= pattern_parts(s, p, x).1 <= s.len(),
        print_globs(pattern_parts(s, p, x).0) == s.subrange(p, pattern_parts(s, p, x).1),
    decreases s.len() - p, 1int,
{
    match pattern_part(s, p, x) {
        Some((g, q)) => if p < q <= s.len() {
            lemma_pattern_part(s, p, x);
            lemma_pattern_parts(s, q, x);
            let (r, e) = pattern_parts(s, q, x);
            lemma_prepend_globs(g, r);
            lemma_join(s, p, q, e);
        } else {
            assert(s.subrange(p, p) =~= Seq::<char>::empty());
        },
        None => {
            assert(s.subrange(p, p) =~= Seq::<char>::empty());
        },
    }
}

proof fn lemma_pattern(s: Seq<char>, p: int, x: PatCtx)
    requires
        valid_pos(s, p),
    ensures
        match pattern(s, p, x) {
            Some((pt, e)) => p < e <= s.len() && print_pattern(pt) == s.subrange(p, e),
            None => true,
        },
    decreases s.len() - p, 2int,
{
    lemma_pattern_parts(s, p, x);
    lemma_pattern_parts_bounds(s, p, x);
}

proof fn lemma_plist(s: Seq<char>, p: int, sep: bool)
    requires
        valid_pos(s, p),
    ensures
        p <= pattern_list(s, p, sep).1 <= s.len(),
        print_plist(pattern_list(s, p, sep).0) == s.subrange(p, pattern_list(s, p, sep).1),
        sep ==> pattern_list(s, p, sep).0.0.len() > 0,
    decreases s.len() - p, 3int,
{
    let empty = BashPattern(Seq::<GlobPart>::empty());
    assert(print_patterns(seq![empty]) == print_pattern(empty));
    assert(print_globs(Seq::<GlobPart>::empty()) == Seq::<char>::empty());
    match pattern(s, p, PatCtx::List) {
        Some((pt, q)) => {
            let bar = at(s, q, '|');
            let q2 = if bar {
                q + 1
            } else {
                q
            };
            lemma_pattern_parts_bounds(s, p, PatCtx::List);
            if p < q2 <= s.len() {
                lemma_pattern(s, p, PatCtx::List);
                lemma_plist(s, q2, bar);
                let (r, e) = pattern_list(s, q2, bar);
                lemma_prepend_patterns(pt, r.0);
                if r.0.len() == 0 {
                    assert(!bar);
                    assert(e == q2);
                    assert(s.subrange(p, q2) == print_pattern(pt));
                } else {
                    if !bar {
                        assert(pattern(s, q2, PatCtx::List) is None);
                        assert(false);
                    }
                    assert(seq!['|'] =~= s.subrange(q, q2));
                    lemma_join(s, p, q, q2);
                    lemma_join(s, p, q2, e);
                }
            } else {
                assert(s.subrange(p, p) =~= Seq::<char>::empty());
            }
        },
        None => {
            assert(s.subrange(p, p) =~= Seq::<char>::empty());
        },
    }
}

// ---------------------------------------------------------------------
// Words and texts
// ---------------------------------------------------------------------

proof fn lemma_literal_part(s: Seq<char>, p: int, w: WordCtx)
    requires
        valid_pos(s, p),
    ensures
        match literal_part(s, p, w) {
            Some((x, q)) => p < q <= s.len() && print_part(x) == s.subrange(p, q),
            None => true,
        },
{
    if at2(s, p, '\\', '\n') {
        assert(seq!['\\', '\n'] =~= s.subrange(p, p + 2));
    } else if at(s, p, '\\') && p + 1 < s.len() {
        assert(seq!['\\', s[p + 1]] =~= s.subrange(p, p + 2));
    } else {
        lemma_run_end_bounds(s, p, Run::Literal(w));
    }
}

proof fn lemma_literal_parts(s: Seq<char>, p: int, w: WordCtx)
    requires
        valid_pos(s, p),
    ensures
        p <= literal_parts(s, p, w).1 <= s.len(),
        literal_parts(s, p, w).0.len() > 0 ==> literal_parts(s, p, w).1 > p,
        print_parts(literal_parts(s, p, w).0) == s.subrange(p, literal_parts(s, p, w).1),
    decreases s.len() - p,
{
    match literal_part(s, p, w) {
        Some((x, q)) => if p < q <= s.len() {
            lemma_literal_part(s, p, w);
            lemma_literal_parts(s, q, w);
            let (r, e) = literal_parts(s, q, w);
            lemma_prepend_parts(x, r);
            lemma_join(s, p, q, e);
        } else {
            assert(s.subrange(p, p) =~= Seq::<char>::empty());
        },
        None => {
            assert(s.subrange(p, p) =~= Seq::<char>::empty());
        },
    }
}

proof fn lemma_substring(s: Seq<char>, p: int)
    requires
        valid_pos(s, p),
    ensures
        match substring(s, p) {
            Some((m, e)) => p < e <= s.len() && print_modifier(m) == s.subrange(p, e) && !(
            m is Length),
            None => true,
        },
{
    if at(s, p, ':') {
        lemma_run_end_bounds(s, p + 1, Run::Number);
        match number(s, p + 1) {
            Some((offset, q)) => {
                if at(s, q, ':') {
                    lemma_run_end_bounds(s, q + 1, Run::Number);
                    match number(s, q + 1) {
                        Some((length, r)) => {
                            assert(seq![':'] + offset + seq![':'] + length =~= s.subrange(p, r));
                        },
                        None => {
                            assert(seq![':'] + offset =~= s.subrange(p, q));
                        },
                    }
                } else {
                    assert(seq![':'] + offset =~= s.subrange(p, q));
                }
            },
            None => {},
        }
    }
}

proof fn lemma_print_pattern_modifier(op: PatOp, pt: BashPattern)
    ensures
        print_modifier(super::grammar::pattern_modifier(op, pt)) == pat_op_seq(op) + print_pattern(
            pt,
        ),
        !(super::grammar::pattern_modifier(op, pt) is Length),
{
}

proof fn lemma_print_replace_modifier(op: ReplOp, pt: BashPattern, t: Option<Text>)
    ensures
        print_modifier(super::grammar::replace_modifier(op, pt, t)) == replacement_text(
            repl_op_seq(op),
            print_pattern(pt),
            match t {
                Some(t) => Some(print_text(t)),
                None => None,
            },
        ),
        !(super::grammar::replace_modifier(op, pt, t) is Length),
{
}

#[verifier::spinoff_prover]
proof fn lemma_replace_body(s: Seq<char>, p: int)
    requires
        valid_pos(s, p),
    ensures
        match replace_body(s, p) {
            Some((pt, t, e)) => p < e <= s.len() && replacement_text(
                Seq::empty(),
                print_pattern(pt),
                match t {
                    Some(t) => Some(print_text(t)),
                    None => None,
                },
            ) == s.subrange(p, e),
            None => true,
        },
    decreases s.len() - p, 4int,
{
    match pattern(s, p, PatCtx::BraceSlash) {
        Some((pt, q)) => {
            lemma_pattern(s, p, PatCtx::BraceSlash);
            if at(s, q, '/') && q + 1 <= s.len() && q + 1 > p {
                lemma_text_units(s, q + 1, TextCtx::Expansion);
                let (us, r) = text_units(s, q + 1, TextCtx::Expansion);
                assert(replace_body(s, p) == Some((pt, Some(Text(us)), r)));
                assert(Seq::<char>::empty() + print_pattern(pt) + seq!['/'] + print_units(us)
                    =~= s.subrange(p, r));
            } else {
                assert(replace_body(s, p) == Some((pt, None::<Text>, q)));
                assert(Seq::<char>::empty() + print_pattern(pt) =~= s.subrange(p, q));
            }
        },
        None => {},
    }
}

#[verifier::spinoff_prover]
proof fn lemma_try_pattern(s: Seq<char>, p: int, op: PatOp)
    requires
        valid_pos(s, p),
    ensures
        match try_pattern_modifier(s, p, op) {
            Some((m, e)) => p < e <= s.len() && print_modifier(m) == s.subrange(p, e) && !(
            m is Length),
            None => true,
        },
    decreases s.len() - p, 5int,
{
    if starts_with_at(s, p, pat_op_seq(op)) {
        let k = pat_op_seq(op).len();
        match pattern(s, p + k, PatCtx::Brace) {
            Some((pt, q)) => {
                lemma_pattern(s, p + k, PatCtx::Brace);
                lemma_print_pattern_modifier(op, pt);
                lemma_join(s, p, p + k, q);
            },
            None => {},
        }
    }
}

#[verifier::spinoff_prover]
proof fn lemma_try_replace(s: Seq<char>, p: int, op: ReplOp)
    requires
        valid_pos(s, p),
    ensures
        match try_replace_modifier(s, p, op) {
            Some((m, e)) => p < e <= s.len() && print_modifier(m) == s.subrange(p, e) && !(
            m is Length),
            None => true,
        },
    decreases s.len() - p, 5int,
{
    if starts_with_at(s, p, repl_op_seq(op)) {
        let k = repl_op_seq(op).len();
        match replace_body(s, p + k) {
            Some((pt, t, q)) => {
                lemma_replace_body(s, p + k);
                lemma_print_replace_modifier(op, pt, t);
                lemma_join(s, p, p + k, q);
                let ts = match t {
                    Some(t) => Some(print_text(t)),
                    None => None::<Seq<char>>,
                };
                assert(replacement_text(repl_op_seq(op), print_pattern(pt), ts) =~= repl_op_seq(op)
                    + replacement_text(Seq::empty(), print_pattern(pt), ts));
            },
            None => {},
        }
    }
}

proof fn lemma_print_text_modifier(op: char, t: Text)
    requires
        op == '?' || op == '-' || op == '+',
    ensures
        print_modifier(super::grammar::text_modifier(op, t)) == seq![':', op] + print_text(t),
        !(super::grammar::text_modifier(op, t) is Length),
{
}

#[verifier::spinoff_prover]
proof fn lemma_try_text(s: Seq<char>, p: int, op: char)
    requires
        valid_pos(s, p),
        op == '?' || op == '-' || op == '+',
    ensures
        match try_text_modifier(s, p, op) {
            Some((m, e)) => p < e <= s.len() && print_modifier(m) == s.subrange(p, e) && !(
            m is Length),
            None => true,
        },
    decreases s.len() - p, 5int,
{
    if at2(s, p, ':', op) {
        lemma_text_units(s, p + 2, TextCtx::Expansion);
        let (us, q) = text_units(s, p + 2, TextCtx::Expansion);
        lemma_print_text_modifier(op, Text(us));
        assert(seq![':', op] + print_units(us) =~= s.subrange(p, q));
    }
}

#[verifier::spinoff_prover]
proof fn lemma_expansion_modifier(s: Seq<char>, p: int)
    requires
        valid_pos(s, p),
    ensures
        match expansion_modifier(s, p) {
            Some((m, e)) => p < e <= s.len() && print_modifier(m) == s.subrange(p, e) && !(
            m is Length),
            None => true,
        },
    decreases s.len() - p, 6int,
{
    if try_pattern_modifier(s, p, PatOp::LongestPrefix) is Some {
        lemma_try_pattern(s, p, PatOp::LongestPrefix);
    } else if try_pattern_modifier(s, p, PatOp::ShortestPrefix) is Some {
        lemma_try_pattern(s, p, PatOp::ShortestPrefix);
    } else if try_pattern_modifier(s, p, PatOp::LongestSuffix) is Some {
        lemma_try_pattern(s, p, PatOp::LongestSuffix);
    } else if try_pattern_modifier(s, p, PatOp::ShortestSuffix) is Some {
        lemma_try_pattern(s, p, PatOp::ShortestSuffix);
    } else if try_replace_modifier(s, p, ReplOp::All) is Some {
        lemma_try_replace(s, p, ReplOp::All);
    } else if try_replace_modifier(s, p, ReplOp::Prefix) is Some {
        lemma_try_replace(s, p, ReplOp::Prefix);
    } else if try_replace_modifier(s, p, ReplOp::Suffix) is Some {
        lemma_try_replace(s, p, ReplOp::Suffix);
    } else if try_replace_modifier(s, p, ReplOp::Once) is Some {
        lemma_try_replace(s, p, ReplOp::Once);
    } else if try_pattern_modifier(s, p, PatOp::UpperAll) is Some {
        lemma_try_pattern(s, p, PatOp::UpperAll);
    } else if try_pattern_modifier(s, p, PatOp::UpperOnce) is Some {
        lemma_try_pattern(s, p, PatOp::UpperOnce);
    } else if try_pattern_modifier(s, p, PatOp::LowerAll) is Some {
        lemma_try_pattern(s, p, PatOp::LowerAll);
    } else if try_pattern_modifier(s, p, PatOp::LowerOnce) is Some {
        lemma_try_pattern(s, p, PatOp::LowerOnce);
    } else if try_text_modifier(s, p, '?') is Some {
        lemma_try_text(s, p, '?');
    } else if try_text_modifier(s, p, '-') is Some {
        lemma_try_text(s, p, '-');
    } else if try_text_modifier(s, p, '+') is Some {
        lemma_try_text(s, p, '+');
    } else if substring(s, p) is Some {
        lemma_substring(s, p);
    } else if starts_with_at(s, p, seq!['[', '@', ']']) {
    } else if starts_with_at(s, p, seq!['[', '*', ']']) {
    }
}

#[verifier::spinoff_prover]
proof fn lemma_braced(s: Seq<char>, p: int)
    requires
        valid_pos(s, p),
    ensures
        match braced_expansion(s, p) {
            Some((b, e)) => p < e <= s.len() && print_braced(b) == s.subrange(p, e),
            None => true,
        },
    decreases s.len() - p, 7int,
{
    if at(s, p, '#') && name(s, p + 1) is Some {
        lemma_run_end_bounds(s, p + 1, Run::Name);
        let (n, q) = name(s, p + 1)->0;
        assert(seq!['#'] + n =~= s.subrange(p, q));
    } else {
        lemma_run_end_bounds(s, p, Run::Name);
        match name(s, p) {
            Some((n, q)) => if p < q <= s.len() {
                match expansion_modifier(s, q) {
                    Some((m, r)) => {
                        lemma_expansion_modifier(s, q);
                        lemma_join(s, p, q, r);
                    },
                    None => {},
                }
            },
            None => {},
        }
    }
}

#[verifier::spinoff_prover]
#[verifier::rlimit(40)]
proof fn lemma_word(s: Seq<char>, p: int, w: WordCtx)
    requires
        valid_pos(s, p),
    ensures
        match word(s, p, w) {
            Some((x, e)) => p < e <= s.len() && print_word(x) == s.subrange(p, e),
            None => true,
        },
    decreases s.len() - p, 8int,
{
    if braced_branch(s, p) {
        lemma_braced(s, p + 2);
        let (b, q) = braced_expansion(s, p + 2)->0;
        assert(word(s, p, w) == Some((Word::BracedVariable(b), q + 1)));
        lemma_wrap(s, p, '$', '{', print_braced(b), q, '}');
    } else if at(s, p, '$') && name(s, p + 1) is Some {
        lemma_run_end_bounds(s, p + 1, Run::Name);
        let (n, q) = name(s, p + 1)->0;
        assert(word(s, p, w) == Some((Word::UnbracedVariable(n), q)));
        assert(seq!['$'] + n =~= s.subrange(p, q));
    } else if subcommand_branch(s, p) {
        lemma_array_tokens(s, p + 2);
        let (ts, q) = array_tokens(s, p + 2);
        assert(word(s, p, w) == Some((Word::Subcommand(ts), q + 1)));
        lemma_wrap(s, p, '$', '(', print_atoks(ts), q, ')');
    } else {
        lemma_literal_parts(s, p, w);
    }
}

#[verifier::spinoff_prover]
proof fn lemma_words(s: Seq<char>, p: int, w: WordCtx)
    requires
        valid_pos(s, p),
    ensures
        p <= words(s, p, w).1 <= s.len(),
        words(s, p, w).0.len() > 0 ==> words(s, p, w).1 > p,
        print_words(words(s, p, w).0) == s.subrange(p, words(s, p, w).1),
    decreases s.len() - p, 9int,
{
    match word(s, p, w) {
        Some((x, q)) => if p < q <= s.len() {
            lemma_word(s, p, w);
            lemma_words(s, q, w);
            let (r, e) = words(s, q, w);
            lemma_prepend_words(x, r);
            lemma_join(s, p, q, e);
        } else {
            assert(s.subrange(p, p) =~= Seq::<char>::empty());
        },
        None => {
            assert(s.subrange(p, p) =~= Seq::<char>::empty());
        },
    }
}

#[verifier::spinoff_prover]
#[verifier::rlimit(100)]
proof fn lemma_text_unit(s: Seq<char>, p: int, ctx: TextCtx)
    requires
        valid_pos(s, p),
    ensures
        match text_unit(s, p, ctx) {
            Some((u, e)) => p < e <= s.len() && print_unit(u) == s.subrange(p, e),
            None => true,
        },
    decreases s.len() - p, 10int,
{
    if single_quote_branch(s, p) {
        lemma_run_end_bounds(s, p + 1, Run::NotQuote);
        let e = run_end(s, p + 1, Run::NotQuote);
        assert(seq!['\''] + s.subrange(p + 1, e) + seq!['\''] =~= s.subrange(p, e + 1));
    } else if double_quote_branch(s, p) {
        lemma_words(s, p + 1, WordCtx::DoubleQuoted);
        let (ws, q) = words(s, p + 1, WordCtx::DoubleQuoted);
        assert(seq!['"'] + print_words(ws) + seq!['"'] =~= s.subrange(p, q + 1));
    } else {
        lemma_words(s, p, WordCtx::Unquoted(ctx));
    }
}

#[verifier::spinoff_prover]
proof fn lemma_text_units(s: Seq<char>, p: int, ctx: TextCtx)
    requires
        valid_pos(s, p),
    ensures
        p <= text_units(s, p, ctx).1 <= s.len(),
        text_units(s, p, ctx).0.len() > 0 ==> text_units(s, p, ctx).1 > p,
        print_units(text_units(s, p, ctx).0) == s.subrange(p, text_units(s, p, ctx).1),
    decreases s.len() - p, 11int,
{
    match text_unit(s, p, ctx) {
        Some((u, q)) => if p < q <= s.len() {
            lemma_text_unit(s, p, ctx);
            lemma_text_units(s, q, ctx);
            let (r, e) = text_units(s, q, ctx);
            lemma_prepend_units(u, r);
            lemma_join(s, p, q, e);
        } else {
            assert(s.subrange(p, p) =~= Seq::<char>::empty());
        },
        None => {
            assert(s.subrange(p, p) =~= Seq::<char>::empty());
        },
    }
}

#[verifier::spinoff_prover]
proof fn lemma_array_token(s: Seq<char>, p: int)
    requires
        valid_pos(s, p),
    ensures
        match array_token(s, p) {
            Some((t, e)) => p < e <= s.len() && print_atok(t) == s.subrange(p, e),
            None => true,
        },
    decreases s.len() - p, 12int,
{
    if at(s, p, ' ') || at(s, p, '\t') {
        assert(seq![s[p]] =~= s.subrange(p, p + 1));
    } else if at(s, p, '\n') {
        assert(seq!['\n'] =~= s.subrange(p, p + 1));
    } else if at(s, p, '#') {
        lemma_run_end_bounds(s, p + 1, Run::NotNewline);
        let e = comment_end(s, p + 1);
        assert(seq!['#'] + s.subrange(p + 1, e) =~= s.subrange(p, e));
    } else {
        lemma_text_units(s, p, TextCtx::Element);
    }
}

#[verifier::spinoff_prover]
proof fn lemma_array_tokens(s: Seq<char>, p: int)
    requires
        valid_pos(s, p),
    ensures
        p <= array_tokens(s, p).1 <= s.len(),
        print_atoks(array_tokens(s, p).0) == s.subrange(p, array_tokens(s, p).1),
    decreases s.len() - p, 13int,
{
    match array_token(s, p) {
        Some((t, q)) => if p < q <= s.len() {
            lemma_array_token(s, p);
            lemma_array_tokens(s, q);
            let (r, e) = array_tokens(s, q);
            lemma_prepend_atoks(t, r);
            lemma_join(s, p, q, e);
        } else {
            assert(s.subrange(p, p) =~= Seq::<char>::empty());
        },
        None => {
            assert(s.subrange(p, p) =~= Seq::<char>::empty());
        },
    }
}

// ---------------------------------------------------------------------
// Top level
// ---------------------------------------------------------------------

proof fn lemma_variable_value(s: Seq<char>, p: int)
    requires
        valid_pos(s, p),
    ensures
        p <= variable_value(s, p).1 <= s.len(),
        print_value(variable_value(s, p).0) == s.subrange(p, variable_value(s, p).1),
{
    if array_value_branch(s, p) {
        lemma_array_tokens(s, p + 1);
        let (ts, q) = array_tokens(s, p + 1);
        assert(seq!['('] + print_atoks(ts) + seq![')'] =~= s.subrange(p, q + 1));
    } else {
        lemma_text_units(s, p, TextCtx::Value);
    }
}

proof fn lemma_variable_def(s: Seq<char>, p: int)
    requires
        valid_pos(s, p),
        !(at(s, p, ' ') || at(s, p, '\t') || at(s, p, '\n') || at(s, p, '#')),
    ensures
        match variable_def(s, p) {
            Some((d, e)) => p < e <= s.len() && print_token(Token::Variable(d)) == s.subrange(
                p,
                e,
            ),
            None => true,
        },
{
    lemma_run_end_bounds(s, p, Run::Name);
    match name(s, p) {
        Some((n, q)) => match variable_op(s, q) {
            Some((op, r)) => {
                lemma_variable_value(s, r);
                let (v, e) = variable_value(s, r);
                assert(print_op(op) =~= s.subrange(q, r));
                assert(n + print_op(op) + print_value(v) =~= s.subrange(p, e));
            },
            None => {},
        },
        None => {},
    }
}

proof fn lemma_token(s: Seq<char>, p: int)
    requires
        valid_pos(s, p),
    ensures
        match token(s, p) {
            Some((t, e)) => p < e <= s.len() && print_token(t) == s.subrange(p, e),
            None => true,
        },
{
    if at(s, p, ' ') || at(s, p, '\t') {
        assert(token(s, p) == Some((Token::Spacy(s[p]), p + 1)));
        assert(seq![s[p]] =~= s.subrange(p, p + 1));
    } else if at(s, p, '\n') {
        assert(token(s, p) == Some((Token::Newline, p + 1)));
        assert(seq!['\n'] =~= s.subrange(p, p + 1));
    } else if at(s, p, '#') {
        lemma_run_end_bounds(s, p + 1, Run::NotNewline);
        let e = comment_end(s, p + 1);
        assert(token(s, p) == Some((Token::Comment(s.subrange(p + 1, e)), e)));
        assert(seq!['#'] + s.subrange(p + 1, e) =~= s.subrange(p, e));
    } else {
        lemma_variable_def(s, p);
    }
}

proof fn lemma_tokens(s: Seq<char>, p: int)
    requires
        valid_pos(s, p),
    ensures
        p <= tokens(s, p).1 <= s.len(),
        print_tokens(tokens(s, p).0) == s.subrange(p, tokens(s, p).1),
    decreases s.len() - p,
{
    match token(s, p) {
        Some((t, q)) => if p < q <= s.len() {
            lemma_token(s, p);
            lemma_tokens(s, q);
            let (r, e) = tokens(s, q);
            lemma_prepend_tokens(t, r);
            lemma_join(s, p, q, e);
        } else {
            assert(s.subrange(p, p) =~= Seq::<char>::empty());
        },
        None => {
            assert(s.subrange(p, p) =~= Seq::<char>::empty());
        },
    }
}

/// The syntax tree is lossless: printing what the grammar read from any
/// `s` gives back exactly the prefix of `s` that it read.
pub proof fn lemma_print_parsed(s: Seq<char>)
    ensures
        apml_lst(s).1 <= s.len(),
        print_lst(apml_lst(s).0) == s.take(apml_lst(s).1),
{
    lemma_tokens(s, 0);
}

/// Every source that parses prints back as itself: when `ApmlLst::parse`
/// accepts `src`, the tree's `to_string` is `src` again.
pub proof fn lemma_parse_then_print(src: Seq<char>)
    ensures
        match parse_result(src) {
            Ok(l) => print_lst(l) == src,
            Err(_) => true,
        },
{
    lemma_print_parsed(src);
    assert(src.take(src.len() as int) =~= src);
}

} // verus!
