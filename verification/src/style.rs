//! Style checks on the tokens of an APML file: empty lines and extra spaces.
//!
//! Each check reports where it found a problem and, unless it runs dry,
//! fixes the tokens. The linters that run them over a package's files and
//! emit the messages drive these functions.

use vstd::prelude::*;

use crate::apml::lst::Token;

verus! {

/// A space-like token or a newline.
pub open spec fn blank(t: Token) -> bool {
    t is Spacy || t is Newline
}

/// The file is not empty and does not end with a newline: it misses its
/// trailing newline.
pub open spec fn misses_trailing_line(ts: Seq<Token>) -> bool {
    ts.len() > 0 && !(ts.last() is Newline)
}

/// Whether the file misses its trailing newline: it is not empty and does
/// not end with a newline.
pub fn missing_trailing_line(ts: &Vec<Token>) -> (res: bool)
    ensures
        res == misses_trailing_line(ts@),
{
    if ts.len() == 0 {
        return false;
    }
    match &ts[ts.len() - 1] {
        Token::Newline => false,
        _ => true,
    }
}

/// The indices of the newlines among the trailing blank tokens, from the
/// last one backwards.
pub open spec fn trailing_newlines(ts: Seq<Token>) -> Seq<int>
    decreases ts.len(),
{
    if ts.len() > 0 && blank(ts.last()) {
        (if ts.last() is Newline {
            seq![ts.len() - 1]
        } else {
            Seq::empty()
        }) + trailing_newlines(ts.drop_last())
    } else {
        Seq::empty()
    }
}

/// Where to cut the file when it ends with more than one newline after its
/// last non-blank token: after the first of those newlines, so that one
/// trailing newline stays.
pub open spec fn trailing_cut(ts: Seq<Token>) -> Option<int> {
    if trailing_newlines(ts).len() > 1 {
        Some(trailing_newlines(ts).last() + 1)
    } else {
        None
    }
}

fn is_blank(t: &Token) -> (res: bool)
    ensures
        res == blank(*t),
{
    match t {
        Token::Newline => true,
        Token::Spacy(_) => true,
        _ => false,
    }
}

/// Where to cut the file when it ends with more than one empty line.
pub fn too_many_trailing_lines(ts: &Vec<Token>) -> (res: Option<usize>)
    ensures
        match res {
            Some(k) => trailing_cut(ts@) == Some(k as int),
            None => trailing_cut(ts@) is None,
        },
{
    let mut found: Vec<usize> = Vec::new();
    let mut i: usize = ts.len();
    assert(ts@.take(i as int) =~= ts@);
    assert(found@.map_values(|k: usize| k as int) =~= Seq::<int>::empty());
    while i > 0 && is_blank(&ts[i - 1])
        invariant
            i <= ts@.len(),
            found@.map_values(|k: usize| k as int) + trailing_newlines(ts@.take(i as int))
                == trailing_newlines(ts@),
            forall|j: int| 0 <= j < found@.len() ==> #[trigger] found@[j] < ts@.len(),
        decreases i,
    {
        let ghost t = ts@.take(i as int);
        assert(t.drop_last() =~= ts@.take(i - 1));
        assert(t.last() == ts@[i - 1]);
        let ghost before = found@;
        match &ts[i - 1] {
            Token::Newline => {
                found.push(i - 1);
                assert(found@.map_values(|k: usize| k as int) =~= before.map_values(
                    |k: usize| k as int,
                ) + seq![i - 1]);
            },
            _ => {},
        }
        i = i - 1;
    }
    proof {
        let t = ts@.take(i as int);
        if i > 0 {
            assert(t.last() == ts@[i - 1]);
        }
        assert(trailing_newlines(t) =~= Seq::<int>::empty());
        assert(found@.map_values(|k: usize| k as int) + Seq::<int>::empty() =~= found@.map_values(
            |k: usize| k as int,
        ));
    }
    if found.len() > 1 {
        assert(found@.map_values(|k: usize| k as int).last() == found@.last() as int);
        Some(found[found.len() - 1] + 1)
    } else {
        None
    }
}

/// The runs of blank tokens, followed by a non-blank token, that hold more
/// than two newlines: each as its range of indices. `st` is the run being
/// read at `i` (its start and newlines so far).
pub open spec fn empty_runs(ts: Seq<Token>, i: int, st: Option<(int, int)>) -> Seq<(int, int)>
    decreases ts.len() - i,
{
    if i < 0 || i >= ts.len() {
        Seq::empty()
    } else if blank(ts[i]) {
        let (from, lines) = match st {
            None => (i, 0int),
            Some(s) => s,
        };
        empty_runs(
            ts,
            i + 1,
            Some(
                (
                    from,
                    if ts[i] is Newline {
                        lines + 1
                    } else {
                        lines
                    },
                ),
            ),
        )
    } else {
        match st {
            Some((from, lines)) => if lines > 2 {
                seq![(from, i)] + empty_runs(ts, i + 1, None)
            } else {
                empty_runs(ts, i + 1, None)
            },
            None => empty_runs(ts, i + 1, None),
        }
    }
}

/// The runs of more than two empty lines inside a file.
pub fn too_many_empty_lines(ts: &Vec<Token>) -> (res: Vec<(usize, usize)>)
    ensures
        res@.map_values(|r: (usize, usize)| (r.0 as int, r.1 as int)) == empty_runs(ts@, 0, None),
        forall|j: int|
            0 <= j < res@.len() ==> (#[trigger] res@[j]).0 < res@[j].1 <= ts@.len() && (j + 1
                < res@.len() ==> res@[j].1 < res@[j + 1].0),
{
    let mut out: Vec<(usize, usize)> = Vec::new();
    let mut st: Option<(usize, usize)> = None;
    let mut i: usize = 0;
    while i < ts.len()
        invariant
            0 <= i <= ts@.len(),
            out@.map_values(|r: (usize, usize)| (r.0 as int, r.1 as int)) + empty_runs(
                ts@,
                i as int,
                match st {
                    Some(s) => Some((s.0 as int, s.1 as int)),
                    None => None,
                },
            ) == empty_runs(ts@, 0, None),
            match st {
                Some(s) => s.0 < i && s.1 <= i,
                None => true,
            },
            forall|j: int|
                0 <= j < out@.len() ==> (#[trigger] out@[j]).0 < out@[j].1 <= i && (j + 1
                    < out@.len() ==> out@[j].1 < out@[j + 1].0),
            out@.len() > 0 ==> out@.last().1 < i,
            out@.len() > 0 ==> match st {
                Some(s) => out@.last().1 < s.0,
                None => true,
            },
        decreases ts@.len() - i,
    {
        let ghost before = out@;
        if is_blank(&ts[i]) {
            let (from, lines) = match st {
                None => (i, 0usize),
                Some(s) => s,
            };
            let lines2 = match &ts[i] {
                Token::Newline => lines + 1,
                _ => lines,
            };
            st = Some((from, lines2));
        } else {
            match st {
                Some((from, lines)) => {
                    if lines > 2 {
                        out.push((from, i));
                        assert(out@.map_values(|r: (usize, usize)| (r.0 as int, r.1 as int))
                            =~= before.map_values(|r: (usize, usize)| (r.0 as int, r.1 as int))
                            + seq![(from as int, i as int)]);
                    }
                },
                None => {},
            }
            st = None;
        }
        i = i + 1;
    }
    proof {
        assert(out@.map_values(|r: (usize, usize)| (r.0 as int, r.1 as int)) + Seq::<
            (int, int),
        >::empty() =~= out@.map_values(|r: (usize, usize)| (r.0 as int, r.1 as int)));
    }
    out
}

/// Removes the tokens `from..to`.
fn drain_tokens(ts: &mut Vec<Token>, from: usize, to: usize)
    requires
        from <= to <= old(ts)@.len(),
    ensures
        final(ts)@ == old(ts)@.subrange(0, from as int) + old(ts)@.subrange(
            to as int,
            old(ts)@.len() as int,
        ),
{
    let ghost o = ts@;
    let mut k: usize = from;
    while k < to
        invariant
            from <= k <= to <= o.len(),
            ts@ == o.subrange(0, from as int) + o.subrange(k as int, o.len() as int),
        decreases to - k,
    {
        ts.remove(from);
        k = k + 1;
        assert(ts@ =~= o.subrange(0, from as int) + o.subrange(k as int, o.len() as int));
    }
}

/// The tokens with the range `r` replaced by two newlines.
pub open spec fn two_newlines_for(ts: Seq<Token>, r: (int, int)) -> Seq<Token> {
    ts.subrange(0, r.0) + seq![Token::Newline, Token::Newline] + ts.subrange(r.1, ts.len() as int)
}

/// The tokens with each range replaced by two newlines, the last range
/// first.
pub open spec fn collapsed(ts: Seq<Token>, rs: Seq<(int, int)>) -> Seq<Token>
    decreases rs.len(),
{
    if rs.len() == 0 {
        ts
    } else {
        collapsed(two_newlines_for(ts, rs.last()), rs.drop_last())
    }
}

/// Replaces each range of tokens by two newlines.
fn collapse_runs(ts: &mut Vec<Token>, rs: &Vec<(usize, usize)>)
    requires
        forall|j: int|
            0 <= j < rs@.len() ==> (#[trigger] rs@[j]).0 < rs@[j].1 <= old(ts)@.len() && (j + 1
                < rs@.len() ==> rs@[j].1 < rs@[j + 1].0),
    ensures
        final(ts)@ == collapsed(old(ts)@, rs@.map_values(|r: (usize, usize)| (r.0 as int, r.1 as int))),
{
    let ghost all = rs@.map_values(|r: (usize, usize)| (r.0 as int, r.1 as int));
    let ghost o = ts@;
    let mut k: usize = rs.len();
    assert(all.take(k as int) =~= all);
    while k > 0
        invariant
            k <= rs@.len(),
            all == rs@.map_values(|r: (usize, usize)| (r.0 as int, r.1 as int)),
            forall|j: int|
                0 <= j < rs@.len() ==> (#[trigger] rs@[j]).0 < rs@[j].1 && (j + 1 < rs@.len()
                    ==> rs@[j].1 < rs@[j + 1].0),
            k > 0 ==> rs@[k - 1].1 <= ts@.len(),
            collapsed(ts@, all.take(k as int)) == collapsed(o, all),
        decreases k,
    {
        let (from, to) = rs[k - 1];
        let ghost cur = ts@;
        proof {
            assert(all.take(k as int).drop_last() =~= all.take(k - 1));
            assert(all.take(k as int).last() == (from as int, to as int));
        }
        drain_tokens(ts, from, to);
        ts.insert(from, Token::Newline);
        ts.insert(from, Token::Newline);
        assert(ts@ =~= two_newlines_for(cur, (from as int, to as int)));
        k = k - 1;
        proof {
            if k > 0 {
                assert(rs@[k - 1].1 < rs@[k as int].0);
            }
        }
    }
    assert(all.take(0) =~= Seq::<(int, int)>::empty());
}

/// What the empty-line checks found.
pub struct EmptyLineFindings {
    /// The file misses its trailing newline.
    pub missing_trailing_line: bool,
    /// The file ends with more than one empty line.
    pub too_many_trailing_lines: bool,
    /// Where runs of more than two empty lines start.
    pub empty_runs: Vec<usize>,
}

/// The tokens after the trailing-newline check.
pub open spec fn after_trailing_line(ts: Seq<Token>, dry: bool) -> Seq<Token> {
    if misses_trailing_line(ts) && !dry {
        ts.push(Token::Newline)
    } else {
        ts
    }
}

/// The tokens after the trailing-empty-lines check.
pub open spec fn after_trailing_lines(ts: Seq<Token>, dry: bool) -> Seq<Token> {
    match trailing_cut(ts) {
        Some(k) => if dry {
            ts
        } else {
            ts.take(k)
        },
        None => ts,
    }
}

/// Checks a file for a missing trailing newline, for more than one empty
/// line at its end and for more than two empty lines in a row, in this
/// order; each check sees the fixes of the checks before it, and fixes
/// what it finds unless `dry`.
pub fn check_empty_lines(ts: &mut Vec<Token>, dry: bool) -> (res: EmptyLineFindings)
    ensures
        res.missing_trailing_line == misses_trailing_line(old(ts)@),
        res.too_many_trailing_lines == trailing_cut(after_trailing_line(old(ts)@, dry)) is Some,
        res.empty_runs@.map_values(|k: usize| k as int) == empty_runs(
            after_trailing_lines(after_trailing_line(old(ts)@, dry), dry),
            0,
            None,
        ).map_values(|r: (int, int)| r.0),
        final(ts)@ == if dry {
            old(ts)@
        } else {
            collapsed(
                after_trailing_lines(after_trailing_line(old(ts)@, dry), dry),
                empty_runs(after_trailing_lines(after_trailing_line(old(ts)@, dry), dry), 0, None),
            )
        },
{
    let missing = missing_trailing_line(ts);
    if missing && !dry {
        ts.push(Token::Newline);
    }
    let cut = too_many_trailing_lines(ts);
    let many = cut.is_some();
    match cut {
        Some(k) => if !dry {
            proof {
                lemma_trailing_cut_bound(ts@);
            }
            ts.truncate(k);
        },
        None => {},
    }
    let runs = too_many_empty_lines(ts);
    let mut starts: Vec<usize> = Vec::new();
    let mut i: usize = 0;
    while i < runs.len()
        invariant
            0 <= i <= runs@.len(),
            starts@.len() == i,
            forall|j: int| 0 <= j < i ==> #[trigger] starts@[j] == runs@[j].0,
        decreases runs@.len() - i,
    {
        starts.push(runs[i].0);
        i = i + 1;
    }
    assert(starts@.map_values(|k: usize| k as int) =~= runs@.map_values(
        |r: (usize, usize)| (r.0 as int, r.1 as int),
    ).map_values(|r: (int, int)| r.0));
    if !dry {
        collapse_runs(ts, &runs);
    } else {
        proof {
            assert(ts@ == old(ts)@);
        }
    }
    EmptyLineFindings { missing_trailing_line: missing, too_many_trailing_lines: many, empty_runs: starts }
}

proof fn lemma_trailing_cut_bound(ts: Seq<Token>)
    ensures
        match trailing_cut(ts) {
            Some(k) => 0 < k <= ts.len(),
            None => true,
        },
{
    lemma_trailing_newlines_bound(ts);
}

proof fn lemma_trailing_newlines_bound(ts: Seq<Token>)
    ensures
        forall|j: int|
            0 <= j < trailing_newlines(ts).len() ==> 0 <= #[trigger] trailing_newlines(ts)[j] < ts.len(),
    decreases ts.len(),
{
    if ts.len() > 0 && blank(ts.last()) {
        lemma_trailing_newlines_bound(ts.drop_last());
        let head = if ts.last() is Newline {
            seq![ts.len() - 1]
        } else {
            Seq::<int>::empty()
        };
        assert forall|j: int|
            0 <= j < trailing_newlines(ts).len() implies 0 <= #[trigger] trailing_newlines(ts)[j]
            < ts.len() by {
            if j >= head.len() {
                assert(trailing_newlines(ts)[j] == trailing_newlines(ts.drop_last())[j - head.len()]);
            }
        }
    }
}

/// The first newline at or after `i`, or the end.
pub open spec fn next_newline(ts: Seq<Token>, i: int) -> int
    decreases ts.len() - i,
{
    if i < 0 || i >= ts.len() {
        ts.len() as int
    } else if ts[i] is Newline {
        i
    } else {
        next_newline(ts, i + 1)
    }
}

/// The number of space-like tokens from `i` on, before `j`.
pub open spec fn leading_spaces(ts: Seq<Token>, i: int, j: int) -> int
    decreases j - i,
{
    if 0 <= i < j && i < ts.len() && ts[i] is Spacy {
        1 + leading_spaces(ts, i + 1, j)
    } else {
        0
    }
}

/// The number of space-like tokens right before `j`, after `a`.
pub open spec fn trailing_spaces(ts: Seq<Token>, a: int, j: int) -> int
    decreases j - a,
{
    if a < j && 0 < j <= ts.len() && ts[j - 1] is Spacy {
        1 + trailing_spaces(ts, a, j - 1)
    } else {
        0
    }
}

/// The lines from `i` on that start or end with a space-like token, each as
/// its first index, its number of leading space-like tokens, where its
/// trailing space-like tokens start and their number. A line ends at a
/// newline; empty lines hold no spaces and are passed over.
pub open spec fn space_lines(ts: Seq<Token>, i: int) -> Seq<(int, int, int, int)>
    decreases ts.len() - i,
{
    if i < 0 || i >= ts.len() {
        Seq::empty()
    } else {
        let j = next_newline(ts, i);
        proof {
            lemma_next_newline(ts, i);
        }
        let tail = if j < ts.len() {
            space_lines(ts, j + 1)
        } else {
            Seq::empty()
        };
        if j > i && (ts[i] is Spacy || ts[j - 1] is Spacy) {
            let b = leading_spaces(ts, i, j);
            let t = trailing_spaces(ts, i + b, j);
            seq![(i, b, j - t, t)] + tail
        } else {
            tail
        }
    }
}

/// The ranges to remove for the lines `ls`: for each line its leading
/// space-like tokens, then its trailing ones.
pub open spec fn space_ranges(ls: Seq<(int, int, int, int)>) -> Seq<(int, int)>
    decreases ls.len(),
{
    if ls.len() == 0 {
        Seq::empty()
    } else {
        let l = ls.last();
        space_ranges(ls.drop_last()) + seq![(l.0, l.1), (l.2, l.3)]
    }
}

/// The tokens with the ranges `ls` (start, count) removed, the last range
/// first.
pub open spec fn spaces_removed(ts: Seq<Token>, ls: Seq<(int, int)>) -> Seq<Token>
    decreases ls.len(),
{
    if ls.len() == 0 {
        ts
    } else {
        let (a, b) = ls.last();
        spaces_removed(ts.subrange(0, a) + ts.subrange(a + b, ts.len() as int), ls.drop_last())
    }
}

pub proof fn lemma_next_newline(ts: Seq<Token>, i: int)
    requires
        0 <= i <= ts.len(),
    ensures
        i <= next_newline(ts, i) <= ts.len(),
        next_newline(ts, i) < ts.len() ==> ts[next_newline(ts, i)] is Newline,
        forall|k: int| i <= k < next_newline(ts, i) ==> !(#[trigger] ts[k] is Newline),
    decreases ts.len() - i,
{
    if i < ts.len() && !(ts[i] is Newline) {
        lemma_next_newline(ts, i + 1);
    }
}

proof fn lemma_leading_spaces(ts: Seq<Token>, i: int, j: int)
    requires
        0 <= i <= j <= ts.len(),
    ensures
        0 <= leading_spaces(ts, i, j) <= j - i,
    decreases j - i,
{
    if i < j && ts[i] is Spacy {
        lemma_leading_spaces(ts, i + 1, j);
    }
}

proof fn lemma_trailing_spaces(ts: Seq<Token>, a: int, j: int)
    requires
        0 <= a <= j <= ts.len(),
    ensures
        0 <= trailing_spaces(ts, a, j) <= j - a,
    decreases j - a,
{
    if a < j && ts[j - 1] is Spacy {
        lemma_trailing_spaces(ts, a, j - 1);
    }
}

pub open spec fn view_lines(v: Seq<(usize, usize, usize, usize)>) -> Seq<(int, int, int, int)> {
    v.map_values(|r: (usize, usize, usize, usize)| (r.0 as int, r.1 as int, r.2 as int, r.3 as int))
}

/// The lines with extra spaces, as (first index, leading spaces, start of
/// the trailing spaces, trailing spaces).
pub fn extra_space_lines(ts: &Vec<Token>) -> (res: Vec<(usize, usize, usize, usize)>)
    ensures
        view_lines(res@) == space_lines(ts@, 0),
{
    let mut out: Vec<(usize, usize, usize, usize)> = Vec::new();
    let mut i: usize = 0;
    let n = ts.len();
    loop
        invariant
            n == ts@.len(),
            0 <= i <= n,
            view_lines(out@) + space_lines(ts@, i as int) == space_lines(ts@, 0),
        decreases n - i,
    {
        if i >= n {
            proof {
                assert(view_lines(out@) + Seq::<(int, int, int, int)>::empty() =~= view_lines(out@));
            }
            return out;
        }
        proof {
            lemma_next_newline(ts@, i as int);
        }
        let mut j: usize = i;
        while j < n && !is_newline(&ts[j])
            invariant
                n == ts@.len(),
                i <= j <= n,
                next_newline(ts@, i as int) == next_newline(ts@, j as int),
            decreases n - j,
        {
            j = j + 1;
        }
        let next = if j < n {
            j + 1
        } else {
            n
        };
        if j > i && (is_spacy(&ts[i]) || is_spacy(&ts[j - 1])) {
            let mut before: usize = 0;
            proof {
                lemma_leading_spaces(ts@, i as int, j as int);
            }
            while i + before < j && is_spacy(&ts[i + before])
                invariant
                    n == ts@.len(),
                    i < j <= n,
                    i + before <= j,
                    leading_spaces(ts@, i as int, j as int) == before + leading_spaces(
                        ts@,
                        (i + before) as int,
                        j as int,
                    ),
                decreases j - i - before,
            {
                before = before + 1;
            }
            let a = i + before;
            let mut after: usize = 0;
            proof {
                lemma_trailing_spaces(ts@, a as int, j as int);
            }
            while a + after < j && is_spacy(&ts[j - 1 - after])
                invariant
                    n == ts@.len(),
                    a <= j <= n,
                    a + after <= j,
                    trailing_spaces(ts@, a as int, j as int) == after + trailing_spaces(
                        ts@,
                        a as int,
                        (j - after) as int,
                    ),
                decreases j - a - after,
            {
                after = after + 1;
            }
            let ghost prev = out@;
            out.push((i, before, j - after, after));
            assert(view_lines(out@) =~= view_lines(prev) + seq![
                (i as int, before as int, (j - after) as int, after as int),
            ]);
        }
        i = next;
    }
}

fn is_newline(t: &Token) -> (res: bool)
    ensures
        res == (*t is Newline),
{
    match t {
        Token::Newline => true,
        _ => false,
    }
}

fn is_spacy(t: &Token) -> (res: bool)
    ensures
        res == (*t is Spacy),
{
    match t {
        Token::Spacy(_) => true,
        _ => false,
    }
}

/// The lines are in order, within the tokens, each leading range before
/// its trailing range.
pub open spec fn lines_ordered(ls: Seq<(int, int, int, int)>, lo: int, n: int) -> bool {
    forall|k: int|
        0 <= k < ls.len() ==> lo <= (#[trigger] ls[k]).0 && 0 <= ls[k].1 && ls[k].0 + ls[k].1
            <= ls[k].2 && 0 <= ls[k].3 && ls[k].2 + ls[k].3 <= n && (k + 1 < ls.len()
            ==> ls[k].2 + ls[k].3 < ls[k + 1].0)
}

proof fn lemma_space_lines_order(ts: Seq<Token>, i: int)
    requires
        0 <= i,
    ensures
        lines_ordered(space_lines(ts, i), i, ts.len() as int),
    decreases ts.len() - i,
{
    if i < ts.len() {
        let j = next_newline(ts, i);
        lemma_next_newline(ts, i);
        let tail = if j < ts.len() {
            lemma_space_lines_order(ts, j + 1);
            space_lines(ts, j + 1)
        } else {
            Seq::empty()
        };
        if j > i && (ts[i] is Spacy || ts[j - 1] is Spacy) {
            lemma_leading_spaces(ts, i, j);
            let b = leading_spaces(ts, i, j);
            lemma_trailing_spaces(ts, i + b, j);
            let sl = space_lines(ts, i);
            assert(sl == seq![(i, b, j - trailing_spaces(ts, i + b, j), trailing_spaces(ts, i + b, j))] + tail);
            assert forall|k: int| 0 <= k < sl.len() implies i <= (#[trigger] sl[k]).0 && 0 <= sl[k].1
                && sl[k].0 + sl[k].1 <= sl[k].2 && 0 <= sl[k].3 && sl[k].2 + sl[k].3 <= ts.len() && (k
                + 1 < sl.len() ==> sl[k].2 + sl[k].3 < sl[k + 1].0) by {
                if k > 0 {
                    assert(sl[k] == tail[k - 1]);
                }
                if k + 1 < sl.len() {
                    assert(sl[k + 1] == tail[k]);
                }
            }
        }
    }
}

proof fn lemma_space_ranges(ls: Seq<(int, int, int, int)>, n: int)
    requires
        lines_ordered(ls, 0, n),
    ensures
        space_ranges(ls).len() == 2 * ls.len(),
        forall|m: int|
            0 <= m < space_ranges(ls).len() ==> 0 <= (#[trigger] space_ranges(ls)[m]).0 && 0
                <= space_ranges(ls)[m].1 && space_ranges(ls)[m].0 + space_ranges(ls)[m].1 <= n && (m
                + 1 < space_ranges(ls).len() ==> space_ranges(ls)[m].0 + space_ranges(ls)[m].1
                <= space_ranges(ls)[m + 1].0),
    decreases ls.len(),
{
    if ls.len() > 0 {
        let d = ls.drop_last();
        assert(lines_ordered(d, 0, n)) by {
            assert forall|k: int| 0 <= k < d.len() implies 0 <= (#[trigger] d[k]).0 && 0 <= d[k].1
                && d[k].0 + d[k].1 <= d[k].2 && 0 <= d[k].3 && d[k].2 + d[k].3 <= n && (k + 1
                < d.len() ==> d[k].2 + d[k].3 < d[k + 1].0) by {
                assert(d[k] == ls[k]);
                if k + 1 < d.len() {
                    assert(d[k + 1] == ls[k + 1]);
                }
            }
        }
        lemma_space_ranges(d, n);
        let l = ls.last();
        let r = space_ranges(ls);
        let rd = space_ranges(d);
        assert(r == rd + seq![(l.0, l.1), (l.2, l.3)]);
        assert(ls[ls.len() - 1] == l);
        if d.len() > 0 {
            assert(d[d.len() - 1] == ls[ls.len() - 2]);
            assert(rd[rd.len() - 1] == (d.last().2, d.last().3)) by {
                assert(rd == space_ranges(d.drop_last()) + seq![(d.last().0, d.last().1), (d.last().2, d.last().3)]);
            }
        }
        assert forall|m: int|
            0 <= m < r.len() implies 0 <= (#[trigger] r[m]).0 && 0 <= r[m].1 && r[m].0 + r[m].1 <= n
            && (m + 1 < r.len() ==> r[m].0 + r[m].1 <= r[m + 1].0) by {
            if m < rd.len() {
                assert(r[m] == rd[m]);
                if m + 1 < rd.len() {
                    assert(r[m + 1] == rd[m + 1]);
                }
            }
        }
    }
}

/// Removes `ls[k].1` tokens from `ls[k].0` on, for each `k`, the last first.
fn remove_ranges(ts: &mut Vec<Token>, ls: &Vec<(usize, usize)>)
    requires
        forall|k: int|
            0 <= k < ls@.len() ==> (#[trigger] ls@[k]).0 + ls@[k].1 <= old(ts)@.len() && (k + 1
                < ls@.len() ==> ls@[k].0 + ls@[k].1 <= ls@[k + 1].0),
    ensures
        final(ts)@ == spaces_removed(
            old(ts)@,
            ls@.map_values(|r: (usize, usize)| (r.0 as int, r.1 as int)),
        ),
{
    let ghost all = ls@.map_values(|r: (usize, usize)| (r.0 as int, r.1 as int));
    let ghost o = ts@;
    let mut k: usize = ls.len();
    assert(all.take(k as int) =~= all);
    while k > 0
        invariant
            k <= ls@.len(),
            all == ls@.map_values(|r: (usize, usize)| (r.0 as int, r.1 as int)),
            forall|m: int|
                0 <= m < ls@.len() ==> (m + 1 < ls@.len() ==> (#[trigger] ls@[m]).0 + ls@[m].1
                    <= ls@[m + 1].0),
            k > 0 ==> ls@[k - 1].0 + ls@[k - 1].1 <= ts@.len(),
            spaces_removed(ts@, all.take(k as int)) == spaces_removed(o, all),
        decreases k,
    {
        let (from, count) = ls[k - 1];
        let ghost cur = ts@;
        proof {
            assert(all.take(k as int).drop_last() =~= all.take(k - 1));
            assert(all.take(k as int).last() == (from as int, count as int));
        }
        assert(from + count <= ts.len());
        drain_tokens(ts, from, from + count);
        k = k - 1;
        proof {
            if k > 0 {
                assert(ls@[k - 1].0 + ls@[k - 1].1 <= ls@[k as int].0);
            }
        }
    }
    assert(all.take(0) =~= Seq::<(int, int)>::empty());
}

/// Finds the lines that start or end with a space-like token and, unless
/// `dry`, removes their leading and trailing space-like tokens. Returns
/// where each such line starts.
pub fn check_extra_spaces(ts: &mut Vec<Token>, dry: bool) -> (res: Vec<usize>)
    ensures
        res@.map_values(|k: usize| k as int) == space_lines(old(ts)@, 0).map_values(
            |l: (int, int, int, int)| l.0,
        ),
        final(ts)@ == if dry {
            old(ts)@
        } else {
            spaces_removed(old(ts)@, space_ranges(space_lines(old(ts)@, 0)))
        },
{
    let lines = extra_space_lines(ts);
    proof {
        lemma_space_lines_order(ts@, 0);
        lemma_space_ranges(space_lines(ts@, 0), ts@.len() as int);
    }
    let ghost sl = space_lines(ts@, 0);
    let mut starts: Vec<usize> = Vec::new();
    let mut ranges: Vec<(usize, usize)> = Vec::new();
    let mut i: usize = 0;
    assert(sl.take(0) =~= Seq::<(int, int, int, int)>::empty());
    while i < lines.len()
        invariant
            0 <= i <= lines@.len(),
            view_lines(lines@) == sl,
            starts@.len() == i,
            forall|j: int| 0 <= j < i ==> #[trigger] starts@[j] == lines@[j].0,
            ranges@.map_values(|r: (usize, usize)| (r.0 as int, r.1 as int)) == space_ranges(
                sl.take(i as int),
            ),
        decreases lines@.len() - i,
    {
        let (a, b, c, d) = lines[i];
        starts.push(a);
        let ghost prev = ranges@;
        ranges.push((a, b));
        ranges.push((c, d));
        proof {
            assert(sl.take(i + 1).drop_last() =~= sl.take(i as int));
            assert(sl.take(i + 1).last() == sl[i as int]);
            assert(sl[i as int] == (a as int, b as int, c as int, d as int));
            assert(ranges@.map_values(|r: (usize, usize)| (r.0 as int, r.1 as int)) =~= prev.map_values(
                |r: (usize, usize)| (r.0 as int, r.1 as int),
            ) + seq![(a as int, b as int), (c as int, d as int)]);
        }
        i = i + 1;
    }
    assert(sl.take(i as int) =~= sl);
    assert(starts@.map_values(|k: usize| k as int) =~= sl.map_values(|l: (int, int, int, int)| l.0));
    if !dry {
        let ghost rs = space_ranges(sl);
        assert forall|k: int| 0 <= k < ranges@.len() implies (#[trigger] ranges@[k]).0 + ranges@[k].1
            <= ts@.len() && (k + 1 < ranges@.len() ==> ranges@[k].0 + ranges@[k].1 <= ranges@[k
            + 1].0) by {
            assert(rs[k] == (ranges@[k].0 as int, ranges@[k].1 as int));
            if k + 1 < ranges@.len() {
                assert(rs[k + 1] == (ranges@[k + 1].0 as int, ranges@[k + 1].1 as int));
            }
        }
        remove_ranges(ts, &ranges);
    }
    starts
}

} // verus!
