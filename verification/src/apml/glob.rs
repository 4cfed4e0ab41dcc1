//! Glob patterns: the grammar of bash patterns under the names the glob
//! matcher gives them.

use vstd::prelude::*;

use super::grammar;
use super::grammar::PatCtx;
use super::parser::bash_pattern;
use super::pattern::view_pattern;
pub use super::pattern::{GlobPart, PatternList};

verus! {

/// A glob pattern, made of [`GlobPart`]s; the same as a bash pattern.
pub type GlobPattern = super::pattern::BashPattern;

/// A glob pattern: one or more pattern parts, read from `p` on and ending
/// before a character that `x` excludes.
pub fn glob_pattern(s: &Vec<char>, p: usize, x: PatCtx) -> (res: Option<(GlobPattern, usize)>)
    requires
        p <= s@.len() < usize::MAX,
    ensures
        match res {
            Some((pt, e)) => grammar::pattern(s@, p as int, x) == Some((view_pattern(pt), e as int))
                && p <= e <= s@.len(),
            None => grammar::pattern(s@, p as int, x) is None,
        },
{
    bash_pattern(s, p, x)
}

} // verus!
