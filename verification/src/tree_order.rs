//! Equality and order of ABBS packages: source packages by name, within
//! one tree; sub-packages by path, and by directory name within one tree.

use std::cmp::Ordering;

use vstd::prelude::*;
use vstd::std_specs::cmp::{PartialEqSpecImpl, PartialOrdSpecImpl};

use crate::tree::{first_difference, path_eq, path_file_name, path_parent, same_path, AbbsSourcePackage, AbbsSubPackage};

verus! {

/// The order of two texts, character by character, a prefix first; the
/// order of `str`, as UTF-8 keeps the order of code points.
pub open spec fn text_order(a: Seq<char>, b: Seq<char>) -> Ordering
    decreases a.len(),
{
    if a.len() == 0 {
        if b.len() == 0 {
            Ordering::Equal
        } else {
            Ordering::Less
        }
    } else if b.len() == 0 {
        Ordering::Greater
    } else if a[0] < b[0] {
        Ordering::Less
    } else if b[0] < a[0] {
        Ordering::Greater
    } else {
        text_order(a.drop_first(), b.drop_first())
    }
}

proof fn lemma_text_order_skip(a: Seq<char>, b: Seq<char>, k: int)
    requires
        0 <= k <= a.len(),
        k <= b.len(),
        a.take(k) == b.take(k),
    ensures
        text_order(a, b) == text_order(a.skip(k), b.skip(k)),
    decreases k,
{
    if k > 0 {
        assert(a[0] == a.take(k)[0]);
        assert(b[0] == b.take(k)[0]);
        assert(a.drop_first().take(k - 1) =~= a.take(k).drop_first());
        assert(b.drop_first().take(k - 1) =~= b.take(k).drop_first());
        lemma_text_order_skip(a.drop_first(), b.drop_first(), k - 1);
        assert(a.drop_first().skip(k - 1) =~= a.skip(k));
        assert(b.drop_first().skip(k - 1) =~= b.skip(k));
    } else {
        assert(a.skip(0) =~= a);
        assert(b.skip(0) =~= b);
    }
}

/// The order of texts is that of `str`: at the first position where two
/// texts differ, the one with the smaller character is less, whatever their
/// lengths.
pub proof fn lemma_text_order_first_difference(a: Seq<char>, b: Seq<char>, i: int)
    requires
        0 <= i < a.len(),
        i < b.len(),
        a.take(i) == b.take(i),
        a[i] < b[i],
    ensures
        text_order(a, b) == Ordering::Less,
        text_order(b, a) == Ordering::Greater,
{
    lemma_text_order_skip(a, b, i);
    lemma_text_order_skip(b, a, i);
    assert(a.skip(i)[0] == a[i]);
    assert(b.skip(i)[0] == b[i]);
}

/// A proper prefix of a text is less than it.
pub proof fn lemma_text_order_prefix(a: Seq<char>, b: Seq<char>)
    requires
        a.len() < b.len(),
        forall|i: int| 0 <= i < a.len() ==> a[i] == b[i],
    ensures
        text_order(a, b) == Ordering::Less,
        text_order(b, a) == Ordering::Greater,
    decreases a.len(),
{
    if a.len() > 0 {
        assert(a[0] == b[0]);
        lemma_text_order_prefix(a.drop_first(), b.drop_first());
    }
}

/// A text is equal to itself in the order of texts.
pub proof fn lemma_text_order_equal(a: Seq<char>)
    ensures
        text_order(a, a) == Ordering::Equal,
    decreases a.len(),
{
    if a.len() > 0 {
        lemma_text_order_equal(a.drop_first());
    }
}

/// The order of texts is antisymmetric, and only equal texts are equal in
/// it.
pub proof fn lemma_text_order_antisymmetric(a: Seq<char>, b: Seq<char>)
    ensures
        text_order(a, b) == Ordering::Less <==> text_order(b, a) == Ordering::Greater,
        text_order(a, b) == Ordering::Equal <==> a == b,
    decreases a.len(),
{
    if a.len() > 0 && b.len() > 0 && a[0] == b[0] {
        lemma_text_order_antisymmetric(a.drop_first(), b.drop_first());
        if a.drop_first() == b.drop_first() {
            assert(a =~= seq![a[0]] + a.drop_first());
            assert(b =~= seq![b[0]] + b.drop_first());
        }
        if a == b {
            assert(a.drop_first() =~= b.drop_first());
        }
    } else if a.len() == 0 && b.len() == 0 {
        assert(a =~= b);
    } else if a.len() > 0 && b.len() > 0 {
        assert(a != b);
    } else {
        assert(a.len() != b.len());
    }
}

/// Compares two texts in the order of `str`.
pub fn compare_text(a: &str, b: &str) -> (res: Ordering)
    ensures
        res == text_order(a@, b@),
{
    let ac = crate::chars::chars_of(a);
    let bc = crate::chars::chars_of(b);
    let (i, Ghost(k)) = first_difference(&ac, &bc);
    proof {
        lemma_text_order_skip(a@, b@, k);
        if k < a@.len() {
            assert(a@.skip(k)[0] == a@[k]);
        }
        if k < b@.len() {
            assert(b@.skip(k)[0] == b@[k]);
        }
    }
    if i == ac.len() {
        if i == bc.len() {
            Ordering::Equal
        } else {
            Ordering::Less
        }
    } else if i == bc.len() {
        Ordering::Greater
    } else if ac[i] < bc[i] {
        Ordering::Less
    } else {
        Ordering::Greater
    }
}

/// The tree of a source package: its grandparent directory.
pub open spec fn package_tree(p: Seq<char>) -> Option<Seq<char>> {
    match path_parent(p) {
        Some(q) => path_parent(q),
        None => None,
    }
}

/// Source packages compare by name within one tree; packages of different
/// trees, and paths without a tree or a name, are not ordered.
pub open spec fn source_order(a: Seq<char>, b: Seq<char>) -> Option<Ordering> {
    match (package_tree(a), package_tree(b), path_file_name(a), path_file_name(b)) {
        (Some(ta), Some(tb), Some(na), Some(nb)) => if path_eq(ta, tb) {
            Some(text_order(na, nb))
        } else {
            None
        },
        _ => None,
    }
}

/// Two source packages of one tree are ordered as their names are in
/// `str` order: at the first position where the names differ, the smaller
/// character makes its package less; a name that is a proper prefix of the
/// other makes its package less.
pub proof fn lemma_source_order_by_name(a: Seq<char>, b: Seq<char>, na: Seq<char>, nb: Seq<char>, i: int)
    requires
        package_tree(a) is Some,
        package_tree(b) is Some,
        path_eq(package_tree(a)->0, package_tree(b)->0),
        path_file_name(a) == Some(na),
        path_file_name(b) == Some(nb),
        0 <= i <= na.len(),
        i <= nb.len(),
        forall|k: int| 0 <= k < i ==> na[k] == nb[k],
        (i < na.len() && i < nb.len() && na[i] < nb[i]) || (i == na.len() && i < nb.len()),
    ensures
        source_order(a, b) == Some(Ordering::Less),
{
    if i == na.len() {
        lemma_text_order_prefix(na, nb);
    } else {
        assert(na.take(i) =~= nb.take(i));
        lemma_text_order_first_difference(na, nb, i);
    }
}

impl AbbsSourcePackage {
    fn order(&self, other: &AbbsSourcePackage) -> (res: Option<Ordering>)
        ensures
            res == source_order(self@, other@),
    {
        match (self.try_tree(), other.try_tree(), self.try_name(), other.try_name()) {
            (Some(ta), Some(tb), Some(na), Some(nb)) => if same_path(ta.as_path(), tb.as_path()) {
                Some(compare_text(na.as_str(), nb.as_str()))
            } else {
                None
            },
            _ => None,
        }
    }
}

impl PartialEq for AbbsSourcePackage {
    fn eq(&self, other: &Self) -> (res: bool) {
        self.same_package(other)
    }
}

impl PartialEqSpecImpl for AbbsSourcePackage {
    open spec fn obeys_eq_spec() -> bool {
        true
    }

    open spec fn eq_spec(&self, other: &AbbsSourcePackage) -> bool {
        path_file_name(self@) == path_file_name(other@)
    }
}

impl PartialOrd for AbbsSourcePackage {
    fn partial_cmp(&self, other: &Self) -> (res: Option<Ordering>) {
        self.order(other)
    }
}

impl PartialOrdSpecImpl for AbbsSourcePackage {
    open spec fn obeys_partial_cmp_spec() -> bool {
        true
    }

    open spec fn partial_cmp_spec(&self, other: &AbbsSourcePackage) -> Option<Ordering> {
        source_order(self@, other@)
    }
}

/// Sub-packages of one tree compare by their source package, compared
/// with itself, then by directory name; others are not ordered.
pub open spec fn sub_order(a: Seq<char>, b: Seq<char>) -> Option<Ordering> {
    match (path_parent(a), path_parent(b)) {
        (Some(pa), Some(pb)) => match (package_tree(pa), package_tree(pb)) {
            (Some(ta), Some(tb)) => if path_eq(ta, tb) {
                match source_order(pa, pa) {
                    Some(Ordering::Equal) => match (path_file_name(a), path_file_name(b)) {
                        (Some(na), Some(nb)) => Some(text_order(na, nb)),
                        _ => None,
                    },
                    o => o,
                }
            } else {
                None
            },
            _ => None,
        },
        _ => None,
    }
}

impl AbbsSubPackage {
    fn order(&self, other: &AbbsSubPackage) -> (res: Option<Ordering>)
        ensures
            res == sub_order(self@, other@),
    {
        let (pa, pb) = match (self.try_source_package(), other.try_source_package()) {
            (Some(pa), Some(pb)) => (pa, pb),
            _ => {
                return None;
            },
        };
        let (ta, tb) = match (pa.try_tree(), pb.try_tree()) {
            (Some(ta), Some(tb)) => (ta, tb),
            _ => {
                return None;
            },
        };
        if !same_path(ta.as_path(), tb.as_path()) {
            return None;
        }
        match pa.order(&pa) {
            Some(Ordering::Equal) => match (self.try_dir_name(), other.try_dir_name()) {
                (Some(na), Some(nb)) => Some(compare_text(na.as_str(), nb.as_str())),
                _ => None,
            },
            o => o,
        }
    }
}

impl PartialEq for AbbsSubPackage {
    fn eq(&self, other: &Self) -> (res: bool) {
        same_path(self.as_path(), other.as_path())
    }
}

impl PartialEqSpecImpl for AbbsSubPackage {
    open spec fn obeys_eq_spec() -> bool {
        true
    }

    open spec fn eq_spec(&self, other: &AbbsSubPackage) -> bool {
        path_eq(self@, other@)
    }
}

impl PartialOrd for AbbsSubPackage {
    fn partial_cmp(&self, other: &Self) -> (res: Option<Ordering>) {
        self.order(other)
    }
}

impl PartialOrdSpecImpl for AbbsSubPackage {
    open spec fn obeys_partial_cmp_spec() -> bool {
        true
    }

    open spec fn partial_cmp_spec(&self, other: &AbbsSubPackage) -> Option<Ordering> {
        sub_order(self@, other@)
    }
}

} // verus!
