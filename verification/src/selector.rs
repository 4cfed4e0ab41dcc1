//! Selection of the linters to run.
//!
//! The selector accepts directives in the following forms:
//! - `XXXLinter`: enable a certain linter;
//! - `XXX`: enable a certain linter preset;
//! - `no-XXX`: disable a certain lint or a linter preset;
//! - `no-XXXLinter`: disable a certain linter.
//!
//! A linter is selected when a chosen preset holds it or it was enabled by
//! name, it is not disabled, and some of its lints are not disabled.

use vstd::prelude::*;

use crate::chars::{chars_of, str_eq, string_from_chars};

verus! {

/// A linter known to the selector.
pub struct LinterInfo {
    /// The identifier of the linter.
    pub ident: String,
    /// The lints it can emit.
    pub lints: Vec<String>,
}

pub open spec fn strings_view(v: Seq<String>) -> Seq<Seq<char>> {
    v.map_values(|s: String| s@)
}

/// Model of a [`LinterInfo`].
pub open spec fn info_view(l: LinterInfo) -> (Seq<char>, Seq<Seq<char>>) {
    (l.ident@, strings_view(l.lints@))
}

pub open spec fn infos_view(v: Seq<LinterInfo>) -> Seq<(Seq<char>, Seq<Seq<char>>)> {
    v.map_values(|l: LinterInfo| info_view(l))
}

/// Appends a string to a list of strings.
fn push_str(v: &mut Vec<String>, s: &str)
    ensures
        strings_view(final(v)@) == strings_view(old(v)@).push(s@),
{
    let ghost before = strings_view(v@);
    v.push(s.to_string());
    assert(strings_view(v@) =~= before.push(s@));
}

/// An empty list of strings.
fn new_strings() -> (res: Vec<String>)
    ensures
        strings_view(res@) == Seq::<Seq<char>>::empty(),
{
    let res: Vec<String> = Vec::new();
    assert(strings_view(res@) =~= Seq::<Seq<char>>::empty());
    res
}

/// The known linters, each with the lints it can emit.
pub open spec fn linters_model() -> Seq<(Seq<char>, Seq<Seq<char>>)> {
    seq![
        ("ExtraSpacesLinter"@, seq!["extra-spaces"@]),
        ("EmptyLineLinter"@, seq!["missing-trailing-line"@, "too-many-trailing-empty-lines"@, "too-many-empty-lines"@]),
        ("SrcsLinter"@, seq!["unknown-fetch-tag"@, "prefer-specific-src-handler"@, "insecure-src-url"@]),
        ("ChkUpdateLinter"@, seq!["unknown-findupdate-tag"@, "prefer-anitya"@]),
        ("FishShellLinter"@, seq!["fish-shell-use-vendor-compl"@]),
        ("Pep517Linter"@, seq![
            "upgrade-to-pep517"@,
            "pep517-nopython2"@,
            "pep517-python2-dep"@,
            "pep517-python3-dep"@,
            "pep517-suggested-dep"@,
        ]),
        ("PythonDepsLinter"@, seq!["python-suggested-dep"@]),
        ("ArchGroupLinter"@, seq!["missing-archgroup"@, "redundant-arch-overrides"@]),
    ]
}

/// The linter presets, each with the linters it holds:
/// - `full`: all known linters;
/// - `baseline`: the default linter set;
/// - `extra`: extra linters;
/// - `pedantic`: even more linters;
/// - `crazy`: linters that may make situation worse.
pub open spec fn presets_model() -> Seq<(Seq<char>, Seq<Seq<char>>)> {
    seq![
        ("full"@, seq![
            "ExtraSpacesLinter"@,
            "EmptyLineLinter"@,
            "SrcsLinter"@,
            "ChkUpdateLinter"@,
            "FishShellLinter"@,
            "Pep517Linter"@,
            "PythonDepsLinter"@,
            "ArchGroupLinter"@,
        ]),
        ("baseline"@, seq![
            "ExtraSpacesLinter"@,
            "EmptyLineLinter"@,
            "SrcsLinter"@,
            "ChkUpdateLinter"@,
            "FishShellLinter"@,
            "ArchGroupLinter"@,
        ]),
        ("extra"@, seq!["Pep517Linter"@, "PythonDepsLinter"@]),
        ("pedantic"@, Seq::empty()),
        ("crazy"@, Seq::empty()),
    ]
}

fn info(ident: &str, lints: Vec<String>) -> (res: LinterInfo)
    ensures
        info_view(res) == (ident@, strings_view(lints@)),
{
    LinterInfo { ident: ident.to_string(), lints }
}

/// All known linters, with the lints each can emit.
pub fn known_linters() -> (res: Vec<LinterInfo>)
    ensures
        infos_view(res@) == linters_model(),
{
    let mut out: Vec<LinterInfo> = Vec::new();
    let mut l = new_strings();
    push_str(&mut l, "extra-spaces");
    out.push(info("ExtraSpacesLinter", l));
    let mut l = new_strings();
    push_str(&mut l, "missing-trailing-line");
    push_str(&mut l, "too-many-trailing-empty-lines");
    push_str(&mut l, "too-many-empty-lines");
    out.push(info("EmptyLineLinter", l));
    let mut l = new_strings();
    push_str(&mut l, "unknown-fetch-tag");
    push_str(&mut l, "prefer-specific-src-handler");
    push_str(&mut l, "insecure-src-url");
    out.push(info("SrcsLinter", l));
    let mut l = new_strings();
    push_str(&mut l, "unknown-findupdate-tag");
    push_str(&mut l, "prefer-anitya");
    out.push(info("ChkUpdateLinter", l));
    let mut l = new_strings();
    push_str(&mut l, "fish-shell-use-vendor-compl");
    out.push(info("FishShellLinter", l));
    let mut l = new_strings();
    push_str(&mut l, "upgrade-to-pep517");
    push_str(&mut l, "pep517-nopython2");
    push_str(&mut l, "pep517-python2-dep");
    push_str(&mut l, "pep517-python3-dep");
    push_str(&mut l, "pep517-suggested-dep");
    out.push(info("Pep517Linter", l));
    let mut l = new_strings();
    push_str(&mut l, "python-suggested-dep");
    out.push(info("PythonDepsLinter", l));
    let mut l = new_strings();
    push_str(&mut l, "missing-archgroup");
    push_str(&mut l, "redundant-arch-overrides");
    out.push(info("ArchGroupLinter", l));
    assert(out@.len() == 8);
    assert(infos_view(out@)[0] == linters_model()[0]);
    assert(infos_view(out@)[1] == linters_model()[1]);
    assert(infos_view(out@)[2] == linters_model()[2]);
    assert(infos_view(out@)[3] == linters_model()[3]);
    assert(infos_view(out@)[4] == linters_model()[4]);
    assert(infos_view(out@)[5] == linters_model()[5]);
    assert(infos_view(out@)[6] == linters_model()[6]);
    assert(infos_view(out@)[7] == linters_model()[7]);
    assert(infos_view(out@) =~= linters_model());
    out
}

/// The linter presets, with the linters each holds.
pub fn linter_presets() -> (res: Vec<(String, Vec<String>)>)
    ensures
        presets_view(res@) == presets_model(),
{
    let mut out: Vec<(String, Vec<String>)> = Vec::new();
    let mut l = new_strings();
    push_str(&mut l, "ExtraSpacesLinter");
    push_str(&mut l, "EmptyLineLinter");
    push_str(&mut l, "SrcsLinter");
    push_str(&mut l, "ChkUpdateLinter");
    push_str(&mut l, "FishShellLinter");
    push_str(&mut l, "Pep517Linter");
    push_str(&mut l, "PythonDepsLinter");
    push_str(&mut l, "ArchGroupLinter");
    out.push(("full".to_string(), l));
    let mut l = new_strings();
    push_str(&mut l, "ExtraSpacesLinter");
    push_str(&mut l, "EmptyLineLinter");
    push_str(&mut l, "SrcsLinter");
    push_str(&mut l, "ChkUpdateLinter");
    push_str(&mut l, "FishShellLinter");
    push_str(&mut l, "ArchGroupLinter");
    out.push(("baseline".to_string(), l));
    let mut l = new_strings();
    push_str(&mut l, "Pep517Linter");
    push_str(&mut l, "PythonDepsLinter");
    out.push(("extra".to_string(), l));
    let l = new_strings();
    out.push(("pedantic".to_string(), l));
    let l = new_strings();
    out.push(("crazy".to_string(), l));
    assert(presets_view(out@)[0] == presets_model()[0]);
    assert(presets_view(out@)[1] == presets_model()[1]);
    assert(presets_view(out@)[2] == presets_model()[2]);
    assert(presets_view(out@)[3] == presets_model()[3]);
    assert(presets_view(out@)[4] == presets_model()[4]);
    assert(presets_view(out@) =~= presets_model());
    out
}

/// `s` starts with `p`.
pub open spec fn starts_with(s: Seq<char>, p: Seq<char>) -> bool {
    p.len() <= s.len() && s.take(p.len() as int) == p
}

/// `s` ends with `p`.
pub open spec fn ends_with(s: Seq<char>, p: Seq<char>) -> bool {
    p.len() <= s.len() && s.skip(s.len() - p.len()) == p
}

/// The index of the first preset named `n`.
pub open spec fn preset_index(ps: Seq<(Seq<char>, Seq<Seq<char>>)>, n: Seq<char>, i: int) -> Option<int>
    decreases ps.len() - i,
{
    if i < 0 || i >= ps.len() {
        None
    } else if ps[i].0 == n {
        Some(i)
    } else {
        preset_index(ps, n, i + 1)
    }
}

/// Model of a [`LinterSelector`]: the chosen presets (by name), the
/// disabled lints, the disabled linters and the linters enabled by name.
pub struct SelectorModel {
    pub presets: Set<Seq<char>>,
    pub disabled_lints: Set<Seq<char>>,
    pub disabled_linters: Set<Seq<char>>,
    pub extra_linters: Set<Seq<char>>,
}

/// What a directive does to a selector, given the presets; and whether it
/// was understood.
pub open spec fn directive_effect(
    m: SelectorModel,
    d: Seq<char>,
    ps: Seq<(Seq<char>, Seq<Seq<char>>)>,
) -> (SelectorModel, bool) {
    if starts_with(d, "no-"@) {
        let r = d.skip(3);
        if ends_with(r, "Linter"@) {
            (SelectorModel { disabled_linters: m.disabled_linters.insert(r), ..m }, true)
        } else if preset_index(ps, r, 0) is Some {
            (SelectorModel { presets: m.presets.remove(r), ..m }, true)
        } else {
            (SelectorModel { disabled_lints: m.disabled_lints.insert(r), ..m }, true)
        }
    } else if ends_with(d, "Linter"@) {
        (SelectorModel { extra_linters: m.extra_linters.insert(d), ..m }, true)
    } else if preset_index(ps, d, 0) is Some {
        (SelectorModel { presets: m.presets.insert(d), ..m }, true)
    } else {
        (m, false)
    }
}

/// A linter may run: it is not disabled and not all of its lints are.
pub open spec fn admitted(m: SelectorModel, l: (Seq<char>, Seq<Seq<char>>)) -> bool {
    !m.disabled_linters.contains(l.0) && !(forall|k: int|
        0 <= k < l.1.len() ==> m.disabled_lints.contains(#[trigger] l.1[k]))
}

/// The linter named `n` among the known ones.
pub open spec fn known_linter(ls: Seq<(Seq<char>, Seq<Seq<char>>)>, n: Seq<char>, i: int) -> Option<
    (Seq<char>, Seq<Seq<char>>),
>
    decreases ls.len() - i,
{
    if i < 0 || i >= ls.len() {
        None
    } else if ls[i].0 == n {
        Some(ls[i])
    } else {
        known_linter(ls, n, i + 1)
    }
}

/// The linters that the chosen presets hold, preset after preset.
pub open spec fn preset_linters(m: SelectorModel, ps: Seq<(Seq<char>, Seq<Seq<char>>)>) -> Seq<Seq<char>>
    decreases ps.len(),
{
    if ps.len() == 0 {
        Seq::empty()
    } else {
        preset_linters(m, ps.drop_last()) + if m.presets.contains(ps.last().0) {
            ps.last().1
        } else {
            Seq::empty()
        }
    }
}

/// A linter named `n` is known and admitted.
pub open spec fn runnable(m: SelectorModel, ls: Seq<(Seq<char>, Seq<Seq<char>>)>, n: Seq<char>) -> bool {
    match known_linter(ls, n, 0) {
        Some(l) => admitted(m, l),
        None => false,
    }
}

/// The linters selected: those of a chosen preset and those enabled by
/// name, each where it is known and admitted.
pub open spec fn selected(
    m: SelectorModel,
    ls: Seq<(Seq<char>, Seq<Seq<char>>)>,
    ps: Seq<(Seq<char>, Seq<Seq<char>>)>,
) -> Set<Seq<char>> {
    Set::new(
        |n: Seq<char>|
            (preset_linters(m, ps).contains(n) || m.extra_linters.contains(n)) && runnable(m, ls, n),
    )
}

proof fn lemma_known_linter_ident(ls: Seq<(Seq<char>, Seq<Seq<char>>)>, n: Seq<char>, i: int)
    ensures
        match known_linter(ls, n, i) {
            Some(l) => l.0 == n,
            None => true,
        },
    decreases ls.len() - i,
{
    if 0 <= i < ls.len() && ls[i].0 != n {
        lemma_known_linter_ident(ls, n, i + 1);
    }
}

/// A linter that is disabled by name is never selected.
pub proof fn lemma_disabled_linter_not_selected(
    m: SelectorModel,
    ls: Seq<(Seq<char>, Seq<Seq<char>>)>,
    ps: Seq<(Seq<char>, Seq<Seq<char>>)>,
    n: Seq<char>,
)
    requires
        m.disabled_linters.contains(n),
    ensures
        !selected(m, ls, ps).contains(n),
{
    lemma_known_linter_ident(ls, n, 0);
}

/// A known linter that a chosen preset holds, or that is enabled by name,
/// is selected when it is not disabled by name and at least one of its
/// lints is not disabled; it is left out when all of its lints are.
pub proof fn lemma_linter_runs_with_one_lint(
    m: SelectorModel,
    ls: Seq<(Seq<char>, Seq<Seq<char>>)>,
    ps: Seq<(Seq<char>, Seq<Seq<char>>)>,
    n: Seq<char>,
    lints: Seq<Seq<char>>,
)
    requires
        known_linter(ls, n, 0) == Some((n, lints)),
        preset_linters(m, ps).contains(n) || m.extra_linters.contains(n),
        !m.disabled_linters.contains(n),
    ensures
        (exists|k: int| 0 <= k < lints.len() && !m.disabled_lints.contains(#[trigger] lints[k]))
            ==> selected(m, ls, ps).contains(n),
        (forall|k: int| 0 <= k < lints.len() ==> m.disabled_lints.contains(#[trigger] lints[k]))
            ==> !selected(m, ls, ps).contains(n),
{
    if exists|k: int| 0 <= k < lints.len() && !m.disabled_lints.contains(#[trigger] lints[k]) {
        let k = choose|k: int| 0 <= k < lints.len() && !m.disabled_lints.contains(#[trigger] lints[k]);
        let l = (n, lints);
        assert(l.1[k] == lints[k]);
        assert(!m.disabled_lints.contains(l.1[k]));
        assert(admitted(m, l));
        assert(runnable(m, ls, n));
    }
}

/// After a directive `no-XLinter`, the linter `XLinter` is not selected,
/// whatever was applied before.
pub proof fn lemma_no_linter_directive(m: SelectorModel, d: Seq<char>)
    requires
        starts_with(d, "no-"@),
        ends_with(d.skip(3), "Linter"@),
    ensures
        !selected(directive_effect(m, d, presets_model()).0, linters_model(), presets_model()).contains(
            d.skip(3),
        ),
{
    let m2 = directive_effect(m, d, presets_model()).0;
    assert(m2.disabled_linters.contains(d.skip(3)));
    lemma_disabled_linter_not_selected(m2, linters_model(), presets_model(), d.skip(3));
}

/// What a selection gave.
pub struct Selection {
    /// The selected linters.
    pub linters: Vec<String>,
    /// The disabled lints.
    pub disabled_lints: Vec<String>,
    /// Linters enabled by name that are not known.
    pub unknown_linters: Vec<String>,
    /// Linters enabled by name that are not admitted.
    pub refused_linters: Vec<String>,
}

/// Selector for linters.
pub struct LinterSelector {
    presets: Vec<String>,
    disabled_lints: Vec<String>,
    disabled_linters: Vec<String>,
    extra_linters: Vec<String>,
}

pub open spec fn as_set(v: Seq<String>) -> Set<Seq<char>> {
    strings_view(v).to_set()
}

impl View for LinterSelector {
    type V = SelectorModel;

    closed spec fn view(&self) -> SelectorModel {
        SelectorModel {
            presets: as_set(self.presets@),
            disabled_lints: as_set(self.disabled_lints@),
            disabled_linters: as_set(self.disabled_linters@),
            extra_linters: as_set(self.extra_linters@),
        }
    }
}

/// Finds a string among strings.
fn position_of(v: &Vec<String>, x: &str) -> (res: Option<usize>)
    ensures
        match res {
            Some(i) => i < v@.len() && v@[i as int]@ == x@,
            None => !strings_view(v@).contains(x@),
        },
        res is Some <==> as_set(v@).contains(x@),
{
    let mut i: usize = 0;
    while i < v.len()
        invariant
            0 <= i <= v@.len(),
            forall|k: int| 0 <= k < i ==> v@[k]@ != x@,
        decreases v@.len() - i,
    {
        if str_eq(v[i].as_str(), x) {
            assert(strings_view(v@)[i as int] == x@);
            return Some(i);
        }
        i = i + 1;
    }
    assert forall|k: int| 0 <= k < strings_view(v@).len() implies strings_view(v@)[k] != x@ by {
        assert(strings_view(v@)[k] == v@[k]@);
    }
    None
}

/// Adds a string to a set of strings.
fn set_insert(v: &mut Vec<String>, x: &str)
    ensures
        as_set(final(v)@) == as_set(old(v)@).insert(x@),
{
    match position_of(v, x) {
        Some(i) => {
            assert(strings_view(v@)[i as int] == x@);
            assert(as_set(v@).insert(x@) =~= as_set(v@));
        },
        None => {
            let ghost before = strings_view(v@);
            v.push(x.to_string());
            assert(strings_view(v@) =~= before.push(x@));
            assert forall|y: Seq<char>| #[trigger] as_set(v@).contains(y) == before.to_set().insert(x@).contains(y) by {
                if y == x@ {
                    assert(strings_view(v@)[before.len() as int] == x@);
                } else if before.contains(y) {
                    let k = choose|k: int| 0 <= k < before.len() && #[trigger] before[k] == y;
                    assert(strings_view(v@)[k] == y);
                } else if strings_view(v@).contains(y) {
                    let now = strings_view(v@);
                    let k = choose|k: int| 0 <= k < now.len() && #[trigger] now[k] == y;
                    assert(k < before.len());
                    assert(before[k] == y);
                }
            }
            assert(as_set(v@) =~= as_set(old(v)@).insert(x@));
        },
    }
}

/// Removes a string from a set of strings.
fn set_remove(v: &mut Vec<String>, x: &str)
    ensures
        as_set(final(v)@) == as_set(old(v)@).remove(x@),
{
    let ghost o = strings_view(v@);
    let mut out: Vec<String> = Vec::new();
    let mut i: usize = 0;
    while i < v.len()
        invariant
            0 <= i <= v@.len(),
            o == strings_view(v@),
            forall|y: Seq<char>|
                #[trigger] strings_view(out@).contains(y) <==> (y != x@ && o.take(i as int).contains(y)),
        decreases v@.len() - i,
    {
        let ghost before = strings_view(out@);
        if !str_eq(v[i].as_str(), x) {
            out.push(v[i].clone());
        }
        proof {
            assert(o.take(i + 1) =~= o.take(i as int).push(o[i as int]));
            assert forall|y: Seq<char>|
                #[trigger] strings_view(out@).contains(y) <==> (y != x@ && o.take(i + 1).contains(y)) by {
                let now = strings_view(out@);
                let t0 = o.take(i as int);
                let t1 = o.take(i + 1);
                if now.contains(y) {
                    let k = choose|k: int| 0 <= k < now.len() && #[trigger] now[k] == y;
                    if k < before.len() {
                        assert(before[k] == y);
                        assert(before.contains(y));
                        let j = choose|j: int| 0 <= j < t0.len() && #[trigger] t0[j] == y;
                        assert(t1[j] == y);
                    } else {
                        assert(t1[i as int] == y);
                    }
                }
                if y != x@ && t1.contains(y) {
                    let j = choose|j: int| 0 <= j < t1.len() && #[trigger] t1[j] == y;
                    if j < i {
                        assert(t0[j] == y);
                        assert(before.contains(y));
                        let k = choose|k: int| 0 <= k < before.len() && #[trigger] before[k] == y;
                        assert(now[k] == y);
                    } else {
                        assert(now[now.len() - 1] == y);
                    }
                }
            }
        }
        i = i + 1;
    }
    assert(o.take(i as int) =~= o);
    *v = out;
    assert(as_set(v@) =~= as_set(old(v)@).remove(x@));
}

/// Splits off the prefix `no-`.
fn strip_no(d: &str) -> (res: Option<String>)
    ensures
        match res {
            Some(r) => starts_with(d@, "no-"@) && r@ == d@.skip(3),
            None => !starts_with(d@, "no-"@),
        },
{
    proof {
        reveal_strlit("no-");
    }
    let cs = chars_of(d);
    if cs.len() >= 3 && cs[0] == 'n' && cs[1] == 'o' && cs[2] == '-' {
        assert(cs@.take(3) =~= "no-"@);
        let r = string_from_chars(cs.as_slice(), 3, cs.len());
        assert(cs@.subrange(3, cs@.len() as int) =~= cs@.skip(3));
        Some(r)
    } else {
        proof {
            if cs@.len() >= 3 {
                assert(cs@.take(3)[0] == cs@[0]);
                assert(cs@.take(3)[1] == cs@[1]);
                assert(cs@.take(3)[2] == cs@[2]);
            }
        }
        None
    }
}

/// Tells whether a name ends with `Linter`.
fn ends_with_linter(d: &str) -> (res: bool)
    ensures
        res == ends_with(d@, "Linter"@),
{
    proof {
        reveal_strlit("Linter");
    }
    let cs = chars_of(d);
    let n = cs.len();
    if n < 6 {
        return false;
    }
    let t = string_from_chars(cs.as_slice(), n - 6, n);
    assert(cs@.subrange(n - 6, n as int) =~= cs@.skip(n - 6));
    str_eq(t.as_str(), "Linter")
}

/// Finds the first preset named `n`.
fn find_preset(ps: &Vec<(String, Vec<String>)>, n: &str) -> (res: bool)
    ensures
        res == (preset_index(presets_view(ps@), n@, 0) is Some),
{
    let ghost pv = presets_view(ps@);
    let mut i: usize = 0;
    while i < ps.len()
        invariant
            0 <= i <= ps@.len(),
            pv == presets_view(ps@),
            preset_index(pv, n@, 0) == preset_index(pv, n@, i as int),
        decreases ps@.len() - i,
    {
        assert(pv[i as int].0 == ps@[i as int].0@);
        if str_eq(ps[i].0.as_str(), n) {
            return true;
        }
        i = i + 1;
    }
    false
}

pub open spec fn presets_view(v: Seq<(String, Vec<String>)>) -> Seq<(Seq<char>, Seq<Seq<char>>)> {
    v.map_values(|p: (String, Vec<String>)| (p.0@, strings_view(p.1@)))
}

impl LinterSelector {
    /// A selector with the `baseline` preset chosen and nothing disabled.
    pub fn new() -> (res: LinterSelector)
        ensures
            res@ == (SelectorModel {
                presets: set!["baseline"@],
                disabled_lints: Set::empty(),
                disabled_linters: Set::empty(),
                extra_linters: Set::empty(),
            }),
    {
        let res = LinterSelector {
            presets: vec!["baseline".to_string()],
            disabled_lints: Vec::new(),
            disabled_linters: Vec::new(),
            extra_linters: Vec::new(),
        };
        assert(strings_view(res.presets@) =~= seq!["baseline"@]);
        assert(as_set(res.presets@) =~= set!["baseline"@]) by {
            assert(strings_view(res.presets@)[0] == "baseline"@);
        }
        assert(as_set(res.disabled_lints@) =~= Set::<Seq<char>>::empty());
        assert(as_set(res.disabled_linters@) =~= Set::<Seq<char>>::empty());
        assert(as_set(res.extra_linters@) =~= Set::<Seq<char>>::empty());
        res
    }

    /// Applies a linter selecting directive. Returns whether the directive
    /// was understood; one that was not is ignored.
    pub fn apply(&mut self, directive: &str) -> (res: bool)
        ensures
            (final(self)@, res) == directive_effect(old(self)@, directive@, presets_model()),
    {
        let ps = linter_presets();
        match strip_no(directive) {
            Some(rest) => {
                if ends_with_linter(rest.as_str()) {
                    set_insert(&mut self.disabled_linters, rest.as_str());
                } else if find_preset(&ps, rest.as_str()) {
                    set_remove(&mut self.presets, rest.as_str());
                } else {
                    set_insert(&mut self.disabled_lints, rest.as_str());
                }
                true
            },
            None => {
                if ends_with_linter(directive) {
                    set_insert(&mut self.extra_linters, directive);
                    true
                } else if find_preset(&ps, directive) {
                    set_insert(&mut self.presets, directive);
                    true
                } else {
                    false
                }
            },
        }
    }
}

/// What a sequence of names holds, as a set, filtered.
pub open spec fn names_where(s: Seq<Seq<char>>, p: spec_fn(Seq<char>) -> bool) -> Set<Seq<char>> {
    Set::new(|n: Seq<char>| s.contains(n) && p(n))
}

proof fn lemma_take_contains(s: Seq<Seq<char>>, k: int, n: Seq<char>)
    requires
        0 <= k < s.len(),
    ensures
        s.take(k + 1).contains(n) <==> (s.take(k).contains(n) || s[k] == n),
{
    let t0 = s.take(k);
    let t1 = s.take(k + 1);
    if t1.contains(n) {
        let j = choose|j: int| 0 <= j < t1.len() && #[trigger] t1[j] == n;
        if j < k {
            assert(t0[j] == n);
        }
    }
    if t0.contains(n) {
        let j = choose|j: int| 0 <= j < t0.len() && #[trigger] t0[j] == n;
        assert(t1[j] == n);
    }
    if s[k] == n {
        assert(t1[k] == n);
    }
}

proof fn lemma_concat_contains(a: Seq<Seq<char>>, b: Seq<Seq<char>>, n: Seq<char>)
    ensures
        (a + b).contains(n) <==> (a.contains(n) || b.contains(n)),
{
    let c = a + b;
    if c.contains(n) {
        let j = choose|j: int| 0 <= j < c.len() && #[trigger] c[j] == n;
        if j < a.len() {
            assert(a[j] == n);
        } else {
            assert(b[j - a.len()] == n);
        }
    }
    if a.contains(n) {
        let j = choose|j: int| 0 <= j < a.len() && #[trigger] a[j] == n;
        assert(c[j] == n);
    }
    if b.contains(n) {
        let j = choose|j: int| 0 <= j < b.len() && #[trigger] b[j] == n;
        assert(c[j + a.len()] == n);
    }
}

/// Collects into a set the names of `s` for which `keep` holds, one step.
proof fn lemma_names_where_step(s: Seq<Seq<char>>, k: int, p: spec_fn(Seq<char>) -> bool)
    requires
        0 <= k < s.len(),
    ensures
        names_where(s.take(k + 1), p) == if p(s[k]) {
            names_where(s.take(k), p).insert(s[k])
        } else {
            names_where(s.take(k), p)
        },
{
    assert forall|n: Seq<char>| #[trigger] names_where(s.take(k + 1), p).contains(n) == (if p(s[k]) {
        names_where(s.take(k), p).insert(s[k])
    } else {
        names_where(s.take(k), p)
    }).contains(n) by {
        lemma_take_contains(s, k, n);
    }
    assert(names_where(s.take(k + 1), p) =~= if p(s[k]) {
        names_where(s.take(k), p).insert(s[k])
    } else {
        names_where(s.take(k), p)
    });
}

/// Finds the known linter named `n`.
fn find_linter<'a>(ls: &'a Vec<LinterInfo>, n: &str) -> (res: Option<&'a LinterInfo>)
    ensures
        match res {
            Some(l) => known_linter(infos_view(ls@), n@, 0) == Some(info_view(*l)),
            None => known_linter(infos_view(ls@), n@, 0) is None,
        },
{
    let ghost lv = infos_view(ls@);
    let mut i: usize = 0;
    while i < ls.len()
        invariant
            0 <= i <= ls@.len(),
            lv == infos_view(ls@),
            known_linter(lv, n@, 0) == known_linter(lv, n@, i as int),
        decreases ls@.len() - i,
    {
        assert(lv[i as int] == info_view(ls@[i as int]));
        if str_eq(ls[i].ident.as_str(), n) {
            return Some(&ls[i]);
        }
        i = i + 1;
    }
    None
}

impl LinterSelector {
    /// Tells whether a linter may run.
    fn admits(&self, l: &LinterInfo) -> (res: bool)
        ensures
            res == admitted(self@, info_view(*l)),
    {
        if position_of(&self.disabled_linters, l.ident.as_str()).is_some() {
            return false;
        }
        let ghost lints = strings_view(l.lints@);
        let mut i: usize = 0;
        while i < l.lints.len()
            invariant
                0 <= i <= l.lints@.len(),
                lints == strings_view(l.lints@),
                !self@.disabled_linters.contains(l.ident@),
                forall|k: int| 0 <= k < i ==> self@.disabled_lints.contains(#[trigger] lints[k]),
            decreases l.lints@.len() - i,
        {
            assert(lints[i as int] == l.lints@[i as int]@);
            if position_of(&self.disabled_lints, l.lints[i].as_str()).is_none() {
                assert(!self@.disabled_lints.contains(info_view(*l).1[i as int]));
                return true;
            }
            i = i + 1;
        }
        false
    }

    /// Tells whether the linter named `n` is known and may run.
    fn runs(&self, ls: &Vec<LinterInfo>, n: &str) -> (res: bool)
        requires
            infos_view(ls@) == linters_model(),
        ensures
            res == runnable(self@, linters_model(), n@),
    {
        match find_linter(ls, n) {
            Some(l) => self.admits(l),
            None => false,
        }
    }

    /// Performs the selection, returning the selected linters and the muted
    /// lints, with the linters enabled by name that are not known or may
    /// not run.
    pub fn select(self) -> (res: Selection)
        ensures
            as_set(res.linters@) == selected(self@, linters_model(), presets_model()),
            as_set(res.disabled_lints@) == self@.disabled_lints,
            as_set(res.unknown_linters@) == Set::new(
                |n: Seq<char>| self@.extra_linters.contains(n) && known_linter(linters_model(), n, 0) is None,
            ),
            as_set(res.refused_linters@) == Set::new(
                |n: Seq<char>|
                    self@.extra_linters.contains(n) && known_linter(linters_model(), n, 0) is Some
                        && !runnable(self@, linters_model(), n),
            ),
    {
        let ls = known_linters();
        let ps = linter_presets();
        let ghost m = self@;
        let ghost pv = presets_model();
        // The linters of the chosen presets, preset after preset.
        let mut cands: Vec<String> = new_strings();
        let mut i: usize = 0;
        assert(pv.take(0) =~= Seq::<(Seq<char>, Seq<Seq<char>>)>::empty());
        while i < ps.len()
            invariant
                0 <= i <= ps@.len(),
                presets_view(ps@) == pv,
                pv == presets_model(),
                m == self@,
                strings_view(cands@) == preset_linters(m, pv.take(i as int)),
            decreases ps@.len() - i,
        {
            proof {
                assert(pv.take(i + 1).drop_last() =~= pv.take(i as int));
                assert(pv[i as int] == (ps@[i as int].0@, strings_view(ps@[i as int].1@)));
            }
            let ghost before = strings_view(cands@);
            if position_of(&self.presets, ps[i].0.as_str()).is_some() {
                let mut j: usize = 0;
                while j < ps[i].1.len()
                    invariant
                        0 <= j <= ps@[i as int].1@.len(),
                        i < ps@.len(),
                        strings_view(cands@) == before + strings_view(ps@[i as int].1@).take(j as int),
                    decreases ps@[i as int].1@.len() - j,
                {
                    push_str(&mut cands, ps[i].1[j].as_str());
                    assert(strings_view(ps@[i as int].1@).take(j + 1) =~= strings_view(ps@[i as int].1@).take(j as int).push(ps@[i as int].1@[j as int]@));
                    j = j + 1;
                }
                assert(strings_view(ps@[i as int].1@).take(j as int) =~= strings_view(ps@[i as int].1@));
                proof {
                    assert(as_set(self.presets@).contains(ps@[i as int].0@)) by {
                        let k = choose|k: usize| k < self.presets@.len() && self.presets@[k as int]@ == ps@[i as int].0@;
                        assert(strings_view(self.presets@)[k as int] == ps@[i as int].0@);
                    }
                }
            } else {
                assert(strings_view(cands@) =~= before + Seq::<Seq<char>>::empty());
            }
            i = i + 1;
        }
        assert(pv.take(i as int) =~= pv);
        // Then the linters enabled by name.
        let ghost pl = strings_view(cands@);
        let ghost ev = strings_view(self.extra_linters@);
        let mut k: usize = 0;
        while k < self.extra_linters.len()
            invariant
                0 <= k <= self.extra_linters@.len(),
                ev == strings_view(self.extra_linters@),
                strings_view(cands@) == pl + ev.take(k as int),
            decreases self.extra_linters@.len() - k,
        {
            push_str(&mut cands, self.extra_linters[k].as_str());
            assert(ev.take(k + 1) =~= ev.take(k as int).push(self.extra_linters@[k as int]@));
            k = k + 1;
        }
        assert(ev.take(k as int) =~= ev);
        let ghost all = strings_view(cands@);
        let ghost run = |n: Seq<char>| runnable(m, linters_model(), n);
        let mut linters: Vec<String> = new_strings();
        let mut c: usize = 0;
        assert(as_set(linters@) =~= names_where(all.take(0), run));
        while c < cands.len()
            invariant
                0 <= c <= cands@.len(),
                all == strings_view(cands@),
                infos_view(ls@) == linters_model(),
                m == self@,
                run == (|n: Seq<char>| runnable(m, linters_model(), n)),
                as_set(linters@) == names_where(all.take(c as int), run),
            decreases cands@.len() - c,
        {
            proof {
                lemma_names_where_step(all, c as int, run);
                assert(all[c as int] == cands@[c as int]@);
            }
            if self.runs(&ls, cands[c].as_str()) {
                set_insert(&mut linters, cands[c].as_str());
            }
            c = c + 1;
        }
        assert(all.take(c as int) =~= all);
        proof {
            assert forall|n: Seq<char>| #[trigger] as_set(linters@).contains(n) == selected(m, linters_model(), pv).contains(n) by {
                lemma_concat_contains(pl, ev, n);
                assert(m.extra_linters.contains(n) == ev.contains(n)) by {
                    if ev.contains(n) {
                        let j = choose|j: int| 0 <= j < ev.len() && #[trigger] ev[j] == n;
                        assert(ev.to_set().contains(n));
                    }
                }
            }
            assert(as_set(linters@) =~= selected(m, linters_model(), pv));
        }
        let ghost unknown = |n: Seq<char>| known_linter(linters_model(), n, 0) is None;
        let ghost refused = |n: Seq<char>| known_linter(linters_model(), n, 0) is Some && !runnable(m, linters_model(), n);
        let mut unknown_linters: Vec<String> = new_strings();
        let mut refused_linters: Vec<String> = new_strings();
        let mut e: usize = 0;
        assert(as_set(unknown_linters@) =~= names_where(ev.take(0), unknown));
        assert(as_set(refused_linters@) =~= names_where(ev.take(0), refused));
        while e < self.extra_linters.len()
            invariant
                0 <= e <= self.extra_linters@.len(),
                ev == strings_view(self.extra_linters@),
                infos_view(ls@) == linters_model(),
                m == self@,
                unknown == (|n: Seq<char>| known_linter(linters_model(), n, 0) is None),
                refused == (|n: Seq<char>| known_linter(linters_model(), n, 0) is Some && !runnable(m, linters_model(), n)),
                as_set(unknown_linters@) == names_where(ev.take(e as int), unknown),
                as_set(refused_linters@) == names_where(ev.take(e as int), refused),
            decreases self.extra_linters@.len() - e,
        {
            proof {
                lemma_names_where_step(ev, e as int, unknown);
                lemma_names_where_step(ev, e as int, refused);
                assert(ev[e as int] == self.extra_linters@[e as int]@);
            }
            match find_linter(&ls, self.extra_linters[e].as_str()) {
                Some(l) => {
                    if !self.admits(l) {
                        set_insert(&mut refused_linters, self.extra_linters[e].as_str());
                    }
                },
                None => {
                    set_insert(&mut unknown_linters, self.extra_linters[e].as_str());
                },
            }
            e = e + 1;
        }
        assert(ev.take(e as int) =~= ev);
        assert(as_set(unknown_linters@) =~= Set::new(
            |n: Seq<char>| m.extra_linters.contains(n) && known_linter(linters_model(), n, 0) is None,
        ));
        assert(as_set(refused_linters@) =~= Set::new(
            |n: Seq<char>|
                m.extra_linters.contains(n) && known_linter(linters_model(), n, 0) is Some
                    && !runnable(m, linters_model(), n),
        ));
        Selection {
            linters,
            disabled_lints: self.disabled_lints,
            unknown_linters,
            refused_linters,
        }
    }
}

impl Default for LinterSelector {
    fn default() -> (res: LinterSelector)
        ensures
            res@ == (SelectorModel {
                presets: set!["baseline"@],
                disabled_lints: Set::empty(),
                disabled_linters: Set::empty(),
                extra_linters: Set::empty(),
            }),
    {
        LinterSelector::new()
    }
}

} // verus!
