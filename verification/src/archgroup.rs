//! Checks of the arch-group overrides of a package's variables.
//!
//! A variable `NAME__TARGET` overrides `NAME` for an architecture or an
//! arch-group. An override made only of inclusions of other overrides of
//! the same variable (`NAME__GROUP`) lists the arch-groups it includes.
//! The check reports arch-groups that hold the target, have an override of
//! their own, and are not included; and overrides whose included groups all
//! hold the target, which add nothing.

use vstd::prelude::*;

use crate::apml::ast::{
    lemma_view_defs_take, lemma_view_elems_take, lemma_view_words_take, view_defs, view_elems,
    view_words, ApmlAst, ArrayElement, AstDefinition, AstElement, AstValue, AstWord, VariableValue,
    Word,
};
use crate::apml::context::ApmlContext;
use crate::chars::{chars_of, push_string, str_eq, string_from_chars};
use crate::matcher::{ascii_lower, ascii_lower_spec, ascii_upper, ascii_upper_spec};
use crate::num::{trim_bounds, trimmed};

verus! {

/// The first position of `__` in `s` from `i` on.
pub open spec fn double_underscore_from(s: Seq<char>, i: int) -> Option<int>
    decreases s.len() - i,
{
    if i < 0 || i + 1 >= s.len() {
        None
    } else if s[i] == '_' && s[i + 1] == '_' {
        Some(i)
    } else {
        double_underscore_from(s, i + 1)
    }
}

/// `s` split at its first `__`.
pub open spec fn split_override(s: Seq<char>) -> Option<(Seq<char>, Seq<char>)> {
    match double_underscore_from(s, 0) {
        Some(i) => Some((s.take(i), s.skip(i + 2))),
        None => None,
    }
}

/// The variables that the words of a text include, where the text is made
/// only of blank literals and plain variable expansions.
pub open spec fn text_inclusions(ws: Seq<AstWord>) -> Option<Seq<Seq<char>>>
    decreases ws.len(),
{
    if ws.len() == 0 {
        Some(Seq::empty())
    } else {
        match text_inclusions(ws.drop_last()) {
            Some(vs) => match ws.last() {
                AstWord::Literal(t) => if trimmed(t).len() == 0 {
                    Some(vs)
                } else {
                    None
                },
                AstWord::Variable(e) => if e.modifier is None {
                    Some(vs.push(e.name))
                } else {
                    None
                },
                AstWord::Subcommand(_) => None,
            },
            None => None,
        }
    }
}

/// The arrays that the elements of an array include, where it is made only
/// of inclusions.
pub open spec fn array_inclusions(es: Seq<AstElement>) -> Option<Seq<Seq<char>>>
    decreases es.len(),
{
    if es.len() == 0 {
        Some(Seq::empty())
    } else {
        match array_inclusions(es.drop_last()) {
            Some(vs) => match es.last() {
                AstElement::ArrayInclusion(n) => Some(vs.push(n)),
                AstElement::Text(_) => None,
            },
            None => None,
        }
    }
}

/// The variables that a value includes, where it is made only of
/// inclusions.
pub open spec fn value_inclusions(v: AstValue) -> Option<Seq<Seq<char>>> {
    match v {
        AstValue::String(t) => text_inclusions(t.0),
        AstValue::Array(es) => array_inclusions(es),
    }
}

/// The groups, in lower case, of included variables that all override
/// `base`.
pub open spec fn included_groups(base: Seq<char>, vars: Seq<Seq<char>>) -> Option<Seq<Seq<char>>>
    decreases vars.len(),
{
    if vars.len() == 0 {
        Some(Seq::empty())
    } else {
        match included_groups(base, vars.drop_last()) {
            Some(gs) => match split_override(vars.last()) {
                Some((name, group)) => if name == base {
                    Some(gs.push(ascii_lower_spec(group)))
                } else {
                    None
                },
                None => None,
            },
            None => None,
        }
    }
}

/// Model of [`ArchOverride`].
pub struct ArchOverrideModel {
    pub var_name: Seq<char>,
    pub base_name: Seq<char>,
    pub target: Seq<char>,
    pub groups: Seq<Seq<char>>,
}

/// The override that a definition makes, where it is one made only of
/// inclusions of overrides of the same variable.
pub open spec fn arch_override_of(d: AstDefinition) -> Option<ArchOverrideModel> {
    match split_override(d.name) {
        Some((base, target)) => match value_inclusions(d.value) {
            Some(vars) => match included_groups(base, vars) {
                Some(gs) => Some(
                    ArchOverrideModel {
                        var_name: d.name,
                        base_name: base,
                        target: ascii_lower_spec(target),
                        groups: gs,
                    },
                ),
                None => None,
            },
            None => None,
        },
        None => None,
    }
}

/// The overrides that the definitions make, in order.
pub open spec fn arch_overrides_of(ds: Seq<AstDefinition>) -> Seq<ArchOverrideModel>
    decreases ds.len(),
{
    if ds.len() == 0 {
        Seq::empty()
    } else {
        arch_overrides_of(ds.drop_last()) + match arch_override_of(ds.last()) {
            Some(o) => seq![o],
            None => Seq::empty(),
        }
    }
}

/// An arch-group override of a variable.
pub struct ArchOverride {
    /// The name of the overriding variable.
    pub var_name: String,
    /// The name of the overridden variable.
    pub base_name: String,
    /// The target, in lower case.
    pub target: String,
    /// The included arch-groups, in lower case.
    pub groups: Vec<String>,
}

pub open spec fn strings_view(v: Seq<String>) -> Seq<Seq<char>> {
    v.map_values(|s: String| s@)
}

impl View for ArchOverride {
    type V = ArchOverrideModel;

    open spec fn view(&self) -> ArchOverrideModel {
        ArchOverrideModel {
            var_name: self.var_name@,
            base_name: self.base_name@,
            target: self.target@,
            groups: strings_view(self.groups@),
        }
    }
}

pub open spec fn overrides_view(v: Seq<ArchOverride>) -> Seq<ArchOverrideModel> {
    v.map_values(|o: ArchOverride| o@)
}

proof fn lemma_double_underscore(s: Seq<char>, i: int)
    requires
        0 <= i,
    ensures
        match double_underscore_from(s, i) {
            Some(k) => i <= k && k + 1 < s.len(),
            None => true,
        },
    decreases s.len() - i,
{
    if i + 1 < s.len() && !(s[i] == '_' && s[i + 1] == '_') {
        lemma_double_underscore(s, i + 1);
    }
}

/// Splits a name at its first `__`.
fn split_override_exec(s: &String) -> (res: Option<(String, String)>)
    ensures
        match res {
            Some((a, b)) => split_override(s@) == Some((a@, b@)),
            None => split_override(s@) is None,
        },
{
    let cs = chars_of(s.as_str());
    let mut i: usize = 0;
    while cs.len() - i > 1 && !(cs[i] == '_' && cs[i + 1] == '_')
        invariant
            cs@ == s@,
            i <= cs@.len(),
            double_underscore_from(cs@, 0) == double_underscore_from(cs@, i as int),
        decreases cs@.len() - i,
    {
        i = i + 1;
    }
    if cs.len() - i > 1 {
        let a = string_from_chars(cs.as_slice(), 0, i);
        let b = string_from_chars(cs.as_slice(), i + 2, cs.len());
        assert(cs@.subrange(0, i as int) =~= cs@.take(i as int));
        assert(cs@.subrange(i + 2, cs@.len() as int) =~= cs@.skip(i + 2));
        Some((a, b))
    } else {
        None
    }
}

/// The variables that the words of a text include.
fn text_inclusions_exec(ws: &Vec<Word>) -> (res: Option<Vec<String>>)
    ensures
        match res {
            Some(vs) => text_inclusions(view_words(ws@)) == Some(strings_view(vs@)),
            None => text_inclusions(view_words(ws@)) is None,
        },
{
    let mut vs: Vec<String> = Vec::new();
    let mut i: usize = 0;
    assert(view_words(ws@.take(0)) =~= Seq::<AstWord>::empty());
    assert(strings_view(vs@) =~= Seq::<Seq<char>>::empty());
    while i < ws.len()
        invariant
            0 <= i <= ws@.len(),
            text_inclusions(view_words(ws@.take(i as int))) == Some(strings_view(vs@)),
        decreases ws@.len() - i,
    {
        proof {
            lemma_view_words_take(ws@, i as int);
            assert(view_words(ws@.take(i + 1)).drop_last() =~= view_words(ws@.take(i as int)));
        }
        match &ws[i] {
            Word::Literal(t) => {
                let tc = chars_of(t.as_str());
                let (a, b) = trim_bounds(&tc);
                if a < b {
                    proof {
                        lemma_no_word_inclusions_after(ws@, i + 1);
                    }
                    return None;
                }
            },
            Word::Variable(e) => {
                if e.modifier.is_some() {
                    proof {
                        lemma_no_word_inclusions_after(ws@, i + 1);
                    }
                    return None;
                }
                let ghost before = strings_view(vs@);
                vs.push(e.name.clone());
                assert(strings_view(vs@) =~= before.push(e.name@));
            },
            Word::Subcommand(_) => {
                proof {
                    lemma_no_word_inclusions_after(ws@, i + 1);
                }
                return None;
            },
        }
        i = i + 1;
    }
    assert(ws@.take(i as int) =~= ws@);
    Some(vs)
}

/// Once a prefix of the words includes nothing, the words include nothing.
proof fn lemma_no_word_inclusions_after(ws: Seq<Word>, i: int)
    requires
        0 <= i <= ws.len(),
        text_inclusions(view_words(ws.take(i))) is None,
    ensures
        text_inclusions(view_words(ws)) is None,
    decreases ws.len() - i,
{
    if i < ws.len() {
        lemma_view_words_take(ws, i);
        assert(view_words(ws.take(i + 1)).drop_last() =~= view_words(ws.take(i)));
        lemma_no_word_inclusions_after(ws, i + 1);
    } else {
        assert(ws.take(i) =~= ws);
    }
}

/// The arrays that the elements of an array include.
fn array_inclusions_exec(es: &Vec<ArrayElement>) -> (res: Option<Vec<String>>)
    ensures
        match res {
            Some(vs) => array_inclusions(view_elems(es@)) == Some(strings_view(vs@)),
            None => array_inclusions(view_elems(es@)) is None,
        },
{
    let mut vs: Vec<String> = Vec::new();
    let mut i: usize = 0;
    assert(view_elems(es@.take(0)) =~= Seq::<AstElement>::empty());
    assert(strings_view(vs@) =~= Seq::<Seq<char>>::empty());
    while i < es.len()
        invariant
            0 <= i <= es@.len(),
            array_inclusions(view_elems(es@.take(i as int))) == Some(strings_view(vs@)),
        decreases es@.len() - i,
    {
        proof {
            lemma_view_elems_take(es@, i as int);
            assert(view_elems(es@.take(i + 1)).drop_last() =~= view_elems(es@.take(i as int)));
        }
        match &es[i] {
            ArrayElement::ArrayInclusion(n) => {
                let ghost before = strings_view(vs@);
                vs.push(n.clone());
                assert(strings_view(vs@) =~= before.push(n@));
            },
            ArrayElement::Text(_) => {
                proof {
                    lemma_no_elem_inclusions_after(es@, i + 1);
                }
                return None;
            },
        }
        i = i + 1;
    }
    assert(es@.take(i as int) =~= es@);
    Some(vs)
}

/// Once a prefix of the elements includes nothing, the array includes
/// nothing.
proof fn lemma_no_elem_inclusions_after(es: Seq<ArrayElement>, i: int)
    requires
        0 <= i <= es.len(),
        array_inclusions(view_elems(es.take(i))) is None,
    ensures
        array_inclusions(view_elems(es)) is None,
    decreases es.len() - i,
{
    if i < es.len() {
        lemma_view_elems_take(es, i);
        assert(view_elems(es.take(i + 1)).drop_last() =~= view_elems(es.take(i)));
        lemma_no_elem_inclusions_after(es, i + 1);
    } else {
        assert(es.take(i) =~= es);
    }
}

/// Once a prefix of the variables is refused, all are.
proof fn lemma_no_groups_after(base: Seq<char>, vars: Seq<Seq<char>>, i: int)
    requires
        0 <= i <= vars.len(),
        included_groups(base, vars.take(i)) is None,
    ensures
        included_groups(base, vars) is None,
    decreases vars.len() - i,
{
    if i < vars.len() {
        assert(vars.take(i + 1).drop_last() =~= vars.take(i));
        lemma_no_groups_after(base, vars, i + 1);
    } else {
        assert(vars.take(i) =~= vars);
    }
}

/// The groups of included variables that all override `base`.
fn included_groups_exec(base: &String, vars: &Vec<String>) -> (res: Option<Vec<String>>)
    ensures
        match res {
            Some(gs) => included_groups(base@, strings_view(vars@)) == Some(strings_view(gs@)),
            None => included_groups(base@, strings_view(vars@)) is None,
        },
{
    let ghost vs = strings_view(vars@);
    let mut gs: Vec<String> = Vec::new();
    let mut i: usize = 0;
    assert(vs.take(0) =~= Seq::<Seq<char>>::empty());
    assert(strings_view(gs@) =~= Seq::<Seq<char>>::empty());
    while i < vars.len()
        invariant
            0 <= i <= vars@.len(),
            vs == strings_view(vars@),
            included_groups(base@, vs.take(i as int)) == Some(strings_view(gs@)),
        decreases vars@.len() - i,
    {
        proof {
            assert(vs.take(i + 1).drop_last() =~= vs.take(i as int));
            assert(vs.take(i + 1).last() == vars@[i as int]@);
        }
        match split_override_exec(&vars[i]) {
            Some((name, group)) => {
                if !str_eq(name.as_str(), base.as_str()) {
                    proof {
                        lemma_no_groups_after(base@, vs, i + 1);
                    }
                    return None;
                }
                let ghost before = strings_view(gs@);
                gs.push(ascii_lower(group.as_str()));
                assert(strings_view(gs@) =~= before.push(ascii_lower_spec(group@)));
            },
            None => {
                proof {
                    lemma_no_groups_after(base@, vs, i + 1);
                }
                return None;
            },
        }
        i = i + 1;
    }
    assert(vs.take(i as int) =~= vs);
    Some(gs)
}

/// The override that a definition makes, if it is one.
fn arch_override_exec(d: &crate::apml::ast::VariableDefinition) -> (res: Option<ArchOverride>)
    ensures
        match res {
            Some(o) => arch_override_of(d@) == Some(o@),
            None => arch_override_of(d@) is None,
        },
{
    let (base, target) = match split_override_exec(&d.name) {
        Some(p) => p,
        None => {
            return None;
        },
    };
    let vars = match &d.value {
        VariableValue::String(t) => text_inclusions_exec(&t.0),
        VariableValue::Array(es) => array_inclusions_exec(es),
    };
    let vars = match vars {
        Some(v) => v,
        None => {
            return None;
        },
    };
    let groups = match included_groups_exec(&base, &vars) {
        Some(g) => g,
        None => {
            return None;
        },
    };
    let target = ascii_lower(target.as_str());
    Some(ArchOverride { var_name: d.name.clone(), base_name: base, target, groups })
}

/// Collects the arch-group overrides that the definitions make, in order:
/// each definition of a `NAME__TARGET` whose value is made only of
/// inclusions of overrides `NAME__GROUP` of the same variable.
pub fn arch_overrides(ast: &ApmlAst) -> (res: Vec<ArchOverride>)
    ensures
        overrides_view(res@) == arch_overrides_of(ast@.0),
{
    let ds = &ast.0;
    let mut out: Vec<ArchOverride> = Vec::new();
    let mut i: usize = 0;
    assert(view_defs(ds@.take(0)) =~= Seq::<AstDefinition>::empty());
    assert(overrides_view(out@) =~= Seq::<ArchOverrideModel>::empty());
    while i < ds.len()
        invariant
            0 <= i <= ds@.len(),
            overrides_view(out@) == arch_overrides_of(view_defs(ds@.take(i as int))),
        decreases ds@.len() - i,
    {
        proof {
            lemma_view_defs_take(ds@, i as int);
            assert(view_defs(ds@.take(i + 1)).drop_last() =~= view_defs(ds@.take(i as int)));
        }
        let ghost before = overrides_view(out@);
        match arch_override_exec(&ds[i]) {
            Some(o) => {
                out.push(o);
                assert(overrides_view(out@) =~= before + seq![out@.last()@]);
            },
            None => {
                assert(overrides_view(out@) =~= before + Seq::<ArchOverrideModel>::empty());
            },
        }
        i = i + 1;
    }
    assert(ds@.take(i as int) =~= ds@);
    out
}

/// The variables that ACBS itself overrides by architecture.
pub open spec fn acbs_variable(n: Seq<char>) -> bool {
    n == "PKGDEP"@ || n == "BUILDDEP"@
}

/// The arch-groups as a table of names and targets.
pub open spec fn groups_view(t: Seq<(String, Vec<String>)>) -> Seq<(Seq<char>, Seq<Seq<char>>)> {
    t.map_values(|e: (String, Vec<String>)| (e.0@, strings_view(e.1@)))
}

/// The targets of the first arch-group named `g`.
pub open spec fn group_targets(t: Seq<(Seq<char>, Seq<Seq<char>>)>, g: Seq<char>, i: int) -> Option<
    Seq<Seq<char>>,
>
    decreases t.len() - i,
{
    if i < 0 || i >= t.len() {
        None
    } else if t[i].0 == g {
        Some(t[i].1)
    } else {
        group_targets(t, g, i + 1)
    }
}

/// The name of the override of `base` for the arch-group `g`.
pub open spec fn group_var_name(base: Seq<char>, g: Seq<char>) -> Seq<char> {
    base + "__"@ + ascii_upper_spec(g)
}

/// The arch-groups of the table, in order, that hold the target of the
/// override, are not included by it, and have an override of their own
/// among the variables `vars`; each with the name of that override.
pub open spec fn missing_groups(
    o: ArchOverrideModel,
    t: Seq<(Seq<char>, Seq<Seq<char>>)>,
    vars: Set<Seq<char>>,
) -> Seq<(Seq<char>, Seq<char>)>
    decreases t.len(),
{
    if t.len() == 0 {
        Seq::empty()
    } else {
        let (g, targets) = t.last();
        missing_groups(o, t.drop_last(), vars) + if targets.contains(o.target) && !o.groups.contains(g)
            && vars.contains(group_var_name(o.base_name, g)) {
            seq![(group_var_name(o.base_name, g), g)]
        } else {
            Seq::empty()
        }
    }
}

/// An override is redundant: it is not of a variable that ACBS overrides
/// itself, and every group it includes is an arch-group holding its target.
pub open spec fn redundant_override(o: ArchOverrideModel, t: Seq<(Seq<char>, Seq<Seq<char>>)>) -> bool {
    !acbs_variable(o.base_name) && forall|i: int|
        0 <= i < o.groups.len() ==> match group_targets(t, #[trigger] o.groups[i], 0) {
            Some(ts) => ts.contains(o.target),
            None => false,
        }
}

/// An override of `PKGDEP` or `BUILDDEP`, which ACBS overrides by
/// architecture itself, is never redundant, whatever the arch-groups.
pub proof fn lemma_acbs_overrides_kept(o: ArchOverrideModel, t: Seq<(Seq<char>, Seq<Seq<char>>)>)
    requires
        o.base_name == "PKGDEP"@ || o.base_name == "BUILDDEP"@,
    ensures
        !redundant_override(o, t),
{
}

/// Finds a string among strings.
fn strings_contain(v: &Vec<String>, x: &String) -> (res: bool)
    ensures
        res == strings_view(v@).contains(x@),
{
    let mut i: usize = 0;
    while i < v.len()
        invariant
            0 <= i <= v@.len(),
            forall|k: int| 0 <= k < i ==> v@[k]@ != x@,
        decreases v@.len() - i,
    {
        if str_eq(v[i].as_str(), x.as_str()) {
            assert(strings_view(v@)[i as int] == x@);
            return true;
        }
        i = i + 1;
    }
    assert forall|k: int| 0 <= k < strings_view(v@).len() implies strings_view(v@)[k] != x@ by {
        assert(strings_view(v@)[k] == v@[k]@);
    }
    false
}

/// The targets of the first arch-group named `g`.
fn group_targets_exec<'a>(t: &'a Vec<(String, Vec<String>)>, g: &String) -> (res: Option<&'a Vec<String>>)
    ensures
        match res {
            Some(ts) => group_targets(groups_view(t@), g@, 0) == Some(strings_view(ts@)),
            None => group_targets(groups_view(t@), g@, 0) is None,
        },
{
    let ghost tv = groups_view(t@);
    let mut i: usize = 0;
    while i < t.len()
        invariant
            0 <= i <= t@.len(),
            tv == groups_view(t@),
            group_targets(tv, g@, 0) == group_targets(tv, g@, i as int),
        decreases t@.len() - i,
    {
        assert(tv[i as int] == (t@[i as int].0@, strings_view(t@[i as int].1@)));
        if str_eq(t[i].0.as_str(), g.as_str()) {
            return Some(&t[i].1);
        }
        i = i + 1;
    }
    None
}

/// Finds the arch-groups that hold the target of an override, are not
/// included by it, and have an override of their own in the context. Each
/// comes with the name of that override.
pub fn missing_archgroups(o: &ArchOverride, t: &Vec<(String, Vec<String>)>, ctx: &ApmlContext) -> (res:
    Vec<(String, String)>)
    requires
        ctx.wf(),
    ensures
        res@.map_values(|r: (String, String)| (r.0@, r.1@)) == missing_groups(
            o@,
            groups_view(t@),
            ctx@.dom(),
        ),
{
    let ghost tv = groups_view(t@);
    let mut out: Vec<(String, String)> = Vec::new();
    let mut i: usize = 0;
    assert(tv.take(0) =~= Seq::<(Seq<char>, Seq<Seq<char>>)>::empty());
    assert(out@.map_values(|r: (String, String)| (r.0@, r.1@)) =~= Seq::<(Seq<char>, Seq<char>)>::empty());
    while i < t.len()
        invariant
            0 <= i <= t@.len(),
            ctx.wf(),
            tv == groups_view(t@),
            out@.map_values(|r: (String, String)| (r.0@, r.1@)) == missing_groups(
                o@,
                tv.take(i as int),
                ctx@.dom(),
            ),
        decreases t@.len() - i,
    {
        let g = &t[i].0;
        proof {
            assert(tv.take(i + 1).drop_last() =~= tv.take(i as int));
            assert(tv.take(i + 1).last() == (g@, strings_view(t@[i as int].1@)));
        }
        let ghost before = out@.map_values(|r: (String, String)| (r.0@, r.1@));
        if strings_contain(&t[i].1, &o.target) && !strings_contain(&o.groups, g) {
            let mut name = o.base_name.clone();
            push_string(&mut name, "__");
            let upper = ascii_upper(g.as_str());
            push_string(&mut name, upper.as_str());
            proof {
                reveal_strlit("__");
            }
            assert(name@ == group_var_name(o.base_name@, g@));
            if ctx.contains_var(name.as_str()) {
                out.push((name, g.clone()));
                assert(out@.map_values(|r: (String, String)| (r.0@, r.1@)) =~= before + seq![
                    (group_var_name(o.base_name@, g@), g@),
                ]);
            } else {
                assert(out@.map_values(|r: (String, String)| (r.0@, r.1@)) =~= before + Seq::<
                    (Seq<char>, Seq<char>),
                >::empty());
            }
        } else {
            assert(out@.map_values(|r: (String, String)| (r.0@, r.1@)) =~= before + Seq::<
                (Seq<char>, Seq<char>),
            >::empty());
        }
        i = i + 1;
    }
    assert(tv.take(i as int) =~= tv);
    out
}

/// Tells whether an override is redundant: it is not of a variable that
/// ACBS overrides itself, and every group it includes is an arch-group
/// holding its target.
pub fn is_redundant_override(o: &ArchOverride, t: &Vec<(String, Vec<String>)>) -> (res: bool)
    ensures
        res == redundant_override(o@, groups_view(t@)),
{
    proof {
        reveal_strlit("PKGDEP");
        reveal_strlit("BUILDDEP");
    }
    if str_eq(o.base_name.as_str(), "PKGDEP") || str_eq(o.base_name.as_str(), "BUILDDEP") {
        return false;
    }
    let ghost gs = strings_view(o.groups@);
    let mut i: usize = 0;
    while i < o.groups.len()
        invariant
            0 <= i <= o.groups@.len(),
            gs == strings_view(o.groups@),
            !acbs_variable(o.base_name@),
            forall|k: int|
                0 <= k < i ==> match group_targets(groups_view(t@), #[trigger] gs[k], 0) {
                    Some(ts) => ts.contains(o.target@),
                    None => false,
                },
        decreases o.groups@.len() - i,
    {
        assert(gs[i as int] == o.groups@[i as int]@);
        match group_targets_exec(t, &o.groups[i]) {
            Some(ts) => {
                if !strings_contain(ts, &o.target) {
                    return false;
                }
            },
            None => {
                return false;
            },
        }
        i = i + 1;
    }
    true
}

} // verus!
