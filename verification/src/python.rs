//! Python dependencies of a package, read from `requirements.txt` and from
//! the fields of `pyproject.toml`.

use vstd::prelude::*;

use crate::chars::{chars_of, push_char, string_from_chars};
use crate::matcher::{ascii_lower, ascii_lower_spec};
use crate::num::{trim_bounds, trimmed};
use crate::chars::{push_string, str_eq};

verus! {

/// Where a Python dependency was declared.
#[derive(Debug, Clone, Copy, PartialEq, Eq, Structural)]
pub enum DependencyOrigin {
    RequirementsTxt,
    Pep517Dependencies,
    Pep517BuildRequires,
    Pep517BuildBackend,
}

impl DependencyOrigin {
    /// Describes the origin for messages.
    pub fn to_string(&self) -> (res: String)
        ensures
            res@ == origin_text(*self),
    {
        match self {
            DependencyOrigin::RequirementsTxt => "requirements.txt".to_string(),
            DependencyOrigin::Pep517Dependencies => "project.dependencies from pyproject.toml".to_string(),
            DependencyOrigin::Pep517BuildRequires => "build-system.requires from pyproject.toml".to_string(),
            DependencyOrigin::Pep517BuildBackend => "build-system.build-backend from pyproject.toml".to_string(),
        }
    }
}

/// The description of an origin.
pub open spec fn origin_text(o: DependencyOrigin) -> Seq<char> {
    match o {
        DependencyOrigin::RequirementsTxt => "requirements.txt"@,
        DependencyOrigin::Pep517Dependencies => "project.dependencies from pyproject.toml"@,
        DependencyOrigin::Pep517BuildRequires => "build-system.requires from pyproject.toml"@,
        DependencyOrigin::Pep517BuildBackend => "build-system.build-backend from pyproject.toml"@,
    }
}

/// A Python dependency.
#[derive(Debug, PartialEq, Eq)]
pub struct Dependency {
    pub name: String,
    pub build_dep: bool,
    pub origin: DependencyOrigin,
    pub raw_req: String,
}

/// Model of [`Dependency`].
pub struct DependencyModel {
    pub name: Seq<char>,
    pub build_dep: bool,
    pub origin: DependencyOrigin,
    pub raw_req: Seq<char>,
}

impl View for Dependency {
    type V = DependencyModel;

    open spec fn view(&self) -> DependencyModel {
        DependencyModel {
            name: self.name@,
            build_dep: self.build_dep,
            origin: self.origin,
            raw_req: self.raw_req@,
        }
    }
}

/// The first position of `c` from `i` on, or the end.
pub open spec fn index_of(s: Seq<char>, c: char, i: int) -> int
    decreases s.len() - i,
{
    if i < 0 || i >= s.len() {
        s.len() as int
    } else if s[i] == c {
        i
    } else {
        index_of(s, c, i + 1)
    }
}

/// A character that ends the name in a requirement.
pub open spec fn ends_name(c: char) -> bool {
    c == ' ' || c == '>' || c == '<' || c == '~' || c == '=' || c == '!' || c == ';' || c == '['
}

/// The first position of a character that ends the name, or the end.
pub open spec fn name_end(s: Seq<char>, i: int) -> int
    decreases s.len() - i,
{
    if i < 0 || i >= s.len() {
        s.len() as int
    } else if ends_name(s[i]) {
        i
    } else {
        name_end(s, i + 1)
    }
}

/// `t` occurs in `s`.
pub open spec fn contains(s: Seq<char>, t: Seq<char>) -> bool {
    exists|i: int| 0 <= i <= s.len() - t.len() && #[trigger] s.subrange(i, i + t.len()) == t
}

/// An environment marker for Windows or macOS only.
pub open spec fn foreign_platform(cond: Seq<char>) -> bool {
    let c = ascii_lower_spec(cond);
    contains(c, "platform_system"@) && (contains(c, "windows"@) || contains(c, "darwin"@))
}

/// The package name of a requirement: none for one that is for Windows or
/// macOS only, else the text before a version, platform or feature
/// specifier.
pub open spec fn requirement_name(req: Seq<char>) -> Option<Seq<char>> {
    let semi = index_of(req, ';', 0);
    if semi < req.len() && foreign_platform(req.subrange(semi + 1, req.len() as int)) {
        None
    } else {
        Some(req.take(name_end(req, 0)))
    }
}

pub proof fn lemma_index_of(s: Seq<char>, c: char, i: int)
    requires
        0 <= i <= s.len(),
    ensures
        i <= index_of(s, c, i) <= s.len(),
        index_of(s, c, i) < s.len() ==> s[index_of(s, c, i)] == c,
        forall|k: int| i <= k < index_of(s, c, i) ==> #[trigger] s[k] != c,
    decreases s.len() - i,
{
    if i < s.len() && s[i] != c {
        lemma_index_of(s, c, i + 1);
    }
}

proof fn lemma_name_end(s: Seq<char>, i: int)
    requires
        0 <= i <= s.len(),
    ensures
        i <= name_end(s, i) <= s.len(),
    decreases s.len() - i,
{
    if i < s.len() && !ends_name(s[i]) {
        lemma_name_end(s, i + 1);
    }
}

fn index_of_exec(s: &Vec<char>, c: char, from: usize) -> (res: usize)
    requires
        from <= s@.len(),
    ensures
        res == index_of(s@, c, from as int),
        from <= res <= s@.len(),
{
    proof {
        lemma_index_of(s@, c, from as int);
    }
    let mut i = from;
    while i < s.len() && s[i] != c
        invariant
            from <= i <= s@.len(),
            index_of(s@, c, from as int) == index_of(s@, c, i as int),
        decreases s@.len() - i,
    {
        i = i + 1;
    }
    i
}

/// Finds `t` in `s`.
pub(crate) fn contains_exec(s: &Vec<char>, t: &str) -> (res: bool)
    ensures
        res == contains(s@, t@),
{
    let tc = chars_of(t);
    if tc.len() == 0 {
        assert(s@.subrange(0, 0int + t@.len()) =~= t@);
        return true;
    }
    if tc.len() > s.len() {
        return false;
    }
    let last = s.len() - tc.len();
    let mut i: usize = 0;
    while i <= last
        invariant
            tc@ == t@,
            0 < tc@.len() <= s@.len() <= usize::MAX,
            last == s@.len() - tc@.len(),
            0 <= i <= last + 1,
            forall|k: int| 0 <= k < i ==> #[trigger] s@.subrange(k, k + tc@.len()) != tc@,
        decreases last + 1 - i,
    {
        let mut j: usize = 0;
        while j < tc.len() && s[i + j] == tc[j]
            invariant
                tc@ == t@,
                0 < tc@.len() <= s@.len() <= usize::MAX,
                i <= last,
                last == s@.len() - tc@.len(),
                0 <= j <= tc@.len(),
                forall|m: int| 0 <= m < j ==> s@[i + m] == tc@[m],
            decreases tc@.len() - j,
        {
            j = j + 1;
        }
        if j == tc.len() {
            assert(s@.subrange(i as int, i + tc@.len()) =~= tc@);
            return true;
        }
        assert(s@.subrange(i as int, i + tc@.len())[j as int] != tc@[j as int]);
        i = i + 1;
    }
    assert forall|k: int| 0 <= k <= s@.len() - t@.len() implies #[trigger] s@.subrange(k, k + t@.len())
        != t@ by {
        assert(k < i);
    }
    false
}

impl Dependency {
    /// Extracts the package name out from a Python dependency requirement.
    pub fn extract_name_from_req(req: &str) -> (res: Option<String>)
        ensures
            match res {
                Some(n) => requirement_name(req@) == Some(n@),
                None => requirement_name(req@) is None,
            },
    {
        let s = chars_of(req);
        let semi = index_of_exec(&s, ';', 0);
        if semi < s.len() {
            let cond = string_from_chars(s.as_slice(), semi + 1, s.len());
            let lower = ascii_lower(cond.as_str());
            let lc = chars_of(lower.as_str());
            if contains_exec(&lc, "platform_system") && (contains_exec(&lc, "windows")
                || contains_exec(&lc, "darwin")) {
                return None;
            }
        }
        proof {
            lemma_name_end(s@, 0);
        }
        let mut end: usize = 0;
        while end < s.len() && !ends_name_exec(s[end])
            invariant
                0 <= end <= s@.len(),
                name_end(s@, 0) == name_end(s@, end as int),
            decreases s@.len() - end,
        {
            end = end + 1;
        }
        Some(string_from_chars(s.as_slice(), 0, end))
    }

    /// Normalizes the package name for AOSC naming style.
    pub fn guess_aosc_package_name(&self) -> (res: String)
        ensures
            res@ == self.name@.map_values(|c: char| if c == '_' { '-' } else { c }),
    {
        dashes_for_underscores(self.name.as_str())
    }
}

/// Turns each `_` of a text into `-`.
fn dashes_for_underscores(t: &str) -> (res: String)
    ensures
        res@ == t@.map_values(|c: char| if c == '_' { '-' } else { c }),
{
    let cs = chars_of(t);
    let mut out = String::new();
    let mut i: usize = 0;
    while i < cs.len()
        invariant
            cs@ == t@,
            0 <= i <= cs@.len(),
            out@ == cs@.take(i as int).map_values(|c: char| if c == '_' { '-' } else { c }),
        decreases cs@.len() - i,
    {
        let c = cs[i];
        push_char(&mut out, if c == '_' { '-' } else { c });
        proof {
            assert(cs@.take(i + 1) =~= cs@.take(i as int).push(c));
        }
        i = i + 1;
        assert(out@ =~= cs@.take(i as int).map_values(|c: char| if c == '_' { '-' } else { c }));
    }
    assert(cs@.take(i as int) =~= cs@);
    out
}

fn ends_name_exec(c: char) -> (res: bool)
    ensures
        res == ends_name(c),
{
    c == ' ' || c == '>' || c == '<' || c == '~' || c == '=' || c == '!' || c == ';' || c == '['
}

/// The requirement of a line of `requirements.txt`: the line cut at `#`
/// and trimmed.
pub open spec fn requirement_of_line(line: Seq<char>) -> Seq<char> {
    trimmed(line.take(index_of(line, '#', 0)))
}

/// The dependency a requirement gives, where it names a package.
pub open spec fn dependency_of(req: Seq<char>, build_dep: bool, origin: DependencyOrigin) -> Seq<
    DependencyModel,
> {
    match requirement_name(req) {
        Some(n) => seq![DependencyModel { name: n, build_dep, origin, raw_req: req }],
        None => Seq::empty(),
    }
}

/// The dependencies of the lines of `requirements.txt` from position `i` on.
pub open spec fn requirements_txt_from(s: Seq<char>, i: int) -> Seq<DependencyModel>
    decreases s.len() - i,
{
    if i < 0 || i >= s.len() {
        Seq::empty()
    } else {
        let e = index_of(s, '\n', i);
        proof {
            lemma_index_of(s, '\n', i);
        }
        let req = requirement_of_line(s.subrange(i, e));
        let here = if req.len() == 0 {
            Seq::empty()
        } else {
            dependency_of(req, false, DependencyOrigin::RequirementsTxt)
        };
        if e < s.len() {
            here + requirements_txt_from(s, e + 1)
        } else {
            here
        }
    }
}

/// The dependencies that `requirements.txt` declares, line by line: each
/// line cut at `#`, trimmed, and kept where something is left and it names
/// a package.
pub open spec fn requirements_txt(s: Seq<char>) -> Seq<DependencyModel> {
    requirements_txt_from(s, 0)
}

pub open spec fn view_deps(ds: Seq<Dependency>) -> Seq<DependencyModel> {
    ds.map_values(|d: Dependency| d@)
}

/// Pushes the dependency that a requirement gives, where it names a package.
fn push_dependency(out: &mut Vec<Dependency>, req: String, build_dep: bool, origin: DependencyOrigin)
    ensures
        view_deps(final(out)@) == view_deps(old(out)@) + dependency_of(req@, build_dep, origin),
{
    match Dependency::extract_name_from_req(req.as_str()) {
        Some(name) => {
            let ghost before = view_deps(out@);
            let ghost r = req@;
            out.push(Dependency { name, build_dep, origin, raw_req: req });
            assert(view_deps(out@) =~= before + dependency_of(r, build_dep, origin));
        },
        None => {
            assert(view_deps(out@) =~= view_deps(out@) + Seq::<DependencyModel>::empty());
        },
    }
}

/// Collects the dependencies declared in a `requirements.txt`.
pub fn collect_from_requirementstxt(text: &str) -> (res: Vec<Dependency>)
    ensures
        view_deps(res@) == requirements_txt(text@),
{
    let s = chars_of(text);
    let mut out: Vec<Dependency> = Vec::new();
    let mut i: usize = 0;
    assert(view_deps(out@) =~= Seq::<DependencyModel>::empty());
    while i < s.len()
        invariant
            s@ == text@,
            0 <= i <= s@.len(),
            view_deps(out@) + requirements_txt_from(s@, i as int) == requirements_txt(s@),
        decreases s@.len() - i,
    {
        let e = index_of_exec(&s, '\n', i);
        let line: Vec<char> = slice_chars(&s, i, e);
        let hash = index_of_exec(&line, '#', 0);
        let cut: Vec<char> = slice_chars(&line, 0, hash);
        assert(cut@ =~= line@.take(hash as int));
        let (a, b) = trim_bounds(&cut);
        let ghost rest = requirements_txt_from(s@, e + 1);
        let ghost before = view_deps(out@);
        if a < b {
            let req = string_from_chars(cut.as_slice(), a, b);
            push_dependency(&mut out, req, false, DependencyOrigin::RequirementsTxt);
        }
        proof {
            let req = requirement_of_line(s@.subrange(i as int, e as int));
            assert(req == cut@.subrange(a as int, b as int));
            if a >= b {
                assert(req.len() == 0);
                assert(view_deps(out@) =~= before + Seq::<DependencyModel>::empty());
            }
            assert((view_deps(out@) + rest) =~= (before + requirements_txt_from(s@, i as int)));
        }
        if e >= s.len() {
            i = s.len();
        } else {
            i = e + 1;
        }
    }
    assert(view_deps(out@) + requirements_txt_from(s@, i as int) =~= view_deps(out@));
    out
}

/// Copies `s[from..to]`.
fn slice_chars(s: &Vec<char>, from: usize, to: usize) -> (res: Vec<char>)
    requires
        from <= to <= s@.len(),
    ensures
        res@ == s@.subrange(from as int, to as int),
{
    let mut out: Vec<char> = Vec::new();
    let mut k = from;
    while k < to
        invariant
            from <= k <= to <= s@.len(),
            out@ == s@.subrange(from as int, k as int),
        decreases to - k,
    {
        out.push(s[k]);
        k = k + 1;
        assert(out@ =~= s@.subrange(from as int, k as int));
    }
    out
}

/// The dependencies that requirements give, in order.
pub open spec fn requirements_deps(reqs: Seq<Seq<char>>, build_dep: bool, origin: DependencyOrigin) -> Seq<
    DependencyModel,
>
    decreases reqs.len(),
{
    if reqs.len() == 0 {
        Seq::empty()
    } else {
        requirements_deps(reqs.drop_last(), build_dep, origin) + dependency_of(
            reqs.last(),
            build_dep,
            origin,
        )
    }
}

/// The module that a build backend is imported from: its name up to the
/// first dot.
pub open spec fn backend_module(backend: Seq<char>) -> Seq<char> {
    backend.take(index_of(backend, '.', 0))
}

/// The dependencies that the fields of `pyproject.toml` declare: those of
/// `project.dependencies`, then those of `build-system.requires`, then the
/// build backend.
pub open spec fn pyproject_deps(
    dependencies: Seq<Seq<char>>,
    build_requires: Seq<Seq<char>>,
    backend: Option<Seq<char>>,
) -> Seq<DependencyModel> {
    requirements_deps(dependencies, false, DependencyOrigin::Pep517Dependencies) + requirements_deps(
        build_requires,
        true,
        DependencyOrigin::Pep517BuildRequires,
    ) + match backend {
        Some(b) => seq![
            DependencyModel {
                name: backend_module(b),
                build_dep: true,
                origin: DependencyOrigin::Pep517BuildBackend,
                raw_req: b,
            },
        ],
        None => Seq::empty(),
    }
}

pub open spec fn view_strings(ss: Seq<String>) -> Seq<Seq<char>> {
    ss.map_values(|s: String| s@)
}

/// Pushes the dependencies that requirements give.
fn push_requirements(
    out: &mut Vec<Dependency>,
    reqs: &Vec<String>,
    build_dep: bool,
    origin: DependencyOrigin,
)
    ensures
        view_deps(final(out)@) == view_deps(old(out)@) + requirements_deps(
            view_strings(reqs@),
            build_dep,
            origin,
        ),
{
    let ghost start = view_deps(out@);
    let ghost rs = view_strings(reqs@);
    let mut i: usize = 0;
    assert(rs.take(0) =~= Seq::<Seq<char>>::empty());
    assert(start + Seq::<DependencyModel>::empty() =~= start);
    while i < reqs.len()
        invariant
            0 <= i <= reqs@.len(),
            rs == view_strings(reqs@),
            view_deps(out@) == start + requirements_deps(rs.take(i as int), build_dep, origin),
        decreases reqs@.len() - i,
    {
        let req = reqs[i].clone();
        push_dependency(out, req, build_dep, origin);
        proof {
            assert(rs.take(i + 1).drop_last() =~= rs.take(i as int));
        }
        i = i + 1;
    }
    assert(rs.take(i as int) =~= rs);
}

/// Collects the dependencies that the fields of `pyproject.toml` declare.
pub fn collect_from_pyproject(
    dependencies: &Vec<String>,
    build_requires: &Vec<String>,
    build_backend: Option<String>,
) -> (res: Vec<Dependency>)
    ensures
        view_deps(res@) == pyproject_deps(
            view_strings(dependencies@),
            view_strings(build_requires@),
            match build_backend {
                Some(b) => Some(b@),
                None => None,
            },
        ),
{
    let mut out: Vec<Dependency> = Vec::new();
    assert(view_deps(out@) =~= Seq::<DependencyModel>::empty());
    push_requirements(&mut out, dependencies, false, DependencyOrigin::Pep517Dependencies);
    push_requirements(&mut out, build_requires, true, DependencyOrigin::Pep517BuildRequires);
    let ghost mid = view_deps(out@);
    match build_backend {
        Some(backend) => {
            let bc = chars_of(backend.as_str());
            let dot = index_of_exec(&bc, '.', 0);
            let name = string_from_chars(bc.as_slice(), 0, dot);
            let ghost b = backend@;
            out.push(
                Dependency {
                    name,
                    build_dep: true,
                    origin: DependencyOrigin::Pep517BuildBackend,
                    raw_req: backend,
                },
            );
            assert(view_deps(out@) =~= mid + seq![
                DependencyModel {
                    name: backend_module(b),
                    build_dep: true,
                    origin: DependencyOrigin::Pep517BuildBackend,
                    raw_req: b,
                },
            ]);
        },
        None => {
            assert(view_deps(out@) =~= mid + Seq::<DependencyModel>::empty());
        },
    }
    out
}

/// The names of a list of strings.
pub open spec fn names_of(v: Seq<String>) -> Seq<Seq<char>> {
    v.map_values(|s: String| s@)
}

/// Finds a string among strings.
pub fn strings_contain(v: &Vec<String>, x: &str) -> (res: bool)
    ensures
        res == names_of(v@).contains(x@),
{
    let mut i: usize = 0;
    while i < v.len()
        invariant
            0 <= i <= v@.len(),
            forall|k: int| 0 <= k < i ==> v@[k]@ != x@,
        decreases v@.len() - i,
    {
        if str_eq(v[i].as_str(), x) {
            assert(names_of(v@)[i as int] == x@);
            return true;
        }
        i = i + 1;
    }
    assert forall|k: int| 0 <= k < names_of(v@).len() implies names_of(v@)[k] != x@ by {
        assert(names_of(v@)[k] == v@[k]@);
    }
    false
}

/// The AOSC name of a Python package: `_` turned into `-`.
pub open spec fn aosc_name(n: Seq<char>) -> Seq<char> {
    n.map_values(|c: char| if c == '_' { '-' } else { c })
}

/// The package that already provides a dependency among the declared
/// ones: its AOSC name, where `PKGDEP`, or `BUILDDEP` for a build
/// dependency, holds it.
pub open spec fn declared_provider(d: DependencyModel, pkgdep: Seq<Seq<char>>, builddep: Seq<Seq<char>>) -> Option<
    Seq<char>,
> {
    let n = aosc_name(d.name);
    if pkgdep.contains(n) || (d.build_dep && builddep.contains(n)) {
        Some(n)
    } else {
        None
    }
}

/// Finds the package that already provides a dependency among the declared
/// ones, by its AOSC name.
pub fn find_declared_provider(dep: &Dependency, pkgdep: &Vec<String>, builddep: &Vec<String>) -> (res:
    Option<String>)
    ensures
        match res {
            Some(n) => declared_provider(dep@, names_of(pkgdep@), names_of(builddep@)) == Some(n@),
            None => declared_provider(dep@, names_of(pkgdep@), names_of(builddep@)) is None,
        },
{
    let n = dep.guess_aosc_package_name();
    if strings_contain(pkgdep, n.as_str()) || (dep.build_dep && strings_contain(builddep, n.as_str())) {
        Some(n)
    } else {
        None
    }
}

/// The path fragment under which the files of a Python package lie in the
/// system packages' contents: `/site-packages/NAME/`, with `-` turned into
/// `_`.
pub open spec fn site_packages_key(name: Seq<char>) -> Seq<char> {
    "/site-packages/"@ + name.map_values(|c: char| if c == '-' { '_' } else { c }) + "/"@
}

/// The path fragment to look a Python package up by in the system
/// packages' contents.
pub fn site_packages_path(dep: &Dependency) -> (res: String)
    ensures
        res@ == site_packages_key(dep.name@),
{
    let cs = chars_of(dep.name.as_str());
    let mut out = "/site-packages/".to_string();
    let ghost start = out@;
    let mut i: usize = 0;
    while i < cs.len()
        invariant
            cs@ == dep.name@,
            0 <= i <= cs@.len(),
            start == "/site-packages/"@,
            out@ == start + cs@.take(i as int).map_values(|c: char| if c == '-' { '_' } else { c }),
        decreases cs@.len() - i,
    {
        let c = cs[i];
        push_char(&mut out, if c == '-' { '_' } else { c });
        proof {
            assert(cs@.take(i + 1) =~= cs@.take(i as int).push(c));
        }
        i = i + 1;
        assert(out@ =~= start + cs@.take(i as int).map_values(|c: char| if c == '-' { '_' } else { c }));
    }
    assert(cs@.take(i as int) =~= cs@);
    push_string(&mut out, "/");
    out
}

/// A file of a system package that is part of a Python installation.
pub open spec fn python_site_file(path: Seq<char>) -> bool {
    "/usr/lib/python"@.len() <= path.len() && path.take("/usr/lib/python"@.len() as int) == "/usr/lib/python"@
}

/// Tells whether a file of a system package is part of a Python
/// installation.
pub fn is_python_site_file(path: &str) -> (res: bool)
    ensures
        res == python_site_file(path@),
{
    let cs = chars_of(path);
    let p = chars_of("/usr/lib/python");
    if p.len() > cs.len() {
        return false;
    }
    let head = string_from_chars(cs.as_slice(), 0, p.len());
    assert(cs@.subrange(0, p@.len() as int) =~= cs@.take(p@.len() as int));
    str_eq(head.as_str(), "/usr/lib/python")
}

/// A build type that the Python checks apply to: none given, `pep517` or
/// `python`.
pub open spec fn python_build_type(abtype: Option<Seq<char>>) -> bool {
    match abtype {
        Some(t) => t == "pep517"@ || t == "python"@,
        None => true,
    }
}

/// Tells whether the Python checks apply to a build type.
pub fn is_python_build_type(abtype: Option<&str>) -> (res: bool)
    ensures
        res == python_build_type(match abtype {
            Some(t) => Some(t@),
            None => None,
        }),
{
    match abtype {
        Some(t) => str_eq(t, "pep517") || str_eq(t, "python"),
        None => true,
    }
}

/// A provider is missing from the declared dependencies: from `PKGDEP`,
/// and for a build dependency from `BUILDDEP` as well.
pub open spec fn provider_missing(build_dep: bool, provider: Seq<char>, pkgdep: Seq<Seq<char>>, builddep: Seq<Seq<char>>) -> bool {
    !(pkgdep.contains(provider) || (build_dep && builddep.contains(provider)))
}

/// Checks that a provider is declared, and unless `dry` declares it where
/// it is missing: in `PKGDEP` for a runtime dependency, in `BUILDDEP` for a
/// build dependency. Returns whether it was missing.
pub fn add_provider(
    provider: &str,
    is_build: bool,
    pkgdep: &mut Vec<String>,
    builddep: &mut Vec<String>,
    dry: bool,
) -> (res: bool)
    ensures
        res == provider_missing(is_build, provider@, names_of(old(pkgdep)@), names_of(old(builddep)@)),
        names_of(final(pkgdep)@) == if res && !dry && !is_build {
            names_of(old(pkgdep)@).push(provider@)
        } else {
            names_of(old(pkgdep)@)
        },
        names_of(final(builddep)@) == if res && !dry && is_build {
            names_of(old(builddep)@).push(provider@)
        } else {
            names_of(old(builddep)@)
        },
{
    if strings_contain(pkgdep, provider) || (is_build && strings_contain(builddep, provider)) {
        return false;
    }
    if !dry {
        if !is_build {
            let ghost before = names_of(pkgdep@);
            pkgdep.push(provider.to_string());
            assert(names_of(pkgdep@) =~= before.push(provider@));
        } else {
            let ghost before = names_of(builddep@);
            builddep.push(provider.to_string());
            assert(names_of(builddep@) =~= before.push(provider@));
        }
    }
    true
}

/// Checks that the provider of a dependency is declared, and unless `dry`
/// declares it where it is missing: in `PKGDEP` for a runtime dependency,
/// in `BUILDDEP` for a build dependency. Returns whether it was missing.
pub fn declare_provider(
    dep: &Dependency,
    provider: &str,
    pkgdep: &mut Vec<String>,
    builddep: &mut Vec<String>,
    dry: bool,
) -> (res: bool)
    ensures
        res == provider_missing(dep.build_dep, provider@, names_of(old(pkgdep)@), names_of(old(builddep)@)),
        names_of(final(pkgdep)@) == if res && !dry && !dep.build_dep {
            names_of(old(pkgdep)@).push(provider@)
        } else {
            names_of(old(pkgdep)@)
        },
        names_of(final(builddep)@) == if res && !dry && dep.build_dep {
            names_of(old(builddep)@).push(provider@)
        } else {
            names_of(old(builddep)@)
        },
{
    add_provider(provider, dep.build_dep, pkgdep, builddep, dry)
}

/// What the PEP-517 checks found in a recipe.
#[derive(Debug, PartialEq, Eq)]
pub struct Pep517Findings {
    /// `ABTYPE=python` should go, to let the build template be detected.
    pub upgrade_abtype: bool,
    /// `NOPYTHON2=1` is missing.
    pub missing_nopython2: bool,
    /// `PKGDEP` holds `python-2`.
    pub python2_dep: bool,
    /// `PKGDEP` misses `python-3`.
    pub missing_python3_dep: bool,
}

/// The first position of a name in a list, if it is there.
pub open spec fn first_index(v: Seq<Seq<char>>, x: Seq<char>, i: int) -> Option<int>
    decreases v.len() - i,
{
    if i < 0 || i >= v.len() {
        None
    } else if v[i] == x {
        Some(i)
    } else {
        first_index(v, x, i + 1)
    }
}

/// `PKGDEP` after the PEP-517 fixes: without its first `python-2` and with
/// `python-3` added where it is missing.
pub open spec fn pep517_pkgdep(pkgdep: Seq<Seq<char>>) -> Seq<Seq<char>> {
    let p = match first_index(pkgdep, "python-2"@, 0) {
        Some(i) => pkgdep.remove(i),
        None => pkgdep,
    };
    if p.contains("python-3"@) {
        p
    } else {
        p.push("python-3"@)
    }
}

/// Checks a recipe of a package built with PEP-517: its `ABTYPE`, its
/// `NOPYTHON2` and the Python versions in its `PKGDEP`; unless `dry`, fixes
/// `PKGDEP`.
pub fn pep517_checks(abtype: Option<&str>, nopython2: &str, pkgdep: &mut Vec<String>, dry: bool) -> (res:
    Pep517Findings)
    ensures
        res.upgrade_abtype == (match abtype {
            Some(t) => t@ == "python"@,
            None => false,
        }),
        res.missing_nopython2 == (nopython2@ != "1"@),
        res.python2_dep == names_of(old(pkgdep)@).contains("python-2"@),
        res.missing_python3_dep == !names_of(old(pkgdep)@).contains("python-3"@),
        names_of(final(pkgdep)@) == if dry {
            names_of(old(pkgdep)@)
        } else {
            pep517_pkgdep(names_of(old(pkgdep)@))
        },
{
    let upgrade_abtype = match abtype {
        Some(t) => str_eq(t, "python"),
        None => false,
    };
    let missing_nopython2 = !str_eq(nopython2, "1");
    let ghost o = names_of(pkgdep@);
    proof {
        reveal_strlit("python-2");
        reveal_strlit("python-3");
        assert("python-2"@[7] != "python-3"@[7]);
        lemma_first_index_found(o, "python-2"@);
    }
    let python2_dep = strings_contain(pkgdep, "python-2");
    if python2_dep && !dry {
        let mut i: usize = 0;
        let mut found = false;
        while i < pkgdep.len() && !found
            invariant
                0 <= i <= pkgdep@.len(),
                o == names_of(pkgdep@),
                first_index(o, "python-2"@, 0) == if found {
                    Some(i as int)
                } else {
                    first_index(o, "python-2"@, i as int)
                },
                found ==> i < pkgdep@.len(),
            decreases pkgdep@.len() - i, if found { 0int } else { 1int },
        {
            assert(o[i as int] == pkgdep@[i as int]@);
            if str_eq(pkgdep[i].as_str(), "python-2") {
                found = true;
            } else {
                i = i + 1;
            }
        }
        if found {
            pkgdep.remove(i);
            assert(names_of(pkgdep@) =~= o.remove(i as int));
        }
    }
    assert(names_of(pkgdep@) == if dry {
        o
    } else {
        match first_index(o, "python-2"@, 0) {
            Some(k) => o.remove(k),
            None => o,
        }
    });
    let ghost mid = names_of(pkgdep@);
    let has3 = strings_contain(pkgdep, "python-3");
    proof {
        lemma_remove_keeps(o, "python-2"@, "python-3"@);
    }
    if !has3 && !dry {
        pkgdep.push("python-3".to_string());
        assert(names_of(pkgdep@) =~= mid.push("python-3"@));
    }
    Pep517Findings { upgrade_abtype, missing_nopython2, python2_dep, missing_python3_dep: !has3 }
}

proof fn lemma_first_index_from(v: Seq<Seq<char>>, x: Seq<char>, i: int)
    requires
        0 <= i <= v.len(),
    ensures
        match first_index(v, x, i) {
            Some(k) => i <= k < v.len() && v[k] == x && forall|m: int| i <= m < k ==> v[m] != x,
            None => forall|m: int| i <= m < v.len() ==> v[m] != x,
        },
    decreases v.len() - i,
{
    if i < v.len() && v[i] != x {
        lemma_first_index_from(v, x, i + 1);
    }
}

/// A name that a list holds has a first position in it.
proof fn lemma_first_index_found(v: Seq<Seq<char>>, x: Seq<char>)
    ensures
        v.contains(x) <==> first_index(v, x, 0) is Some,
{
    lemma_first_index_from(v, x, 0);
}

/// Removing the first `a` leaves every other name where it was held.
proof fn lemma_remove_keeps(v: Seq<Seq<char>>, a: Seq<char>, b: Seq<char>)
    requires
        a != b,
    ensures
        (match first_index(v, a, 0) {
            Some(i) => v.remove(i),
            None => v,
        }).contains(b) == v.contains(b),
{
    lemma_first_index_from(v, a, 0);
    match first_index(v, a, 0) {
        Some(i) => {
            let r = v.remove(i);
            if v.contains(b) {
                let k = choose|k: int| 0 <= k < v.len() && v[k] == b;
                if k < i {
                    assert(r[k] == b);
                } else {
                    assert(k != i);
                    assert(r[k - 1] == b);
                }
            }
            if r.contains(b) {
                let k = choose|k: int| 0 <= k < r.len() && r[k] == b;
                if k < i {
                    assert(v[k] == b);
                } else {
                    assert(v[k + 1] == b);
                }
            }
        },
        None => {},
    }
}

/// A requirement of `pyproject.toml` without its version: cut before the
/// first `<` if there is one, else before the first `>`, else before the
/// first `=`.
pub open spec fn pep517_version_cut(d: Seq<char>) -> Seq<char> {
    if index_of(d, '<', 0) < d.len() {
        d.take(index_of(d, '<', 0))
    } else if index_of(d, '>', 0) < d.len() {
        d.take(index_of(d, '>', 0))
    } else if index_of(d, '=', 0) < d.len() {
        d.take(index_of(d, '=', 0))
    } else {
        d
    }
}

/// The Python package that a requirement of `pyproject.toml` (or its build
/// backend) asks for: none for a requirement whose condition, after `;`,
/// names `platform_system` and `windows` in any case; else the text before
/// `;` without its version.
pub open spec fn pep517_requirement(req: Seq<char>) -> Option<Seq<char>> {
    let semi = index_of(req, ';', 0);
    if semi < req.len() {
        let cond = ascii_lower_spec(req.subrange(semi + 1, req.len() as int));
        if contains(cond, "platform_system"@) && contains(cond, "windows"@) {
            None
        } else {
            Some(pep517_version_cut(req.take(semi)))
        }
    } else {
        Some(pep517_version_cut(req))
    }
}

fn cut_at_first(s: &Vec<char>, c: char) -> (res: Option<Vec<char>>)
    ensures
        match res {
            Some(t) => index_of(s@, c, 0) < s@.len() && t@ == s@.take(index_of(s@, c, 0)),
            None => index_of(s@, c, 0) == s@.len(),
        },
{
    let i = index_of_exec(s, c, 0);
    if i < s.len() {
        Some(slice_chars(s, 0, i))
    } else {
        None
    }
}

/// The Python package that a requirement of `pyproject.toml` asks for.
pub fn pep517_dependency(req: &str) -> (res: Option<String>)
    ensures
        match res {
            Some(n) => pep517_requirement(req@) == Some(n@),
            None => pep517_requirement(req@) is None,
        },
{
    let s = chars_of(req);
    let semi = index_of_exec(&s, ';', 0);
    let d = if semi < s.len() {
        let cond = string_from_chars(s.as_slice(), semi + 1, s.len());
        let lower = ascii_lower(cond.as_str());
        let lc = chars_of(lower.as_str());
        if contains_exec(&lc, "platform_system") && contains_exec(&lc, "windows") {
            return None;
        }
        slice_chars(&s, 0, semi)
    } else {
        assert(s@.take(s@.len() as int) =~= s@);
        slice_chars(&s, 0, s.len())
    };
    let cut = match cut_at_first(&d, '<') {
        Some(t) => t,
        None => match cut_at_first(&d, '>') {
            Some(t) => t,
            None => match cut_at_first(&d, '=') {
                Some(t) => t,
                None => d,
            },
        },
    };
    let n = string_from_chars(cut.as_slice(), 0, cut.len());
    assert(cut@.subrange(0, cut@.len() as int) =~= cut@);
    Some(n)
}

/// The name by which a `pyproject.toml` dependency is looked for among the
/// declared ones: `_` turned into `-`, then lower-cased in ASCII.
pub open spec fn pep517_uniform_name(dep: Seq<char>) -> Seq<char> {
    ascii_lower_spec(aosc_name(dep))
}

/// Gives the name by which a dependency is looked for among the declared
/// ones.
pub fn pep517_uniform(dep: &str) -> (res: String)
    ensures
        res@ == pep517_uniform_name(dep@),
{
    let d = dashes_for_underscores(dep);
    ascii_lower(d.as_str())
}

/// Whether a package is declared: in `PKGDEP`, or for a build dependency in
/// `BUILDDEP`.
pub open spec fn pep517_is_declared(name: Seq<char>, is_build: bool, pkgdep: Seq<Seq<char>>, builddep: Seq<Seq<char>>) -> bool {
    pkgdep.contains(name) || (is_build && builddep.contains(name))
}

/// Tells whether a package is declared: in `PKGDEP`, or for a build
/// dependency in `BUILDDEP`.
pub fn pep517_declared(name: &str, is_build: bool, pkgdep: &Vec<String>, builddep: &Vec<String>) -> (res: bool)
    ensures
        res == pep517_is_declared(name@, is_build, names_of(pkgdep@), names_of(builddep@)),
{
    strings_contain(pkgdep, name) || (is_build && strings_contain(builddep, name))
}

/// The path fragment to look a `pyproject.toml` dependency up by in the
/// system packages' contents: `/site-packages/NAME/`, the name as written.
pub fn pep517_site_path(dep: &str) -> (res: String)
    ensures
        res@ == "/site-packages/"@ + dep@ + "/"@,
{
    let mut out = "/site-packages/".to_string();
    push_string(&mut out, dep);
    push_string(&mut out, "/");
    out
}

} // verus!
