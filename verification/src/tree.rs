//! ABBS tree operators.
//!
//! An ABBS tree is a directory of sections (`app-admin`, ...), each holding
//! source package directories, each holding sub-package directories. The
//! accessors here compute paths and decide over directory listings; reading
//! the directories is left to the caller, which hands the entries in.
//!
//! Paths are strings; joining a path and taking its last component or its
//! parent are std's `Path::join`, `Path::file_name` and `Path::parent`.

use vstd::prelude::*;

use crate::chars::{chars_of, str_eq, string_from_chars};

verus! {

/// `std::io::Error`, an I/O failure while reading the tree.
#[verifier::external_type_specification]
#[verifier::external_body]
pub struct ExIoError(std::io::Error);

/// The path `rel` adjoined to `base`, as `Path::join` makes it.
pub uninterp spec fn path_join(base: Seq<char>, rel: Seq<char>) -> Seq<char>;

/// The last component of a path, as `Path::file_name` gives it.
pub uninterp spec fn path_file_name(p: Seq<char>) -> Option<Seq<char>>;

/// The path without its last component, as `Path::parent` gives it.
pub uninterp spec fn path_parent(p: Seq<char>) -> Option<Seq<char>>;

/// The path `p` relative to `base`, as `Path::strip_prefix` gives it
/// (`None` when `base` is not a prefix of `p`).
pub uninterp spec fn path_strip_prefix(p: Seq<char>, base: Seq<char>) -> Option<Seq<char>>;

/// The first position at which two texts differ, or the end of the
/// shorter one; with the same position as a ghost integer.
pub(crate) fn first_difference(a: &Vec<char>, b: &Vec<char>) -> (res: (usize, Ghost<int>))
    ensures
        res.1@ == res.0,
        0 <= res.1@ <= a@.len(),
        res.1@ <= b@.len(),
        a@.take(res.1@) == b@.take(res.1@),
        res.1@ < a@.len() && res.1@ < b@.len() ==> a@[res.1@] != b@[res.1@],
{
    let mut i: usize = 0;
    while i < a.len() && i < b.len() && a[i] == b[i]
        invariant
            0 <= i <= a@.len(),
            i <= b@.len(),
            a@.take(i as int) == b@.take(i as int),
        decreases a@.len() - i,
    {
        proof {
            assert(a@.take(i + 1) =~= a@.take(i as int).push(a@[i as int]));
            assert(b@.take(i + 1) =~= b@.take(i as int).push(b@[i as int]));
        }
        i = i + 1;
    }
    (i, Ghost(i as int))
}

/// Whether two paths are equal as `Path`s compare them: component by
/// component.
pub uninterp spec fn path_eq(a: Seq<char>, b: Seq<char>) -> bool;

/// Compares two paths with `==` on `Path`; the result is named by
/// [`path_eq`].
#[verifier::external_body]
pub(crate) fn same_path(a: &str, b: &str) -> (res: bool)
    ensures
        res == path_eq(a@, b@),
{
    std::path::Path::new(a) == std::path::Path::new(b)
}

/// Calls `Path::strip_prefix`; the result is named by [`path_strip_prefix`].
#[verifier::external_body]
pub(crate) fn strip_prefix_of(p: &str, base: &str) -> (res: Option<String>)
    ensures
        match res {
            Some(r) => path_strip_prefix(p@, base@) == Some(r@),
            None => path_strip_prefix(p@, base@) is None,
        },
{
    std::path::Path::new(p).strip_prefix(base).ok().map(|r| r.to_string_lossy().into_owned())
}

/// A single normal path component: not empty, without `'/'`, and neither
/// `.` nor `..`.
pub open spec fn normal_component(n: Seq<char>) -> bool {
    n.len() > 0 && !n.contains('/') && n != "."@ && n != ".."@
}

/// A path that ends in a component other than `.`, without a trailing
/// `'/'`: `Path::parent` of it joined with one more component gives it back.
pub open spec fn joinable_base(b: Seq<char>) -> bool {
    b.len() > 0 && b.last() != '/' && !(b.last() == '.' && (b.len() == 1 || b[b.len() - 2] == '/'))
}

/// Calls `Path::join`; the result is named by [`path_join`]. An absolute
/// `rel` replaces `base`; a relative one is added after `base` and a
/// separator, where `base` does not end with one, as the documentation of
/// `PathBuf::push` says (on Unix); and `Path::parent` of the result, which
/// drops its final component, is `base` again where `rel` is one normal
/// component.
#[verifier::external_body]
fn join_paths(base: &str, rel: &str) -> (res: String)
    ensures
        res@ == path_join(base@, rel@),
        rel@.len() > 0 && rel@[0] == '/' ==> res@ == rel@,
        rel@.len() > 0 && rel@[0] != '/' && base@.len() > 0 && base@.last() != '/' ==> res@
            == base@ + "/"@ + rel@,
        normal_component(rel@) && joinable_base(base@) ==> path_parent(res@) == Some(base@),
{
    std::path::Path::new(base).join(rel).to_string_lossy().into_owned()
}

/// Calls `Path::file_name`; the result is named by [`path_file_name`].
#[verifier::external_body]
fn file_name_of(p: &str) -> (res: Option<String>)
    ensures
        match res {
            Some(n) => path_file_name(p@) == Some(n@),
            None => path_file_name(p@) is None,
        },
{
    std::path::Path::new(p).file_name().map(|n| n.to_string_lossy().into_owned())
}

/// Calls `Path::parent`; the result is named by [`path_parent`].
#[verifier::external_body]
fn parent_of(p: &str) -> (res: Option<String>)
    ensures
        match res {
            Some(n) => path_parent(p@) == Some(n@),
            None => path_parent(p@) is None,
        },
{
    std::path::Path::new(p).parent().map(|n| n.to_string_lossy().into_owned())
}

/// An entry of a directory listing.
pub struct DirEntry {
    /// The file name of the entry.
    pub name: String,
    /// Whether the entry is a directory.
    pub is_dir: bool,
    /// Whether the entry is a regular file.
    pub is_file: bool,
}

/// Errors of tree operations.
#[derive(Debug)]
pub enum AbbsError {
    /// Reading the tree failed.
    IoError(std::io::Error),
    /// No section holds the package.
    PackageNotFound(String),
}

/// A section directory name: not hidden, and holding a `'-'`.
pub open spec fn is_section_name(n: Seq<char>) -> bool {
    !(n.len() > 0 && n[0] == '.') && n.contains('-')
}

/// Whether a name holds a `'-'` and does not start with `'.'`.
fn section_like(n: &str) -> (res: bool)
    ensures
        res == is_section_name(n@),
{
    let cs = chars_of(n);
    if cs.len() > 0 && cs[0] == '.' {
        return false;
    }
    let mut i: usize = 0;
    while i < cs.len()
        invariant
            cs@ == n@,
            0 <= i <= cs@.len(),
            !(cs@.len() > 0 && cs@[0] == '.'),
            forall|j: int| 0 <= j < i ==> cs@[j] != '-',
        decreases cs@.len() - i,
    {
        if cs[i] == '-' {
            assert(n@[i as int] == '-');
            return true;
        }
        i = i + 1;
    }
    false
}

pub open spec fn entry_names(es: Seq<DirEntry>) -> Seq<Seq<char>> {
    es.map_values(|e: DirEntry| e.name@)
}

/// The names of the entries that a test keeps, in order.
pub open spec fn kept_names(es: Seq<DirEntry>, keep: spec_fn(DirEntry) -> bool) -> Seq<Seq<char>>
    decreases es.len(),
{
    if es.len() == 0 {
        Seq::empty()
    } else if keep(es.last()) {
        kept_names(es.drop_last(), keep).push(es.last().name@)
    } else {
        kept_names(es.drop_last(), keep)
    }
}

pub open spec fn section_entry(e: DirEntry) -> bool {
    e.is_dir && is_section_name(e.name@)
}

pub open spec fn dir_entry(e: DirEntry) -> bool {
    e.is_dir
}

/// The suffixes of the regular files named `defines<suffix>`, in order.
pub open spec fn defines_suffixes(es: Seq<DirEntry>) -> Seq<Seq<char>>
    decreases es.len(),
{
    if es.len() == 0 {
        Seq::empty()
    } else {
        let e = es.last();
        let n = e.name@;
        if e.is_file && n.len() >= 7 && n.take(7) == "defines"@ {
            defines_suffixes(es.drop_last()).push(n.skip(7))
        } else {
            defines_suffixes(es.drop_last())
        }
    }
}

/// Sequences joined one after another.
pub open spec fn concat_all<T>(s: Seq<Seq<T>>) -> Seq<T>
    decreases s.len(),
{
    if s.len() == 0 {
        Seq::empty()
    } else {
        concat_all(s.drop_last()) + s.last()
    }
}

/// The joined paths of names under a directory.
pub open spec fn joined_all(dir: Seq<char>, names: Seq<Seq<char>>) -> Seq<Seq<char>> {
    names.map_values(|n: Seq<char>| path_join(dir, n))
}

/// An ABBS tree.
#[derive(Debug)]
pub struct AbbsTree(String);

impl View for AbbsTree {
    type V = Seq<char>;

    closed spec fn view(&self) -> Seq<char> {
        self.0@
    }
}

/// An ABBS source package.
#[derive(Debug)]
pub struct AbbsSourcePackage(String);

impl View for AbbsSourcePackage {
    type V = Seq<char>;

    closed spec fn view(&self) -> Seq<char> {
        self.0@
    }
}

/// An ABBS sub-package.
#[derive(Debug)]
pub struct AbbsSubPackage(String);

impl View for AbbsSubPackage {
    type V = Seq<char>;

    closed spec fn view(&self) -> Seq<char> {
        self.0@
    }
}

/// Keeps the names of the entries that pass a test.
fn filter_names(es: &Vec<DirEntry>, sections: bool) -> (res: Vec<String>)
    ensures
        res@.map_values(|s: String| s@) == kept_names(
            es@,
            if sections {
                |e: DirEntry| section_entry(e)
            } else {
                |e: DirEntry| dir_entry(e)
            },
        ),
{
    let ghost keep = if sections {
        |e: DirEntry| section_entry(e)
    } else {
        |e: DirEntry| dir_entry(e)
    };
    let mut out: Vec<String> = Vec::new();
    let mut i: usize = 0;
    while i < es.len()
        invariant
            0 <= i <= es@.len(),
            keep == (if sections {
                |e: DirEntry| section_entry(e)
            } else {
                |e: DirEntry| dir_entry(e)
            }),
            out@.map_values(|s: String| s@) == kept_names(es@.take(i as int), keep),
        decreases es@.len() - i,
    {
        let e = &es[i];
        let ok = if sections {
            e.is_dir && section_like(e.name.as_str())
        } else {
            e.is_dir
        };
        let ghost before = out@;
        proof {
            assert(es@.take(i + 1).drop_last() =~= es@.take(i as int));
            assert(es@.take(i + 1).last() == *e);
        }
        if ok {
            out.push(e.name.clone());
            assert(out@.map_values(|s: String| s@) =~= before.map_values(|s: String| s@).push(
                e.name@,
            ));
        }
        i = i + 1;
    }
    assert(es@.take(es@.len() as int) =~= es@);
    out
}

/// The paths of names joined under a directory.
fn join_all(dir: &str, names: Vec<String>) -> (res: Vec<String>)
    ensures
        res@.map_values(|s: String| s@) == joined_all(dir@, names@.map_values(|s: String| s@)),
        forall|j: int|
            0 <= j < res@.len() && normal_component(names@[j]@) && joinable_base(dir@) ==> path_parent(
                (#[trigger] res@[j])@,
            ) == Some(dir@),
{
    let mut out: Vec<String> = Vec::new();
    let mut i: usize = 0;
    while i < names.len()
        invariant
            0 <= i <= names@.len(),
            out@.len() == i,
            forall|j: int| 0 <= j < i ==> (#[trigger] out@[j])@ == path_join(dir@, names@[j]@),
            forall|j: int|
                0 <= j < i && normal_component(names@[j]@) && joinable_base(dir@) ==> path_parent(
                    (#[trigger] out@[j])@,
                ) == Some(dir@),
        decreases names@.len() - i,
    {
        out.push(join_paths(dir, names[i].as_str()));
        i = i + 1;
    }
    assert(out@.map_values(|s: String| s@) =~= joined_all(dir@, names@.map_values(|s: String| s@)));
    out
}

impl AbbsTree {
    /// Opens an ABBS tree at the given path.
    pub fn new(path: &str) -> (res: AbbsTree)
        ensures
            res@ == path@,
    {
        AbbsTree(path.to_owned())
    }

    /// Returns the path of the tree.
    pub fn as_path(&self) -> (res: &str)
        ensures
            res@ == self@,
    {
        self.0.as_str()
    }

    /// Returns the path of the tree.
    pub fn into_path(self) -> (res: String)
        ensures
            res@ == self@,
    {
        self.0
    }

    /// The path `path` adjoined to the tree's.
    pub fn join(&self, path: &str) -> (res: String)
        ensures
            res@ == path_join(self@, path@),
    {
        join_paths(self.0.as_str(), path)
    }

    /// The sections among the entries of the tree's directory: directories
    /// whose names are not hidden and hold a `'-'`, e.g. `app-admin`.
    pub fn sections(&self, entries: &Vec<DirEntry>) -> (res: Vec<String>)
        ensures
            res@.map_values(|s: String| s@) == kept_names(
                entries@,
                |e: DirEntry| section_entry(e),
            ),
    {
        filter_names(entries, true)
    }

    /// The directory of a source package in a section.
    pub fn package_dir(&self, section: &str, name: &str) -> (res: String)
        ensures
            res@ == path_join(path_join(self@, section@), name@),
    {
        let s = self.join(section);
        join_paths(s.as_str(), name)
    }

    /// The source package `name` in `section`, given whether its directory
    /// holds a package (a directory with a `spec` file).
    pub fn package(&self, section: &str, name: &str, is_package: bool) -> (res: Option<
        AbbsSourcePackage,
    >)
        ensures
            match res {
                Some(p) => is_package && p@ == path_join(path_join(self@, section@), name@),
                None => !is_package,
            },
    {
        if is_package {
            Some(AbbsSourcePackage(self.package_dir(section, name)))
        } else {
            None
        }
    }

    /// All source packages, from the packages of each section in order.
    pub fn all_packages(&self, per_section: Vec<Vec<AbbsSourcePackage>>) -> (res: Vec<
        AbbsSourcePackage,
    >)
        ensures
            res@ == concat_all(per_section@.map_values(|v: Vec<AbbsSourcePackage>| v@)),
    {
        let ghost all = per_section@.map_values(|v: Vec<AbbsSourcePackage>| v@);
        let mut lists = per_section;
        let mut out: Vec<AbbsSourcePackage> = Vec::new();
        let mut i: usize = 0;
        while i < lists.len()
            invariant
                0 <= i <= lists@.len(),
                lists@.len() == all.len(),
                forall|j: int| i <= j < all.len() ==> (#[trigger] lists@[j])@ == all[j],
                out@ == concat_all(all.take(i as int)),
            decreases lists@.len() - i,
        {
            let mut l: Vec<AbbsSourcePackage> = Vec::new();
            std::mem::swap(&mut l, &mut lists[i]);
            let ghost before = out@;
            let ghost lv = l@;
            out.append(&mut l);
            proof {
                assert(all.take(i + 1).drop_last() =~= all.take(i as int));
                assert(all.take(i + 1).last() == lv);
            }
            i = i + 1;
        }
        assert(all.take(all.len() as int) =~= all);
        out
    }

    /// The source packages among the entries of a section directory.
    pub fn section_packages(&self, section: &str, entries: &Vec<DirEntry>) -> (res: Vec<
        AbbsSourcePackage,
    >)
        ensures
            res@.map_values(|p: AbbsSourcePackage| p@) == joined_all(
                path_join(self@, section@),
                kept_names(entries@, |e: DirEntry| dir_entry(e)),
            ),
    {
        let dir = self.join(section);
        let names = filter_names(entries, false);
        let paths = join_all(dir.as_str(), names);
        let mut out: Vec<AbbsSourcePackage> = Vec::new();
        let mut i: usize = 0;
        while i < paths.len()
            invariant
                0 <= i <= paths@.len(),
                out@.len() == i,
                forall|j: int| 0 <= j < i ==> (#[trigger] out@[j])@ == paths@[j]@,
            decreases paths@.len() - i,
        {
            out.push(AbbsSourcePackage(paths[i].clone()));
            i = i + 1;
        }
        assert(out@.map_values(|p: AbbsSourcePackage| p@) =~= paths@.map_values(|s: String| s@));
        out
    }

    /// Finds a source package: the first section, in order, whose directory
    /// holds the package.
    pub fn find_package(&self, name: &str, candidates: &Vec<(String, bool)>) -> (res: Result<
        AbbsSourcePackage,
        AbbsError,
    >)
        ensures
            match res {
                Ok(p) => exists|k: int|
                    0 <= k < candidates@.len() && candidates@[k].1 && (forall|j: int|
                        0 <= j < k ==> !(#[trigger] candidates@[j]).1) && p@ == path_join(
                        path_join(self@, candidates@[k].0@),
                        name@,
                    ),
                Err(AbbsError::PackageNotFound(n)) => n@ == name@ && forall|j: int|
                    0 <= j < candidates@.len() ==> !(#[trigger] candidates@[j]).1,
                Err(AbbsError::IoError(_)) => false,
            },
    {
        let mut i: usize = 0;
        while i < candidates.len()
            invariant
                0 <= i <= candidates@.len(),
                forall|j: int| 0 <= j < i ==> !(#[trigger] candidates@[j]).1,
            decreases candidates@.len() - i,
        {
            if candidates[i].1 {
                let p = self.package_dir(candidates[i].0.as_str(), name);
                return Ok(AbbsSourcePackage(p));
            }
            i = i + 1;
        }
        Err(AbbsError::PackageNotFound(name.to_owned()))
    }
}

/// The directory name of a package path (its last component).
pub open spec fn last_component(p: Seq<char>) -> Seq<char> {
    path_file_name(p)->0
}

impl AbbsSourcePackage {
    /// Opens an ABBS source package at the given path.
    pub fn new(path: &str) -> (res: AbbsSourcePackage)
        ensures
            res@ == path@,
    {
        AbbsSourcePackage(path.to_owned())
    }

    /// Returns the path of the package.
    pub fn as_path(&self) -> (res: &str)
        ensures
            res@ == self@,
    {
        self.0.as_str()
    }

    /// Returns the path of the package.
    pub fn into_path(self) -> (res: String)
        ensures
            res@ == self@,
    {
        self.0
    }

    /// The path `path` adjoined to the package's.
    pub fn join(&self, path: &str) -> (res: String)
        ensures
            res@ == path_join(self@, path@),
    {
        join_paths(self.0.as_str(), path)
    }

    /// The name of the package: the last component of its path, which must
    /// not be a root.
    pub fn name(&self) -> (res: String)
        requires
            path_file_name(self@) is Some,
        ensures
            path_file_name(self@) == Some(res@),
    {
        match file_name_of(self.0.as_str()) {
            Some(n) => n,
            None => String::new(),
        }
    }

    /// The name of the package, or `None` for a root path.
    pub fn try_name(&self) -> (res: Option<String>)
        ensures
            match res {
                Some(n) => path_file_name(self@) == Some(n@),
                None => path_file_name(self@) is None,
            },
    {
        match file_name_of(self.0.as_str()) {
            Some(_) => Some(self.name()),
            None => None,
        }
    }

    /// The section of the package: the last component of its parent.
    pub fn section(&self) -> (res: String)
        requires
            path_parent(self@) is Some,
            path_file_name(path_parent(self@)->0) is Some,
        ensures
            path_file_name(path_parent(self@)->0) == Some(res@),
    {
        match parent_of(self.0.as_str()) {
            Some(p) => match file_name_of(p.as_str()) {
                Some(n) => n,
                None => String::new(),
            },
            None => String::new(),
        }
    }

    /// The section of the package, or `None` where its path has no named
    /// parent.
    pub fn try_section(&self) -> (res: Option<String>)
        ensures
            match res {
                Some(n) => path_parent(self@) is Some && path_file_name(path_parent(self@)->0)
                    == Some(n@),
                None => path_parent(self@) is None || path_file_name(path_parent(self@)->0) is None,
            },
    {
        match parent_of(self.0.as_str()) {
            Some(p) => match file_name_of(p.as_str()) {
                Some(_) => Some(self.section()),
                None => None,
            },
            None => None,
        }
    }

    /// The tree holding the package: the parent of its section.
    pub fn tree(&self) -> (res: AbbsTree)
        requires
            path_parent(self@) is Some,
            path_parent(path_parent(self@)->0) is Some,
        ensures
            path_parent(path_parent(self@)->0) == Some(res@),
    {
        match parent_of(self.0.as_str()) {
            Some(p) => match parent_of(p.as_str()) {
                Some(t) => AbbsTree(t),
                None => AbbsTree(String::new()),
            },
            None => AbbsTree(String::new()),
        }
    }

    /// The tree holding the package, or `None` where the path has no
    /// grandparent.
    pub fn try_tree(&self) -> (res: Option<AbbsTree>)
        ensures
            match res {
                Some(t) => path_parent(self@) is Some && path_parent(path_parent(self@)->0) == Some(
                    t@,
                ),
                None => path_parent(self@) is None || path_parent(path_parent(self@)->0) is None,
            },
    {
        match parent_of(self.0.as_str()) {
            Some(p) => match parent_of(p.as_str()) {
                Some(_) => Some(self.tree()),
                None => None,
            },
            None => None,
        }
    }

    /// The sub-packages among the entries of the package directory.
    pub fn subpackages(&self, entries: &Vec<DirEntry>) -> (res: Vec<AbbsSubPackage>)
        ensures
            res@.map_values(|p: AbbsSubPackage| p@) == joined_all(
                self@,
                kept_names(entries@, |e: DirEntry| dir_entry(e)),
            ),
            forall|j: int|
                0 <= j < res@.len() && normal_component(
                    kept_names(entries@, |e: DirEntry| dir_entry(e))[j],
                ) && joinable_base(self@) ==> path_parent((#[trigger] res@[j])@) == Some(self@),
    {
        let names = filter_names(entries, false);
        let ghost ns = names@;
        let paths = join_all(self.0.as_str(), names);
        let mut out: Vec<AbbsSubPackage> = Vec::new();
        let mut i: usize = 0;
        while i < paths.len()
            invariant
                0 <= i <= paths@.len(),
                out@.len() == i,
                forall|j: int| 0 <= j < i ==> (#[trigger] out@[j])@ == paths@[j]@,
            decreases paths@.len() - i,
        {
            out.push(AbbsSubPackage(paths[i].clone()));
            i = i + 1;
        }
        assert(out@.map_values(|p: AbbsSubPackage| p@) =~= paths@.map_values(|s: String| s@));
        assert forall|j: int|
            0 <= j < out@.len() && normal_component(kept_names(entries@, |e: DirEntry| dir_entry(e))[j])
                && joinable_base(self@) implies path_parent((#[trigger] out@[j])@) == Some(self@) by {
            assert(ns.map_values(|s: String| s@)[j] == ns[j]@);
            assert(paths@[j]@ == out@[j]@);
        }
        out
    }

    /// The sub-package in directory `dir`, given whether that directory holds
    /// one (a directory with a `defines` file).
    pub fn subpackage(&self, dir: &str, is_subpackage: bool) -> (res: Option<AbbsSubPackage>)
        ensures
            match res {
                Some(p) => is_subpackage && p@ == path_join(self@, dir@) && (normal_component(dir@)
                    && joinable_base(self@) ==> path_parent(p@) == Some(self@)),
                None => !is_subpackage,
            },
    {
        if is_subpackage {
            Some(AbbsSubPackage(join_paths(self.0.as_str(), dir)))
        } else {
            None
        }
    }

    /// Two source packages are the same package when their names are.
    pub fn same_package(&self, other: &AbbsSourcePackage) -> (res: bool)
        ensures
            res == (path_file_name(self@) == path_file_name(other@)),
    {
        match (file_name_of(self.0.as_str()), file_name_of(other.0.as_str())) {
            (Some(a), Some(b)) => str_eq(a.as_str(), b.as_str()),
            (None, None) => true,
            _ => false,
        }
    }
}

impl AbbsSubPackage {
    /// Opens an ABBS sub-package at the given path.
    pub fn new(path: &str) -> (res: AbbsSubPackage)
        ensures
            res@ == path@,
    {
        AbbsSubPackage(path.to_owned())
    }

    /// Returns the path of the sub-package.
    pub fn as_path(&self) -> (res: &str)
        ensures
            res@ == self@,
    {
        self.0.as_str()
    }

    /// Returns the path of the sub-package.
    pub fn into_path(self) -> (res: String)
        ensures
            res@ == self@,
    {
        self.0
    }

    /// The path `path` adjoined to the sub-package's.
    pub fn join(&self, path: &str) -> (res: String)
        ensures
            res@ == path_join(self@, path@),
    {
        join_paths(self.0.as_str(), path)
    }

    /// The directory name of the sub-package, which must not be a root.
    pub fn dir_name(&self) -> (res: String)
        requires
            path_file_name(self@) is Some,
        ensures
            path_file_name(self@) == Some(res@),
    {
        match file_name_of(self.0.as_str()) {
            Some(n) => n,
            None => String::new(),
        }
    }

    /// The directory name of the sub-package, or `None` for a root path.
    pub fn try_dir_name(&self) -> (res: Option<String>)
        ensures
            match res {
                Some(n) => path_file_name(self@) == Some(n@),
                None => path_file_name(self@) is None,
            },
    {
        match file_name_of(self.0.as_str()) {
            Some(_) => Some(self.dir_name()),
            None => None,
        }
    }

    /// The source package holding the sub-package: its parent directory.
    pub fn source_package(&self) -> (res: AbbsSourcePackage)
        requires
            path_parent(self@) is Some,
        ensures
            path_parent(self@) == Some(res@),
    {
        match parent_of(self.0.as_str()) {
            Some(p) => AbbsSourcePackage(p),
            None => AbbsSourcePackage(String::new()),
        }
    }

    /// The source package holding the sub-package, or `None` for a root path.
    pub fn try_source_package(&self) -> (res: Option<AbbsSourcePackage>)
        ensures
            match res {
                Some(p) => path_parent(self@) == Some(p@),
                None => path_parent(self@) is None,
            },
    {
        match parent_of(self.0.as_str()) {
            Some(_) => Some(self.source_package()),
            None => None,
        }
    }

    /// The modifier suffixes of the sub-package: for each regular file
    /// `defines<suffix>` among the entries, `<suffix>` (`""` for the plain
    /// variant, `".stage2"` for the stage2 one).
    pub fn modifier_suffixes(&self, entries: &Vec<DirEntry>) -> (res: Vec<String>)
        ensures
            res@.map_values(|s: String| s@) == defines_suffixes(entries@),
    {
        let mut out: Vec<String> = Vec::new();
        let mut i: usize = 0;
        proof {
            reveal_strlit("defines");
        }
        while i < entries.len()
            invariant
                0 <= i <= entries@.len(),
                "defines"@ == seq!['d', 'e', 'f', 'i', 'n', 'e', 's'],
                out@.map_values(|s: String| s@) == defines_suffixes(entries@.take(i as int)),
            decreases entries@.len() - i,
        {
            let e = &entries[i];
            let ghost before = out@;
            proof {
                assert(entries@.take(i + 1).drop_last() =~= entries@.take(i as int));
                assert(entries@.take(i + 1).last() == *e);
            }
            if e.is_file {
                let cs = chars_of(e.name.as_str());
                if cs.len() >= 7 && cs[0] == 'd' && cs[1] == 'e' && cs[2] == 'f' && cs[3] == 'i'
                    && cs[4] == 'n' && cs[5] == 'e' && cs[6] == 's' {
                    let suffix = string_from_chars(cs.as_slice(), 7, cs.len());
                    out.push(suffix);
                    proof {
                        assert(cs@.take(7) =~= "defines"@);
                        assert(cs@.skip(7) =~= cs@.subrange(7, cs@.len() as int));
                        assert(out@.map_values(|s: String| s@) =~= before.map_values(
                            |s: String| s@,
                        ).push(e.name@.skip(7)));
                    }
                } else {
                    proof {
                        if e.name@.len() >= 7 && e.name@.take(7) == "defines"@ {
                            assert(e.name@.take(7)[0] == 'd');
                            assert(e.name@.take(7)[1] == 'e');
                            assert(e.name@.take(7)[2] == 'f');
                            assert(e.name@.take(7)[3] == 'i');
                            assert(e.name@.take(7)[4] == 'n');
                            assert(e.name@.take(7)[5] == 'e');
                            assert(e.name@.take(7)[6] == 's');
                        }
                    }
                }
            }
            i = i + 1;
        }
        assert(entries@.take(entries@.len() as int) =~= entries@);
        out
    }
}

} // verus!
