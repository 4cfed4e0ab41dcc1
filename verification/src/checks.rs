//! Checks of a package's sources, update checker and build scripts, and the
//! text fixes they make.

use vstd::prelude::*;

use crate::apml::lst::Token;
use crate::apml::parser::{utf8_len, ParseError};
use crate::apml::union::{union_read, Union, UnionFailure, UnionModel};
use crate::chars::{chars_of, push_char, push_string, str_eq};
use crate::matcher::{ascii_lower, ascii_lower_spec};
use crate::num::{trim_bounds, trimmed};
use crate::python::{contains, contains_exec};
use crate::matcher::{
    compile, named_captures, optional_strings_of, regex_compiles, regex_named_captures,
    regex_replace_first, replace_first, strings_of, Rep, Replacement,
};
use crate::apml::lst::{VariableDefinition, VariableValue};

verus! {

/// `s` starts with `p`.
pub open spec fn starts_with(s: Seq<char>, p: Seq<char>) -> bool {
    p.len() <= s.len() && s.take(p.len() as int) == p
}

/// `s` with every occurrence of `f`, read from the left and not
/// overlapping, replaced by `t`.
pub open spec fn replaced(s: Seq<char>, f: Seq<char>, t: Seq<char>) -> Seq<char>
    decreases s.len(),
{
    if s.len() == 0 || f.len() == 0 {
        s
    } else if starts_with(s, f) {
        t + replaced(s.skip(f.len() as int), f, t)
    } else {
        seq![s[0]] + replaced(s.skip(1), f, t)
    }
}

fn starts_with_at(s: &Vec<char>, i: usize, f: &Vec<char>) -> (res: bool)
    requires
        i <= s@.len(),
    ensures
        res == starts_with(s@.skip(i as int), f@),
{
    if f.len() > s.len() - i {
        return false;
    }
    let mut j: usize = 0;
    while j < f.len()
        invariant
            i <= s@.len() <= usize::MAX,
            f@.len() <= s@.len() - i,
            0 <= j <= f@.len(),
            forall|k: int| 0 <= k < j ==> s@[i + k] == f@[k],
        decreases f@.len() - j,
    {
        if s[i + j] != f[j] {
            assert(s@.skip(i as int).take(f@.len() as int)[j as int] != f@[j as int]);
            return false;
        }
        j = j + 1;
    }
    assert(s@.skip(i as int).take(f@.len() as int) =~= f@);
    true
}

/// Replaces every occurrence of `from` in `text` by `to`, as `str::replace`
/// does.
pub fn replace_all(text: &str, from: &str, to: &str) -> (res: String)
    ensures
        res@ == replaced(text@, from@, to@),
{
    let s = chars_of(text);
    let f = chars_of(from);
    if f.len() == 0 {
        return text.to_string();
    }
    let mut out = String::new();
    let mut i: usize = 0;
    assert(s@.skip(0) =~= s@);
    while i < s.len()
        invariant
            s@ == text@,
            f@ == from@,
            f@.len() > 0,
            0 <= i <= s@.len(),
            out@ + replaced(s@.skip(i as int), f@, to@) == replaced(text@, from@, to@),
        decreases s@.len() - i,
    {
        let ghost rest = s@.skip(i as int);
        if starts_with_at(&s, i, &f) {
            let ghost before = out@;
            push_string(&mut out, to);
            assert(rest.skip(f@.len() as int) =~= s@.skip(i + f@.len()));
            assert(out@ + replaced(s@.skip(i + f@.len()), f@, to@) =~= before + replaced(rest, f@, to@));
            i = i + f.len();
        } else {
            let ghost before = out@;
            push_char(&mut out, s[i]);
            assert(rest.skip(1) =~= s@.skip(i + 1));
            assert(rest[0] == s@[i as int]);
            assert(out@ + replaced(s@.skip(i + 1), f@, to@) =~= before + replaced(rest, f@, to@));
            i = i + 1;
        }
    }
    assert(s@.skip(i as int) =~= Seq::<char>::empty());
    assert(out@ + Seq::<char>::empty() =~= out@);
    out
}

/// A source fetched over plain HTTP.
pub open spec fn insecure_source(src: Seq<char>) -> bool {
    contains(src, "http://"@)
}

/// Tells whether a source is fetched over plain HTTP.
pub fn is_insecure_source(src: &str) -> (res: bool)
    ensures
        res == insecure_source(src@),
{
    let cs = chars_of(src);
    contains_exec(&cs, "http://")
}

/// Upgrades the plain HTTP links of a text to HTTPS.
pub fn secure_links(text: &str) -> (res: String)
    ensures
        res@ == replaced(text@, "http://"@, "https://"@),
{
    replace_all(text, "http://", "https://")
}

/// How the fetch handler of a source is judged.
#[derive(Debug, PartialEq, Eq)]
pub enum SourceKind {
    /// A tarball, with its argument.
    Tarball(Option<String>),
    /// A handler that is known.
    Known,
    /// A handler that is not known.
    Unknown,
}

/// What the check of a source found: its tag and how it is judged.
#[derive(Debug, PartialEq, Eq)]
pub struct SourceCheck {
    pub tag: String,
    pub kind: SourceKind,
}

/// The union that a source stands for: a bare URL is a tarball.
pub open spec fn source_union_text(src: Seq<char>) -> Seq<char> {
    if starts_with(src, "https://"@) || starts_with(src, "http://"@) {
        "tbl::"@ + src
    } else {
        src
    }
}

/// The fetch handlers that are known besides tarballs.
pub open spec fn known_handler(t: Seq<char>) -> bool {
    t == "git"@ || t == "svn"@ || t == "bzr"@ || t == "hg"@ || t == "fossil"@ || t == "file"@ || t
        == "pypi"@ || t == "none"@
}

/// The judgement of a source read as a union.
pub open spec fn source_kind_of(m: UnionModel) -> Option<Option<Seq<char>>> {
    let t = ascii_lower_spec(m.tag);
    if t == "tarball"@ || t == "tbl"@ {
        Some(m.argument)
    } else {
        None
    }
}

/// The fetch handlers `git`, `svn`, `bzr`, `hg`, `fossil`, `file`, `pypi`
/// and `none`, in any case, are judged known (not a tarball, and not
/// unknown); a tag that is none of these and neither `tarball` nor `tbl`
/// is judged unknown.
pub proof fn lemma_known_handlers(m: UnionModel)
    ensures
        ({
            let t = ascii_lower_spec(m.tag);
            let listed = t == "git"@ || t == "svn"@ || t == "bzr"@ || t == "hg"@ || t == "fossil"@
                || t == "file"@ || t == "pypi"@ || t == "none"@;
            &&& listed ==> source_kind_of(m) is None && known_handler(t)
            &&& !listed && t != "tarball"@ && t != "tbl"@ ==> source_kind_of(m) is None
                && !known_handler(t)
        }),
{
    reveal_strlit("git");
    reveal_strlit("svn");
    reveal_strlit("bzr");
    reveal_strlit("hg");
    reveal_strlit("fossil");
    reveal_strlit("file");
    reveal_strlit("pypi");
    reveal_strlit("none");
    reveal_strlit("tarball");
    reveal_strlit("tbl");
    let t = ascii_lower_spec(m.tag);
    if t == "git"@ || t == "svn"@ || t == "bzr"@ || t == "hg"@ || t == "fossil"@ || t == "file"@
        || t == "pypi"@ || t == "none"@ {
        assert(t.len() != 7);
        assert(t.len() == 3 ==> t[0] != 't');
        assert(t != "tarball"@);
        assert(t != "tbl"@);
    }
}

fn starts_with_str(s: &Vec<char>, p: &str) -> (res: bool)
    ensures
        res == starts_with(s@, p@),
{
    let pc = chars_of(p);
    assert(s@.skip(0) =~= s@);
    starts_with_at(s, 0, &pc)
}

/// The UTF-8 length of a concatenation.
pub(crate) proof fn lemma_utf8_len_concat(a: Seq<char>, b: Seq<char>)
    ensures
        utf8_len(a + b) == utf8_len(a) + utf8_len(b),
    decreases b.len(),
{
    if b.len() > 0 {
        lemma_utf8_len_concat(a, b.drop_last());
        assert((a + b).drop_last() =~= a + b.drop_last());
        assert((a + b).last() == b.last());
    } else {
        assert(a + b =~= a);
    }
}

/// Tells whether a lower-case tag names a known handler other than a
/// tarball.
fn is_known_handler(t: &str) -> (res: bool)
    ensures
        res == known_handler(t@),
{
    str_eq(t, "git") || str_eq(t, "svn") || str_eq(t, "bzr") || str_eq(t, "hg") || str_eq(t, "fossil")
        || str_eq(t, "file") || str_eq(t, "pypi") || str_eq(t, "none")
}

fn copy_option_string(a: &Option<String>) -> (res: Option<String>)
    ensures
        match res {
            Some(s) => *a matches Some(t) && s@ == t@,
            None => a is None,
        },
{
    match a {
        Some(t) => Some(t.clone()),
        None => None,
    }
}

/// Checks a source of `SRCS`: reads it as a union, a bare URL as a
/// tarball, and judges its fetch handler.
pub fn check_source(src: &str) -> (res: Result<SourceCheck, ParseError>)
    requires
        utf8_len(src@) + 5 < usize::MAX,
    ensures
        match union_read(trimmed(source_union_text(src@))) {
            Ok(m) => res matches Ok(c) && c.tag@ == m.tag && match source_kind_of(m) {
                Some(a) => c.kind matches SourceKind::Tarball(b) && match b {
                    Some(s) => a == Some(s@),
                    None => a is None,
                },
                None => if known_handler(ascii_lower_spec(m.tag)) {
                    c.kind is Known
                } else {
                    c.kind is Unknown
                },
            },
            Err(UnionFailure::NoTag) => res matches Err(ParseError::SyntaxError(_)),
            Err(UnionFailure::Unread(p)) => res matches Err(ParseError::UnexpectedSource { pos })
                && pos == utf8_len(trimmed(source_union_text(src@)).take(p)) + 1,
        },
{
    let cs = chars_of(src);
    let text = if starts_with_str(&cs, "https://") || starts_with_str(&cs, "http://") {
        let mut t = "tbl::".to_string();
        push_string(&mut t, src);
        proof {
            reveal_strlit("tbl::");
            lemma_utf8_len_concat("tbl::"@, src@);
            assert(utf8_len("tbl::"@) == 5) by {
                reveal_with_fuel(utf8_len, 6);
            }
        }
        t
    } else {
        src.to_string()
    };
    assert(text@ == source_union_text(src@));
    let u = match Union::try_from(text.as_str()) {
        Ok(u) => u,
        Err(e) => {
            return Err(e);
        },
    };
    let lower = ascii_lower(u.tag().as_str());
    let kind = if str_eq(lower.as_str(), "tarball") || str_eq(lower.as_str(), "tbl") {
        SourceKind::Tarball(copy_option_string(u.argument()))
    } else if is_known_handler(lower.as_str()) {
        SourceKind::Known
    } else {
        SourceKind::Unknown
    };
    Ok(SourceCheck { tag: u.tag().clone(), kind })
}

/// The regular expression of a PyPI source URL, naming the package `name`.
pub open spec fn pypi_url_regex() -> Seq<char> {
    r"http(s|)://pypi\.io/packages/source/[A-Za-z]/(?P<name>[A-Za-z0-9\._\-]+)/([A-Za-z0-9\._\-]+)"@
}

/// The regular expression of a GitHub archive URL, naming `user` and
/// `repo`.
pub open spec fn github_url_regex() -> Seq<char> {
    r"http(s|)://github\.com/(?<user>[a-zA-Z_-]+)/(?<repo>[a-zA-Z_-]+)/archive/"@
}

/// The regular expression of a whole PyPI tarball source, naming `name`
/// and `version`.
pub open spec fn pypi_source_regex() -> Seq<char> {
    "(tarball|tbl)::"@ + r"http(s|)://pypi\.io/packages/source/[A-Za-z]/(?P<name>[A-Za-z0-9\._\-]+)/([A-Za-z0-9\._\-]+)-"@
        + version_tar_regex()
}

/// The regular expression of a whole GitHub archive source, naming `user`,
/// `repo` and `version`.
pub open spec fn github_source_regex() -> Seq<char> {
    "(tarball|tbl)::"@ + github_url_regex() + version_tar_regex()
}

/// The regular expression of a versioned tarball name, naming `version`.
pub open spec fn version_tar_regex() -> Seq<char> {
    r"(?P<version>\$VER|[a-zA-Z0-9\.]*\$\{[^}]+\}|[^\.]+)\.tar(\.gz|\.xz|\.bz2|\.bz|\.zstd|\.zst|)"@
}

fn pypi_url_regex_text() -> (res: String)
    ensures
        res@ == pypi_url_regex(),
{
    r"http(s|)://pypi\.io/packages/source/[A-Za-z]/(?P<name>[A-Za-z0-9\._\-]+)/([A-Za-z0-9\._\-]+)".to_string()
}

fn github_url_regex_text() -> (res: String)
    ensures
        res@ == github_url_regex(),
{
    r"http(s|)://github\.com/(?<user>[a-zA-Z_-]+)/(?<repo>[a-zA-Z_-]+)/archive/".to_string()
}

fn version_tar_regex_text() -> (res: String)
    ensures
        res@ == version_tar_regex(),
{
    r"(?P<version>\$VER|[a-zA-Z0-9\.]*\$\{[^}]+\}|[^\.]+)\.tar(\.gz|\.xz|\.bz2|\.bz|\.zstd|\.zst|)".to_string()
}

/// The package name in a PyPI source URL.
pub open spec fn pypi_name(arg: Seq<char>) -> Option<Seq<char>> {
    match regex_named_captures(pypi_url_regex(), arg, seq!["name"@]) {
        Some(c) => if c.len() == 1 {
            c[0]
        } else {
            None
        },
        None => None,
    }
}

/// The user and repository in a GitHub archive URL.
pub open spec fn github_repo(arg: Seq<char>) -> Option<(Seq<char>, Seq<char>)> {
    match regex_named_captures(github_url_regex(), arg, seq!["user"@, "repo"@]) {
        Some(c) => if c.len() == 2 && c[0] is Some && c[1] is Some {
            Some((c[0]->0, c[1]->0))
        } else {
            None
        },
        None => None,
    }
}

/// A fetch handler that suits a tarball source better.
#[derive(Debug, PartialEq, Eq)]
pub enum SpecificHandler {
    /// `pypi`, with the package name.
    Pypi(String),
    /// `git` from GitHub, with the user and the repository.
    GitHub(String, String),
}

fn one_name(n: &str) -> (res: Vec<String>)
    ensures
        strings_of(res@) == seq![n@],
        res@.len() == 1,
{
    let mut v: Vec<String> = Vec::new();
    v.push(n.to_string());
    assert(strings_of(v@) =~= seq![n@]);
    v
}

fn two_names(a: &str, b: &str) -> (res: Vec<String>)
    ensures
        strings_of(res@) == seq![a@, b@],
        res@.len() == 2,
{
    let mut v: Vec<String> = Vec::new();
    v.push(a.to_string());
    v.push(b.to_string());
    assert(strings_of(v@) =~= seq![a@, b@]);
    v
}

fn copy_optional(a: &Option<String>) -> (res: Option<String>)
    ensures
        match res {
            Some(s) => *a matches Some(t) && s@ == t@,
            None => a is None,
        },
{
    match a {
        Some(t) => Some(t.clone()),
        None => None,
    }
}

/// Finds the handler that suits the argument of a tarball source better: a
/// PyPI URL is fetched by `pypi`, a GitHub archive by `git`.
pub fn specific_handler(arg: &str) -> (res: Result<Option<SpecificHandler>, regex::Error>)
    ensures
        !regex_compiles(pypi_url_regex()) ==> res is Err,
        regex_compiles(pypi_url_regex()) && pypi_name(arg@) is Some ==> (res matches Ok(
            Some(SpecificHandler::Pypi(n)),
        ) && pypi_name(arg@) == Some(n@)),
        regex_compiles(pypi_url_regex()) && pypi_name(arg@) is None ==> if regex_compiles(
            github_url_regex(),
        ) {
            match github_repo(arg@) {
                Some((u, r)) => res matches Ok(Some(SpecificHandler::GitHub(x, y))) && x@ == u
                    && y@ == r,
                None => res matches Ok(None),
            }
        } else {
            res is Err
        },
{
    proof {
        reveal_strlit("name");
    }
    let pypi = match compile(pypi_url_regex_text()) {
        Ok(m) => m,
        Err(e) => {
            return Err(e);
        },
    };
    let names = one_name("name");
    match named_captures(&pypi, arg, &names) {
        Some(caps) => {
            assert(optional_strings_of(caps@)[0] == match caps@[0] {
                Some(t) => Some(t@),
                None => None,
            });
            match copy_optional(&caps[0]) {
                Some(n) => {
                    return Ok(Some(SpecificHandler::Pypi(n)));
                },
                None => {},
            }
        },
        None => {},
    }
    let github = match compile(github_url_regex_text()) {
        Ok(m) => m,
        Err(e) => {
            return Err(e);
        },
    };
    let names = two_names("user", "repo");
    match named_captures(&github, arg, &names) {
        Some(caps) => {
            assert(optional_strings_of(caps@)[0] == match caps@[0] {
                Some(t) => Some(t@),
                None => None,
            });
            assert(optional_strings_of(caps@)[1] == match caps@[1] {
                Some(t) => Some(t@),
                None => None,
            });
            match (copy_optional(&caps[0]), copy_optional(&caps[1])) {
                (Some(u), Some(r)) => Ok(Some(SpecificHandler::GitHub(u, r))),
                _ => Ok(None),
            }
        },
        None => Ok(None),
    }
}

/// What the source linter reports of one source, after its check.
#[derive(Debug, PartialEq, Eq)]
pub enum SourceFinding {
    /// Nothing to report.
    Fine,
    /// A tarball from PyPI, better fetched by `pypi` with this name.
    PreferPypi(String),
    /// A tarball from GitHub, better fetched by `git` from this user and
    /// repository.
    PreferGitHub(String, String),
    /// A fetch handler that is not known, with its tag.
    UnknownTag(String),
}

/// Decides what to report of a checked source: a tarball with an argument
/// is looked at by [`specific_handler`]; an unknown handler is reported with
/// its tag; anything else is fine.
pub fn source_finding(check: SourceCheck) -> (res: Result<SourceFinding, regex::Error>)
    ensures
        match check.kind {
            SourceKind::Tarball(Some(a)) => {
                &&& !regex_compiles(pypi_url_regex()) ==> res is Err
                &&& regex_compiles(pypi_url_regex()) && pypi_name(a@) is Some ==> (res matches Ok(
                    SourceFinding::PreferPypi(n),
                ) && pypi_name(a@) == Some(n@))
                &&& regex_compiles(pypi_url_regex()) && pypi_name(a@) is None ==> if regex_compiles(
                    github_url_regex(),
                ) {
                    match github_repo(a@) {
                        Some((u, r)) => res matches Ok(SourceFinding::PreferGitHub(x, y)) && x@ == u
                            && y@ == r,
                        None => res == Ok::<SourceFinding, regex::Error>(SourceFinding::Fine),
                    }
                } else {
                    res is Err
                }
            },
            SourceKind::Tarball(None) => res == Ok::<SourceFinding, regex::Error>(SourceFinding::Fine),
            SourceKind::Known => res == Ok::<SourceFinding, regex::Error>(SourceFinding::Fine),
            SourceKind::Unknown => res matches Ok(SourceFinding::UnknownTag(t)) && t@ == check.tag@,
        },
{
    match check.kind {
        SourceKind::Tarball(Some(a)) => match specific_handler(a.as_str()) {
            Ok(Some(SpecificHandler::Pypi(n))) => Ok(SourceFinding::PreferPypi(n)),
            Ok(Some(SpecificHandler::GitHub(u, r))) => Ok(SourceFinding::PreferGitHub(u, r)),
            Ok(None) => Ok(SourceFinding::Fine),
            Err(e) => Err(e),
        },
        SourceKind::Tarball(None) => Ok(SourceFinding::Fine),
        SourceKind::Known => Ok(SourceFinding::Fine),
        SourceKind::Unknown => Ok(SourceFinding::UnknownTag(check.tag)),
    }
}

/// Rewrites a PyPI tarball source of a text into a `pypi` one, keeping its
/// version.
pub fn pypi_source_fix(text: &str) -> (res: Result<String, regex::Error>)
    ensures
        res.is_ok() == regex_compiles(pypi_source_regex()),
        match res {
            Ok(s) => s@ == regex_replace_first(
                pypi_source_regex(),
                text@,
                Replacement::Expand("pypi::version=${version}::${name}"@),
            ),
            Err(_) => true,
        },
{
    let mut src = "(tarball|tbl)::".to_string();
    push_string(
        &mut src,
        r"http(s|)://pypi\.io/packages/source/[A-Za-z]/(?P<name>[A-Za-z0-9\._\-]+)/([A-Za-z0-9\._\-]+)-",
    );
    let tail = version_tar_regex_text();
    push_string(&mut src, tail.as_str());
    match compile(src) {
        Ok(m) => Ok(replace_first(&m, text, &Rep::Expand("pypi::version=${version}::${name}".to_string()))),
        Err(e) => Err(e),
    }
}

/// Rewrites a GitHub archive source of a text into a `git` one, at the tag
/// of its version.
pub fn github_source_fix(text: &str) -> (res: Result<String, regex::Error>)
    ensures
        res.is_ok() == regex_compiles(github_source_regex()),
        match res {
            Ok(s) => s@ == regex_replace_first(
                github_source_regex(),
                text@,
                Replacement::Expand("git::commit=tags/${version}::https://github.com/${user}/${repo}.git"@),
            ),
            Err(_) => true,
        },
{
    let mut src = "(tarball|tbl)::".to_string();
    let url = github_url_regex_text();
    push_string(&mut src, url.as_str());
    let tail = version_tar_regex_text();
    push_string(&mut src, tail.as_str());
    match compile(src) {
        Ok(m) => Ok(replace_first(
            &m,
            text,
            &Rep::Expand("git::commit=tags/${version}::https://github.com/${user}/${repo}.git".to_string()),
        )),
        Err(e) => Err(e),
    }
}

/// Sets the value of the first definition of the variable `name`. Returns
/// whether there was one.
pub fn set_variable_value(ts: &mut Vec<Token>, name: &str, value: VariableValue) -> (res: bool)
    ensures
        res == (definition_index(old(ts)@, name@, 0) is Some),
        match definition_index(old(ts)@, name@, 0) {
            Some(i) => final(ts)@.len() == old(ts)@.len() && (forall|k: int|
                0 <= k < old(ts)@.len() && k != i ==> final(ts)@[k] == old(ts)@[k]) && (final(ts)@[i] matches Token::Variable(d)
                && (old(ts)@[i] matches Token::Variable(e) && d.name == e.name && d.op == e.op && d.value == value)),
            None => final(ts)@ == old(ts)@,
        },
{
    let ghost o = ts@;
    let mut i: usize = 0;
    while i < ts.len()
        invariant
            0 <= i <= ts@.len(),
            ts@ == o,
            o == old(ts)@,
            definition_index(o, name@, 0) == definition_index(o, name@, i as int),
        decreases ts@.len() - i,
    {
        let found = match &ts[i] {
            Token::Variable(d) => str_eq(d.name.as_str(), name),
            _ => false,
        };
        assert(found == (o[i as int] matches Token::Variable(d) && d.name@ == name@));
        if found {
            assert(definition_index(o, name@, i as int) == Some(i as int));
            let old_token = ts.remove(i);
            match old_token {
                Token::Variable(d) => {
                    ts.insert(i, Token::Variable(VariableDefinition { name: d.name, op: d.op, value }));
                },
                other => {
                    ts.insert(i, other);
                },
            }
            return true;
        }
        i = i + 1;
    }
    false
}

/// The checksums with the one of the source `idx` skipped, where there is
/// one.
pub fn skip_checksum(chksums: &str, idx: usize) -> (res: Option<Vec<String>>)
    ensures
        match res {
            Some(v) => idx < crate::apml::context::fields(chksums@).len() && strings_of(v@)
                == crate::apml::context::fields(chksums@).update(idx as int, "SKIP"@),
            None => idx >= crate::apml::context::fields(chksums@).len(),
        },
{
    let mut v = crate::apml::context::split_fields(chksums);
    if idx >= v.len() {
        return None;
    }
    let ghost before = strings_of(v@);
    v.set(idx, "SKIP".to_string());
    assert(strings_of(v@) =~= before.update(idx as int, "SKIP"@));
    Some(v)
}

/// `s` ends with `p`.
pub open spec fn ends_with(s: Seq<char>, p: Seq<char>) -> bool {
    p.len() <= s.len() && s.skip(s.len() - p.len()) == p
}

fn ends_with_str(s: &Vec<char>, p: &str) -> (res: bool)
    ensures
        res == ends_with(s@, p@),
{
    let pc = chars_of(p);
    if pc.len() > s.len() {
        return false;
    }
    let from = s.len() - pc.len();
    let tail = crate::chars::string_from_chars(s.as_slice(), from, s.len());
    assert(s@.subrange(from as int, s@.len() as int) =~= s@.skip(from as int));
    str_eq(tail.as_str(), p)
}

/// How a downloaded archive is compressed.
#[derive(Clone, Copy, Debug, PartialEq, Eq, Structural)]
pub enum ArchiveKind {
    /// A bare tarball.
    Tar,
    /// A tarball compressed with gzip.
    Gzip,
    /// A tarball compressed with XZ.
    Xz,
    /// A tarball compressed with zstd.
    Zstd,
    /// A tarball compressed with bzip2.
    Bzip2,
}

/// The kind of an archive, by the end of its name.
pub open spec fn archive_kind_of(name: Seq<char>) -> Option<ArchiveKind> {
    if ends_with(name, ".tar"@) {
        Some(ArchiveKind::Tar)
    } else if ends_with(name, ".tar.gz"@) || ends_with(name, ".tar.gzip"@) {
        Some(ArchiveKind::Gzip)
    } else if ends_with(name, ".tar.xz"@) {
        Some(ArchiveKind::Xz)
    } else if ends_with(name, ".tar.zst"@) || ends_with(name, ".tar.zstd"@) {
        Some(ArchiveKind::Zstd)
    } else if ends_with(name, ".tar.bz"@) || ends_with(name, ".tar.bz2"@) || ends_with(
        name,
        ".tar.bzip"@,
    ) {
        Some(ArchiveKind::Bzip2)
    } else {
        None
    }
}

/// Recognizes the kind of an archive by the end of its name.
pub fn archive_kind(name: &str) -> (res: Option<ArchiveKind>)
    ensures
        res == archive_kind_of(name@),
{
    let cs = chars_of(name);
    if ends_with_str(&cs, ".tar") {
        Some(ArchiveKind::Tar)
    } else if ends_with_str(&cs, ".tar.gz") || ends_with_str(&cs, ".tar.gzip") {
        Some(ArchiveKind::Gzip)
    } else if ends_with_str(&cs, ".tar.xz") {
        Some(ArchiveKind::Xz)
    } else if ends_with_str(&cs, ".tar.zst") || ends_with_str(&cs, ".tar.zstd") {
        Some(ArchiveKind::Zstd)
    } else if ends_with_str(&cs, ".tar.bz") || ends_with_str(&cs, ".tar.bz2") || ends_with_str(
        &cs,
        ".tar.bzip",
    ) {
        Some(ArchiveKind::Bzip2)
    } else {
        None
    }
}

/// The regular expression of a GitHub repository URL, naming `user` and
/// `repo`.
pub open spec fn github_repo_regex() -> Seq<char> {
    r"http(s|)://github\.com/(?<user>[a-zA-Z_-]+)/(?<repo>[a-zA-Z_-]+)"@
}

fn github_repo_regex_text() -> (res: String)
    ensures
        res@ == github_repo_regex(),
{
    r"http(s|)://github\.com/(?<user>[a-zA-Z_-]+)/(?<repo>[a-zA-Z_-]+)".to_string()
}

/// The owner and repository of a GitHub URL.
pub open spec fn repo_of_url(url: Seq<char>) -> Option<(Seq<char>, Seq<char>)> {
    match regex_named_captures(github_repo_regex(), url, seq!["user"@, "repo"@]) {
        Some(c) => if c.len() == 2 && c[0] is Some && c[1] is Some {
            Some((c[0]->0, c[1]->0))
        } else {
            None
        },
        None => None,
    }
}

/// How the source code of a package is reached.
#[derive(Debug, PartialEq, Eq)]
pub enum SourceAccess {
    /// Through the GitHub repository of this owner.
    GitHub(String, String),
    /// By downloading this tarball.
    Tarball(String),
    /// Not at all.
    Nothing,
}

/// Why the way to the source code cannot be found.
#[derive(Debug)]
pub enum SourceAccessError {
    /// The source cannot be read as a union.
    Parse(ParseError),
    /// The expression of GitHub URLs does not compile.
    Regex(regex::Error),
}

/// Finds the owner and repository of a GitHub URL.
fn find_github_repo(url: &str) -> (res: Result<Option<(String, String)>, regex::Error>)
    ensures
        res.is_ok() == regex_compiles(github_repo_regex()),
        match res {
            Ok(Some((o, r))) => repo_of_url(url@) == Some((o@, r@)),
            Ok(None) => repo_of_url(url@) is None,
            Err(_) => true,
        },
{
    let re = match compile(github_repo_regex_text()) {
        Ok(m) => m,
        Err(e) => {
            return Err(e);
        },
    };
    let names = two_names("user", "repo");
    match named_captures(&re, url, &names) {
        Some(caps) => {
            assert(optional_strings_of(caps@)[0] == match caps@[0] {
                Some(t) => Some(t@),
                None => None,
            });
            assert(optional_strings_of(caps@)[1] == match caps@[1] {
                Some(t) => Some(t@),
                None => None,
            });
            match (copy_optional(&caps[0]), copy_optional(&caps[1])) {
                (Some(o), Some(r)) => Ok(Some((o, r))),
                _ => Ok(None),
            }
        },
        None => Ok(None),
    }
}

/// Finds how the source code of a package is reached from its `SRCS`: a
/// single tarball source is downloaded unless it lies on GitHub, a single
/// `git` source on GitHub is read there; anything else is not reached.
pub fn source_access(srcs: &str) -> (res: Result<SourceAccess, SourceAccessError>)
    requires
        forall|i: int|
            0 <= i < crate::apml::context::fields(srcs@).len() ==> utf8_len(
                #[trigger] crate::apml::context::fields(srcs@)[i],
            ) + 5 < usize::MAX,
    ensures
        crate::apml::context::fields(srcs@).len() != 1 ==> res matches Ok(SourceAccess::Nothing),
        crate::apml::context::fields(srcs@).len() == 1 ==> match union_read(
            trimmed(source_union_text(crate::apml::context::fields(srcs@)[0])),
        ) {
            Err(_) => res matches Err(SourceAccessError::Parse(_)),
            Ok(m) => if (m.tag == "tarball"@ || m.tag == "tbl"@ || m.tag == "git"@) && m.argument is Some {
                if !regex_compiles(github_repo_regex()) {
                    res matches Err(SourceAccessError::Regex(_))
                } else {
                    match repo_of_url(m.argument->0) {
                        Some((o, r)) => res matches Ok(SourceAccess::GitHub(x, y)) && x@ == o && y@ == r,
                        None => if m.tag == "git"@ {
                            res matches Ok(SourceAccess::Nothing)
                        } else {
                            res matches Ok(SourceAccess::Tarball(u)) && u@ == m.argument->0
                        },
                    }
                }
            } else {
                res matches Ok(SourceAccess::Nothing)
            },
        },
{
    let fs = crate::apml::context::split_fields(srcs);
    if fs.len() != 1 {
        return Ok(SourceAccess::Nothing);
    }
    let src = &fs[0];
    assert(src@ == crate::apml::context::fields(srcs@)[0]);
    let cs = chars_of(src.as_str());
    let text = if starts_with_str(&cs, "https://") || starts_with_str(&cs, "http://") {
        let mut t = "tbl::".to_string();
        push_string(&mut t, src.as_str());
        proof {
            reveal_strlit("tbl::");
            lemma_utf8_len_concat("tbl::"@, src@);
            assert(utf8_len("tbl::"@) == 5) by {
                reveal_with_fuel(utf8_len, 6);
            }
        }
        t
    } else {
        src.clone()
    };
    assert(text@ == source_union_text(src@));
    let u = match Union::try_from(text.as_str()) {
        Ok(u) => u,
        Err(e) => {
            return Err(SourceAccessError::Parse(e));
        },
    };
    let tag = u.tag();
    let is_tarball = str_eq(tag.as_str(), "tarball") || str_eq(tag.as_str(), "tbl");
    let is_git = str_eq(tag.as_str(), "git");
    if !(is_tarball || is_git) {
        return Ok(SourceAccess::Nothing);
    }
    let url = match u.argument() {
        Some(url) => url,
        None => {
            return Ok(SourceAccess::Nothing);
        },
    };
    match find_github_repo(url.as_str()) {
        Err(e) => Err(SourceAccessError::Regex(e)),
        Ok(Some((o, r))) => Ok(SourceAccess::GitHub(o, r)),
        Ok(None) => if is_git {
            Ok(SourceAccess::Nothing)
        } else {
            Ok(SourceAccess::Tarball(url.clone()))
        },
    }
}

/// What the check of `CHKUPDATE` found.
#[derive(Debug, PartialEq, Eq)]
pub enum ChkUpdateCheck {
    /// `CHKUPDATE` is not set.
    Undefined,
    /// The update checker is Anitya.
    Anitya,
    /// The update checker, with this tag, could be replaced by Anitya.
    PreferAnitya(String),
    /// The update checker has this tag, which is not known.
    UnknownTag(String),
}

/// The update checkers that could be replaced by Anitya.
pub open spec fn replaceable_checker(t: Seq<char>) -> bool {
    t == "github"@ || t == "gitweb"@ || t == "git"@ || t == "html"@ || t == "gitlab"@
}

/// Checks the value of `CHKUPDATE`: nothing when it is blank, else its
/// union's tag is judged.
pub fn check_chkupdate(value: &str) -> (res: Result<ChkUpdateCheck, ParseError>)
    requires
        utf8_len(value@) < usize::MAX,
    ensures
        trimmed(value@).len() == 0 ==> res == Ok::<ChkUpdateCheck, ParseError>(ChkUpdateCheck::Undefined),
        trimmed(value@).len() > 0 ==> match union_read(trimmed(value@)) {
            Ok(m) => if ascii_lower_spec(m.tag) == "anitya"@ {
                res == Ok::<ChkUpdateCheck, ParseError>(ChkUpdateCheck::Anitya)
            } else if replaceable_checker(ascii_lower_spec(m.tag)) {
                res matches Ok(ChkUpdateCheck::PreferAnitya(t)) && t@ == m.tag
            } else {
                res matches Ok(ChkUpdateCheck::UnknownTag(t)) && t@ == m.tag
            },
            Err(UnionFailure::NoTag) => res matches Err(ParseError::SyntaxError(_)),
            Err(UnionFailure::Unread(p)) => res matches Err(ParseError::UnexpectedSource { pos })
                && pos == utf8_len(trimmed(value@).take(p)) + 1,
        },
{
    let cs = chars_of(value);
    let (a, b) = trim_bounds(&cs);
    if a == b {
        assert(trimmed(value@) =~= Seq::<char>::empty());
        return Ok(ChkUpdateCheck::Undefined);
    }
    let u = match Union::try_from(value) {
        Ok(u) => u,
        Err(e) => {
            return Err(e);
        },
    };
    let lower = ascii_lower(u.tag().as_str());
    if str_eq(lower.as_str(), "anitya") {
        Ok(ChkUpdateCheck::Anitya)
    } else if str_eq(lower.as_str(), "github") || str_eq(lower.as_str(), "gitweb") || str_eq(
        lower.as_str(),
        "git",
    ) || str_eq(lower.as_str(), "html") || str_eq(lower.as_str(), "gitlab") {
        Ok(ChkUpdateCheck::PreferAnitya(u.tag().clone()))
    } else {
        Ok(ChkUpdateCheck::UnknownTag(u.tag().clone()))
    }
}

/// A build script that installs fish completions to the place fish keeps
/// for its own: the script with the vendor directory in its place. The
/// `fish` package itself is left alone.
pub open spec fn fish_completions_fix(package: Seq<char>, script: Seq<char>) -> Option<Seq<char>> {
    if package != "fish"@ && contains(script, "/usr/share/fish/completions"@) {
        Some(
            replaced(
                script,
                "/usr/share/fish/completions"@,
                "/usr/share/fish/vendor_completions.d"@,
            ),
        )
    } else {
        None
    }
}

/// Checks a build script of a package for fish completions installed to
/// the directory of fish's own, and gives the fixed script.
pub fn fix_fish_completions(package: &str, script: &str) -> (res: Option<String>)
    ensures
        match res {
            Some(s) => fish_completions_fix(package@, script@) == Some(s@),
            None => fish_completions_fix(package@, script@) is None,
        },
{
    if str_eq(package, "fish") {
        return None;
    }
    let cs = chars_of(script);
    if !contains_exec(&cs, "/usr/share/fish/completions") {
        return None;
    }
    Some(replace_all(script, "/usr/share/fish/completions", "/usr/share/fish/vendor_completions.d"))
}

/// The position of the first definition of the variable `name`.
pub open spec fn definition_index(ts: Seq<Token>, name: Seq<char>, i: int) -> Option<int>
    decreases ts.len() - i,
{
    if i < 0 || i >= ts.len() {
        None
    } else if ts[i] matches Token::Variable(d) && d.name@ == name {
        Some(i)
    } else {
        definition_index(ts, name, i + 1)
    }
}

/// The tokens without the first definition of `name` and the newline that
/// ends its line, if one does.
pub open spec fn without_definition(ts: Seq<Token>, name: Seq<char>) -> Seq<Token> {
    match definition_index(ts, name, 0) {
        Some(i) => if i + 1 < ts.len() && ts[i + 1] is Newline {
            ts.take(i) + ts.skip(i + 2)
        } else {
            ts.take(i) + ts.skip(i + 1)
        },
        None => ts,
    }
}

proof fn lemma_definition_index(ts: Seq<Token>, name: Seq<char>, i: int)
    requires
        0 <= i,
    ensures
        match definition_index(ts, name, i) {
            Some(k) => i <= k < ts.len(),
            None => true,
        },
    decreases ts.len() - i,
{
    if i < ts.len() && !(ts[i] matches Token::Variable(d) && d.name@ == name) {
        lemma_definition_index(ts, name, i + 1);
    }
}

/// The tokens with the definition `d` on a line of its own: after the first
/// definition of `after`, or at the end of the file when there is none.
pub open spec fn with_definition_after(ts: Seq<Token>, d: VariableDefinition, after: Seq<char>) -> Seq<
    Token,
> {
    match definition_index(ts, after, 0) {
        Some(i) => ts.take(i + 1) + seq![Token::Newline, Token::Variable(d)] + ts.skip(i + 1),
        None => (if ts.len() > 0 && !(ts.last() is Newline) {
            ts.push(Token::Newline)
        } else {
            ts
        }) + seq![Token::Variable(d), Token::Newline],
    }
}

/// Adds the definition `d` on a line of its own after the first definition
/// of the variable `after`, or at the end of the file when there is none.
pub fn insert_definition_after(ts: &mut Vec<Token>, d: VariableDefinition, after: &str)
    ensures
        final(ts)@ == with_definition_after(old(ts)@, d, after@),
{
    let ghost o = ts@;
    proof {
        lemma_definition_index(o, after@, 0);
    }
    match find_variable(ts, after) {
        Some(i) => {
            let n = ts.len();
            assert(i < n);
            ts.insert(i + 1, Token::Variable(d));
            ts.insert(i + 1, Token::Newline);
            assert(ts@ =~= o.take(i + 1) + seq![Token::Newline, Token::Variable(d)] + o.skip(i + 1));
        },
        None => {
            let ends_line = ts.len() > 0 && match &ts[ts.len() - 1] {
                Token::Newline => true,
                _ => false,
            };
            if ts.len() > 0 && !ends_line {
                ts.push(Token::Newline);
            }
            ts.push(Token::Variable(d));
            ts.push(Token::Newline);
        },
    }
}

/// Sets the value of the first definition of the variable that `d`
/// defines, or adds `d` at the end of the file when there is none. Returns
/// whether there was one.
pub fn set_or_add_definition(ts: &mut Vec<Token>, d: VariableDefinition) -> (res: bool)
    ensures
        res == (definition_index(old(ts)@, d.name@, 0) is Some),
        match definition_index(old(ts)@, d.name@, 0) {
            Some(i) => final(ts)@.len() == old(ts)@.len() && (forall|k: int|
                0 <= k < old(ts)@.len() && k != i ==> final(ts)@[k] == old(ts)@[k]) && (final(ts)@[i] matches Token::Variable(e)
                && (old(ts)@[i] matches Token::Variable(f) && e.name == f.name && e.op == f.op && e.value == d.value)),
            None => final(ts)@ == with_definition_after(old(ts)@, d, d.name@),
        },
{
    let name = d.name.clone();
    match find_variable(ts, name.as_str()) {
        Some(_) => set_variable_value(ts, name.as_str(), d.value),
        None => {
            insert_definition_after(ts, d, name.as_str());
            false
        },
    }
}

/// Finds the first definition of the variable `name`.
pub fn find_variable(ts: &Vec<Token>, name: &str) -> (res: Option<usize>)
    ensures
        match res {
            Some(i) => definition_index(ts@, name@, 0) == Some(i as int),
            None => definition_index(ts@, name@, 0) is None,
        },
{
    let mut i: usize = 0;
    while i < ts.len()
        invariant
            0 <= i <= ts@.len(),
            definition_index(ts@, name@, 0) == definition_index(ts@, name@, i as int),
        decreases ts@.len() - i,
    {
        let found = match &ts[i] {
            Token::Variable(d) => str_eq(d.name.as_str(), name),
            _ => false,
        };
        assert(found == (ts@[i as int] matches Token::Variable(d) && d.name@ == name@));
        if found {
            return Some(i);
        }
        i = i + 1;
    }
    None
}

/// Removes the first definition of the variable `name`, with the newline
/// that ends its line. Returns whether there was one.
pub fn remove_variable(ts: &mut Vec<Token>, name: &str) -> (res: bool)
    ensures
        res == (definition_index(old(ts)@, name@, 0) is Some),
        final(ts)@ == without_definition(old(ts)@, name@),
{
    let ghost o = ts@;
    let mut i: usize = 0;
    while i < ts.len()
        invariant
            0 <= i <= ts@.len(),
            ts@ == o,
            o == old(ts)@,
            definition_index(o, name@, 0) == definition_index(o, name@, i as int),
        decreases ts@.len() - i,
    {
        let found = match &ts[i] {
            Token::Variable(d) => str_eq(d.name.as_str(), name),
            _ => false,
        };
        assert(found == (o[i as int] matches Token::Variable(d) && d.name@ == name@));
        if found {
            assert(definition_index(o, name@, i as int) == Some(i as int));
            let ends_line = i + 1 < ts.len() && match &ts[i + 1] {
                Token::Newline => true,
                _ => false,
            };
            if ends_line {
                ts.remove(i);
                ts.remove(i);
                assert(ts@ =~= o.take(i as int) + o.skip(i + 2));
            } else {
                ts.remove(i);
                assert(ts@ =~= o.take(i as int) + o.skip(i + 1));
            }
            return true;
        }
        i = i + 1;
    }
    false
}

} // verus!
