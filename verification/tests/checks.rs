//! Tests of the style checks, the arch-group checks, the linter selection
//! and evaluation, on small sources.

use libabbs::apml::ast::{ApmlAst, AstNode};
use libabbs::apml::context::ApmlContext;
use libabbs::apml::lst::{ApmlLst, Token};
use libabbs::archgroup::{arch_overrides, is_redundant_override, missing_archgroups};
use libabbs::num::{format_isize, format_usize, parse_isize, IntErrorKind};
use libabbs::selector::LinterSelector;
use libabbs::style::{check_empty_lines, check_extra_spaces};
use libabbs::Architecture;

use libabbs::apml::array::StringArray;
use libabbs::apml::parser::ParseError;
use libabbs::checks::fix_fish_completions;
use libabbs::checks::{archive_kind, source_access, ArchiveKind, SourceAccess};
use libabbs::checks::{check_chkupdate, ChkUpdateCheck};
use libabbs::checks::{check_source, is_insecure_source, secure_links, SourceKind};
use libabbs::checks::{find_variable, insert_definition_after, remove_variable, set_variable_value, skip_checksum};
use libabbs::checks::{set_or_add_definition, source_finding, SourceCheck, SourceFinding};
use libabbs::checks::{github_source_fix, pypi_source_fix, specific_handler, SpecificHandler};

fn tokens(src: &str) -> ApmlLst {
    ApmlLst::parse(src).unwrap()
}

#[test]
fn empty_line_runs_are_collapsed() {
    let mut lst = tokens("a=1\n\n\n\nb=2\n");
    let found = check_empty_lines(&mut lst.0, false);
    assert!(!found.missing_trailing_line);
    assert!(!found.too_many_trailing_lines);
    assert_eq!(found.empty_runs, vec![1]);
    assert_eq!(lst.to_string(), "a=1\n\nb=2\n");
}

#[test]
fn trailing_empty_lines_are_cut() {
    let mut lst = tokens("a=1\n\n\n");
    let found = check_empty_lines(&mut lst.0, false);
    assert!(found.too_many_trailing_lines);
    assert!(found.empty_runs.is_empty());
    assert_eq!(lst.to_string(), "a=1\n");
}

#[test]
fn missing_trailing_line_is_added() {
    let mut lst = tokens("a=1 ");
    let found = check_empty_lines(&mut lst.0, false);
    assert!(found.missing_trailing_line);
    assert_eq!(lst.to_string(), "a=1 \n");
    let mut lst = tokens("a=1");
    let found = check_empty_lines(&mut lst.0, false);
    assert!(found.missing_trailing_line);
    assert_eq!(lst.to_string(), "a=1\n");
    let mut lst = tokens("");
    assert!(!check_empty_lines(&mut lst.0, false).missing_trailing_line);
}

#[test]
fn dry_empty_line_check_changes_nothing() {
    let mut lst = tokens("a=1\n\n\n\nb=2\n\n\n");
    let found = check_empty_lines(&mut lst.0, true);
    assert!(found.too_many_trailing_lines);
    assert_eq!(found.empty_runs, vec![1]);
    assert_eq!(lst.to_string(), "a=1\n\n\n\nb=2\n\n\n");
}

#[test]
fn leading_spaces_are_removed() {
    let mut lst = tokens("  a=1 \nb=2\n");
    let lines = check_extra_spaces(&mut lst.0, false);
    assert_eq!(lines, vec![0]);
    assert_eq!(lst.to_string(), "a=1\nb=2\n");
    let mut lst = tokens("a=1 \n\n b=2\nc=3\n");
    assert_eq!(check_extra_spaces(&mut lst.0, false), vec![0, 4]);
    assert_eq!(lst.to_string(), "a=1\n\nb=2\nc=3\n");
    let mut lst = tokens("  a=1\n");
    assert_eq!(check_extra_spaces(&mut lst.0, true), vec![0]);
    assert_eq!(lst.to_string(), "  a=1\n");
}

fn ast_of(src: &str) -> ApmlAst {
    ApmlAst::emit_from(&tokens(src)).unwrap()
}

#[test]
fn arch_overrides_are_found() {
    let ast = ast_of(
        "PKGDEP__AMD64=\"${PKGDEP__RETRO}\"\nFOO__AMD64=\"${FOO__RETRO} \"\nFOO__RETRO=\"x\"\nBAR__ARM64=(\"${BAR__MAINLINE[@]}\")\n",
    );
    let overrides = arch_overrides(&ast);
    assert_eq!(overrides.len(), 3);
    assert_eq!(overrides[0].base_name, "PKGDEP");
    assert_eq!(overrides[0].target, "amd64");
    assert_eq!(overrides[0].groups, vec!["retro".to_string()]);
    assert_eq!(overrides[1].var_name, "FOO__AMD64");
    assert_eq!(overrides[2].groups, vec!["mainline".to_string()]);
    let table = vec![
        ("retro".to_string(), vec!["amd64".to_string(), "i486".to_string()]),
        ("mainline".to_string(), vec!["amd64".to_string(), "arm64".to_string()]),
    ];
    assert!(!is_redundant_override(&overrides[0], &table));
    assert!(is_redundant_override(&overrides[1], &table));
    assert!(is_redundant_override(&overrides[2], &table));
    let ctx = ApmlContext::eval_source("FOO__MAINLINE=\"y\"\n").unwrap();
    let missing = missing_archgroups(&overrides[1], &table, &ctx);
    assert_eq!(missing, vec![("FOO__MAINLINE".to_string(), "mainline".to_string())]);
    assert!(missing_archgroups(&overrides[0], &table, &ctx).is_empty());
}

#[test]
fn linter_selection() {
    let mut sel = LinterSelector::new();
    assert!(sel.apply("no-extra-spaces"));
    assert!(sel.apply("extra"));
    assert!(sel.apply("FooLinter"));
    assert!(sel.apply("ChkUpdateLinter"));
    assert!(sel.apply("no-ArchGroupLinter"));
    assert!(!sel.apply("bogus"));
    let s = sel.select();
    let mut linters = s.linters.clone();
    linters.sort();
    assert_eq!(
        linters,
        vec![
            "ChkUpdateLinter",
            "EmptyLineLinter",
            "FishShellLinter",
            "Pep517Linter",
            "PythonDepsLinter",
            "SrcsLinter",
        ]
    );
    assert_eq!(s.disabled_lints, vec!["extra-spaces".to_string()]);
    assert_eq!(s.unknown_linters, vec!["FooLinter".to_string()]);
    assert!(s.refused_linters.is_empty());
    let mut sel = LinterSelector::default();
    assert!(sel.apply("no-baseline"));
    assert!(sel.apply("no-ExtraSpacesLinter"));
    assert!(sel.apply("ExtraSpacesLinter"));
    let s = sel.select();
    assert!(s.linters.is_empty());
    assert_eq!(s.refused_linters, vec!["ExtraSpacesLinter".to_string()]);
}

#[test]
fn evaluation_with_a_replacement() {
    let ctx = ApmlContext::eval_source(
        "A=ab\nB=\"${A}2\"\nC=\"${B/b/x}\"\nD=\"${B^^*}\"\nE=\"${D,,A}\"\n",
    )
    .unwrap();
    assert!(ctx.index("B").eq_str("ab2"));
    assert!(ctx.index("C").eq_str("ax2"));
    assert!(ctx.index("D").eq_str("AB2"));
    assert!(ctx.index("E").eq_str("aB2"));
    let ctx = ApmlContext::eval_source("A=abcabc\nB=\"${A//b/.}\"\nC=\"${A%b*}\"\nE=\"${A:1:2}\"\n").unwrap();
    assert!(ctx.index("B").eq_str("a.ca.c"));
    assert!(ctx.index("C").eq_str("abca"));
    assert!(ctx.index("E").eq_str("bc"));
}

#[test]
fn evaluation_of_strips_substrings_and_ranges() {
    let ctx = ApmlContext::eval_source(
        "A=abcabc\nB=\"${A#*b}\"\nC=\"${A##*b}\"\nD=\"${A%b*}\"\nE=\"${A%%b*}\"\n",
    )
    .unwrap();
    assert!(ctx.index("B").eq_str("cabc"));
    assert!(ctx.index("C").eq_str("c"));
    assert!(ctx.index("D").eq_str("abca"));
    assert!(ctx.index("E").eq_str("a"));
    let ctx = ApmlContext::eval_source("A=abcdef\nB=\"${A:1:0}\"\nC=\"${A:1:-2}\"\n").unwrap();
    assert!(ctx.index("B").eq_str(""));
    assert!(ctx.index("C").eq_str("bcd"));
    let ctx = ApmlContext::eval_source("A=abc\nB=\"${A#[ab]}\"\nC=\"${A//[ac]/x}\"\n").unwrap();
    assert!(ctx.index("B").eq_str("bc"));
    assert!(ctx.index("C").eq_str("xbx"));
}

#[test]
fn question_mark_matches_one_character() {
    let ctx = ApmlContext::eval_source("A=ab\nB=\"${A%?}\"\nC=\"${A#?}\"\n").unwrap();
    assert!(ctx.index("B").eq_str("a"));
    assert!(ctx.index("C").eq_str("b"));
}

#[test]
fn a_trailing_list_separator_prints_back() {
    let src = "A=${B#?(a|)}\nC=\"${D//@(x|y|)/z}\"\n";
    assert_eq!(tokens(src).to_string(), src);
}

#[test]
fn replacement_text_is_taken_literally() {
    let ctx = ApmlContext::eval_source("A=aba\nX=\"\\$x\"\nB=\"${A//a/$X}\"\n").unwrap();
    assert!(ctx.index("X").eq_str("$x"));
    assert!(ctx.index("B").eq_str("$xb$x"));
}

#[test]
fn definition_is_inserted_after_another() {
    let def = |src: &str| match tokens(src).0.into_iter().next() {
        Some(Token::Variable(d)) => d,
        _ => panic!("not a definition"),
    };
    let mut lst = tokens("ABTYPE=x\nA=1\n");
    insert_definition_after(&mut lst.0, def("NOPYTHON2=1"), "ABTYPE");
    assert_eq!(lst.to_string(), "ABTYPE=x\nNOPYTHON2=1\nA=1\n");
    let mut lst = tokens("A=1");
    insert_definition_after(&mut lst.0, def("NOPYTHON2=1"), "ABTYPE");
    assert_eq!(lst.to_string(), "A=1\nNOPYTHON2=1\n");
}

#[test]
fn source_findings() {
    let tarball = |a: &str| SourceCheck { tag: "tbl".to_string(), kind: SourceKind::Tarball(Some(a.to_string())) };
    assert_eq!(
        source_finding(tarball("https://pypi.io/packages/source/f/foo/foo-$VER.tar.gz")).unwrap(),
        SourceFinding::PreferPypi("foo".to_string())
    );
    assert_eq!(
        source_finding(tarball("https://github.com/user/repo/archive/v$VER.tar.gz")).unwrap(),
        SourceFinding::PreferGitHub("user".to_string(), "repo".to_string())
    );
    assert_eq!(source_finding(tarball("https://example.org/a.tar.gz")).unwrap(), SourceFinding::Fine);
    let unknown = SourceCheck { tag: "svn".to_string(), kind: SourceKind::Unknown };
    assert_eq!(source_finding(unknown).unwrap(), SourceFinding::UnknownTag("svn".to_string()));
    let known = SourceCheck { tag: "git".to_string(), kind: SourceKind::Known };
    assert_eq!(source_finding(known).unwrap(), SourceFinding::Fine);
}

#[test]
fn definitions_are_set_or_added() {
    let def = |src: &str| match tokens(src).0.into_iter().next() {
        Some(Token::Variable(d)) => d,
        _ => panic!("not a definition"),
    };
    let mut lst = tokens("PKGDEP=a\nB=1\n");
    assert!(set_or_add_definition(&mut lst.0, def("PKGDEP=\"x y\"")));
    assert_eq!(lst.to_string(), "PKGDEP=\"x y\"\nB=1\n");
    let mut lst = tokens("B=1");
    assert!(!set_or_add_definition(&mut lst.0, def("PKGDEP=x")));
    assert_eq!(lst.to_string(), "B=1\nPKGDEP=x\n");
}

#[test]
fn numbers_and_architectures() {
    assert_eq!(format_isize(-12), "-12");
    assert_eq!(format_usize(0), "0");
    let s: Vec<char> = " -42 ".chars().collect();
    assert_eq!(parse_isize(&s, 1, 4), Ok(-42));
    let s: Vec<char> = "4x".chars().collect();
    assert_eq!(parse_isize(&s, 0, 2), Err(IntErrorKind::InvalidDigit));
    assert_eq!(Architecture::from_ident("loongarch64"), Some(Architecture::LoongArch64));
    assert_eq!(Architecture::Amd64.ident(), "amd64");
    assert!(Architecture::NoArch.is_noarch());
    assert_eq!(Architecture::from_ident("x86"), None);
}

#[test]
fn printed_source_is_the_source() {
    let src = "# c\nA=\"${B:-x}\" # d\nC=(a 'b' \"c\")\n";
    assert_eq!(tokens(src).to_string(), src);
    let ast = ast_of("A+=\"x\"\n");
    assert_eq!(ast.lower().to_string(), "A=\"${A}x\"");
}

#[test]
fn chkupdate_tags() {
    assert_eq!(check_chkupdate("  \n"), Ok(ChkUpdateCheck::Undefined));
    assert_eq!(check_chkupdate("anitya::id=1234"), Ok(ChkUpdateCheck::Anitya));
    assert_eq!(check_chkupdate("GitHub::repo=a"), Ok(ChkUpdateCheck::PreferAnitya("GitHub".to_string())));
    assert_eq!(check_chkupdate("foo::x"), Ok(ChkUpdateCheck::UnknownTag("foo".to_string())));
    assert!(matches!(check_chkupdate("::x"), Err(ParseError::SyntaxError(_))));
}

#[test]
fn source_handlers() {
    let c = check_source("https://example.org/a.tar.gz").unwrap();
    assert_eq!(c.tag, "tbl");
    assert_eq!(c.kind, SourceKind::Tarball(Some("https://example.org/a.tar.gz".to_string())));
    let c = check_source("git::commit=tags/v1::https://example.org/a.git").unwrap();
    assert_eq!(c.tag, "git");
    assert_eq!(c.kind, SourceKind::Known);
    assert_eq!(check_source("foo::bar").unwrap().kind, SourceKind::Unknown);
    assert!(is_insecure_source("tbl::http://example.org/a.tar.gz"));
    assert!(!is_insecure_source("https://example.org/a.tar.gz"));
    assert_eq!(secure_links("http://a http://b"), "https://a https://b");
}

#[test]
fn specific_source_handlers() {
    assert_eq!(
        specific_handler("https://pypi.io/packages/source/f/foo/foo-$VER.tar.gz").unwrap(),
        Some(SpecificHandler::Pypi("foo".to_string()))
    );
    assert_eq!(
        specific_handler("https://github.com/user/repo/archive/v$VER.tar.gz").unwrap(),
        Some(SpecificHandler::GitHub("user".to_string(), "repo".to_string()))
    );
    assert_eq!(specific_handler("https://example.org/a.tar.gz").unwrap(), None);
    assert_eq!(
        pypi_source_fix("SRCS=\"tbl::https://pypi.io/packages/source/f/foo/foo-$VER.tar.gz\"").unwrap(),
        "SRCS=\"pypi::version=$VER::foo\""
    );
    assert_eq!(
        github_source_fix("SRCS=\"tbl::https://github.com/user/repo/archive/v$VER.tar.gz\"").unwrap(),
        "SRCS=\"git::commit=tags/v$VER::https://github.com/user/repo.git\""
    );
}

#[test]
fn fish_completions() {
    assert_eq!(
        fix_fish_completions("foo", "install -Dm644 a /usr/share/fish/completions/a.fish"),
        Some("install -Dm644 a /usr/share/fish/vendor_completions.d/a.fish".to_string())
    );
    assert_eq!(fix_fish_completions("fish", "cp x /usr/share/fish/completions/"), None);
    assert_eq!(fix_fish_completions("foo", "make install"), None);
}

#[test]
fn variable_edits() {
    let mut lst = tokens("A=1\nB=2\nC=3\n");
    assert_eq!(find_variable(&lst.0, "C"), Some(4));
    assert!(remove_variable(&mut lst.0, "B"));
    assert_eq!(lst.to_string(), "A=1\nC=3\n");
    assert!(!remove_variable(&mut lst.0, "D"));
    assert_eq!(lst.to_string(), "A=1\nC=3\n");
    assert!(set_variable_value(&mut lst.0, "C", StringArray::new(vec!["x".to_string()]).to_value()));
    assert_eq!(lst.to_string(), "A=1\nC=\"x\"\n");
    assert_eq!(
        skip_checksum("sha256::a sha256::b", 1),
        Some(vec!["sha256::a".to_string(), "SKIP".to_string()])
    );
    assert_eq!(skip_checksum("sha256::a", 2), None);
}

#[test]
fn archive_kinds() {
    assert_eq!(archive_kind("a-1.0.tar"), Some(ArchiveKind::Tar));
    assert_eq!(archive_kind("a-1.0.tar.gz"), Some(ArchiveKind::Gzip));
    assert_eq!(archive_kind("a-1.0.tar.xz"), Some(ArchiveKind::Xz));
    assert_eq!(archive_kind("a-1.0.tar.zst"), Some(ArchiveKind::Zstd));
    assert_eq!(archive_kind("a-1.0.tar.bz2"), Some(ArchiveKind::Bzip2));
    assert_eq!(archive_kind("a-1.0.zip"), None);
}

#[test]
fn source_access_of_srcs() {
    assert_eq!(
        source_access("https://github.com/user/repo/archive/v1.tar.gz").unwrap(),
        SourceAccess::GitHub("user".to_string(), "repo".to_string())
    );
    assert_eq!(
        source_access("tbl::https://example.org/a-1.tar.gz").unwrap(),
        SourceAccess::Tarball("https://example.org/a-1.tar.gz".to_string())
    );
    assert_eq!(
        source_access("git::commit=tags/v1::https://github.com/user/repo.git").unwrap(),
        SourceAccess::GitHub("user".to_string(), "repo".to_string())
    );
    assert_eq!(source_access("git::https://example.org/a.git").unwrap(), SourceAccess::Nothing);
    assert_eq!(source_access("a b").unwrap(), SourceAccess::Nothing);
    assert!(source_access("::x").is_err());
}
