//! Tests of the Python dependency collection.

use libabbs::python::{
    add_provider, collect_from_pyproject, collect_from_requirementstxt, declare_provider, find_declared_provider,
    is_python_build_type, is_python_site_file, pep517_checks, pep517_declared, pep517_dependency,
    pep517_site_path, pep517_uniform, site_packages_path, Dependency, DependencyOrigin,
    Pep517Findings,
};

#[test]
fn test_extract_name_from_req() {
    assert!(Dependency::extract_name_from_req("a; platform_system=windows").is_none());
    assert_eq!(Dependency::extract_name_from_req("a").unwrap(), "a");
    assert_eq!(Dependency::extract_name_from_req("a; b").unwrap(), "a");
    assert_eq!(Dependency::extract_name_from_req("a ; b").unwrap(), "a");
    assert_eq!(Dependency::extract_name_from_req("a== 1.0").unwrap(), "a");
    assert_eq!(Dependency::extract_name_from_req("a~= 1.0").unwrap(), "a");
    assert_eq!(Dependency::extract_name_from_req("a>= 1.0").unwrap(), "a");
    assert_eq!(Dependency::extract_name_from_req("a< 1.0").unwrap(), "a");
}

/// The string items of an array of a TOML table, by its path.
fn strings_at(table: &toml::Table, section: &str, key: &str) -> Vec<String> {
    table
        .get(section)
        .and_then(|s| s.get(key))
        .and_then(|v| v.as_array())
        .map(|a| a.iter().filter_map(|v| v.as_str().map(String::from)).collect())
        .unwrap_or_default()
}

#[test]
fn test_collect_from_pyproject() {
    let table: toml::Table = toml::from_str(
        r##"
[build-system]
requires = ["flit-core"]
build-backend = "flit_core.buildapi"

[project]
dependencies = [
    "packaging>=23.2",
    "wheels; platform_system=windows",
]
"##,
    )
    .unwrap();
    let dependencies = strings_at(&table, "project", "dependencies");
    let requires = strings_at(&table, "build-system", "requires");
    let backend = table
        .get("build-system")
        .and_then(|s| s.get("build-backend"))
        .and_then(|v| v.as_str())
        .map(String::from);
    assert_eq!(
        collect_from_pyproject(&dependencies, &requires, backend),
        vec![
            Dependency {
                name: "packaging".into(),
                build_dep: false,
                origin: DependencyOrigin::Pep517Dependencies,
                raw_req: "packaging>=23.2".into(),
            },
            Dependency {
                name: "flit-core".into(),
                build_dep: true,
                origin: DependencyOrigin::Pep517BuildRequires,
                raw_req: "flit-core".into(),
            },
            Dependency {
                name: "flit_core".into(),
                build_dep: true,
                origin: DependencyOrigin::Pep517BuildBackend,
                raw_req: "flit_core.buildapi".into(),
            }
        ]
    );
}

#[test]
fn test_collect_from_requirementstxt() {
    assert_eq!(
        collect_from_requirementstxt(
            r##"beautifulsoup4==4.5.1
decorator==4.0.10
requests
pip~=100.0
a[b]
"##
        ),
        vec![
            Dependency {
                name: "beautifulsoup4".into(),
                build_dep: false,
                origin: DependencyOrigin::RequirementsTxt,
                raw_req: "beautifulsoup4==4.5.1".into(),
            },
            Dependency {
                name: "decorator".into(),
                build_dep: false,
                origin: DependencyOrigin::RequirementsTxt,
                raw_req: "decorator==4.0.10".into(),
            },
            Dependency {
                name: "requests".into(),
                build_dep: false,
                origin: DependencyOrigin::RequirementsTxt,
                raw_req: "requests".into(),
            },
            Dependency {
                name: "pip".into(),
                build_dep: false,
                origin: DependencyOrigin::RequirementsTxt,
                raw_req: "pip~=100.0".into(),
            },
            Dependency {
                name: "a".into(),
                build_dep: false,
                origin: DependencyOrigin::RequirementsTxt,
                raw_req: "a[b]".into(),
            },
        ]
    );
}

#[test]
fn requirements_comments_and_blank_lines() {
    let deps = collect_from_requirementstxt("# pinned\n\n  foo>=1 # why\r\nbar; platform_system == \"Windows\"\n");
    assert_eq!(
        deps,
        vec![Dependency {
            name: "foo".into(),
            build_dep: false,
            origin: DependencyOrigin::RequirementsTxt,
            raw_req: "foo>=1".into(),
        }]
    );
}

#[test]
fn aosc_package_name_and_origin_text() {
    let dep = Dependency {
        name: "flit_core".into(),
        build_dep: true,
        origin: DependencyOrigin::Pep517BuildBackend,
        raw_req: "flit_core.buildapi".into(),
    };
    assert_eq!(dep.guess_aosc_package_name(), "flit-core");
    assert_eq!(DependencyOrigin::RequirementsTxt.to_string(), "requirements.txt");
    assert_eq!(
        DependencyOrigin::Pep517BuildBackend.to_string(),
        "build-system.build-backend from pyproject.toml"
    );
}

fn dep(name: &str, build_dep: bool) -> Dependency {
    Dependency {
        name: name.to_string(),
        build_dep,
        origin: DependencyOrigin::RequirementsTxt,
        raw_req: name.to_string(),
    }
}

fn strings(v: &[&str]) -> Vec<String> {
    v.iter().map(|s| s.to_string()).collect()
}

#[test]
fn pep517_recipe_checks() {
    let mut pkgdep = strings(&["python-2", "foo", "python-2"]);
    let found = pep517_checks(Some("python"), "0", &mut pkgdep, false);
    assert_eq!(
        found,
        Pep517Findings {
            upgrade_abtype: true,
            missing_nopython2: true,
            python2_dep: true,
            missing_python3_dep: true,
        }
    );
    assert_eq!(pkgdep, strings(&["foo", "python-2", "python-3"]));
    let mut pkgdep = strings(&["python-3"]);
    let found = pep517_checks(None, "1", &mut pkgdep, false);
    assert!(!found.upgrade_abtype && !found.missing_nopython2 && !found.python2_dep && !found.missing_python3_dep);
    assert_eq!(pkgdep, strings(&["python-3"]));
    let mut pkgdep = strings(&["python-2"]);
    pep517_checks(Some("pep517"), "1", &mut pkgdep, true);
    assert_eq!(pkgdep, strings(&["python-2"]));
}

#[test]
fn providers_are_declared() {
    let pkgdep = strings(&["python-3", "flit-core"]);
    let builddep = strings(&["setuptools"]);
    assert_eq!(find_declared_provider(&dep("flit_core", false), &pkgdep, &builddep), Some("flit-core".to_string()));
    assert_eq!(find_declared_provider(&dep("setuptools", false), &pkgdep, &builddep), None);
    assert_eq!(find_declared_provider(&dep("setuptools", true), &pkgdep, &builddep), Some("setuptools".to_string()));
    let mut p = pkgdep.clone();
    let mut b = builddep.clone();
    assert!(declare_provider(&dep("requests", false), "requests", &mut p, &mut b, false));
    assert_eq!(p, strings(&["python-3", "flit-core", "requests"]));
    assert!(declare_provider(&dep("wheel", true), "wheel", &mut p, &mut b, false));
    assert_eq!(b, strings(&["setuptools", "wheel"]));
    assert!(!declare_provider(&dep("wheel", true), "wheel", &mut p, &mut b, false));
    assert!(declare_provider(&dep("idna", false), "idna", &mut p, &mut b, true));
    assert_eq!(p, strings(&["python-3", "flit-core", "requests"]));
}

#[test]
fn system_package_lookup_keys() {
    assert_eq!(site_packages_path(&dep("typing-extensions", false)), "/site-packages/typing_extensions/");
    assert_eq!(site_packages_path(&dep("idna", false)), "/site-packages/idna/");
    assert!(is_python_site_file("/usr/lib/python3.12/site-packages/idna/__init__.py"));
    assert!(!is_python_site_file("/usr/share/doc/idna"));
    assert!(is_python_build_type(None));
    assert!(is_python_build_type(Some("pep517")));
    assert!(!is_python_build_type(Some("cmakeninja")));
}

#[test]
fn version_exclusion_ends_the_name() {
    assert_eq!(Dependency::extract_name_from_req("a!=1.0").unwrap(), "a");
    assert_eq!(Dependency::extract_name_from_req("a[b]>1").unwrap(), "a");
}

#[test]
fn pep517_requirements() {
    assert_eq!(pep517_dependency("requests>=2.0").unwrap(), "requests");
    assert_eq!(pep517_dependency("a<2,>1").unwrap(), "a");
    assert_eq!(pep517_dependency("a==1; python_version>'3'").unwrap(), "a");
    assert!(pep517_dependency("pywin32; platform_system == 'Windows'").is_none());
    assert_eq!(pep517_dependency("a; platform_system == 'Darwin'").unwrap(), "a");
    assert_eq!(pep517_dependency("flit_core.buildapi").unwrap(), "flit_core.buildapi");
    assert_eq!(pep517_uniform("Flit_Core"), "flit-core");
    assert_eq!(pep517_site_path("flit_core"), "/site-packages/flit_core/");
    let pkgdep = vec!["python-3".to_string()];
    let builddep = vec!["flit-core".to_string()];
    assert!(pep517_declared("python-3", false, &pkgdep, &builddep));
    assert!(!pep517_declared("flit-core", false, &pkgdep, &builddep));
    assert!(pep517_declared("flit-core", true, &pkgdep, &builddep));
}

#[test]
fn providers_are_added_where_missing() {
    let mut pkgdep = vec!["python-3".to_string()];
    let mut builddep = vec![];
    assert!(!add_provider("python-3", false, &mut pkgdep, &mut builddep, false));
    assert!(add_provider("flit", true, &mut pkgdep, &mut builddep, false));
    assert_eq!(builddep, vec!["flit".to_string()]);
    assert!(add_provider("requests", false, &mut pkgdep, &mut builddep, true));
    assert_eq!(pkgdep, vec!["python-3".to_string()]);
}
