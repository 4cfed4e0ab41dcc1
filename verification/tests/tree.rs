//! Tests of the ABBS tree, over the listings of a small test tree:
//!
//! ```text
//! testrepo/
//!   app-admin/
//!     test1/      spec, autobuild/defines
//!     test2/      spec, 01-host/{defines, defines.stage2}, 02-guest/defines
//!     not-a-package/
//!   groups/
//!   .hidden-dir/
//!   README.md
//! ```

use libabbs::tree::{AbbsSourcePackage, AbbsSubPackage, AbbsTree, DirEntry};
use std::cmp::Ordering;

fn dir(name: &str) -> DirEntry {
    DirEntry { name: name.to_string(), is_dir: true, is_file: false }
}

fn file(name: &str) -> DirEntry {
    DirEntry { name: name.to_string(), is_dir: false, is_file: true }
}

fn root_entries() -> Vec<DirEntry> {
    vec![dir("app-admin"), dir("groups"), dir(".hidden-dir"), file("README.md")]
}

fn section_entries() -> Vec<DirEntry> {
    vec![dir("test1"), dir("test2"), dir("not-a-package"), file("README")]
}

/// Whether a package directory of the test tree holds a `spec` file.
fn holds_spec(name: &str) -> bool {
    name == "test1" || name == "test2"
}

#[test]
fn test_tree() {
    let tree = AbbsTree::new("testrepo");
    assert_eq!(tree.sections(&root_entries()), vec!["app-admin".to_string()]);
    assert!(tree.package("app-admin", "not-a-package", holds_spec("not-a-package")).is_none());
    assert!(tree.package("app-admin", "not-a-package2", holds_spec("not-a-package2")).is_none());
    assert!(tree.package("app-admin", "test1", holds_spec("test1")).is_some());
    assert_eq!(tree.section_packages("app-admin", &section_entries()).len(), 3);
    let per_section: Vec<Vec<AbbsSourcePackage>> = tree
        .sections(&root_entries())
        .iter()
        .map(|s| tree.section_packages(s, &section_entries()))
        .collect();
    assert_eq!(tree.all_packages(per_section).len(), 3);
}

#[test]
fn test_source_package() {
    let tree = AbbsTree::new("testrepo");
    let pkg = tree.package("app-admin", "test1", holds_spec("test1")).unwrap();
    assert_eq!(pkg.name(), "test1");
    assert_eq!(pkg.section().as_str(), "app-admin");
    assert_eq!(pkg.tree().sections(&root_entries()), vec!["app-admin".to_string()]);
    let entries = vec![dir("autobuild"), file("spec")];
    assert_eq!(pkg.subpackages(&entries).len(), 1);
    assert_eq!(pkg.subpackages(&entries)[0].dir_name(), "autobuild");
    assert_eq!(pkg.subpackages(&entries)[0].source_package().name(), "test1");
    assert!(pkg.subpackage("autobuild", true).is_some());
    assert!(pkg.subpackage("01-host", false).is_none());
}

#[test]
fn test_subpackage() {
    let tree = AbbsTree::new("testrepo");
    let pkg = tree.package("app-admin", "test2", holds_spec("test2")).unwrap();
    let entries = vec![dir("01-host"), dir("02-guest"), file("spec")];
    assert_eq!(pkg.subpackages(&entries).len(), 2);
    let host = pkg.subpackage("01-host", true).unwrap();
    let guest = pkg.subpackage("02-guest", true).unwrap();
    assert_eq!(host.dir_name(), "01-host");
    assert_eq!(guest.dir_name(), "02-guest");
    let host_entries = vec![file("defines"), file("defines.stage2"), dir("patches")];
    assert_eq!(host.modifier_suffixes(&host_entries).len(), 2);
    assert!(host.modifier_suffixes(&host_entries).contains(&".stage2".to_string()));
    assert!(host.modifier_suffixes(&host_entries).contains(&"".to_string()));
    assert_eq!(guest.modifier_suffixes(&vec![file("defines")]).len(), 1);
}

#[test]
fn find_package_takes_the_first_section_holding_it() {
    let tree = AbbsTree::new("testrepo");
    let candidates = vec![("app-admin".to_string(), false), ("app-web".to_string(), true)];
    let pkg = tree.find_package("test1", &candidates).unwrap();
    assert_eq!(pkg.as_path(), "testrepo/app-web/test1");
    let none = vec![("app-admin".to_string(), false)];
    assert!(tree.find_package("test1", &none).is_err());
}

#[test]
fn packages_are_ordered_within_a_tree() {
    let a = AbbsSourcePackage::new("/t/app-admin/aaa");
    let b = AbbsSourcePackage::new("/t/app-web/bbb");
    assert_eq!(a.partial_cmp(&b), Some(Ordering::Less));
    assert_eq!(b.partial_cmp(&a), Some(Ordering::Greater));
    assert!(a == AbbsSourcePackage::new("/u/app-web/aaa"));
    assert_eq!(a.partial_cmp(&AbbsSourcePackage::new("/u/app-web/aaa")), None);
    let s = AbbsSubPackage::new("/t/app-admin/aaa/autobuild");
    let t = AbbsSubPackage::new("/t/app-admin/aaa/01-x");
    assert_eq!(s.partial_cmp(&t), Some(Ordering::Greater));
    assert!(s == AbbsSubPackage::new("/t/app-admin/aaa//autobuild"));
    assert!(s != t);
}

#[test]
fn sub_package_source_is_its_package() {
    let p = AbbsSourcePackage::new("/t/app-admin/pkg");
    let s = p.subpackage("autobuild", true).unwrap();
    assert_eq!(s.source_package().as_path(), "/t/app-admin/pkg");
    let p = AbbsSourcePackage::new("pkg");
    let s = p.subpackage("01-x", true).unwrap();
    assert_eq!(s.source_package().as_path(), "pkg");
}
