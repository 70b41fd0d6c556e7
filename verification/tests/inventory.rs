//! The package inventory: building, sorting, lookup and rendering.

use cap::discovery::{DiscoveryEntry, DiscoveryMap};
use cap::helper::pluralize;
use cap::package::{Package, PackageExecutable, PackageKey};
use cap::parse::parse_version;
use cap::tree::{PackageFormatting, PackageTree};
use cap::version::Version;

fn v(text: &str) -> Version {
    parse_version(text).expect("version should parse")
}

fn entry(name: &str, version: &str, bins: &[&str]) -> DiscoveryEntry {
    let key = PackageKey::new(name.to_string(), v(version));
    let execs = bins.iter().map(|b| PackageExecutable::new(b.to_string())).collect();
    DiscoveryEntry::new(key, execs)
}

fn map_of(entries: Vec<DiscoveryEntry>) -> DiscoveryMap {
    let mut m = DiscoveryMap::new();
    for e in entries {
        let (key, execs) = e.into_parts();
        m.add_entry(key, execs);
    }
    m
}

fn names_of(tree: &PackageTree) -> Vec<String> {
    tree.packages().iter().map(|p| p.name().to_string()).collect()
}

#[test]
fn build_sorts_by_name() {
    let tree = PackageTree::build(map_of(vec![
        entry("zoxide", "0.9.0", &["zoxide"]),
        entry("bat", "0.24.0", &["bat"]),
        entry("ripgrep", "13.0.0", &["rg"]),
    ]));
    assert_eq!(names_of(&tree), vec!["bat", "ripgrep", "zoxide"]);
}

#[test]
fn build_sorts_same_name_by_version() {
    let tree = PackageTree::build(map_of(vec![
        entry("tool", "1.10.0", &["tool"]),
        entry("tool", "1.2.0", &["tool"]),
    ]));
    let pkgs = tree.packages();
    assert_eq!(pkgs.len(), 2);
    assert!(pkgs[0].version().eq_version(&v("1.2.0")));
    assert!(pkgs[1].version().eq_version(&v("1.10.0")));
}

#[test]
fn sort_is_deterministic_over_input_order() {
    let a = PackageTree::build(map_of(vec![
        entry("a", "1.0.0", &["a"]),
        entry("c", "1.0.0", &["c"]),
        entry("b", "1.0.0", &["b"]),
    ]));
    let b = PackageTree::build(map_of(vec![
        entry("c", "1.0.0", &["c"]),
        entry("b", "1.0.0", &["b"]),
        entry("a", "1.0.0", &["a"]),
    ]));
    assert_eq!(names_of(&a), names_of(&b));
    assert_eq!(names_of(&a), vec!["a", "b", "c"]);
}

#[test]
fn get_finds_first_match_by_name() {
    let tree = PackageTree::build(map_of(vec![
        entry("bat", "0.24.0", &["bat"]),
        entry("ripgrep", "13.0.0", &["rg"]),
    ]));
    let found = tree.get("ripgrep").expect("ripgrep should be found");
    assert_eq!(found.name(), "ripgrep");
    assert!(found.version().eq_version(&v("13.0.0")));
    assert!(tree.get("fd-find").is_none());
    assert!(tree.get("").is_none());
}

#[test]
fn empty_inventory() {
    let tree = PackageTree::build(DiscoveryMap::new());
    assert_eq!(tree.len(), 0);
    assert!(tree.get("anything").is_none());
    assert!(tree.render(PackageFormatting::Long).is_empty());
}

#[test]
fn render_long_format() {
    let tree = PackageTree::build(map_of(vec![
        entry("ripgrep", "13.0.0", &["rg"]),
        entry("cargo-edit", "0.12.2", &["cargo-add", "cargo-rm"]),
    ]));
    let lines = tree.render(PackageFormatting::Long);
    assert_eq!(
        lines,
        vec![
            "cargo-edit (v0.12.2)".to_string(),
            "  cargo-add".to_string(),
            "  cargo-rm".to_string(),
            "ripgrep (v13.0.0)".to_string(),
            "  rg".to_string(),
        ]
    );
}

#[test]
fn render_short_format() {
    let tree = PackageTree::build(map_of(vec![
        entry("ripgrep", "13.0.0", &["rg"]),
        entry("cargo-edit", "0.12.2", &["cargo-add", "cargo-rm"]),
    ]));
    let lines = tree.render(PackageFormatting::Short);
    assert_eq!(
        lines,
        vec![
            "cargo-edit (v0.12.2): cargo-add, cargo-rm".to_string(),
            "ripgrep (v13.0.0): rg".to_string(),
        ]
    );
}

#[test]
fn package_accessors() {
    let p = Package::new(
        "bat".to_string(),
        v("0.24.0"),
        vec![PackageExecutable::new("bat".to_string())],
    );
    assert_eq!(p.name(), "bat");
    assert!(p.version().eq_version(&v("0.24.0")));
    assert_eq!(p.binaries().len(), 1);
    assert_eq!(p.binaries()[0].name(), "bat");
}

#[test]
fn package_key_identity() {
    let a = PackageKey::new("tool".to_string(), v("1.0.0"));
    let b = PackageKey::new("tool".to_string(), v("1.0.0"));
    let c = PackageKey::new("tool".to_string(), v("1.0.1"));
    let d = PackageKey::new("other".to_string(), v("1.0.0"));
    assert!(a.key_eq(&b));
    assert!(!a.key_eq(&c));
    assert!(!a.key_eq(&d));
    assert_eq!(a.name(), "tool");
    assert!(a.version().eq_version(&v("1.0.0")));
}

#[test]
fn pluralize_picks_by_count() {
    assert_eq!(pluralize("package", "packages", 1), "package");
    assert_eq!(pluralize("package", "packages", 0), "packages");
    assert_eq!(pluralize("package", "packages", 2), "packages");
}
