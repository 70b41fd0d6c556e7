//! The fallback scraper: banner parsing and merge-by-key.

use std::collections::BTreeMap;

use cap::discovery::{DiscoveryEntry, DiscoveryMap};
use cap::package::{PackageExecutable, PackageKey};
use cap::parse::parse_version;
use cap::render::version_string;
use cap::scrape::{find_version, BinaryInvocationScraper};
use cap::tree::PackageTree;
use cap::version::Version;

fn v(text: &str) -> Version {
    parse_version(text).expect("version should parse")
}

/// The map's contents as name+version keys to sorted executable lists,
/// ignoring entry order and per-key list order.
fn contents(map: &DiscoveryMap) -> BTreeMap<(String, String), Vec<String>> {
    let mut out = BTreeMap::new();
    for e in map.entries() {
        let key = (e.key().name().to_string(), version_string(e.key().version()));
        let mut names: Vec<String> = e.execs().iter().map(|x| x.name().to_string()).collect();
        names.sort();
        out.insert(key, names);
    }
    out
}

fn entry(name: &str, version: &str, bins: &[&str]) -> DiscoveryEntry {
    let key = PackageKey::new(name.to_string(), v(version));
    let execs = bins.iter().map(|b| PackageExecutable::new(b.to_string())).collect();
    DiscoveryEntry::new(key, execs)
}

fn map_of(entries: Vec<DiscoveryEntry>) -> DiscoveryMap {
    let mut m = DiscoveryMap::new();
    for e in entries {
        let (key, execs) = e.into_parts();
        m.add_entry(key, execs);
    }
    m
}

#[test]
fn find_version_in_plain_banner() {
    let found = find_version("ripgrep 13.0.0").expect("version expected");
    assert!(found.eq_version(&v("13.0.0")));
}

#[test]
fn find_version_strips_leading_v() {
    let found = find_version("tool v0.5.1 (abcdef)").expect("version expected");
    assert!(found.eq_version(&v("0.5.1")));
}

#[test]
fn find_version_skips_two_part_candidates() {
    // "1.2" matches the version shape but is not a strict semantic
    // version, so the scan moves on to the next token.
    let found = find_version("tool 1.2 build 3.4.5").expect("version expected");
    assert!(found.eq_version(&v("3.4.5")));
}

#[test]
fn find_version_scans_later_lines() {
    let found = find_version("tool: the best tool\nversion 2.1.0\n").expect("version expected");
    assert!(found.eq_version(&v("2.1.0")));
}

#[test]
fn find_version_none_without_version() {
    assert!(find_version("no version here").is_none());
    assert!(find_version("").is_none());
}

#[test]
fn parse_banner_reads_name_and_version() {
    let (key, exec) =
        BinaryInvocationScraper::parse_banner("ripgrep 13.0.0\nsome help text", "rg")
            .expect("banner should parse");
    assert_eq!(key.name(), "ripgrep");
    assert!(key.version().eq_version(&v("13.0.0")));
    assert_eq!(exec.name(), "rg");
}

#[test]
fn parse_banner_case_folds() {
    let (key, exec) = BinaryInvocationScraper::parse_banner("Tool 1.0.0", "TOOL")
        .expect("banner should parse");
    assert_eq!(key.name(), "tool");
    assert_eq!(exec.name(), "tool");
}

#[test]
fn parse_banner_skips_without_version() {
    assert!(BinaryInvocationScraper::parse_banner("tool without banner", "tool").is_none());
    assert!(BinaryInvocationScraper::parse_banner("", "tool").is_none());
    // A version on a later line does not help when the first line is empty.
    assert!(BinaryInvocationScraper::parse_banner("\ntool 1.0.0", "tool").is_none());
}

#[test]
fn accumulate_groups_by_key() {
    let mut map = DiscoveryMap::new();
    BinaryInvocationScraper::accumulate(&mut map, "cargo-edit 0.12.2", "cargo-add");
    BinaryInvocationScraper::accumulate(&mut map, "cargo-edit 0.12.2", "cargo-rm");
    BinaryInvocationScraper::accumulate(&mut map, "not a banner", "mystery");
    BinaryInvocationScraper::accumulate(&mut map, "bat 0.24.0", "bat");
    let got = contents(&map);
    assert_eq!(got.len(), 2);
    assert_eq!(
        got[&("cargo-edit".to_string(), "0.12.2".to_string())],
        vec!["cargo-add".to_string(), "cargo-rm".to_string()]
    );
    assert_eq!(got[&("bat".to_string(), "0.24.0".to_string())], vec!["bat".to_string()]);
}

#[test]
fn distinct_versions_stay_distinct_keys() {
    // Two binaries reporting the same name but different versions merge
    // into two separate keys, the key being name and version together.
    let mut map = DiscoveryMap::new();
    BinaryInvocationScraper::accumulate(&mut map, "tool 1.0.0", "tool-a");
    BinaryInvocationScraper::accumulate(&mut map, "tool 1.0.1", "tool-b");
    let got = contents(&map);
    assert_eq!(got.len(), 2);
    assert_eq!(got[&("tool".to_string(), "1.0.0".to_string())], vec!["tool-a".to_string()]);
    assert_eq!(got[&("tool".to_string(), "1.0.1".to_string())], vec!["tool-b".to_string()]);
    // And the inventory built from it holds two packages, not one.
    let tree = PackageTree::build(map);
    assert_eq!(tree.len(), 2);
}

#[test]
fn merge_is_commutative_up_to_multisets() {
    // {A: [x], B: [y]} merged with {A: [z]} holds A: {x, z} and B: {y}
    // whichever way the reduction goes.
    let mk_ab = || map_of(vec![entry("a", "1.0.0", &["x"]), entry("b", "1.0.0", &["y"])]);
    let mk_a = || map_of(vec![entry("a", "1.0.0", &["z"])]);

    let mut left = mk_ab();
    left.merge(mk_a());
    let mut right = mk_a();
    right.merge(mk_ab());

    let expect_a = vec!["x".to_string(), "z".to_string()];
    let got_left = contents(&left);
    let got_right = contents(&right);
    assert_eq!(got_left, got_right);
    assert_eq!(got_left[&("a".to_string(), "1.0.0".to_string())], expect_a);
    assert_eq!(got_left[&("b".to_string(), "1.0.0".to_string())], vec!["y".to_string()]);
}

#[test]
fn merge_is_associative_up_to_multisets() {
    let mk1 = || map_of(vec![entry("a", "1.0.0", &["x"])]);
    let mk2 = || map_of(vec![entry("a", "1.0.0", &["y"]), entry("b", "2.0.0", &["p"])]);
    let mk3 = || map_of(vec![entry("b", "2.0.0", &["q"]), entry("c", "3.0.0", &["r"])]);

    let mut left = mk1();
    left.merge(mk2());
    left.merge(mk3());

    let mut inner = mk2();
    inner.merge(mk3());
    let mut right = mk1();
    right.merge(inner);

    assert_eq!(contents(&left), contents(&right));
    let got = contents(&left);
    assert_eq!(got[&("a".to_string(), "1.0.0".to_string())], vec!["x".to_string(), "y".to_string()]);
    assert_eq!(got[&("b".to_string(), "2.0.0".to_string())], vec!["p".to_string(), "q".to_string()]);
    assert_eq!(got[&("c".to_string(), "3.0.0".to_string())], vec!["r".to_string()]);
}

#[test]
fn banners_to_rendered_inventory() {
    // The whole fallback pipeline: banners scraped into the map, the
    // map built into the sorted inventory, the inventory rendered.
    let mut map = DiscoveryMap::new();
    BinaryInvocationScraper::accumulate(&mut map, "Zoxide v0.9.4", "zoxide");
    BinaryInvocationScraper::accumulate(&mut map, "ripgrep 13.0.0\n-SIMD -AVX", "rg");
    BinaryInvocationScraper::accumulate(&mut map, "no banner here", "mystery");
    let tree = PackageTree::build(map);
    let lines = tree.render(cap::tree::PackageFormatting::Short);
    assert_eq!(
        lines,
        vec![
            "ripgrep (v13.0.0): rg".to_string(),
            "zoxide (v0.9.4): zoxide".to_string(),
        ]
    );
    assert!(tree.get("ripgrep").is_some());
    assert!(tree.get("mystery").is_none());
}
