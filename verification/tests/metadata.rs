//! The primary discovery strategy's record parsing.

use cap::metadata::CargoMetadataScraper;
use cap::parse::parse_version;

#[test]
fn parse_record_reads_key_and_bins() {
    let line = r#""ripgrep 13.0.0 (registry+https://github.com/rust-lang/crates.io-index)" = ["rg"]"#;
    let (key, bins) = CargoMetadataScraper::parse_record(line).expect("record should parse");
    assert_eq!(key.name(), "ripgrep");
    assert!(key.version().eq_version(&parse_version("13.0.0").unwrap()));
    let names: Vec<&str> = bins.iter().map(|b| b.name()).collect();
    assert_eq!(names, vec!["rg"]);
}

#[test]
fn parse_record_reads_several_bins() {
    let line = r#""cargo-edit 0.12.2 (registry+https://github.com/rust-lang/crates.io-index)" = ["cargo-add", "cargo-rm", "cargo-upgrade"]"#;
    let (key, bins) = CargoMetadataScraper::parse_record(line).expect("record should parse");
    assert_eq!(key.name(), "cargo-edit");
    let names: Vec<&str> = bins.iter().map(|b| b.name()).collect();
    assert_eq!(names, vec!["cargo-add", "cargo-rm", "cargo-upgrade"]);
}

#[test]
fn parse_record_skips_non_records() {
    assert!(CargoMetadataScraper::parse_record("[v1]").is_none());
    assert!(CargoMetadataScraper::parse_record("").is_none());
    assert!(CargoMetadataScraper::parse_record("# comment").is_none());
}

#[test]
fn parse_record_rejects_bad_version() {
    let line = r#""tool notaversion (path+file:///x)" = ["tool"]"#;
    assert!(CargoMetadataScraper::parse_record(line).is_none());
}
