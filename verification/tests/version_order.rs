//! The semantic version order: parsing, comparison and rendering.

use cap::order::Ordering;
use cap::parse::parse_version;
use cap::render::version_string;
use cap::version::Version;

fn v(text: &str) -> Version {
    parse_version(text).expect("version should parse")
}

#[test]
fn parse_plain_version() {
    let p = v("1.2.3");
    assert_eq!(p.major, 1);
    assert_eq!(p.minor, 2);
    assert_eq!(p.patch, 3);
    assert!(p.pre.is_empty());
    assert!(p.build.is_empty());
}

#[test]
fn parse_pre_and_build() {
    let p = v("1.0.0-alpha.1+build.5");
    assert_eq!(p.major, 1);
    assert_eq!(p.pre, vec!["alpha".to_string(), "1".to_string()]);
    assert_eq!(p.build, vec!["build".to_string(), "5".to_string()]);
}

#[test]
fn parse_rejects_short_and_garbage() {
    assert!(parse_version("1.2").is_none());
    assert!(parse_version("nope").is_none());
    assert!(parse_version("").is_none());
    assert!(parse_version("1.2.3.4").is_none());
}

#[test]
fn numeric_core_orders() {
    assert!(v("1.2.0").le(&v("1.3.0")));
    assert!(!v("1.3.0").le(&v("1.2.0")));
    assert!(v("1.2.3").le(&v("1.2.3")));
    assert!(v("0.9.9").le(&v("1.0.0")));
    assert!(v("2.0.0").le(&v("10.0.0")));
}

#[test]
fn prerelease_precedes_release() {
    assert!(v("1.0.0-alpha").le(&v("1.0.0")));
    assert!(!v("1.0.0").le(&v("1.0.0-alpha")));
}

#[test]
fn prerelease_identifier_order() {
    // The ordering chain the SemVer specification itself gives.
    let chain = [
        "1.0.0-alpha",
        "1.0.0-alpha.1",
        "1.0.0-alpha.beta",
        "1.0.0-beta",
        "1.0.0-beta.2",
        "1.0.0-beta.11",
        "1.0.0-rc.1",
        "1.0.0",
    ];
    for w in chain.windows(2) {
        let a = v(w[0]);
        let b = v(w[1]);
        assert!(a.le(&b), "{} should precede {}", w[0], w[1]);
        assert!(!b.le(&a), "{} should not precede {}", w[1], w[0]);
    }
}

#[test]
fn build_metadata_breaks_ties() {
    // The full order uses build metadata as the final tie-break.
    let bare = v("1.20.0");
    let b1 = v("1.20.0+bc17664");
    let b2 = v("1.20.0+c144a98");
    assert!(bare.le(&b1));
    assert!(!b1.le(&bare));
    assert!(b1.le(&b2));
    assert!(!b2.le(&b1));
    assert!(matches!(bare.cmp_with(&b1), Ordering::Less));
    assert!(matches!(b1.cmp_with(&b1), Ordering::Equal));
}

#[test]
fn cmp_with_trichotomy_samples() {
    let samples = ["1.0.0", "1.0.1", "1.0.0-alpha", "2.3.4+x", "2.3.4"];
    for a in samples {
        for b in samples {
            let ab = v(a).cmp_with(&v(b));
            let ba = v(b).cmp_with(&v(a));
            match ab {
                Ordering::Less => assert!(matches!(ba, Ordering::Greater)),
                Ordering::Equal => assert!(matches!(ba, Ordering::Equal)),
                Ordering::Greater => assert!(matches!(ba, Ordering::Less)),
            }
            assert_eq!(a == b, matches!(ab, Ordering::Equal));
        }
    }
}

#[test]
fn version_round_trips_to_text() {
    for text in ["1.2.3", "0.1.0", "1.0.0-alpha.1", "1.20.0+bc17664", "2.0.0-rc.1+build.5"] {
        assert_eq!(version_string(&v(text)), text);
    }
}

#[test]
fn version_equality() {
    assert!(v("1.2.3-a.1+b").eq_version(&v("1.2.3-a.1+b")));
    assert!(!v("1.2.3").eq_version(&v("1.2.3+b")));
    assert!(!v("1.2.3").eq_version(&v("1.2.4")));
}

#[test]
fn order_agrees_with_semver_crate_on_samples() {
    // The verified order against the semver crate's own total order,
    // over samples covering the numeric core, pre-release identifier
    // rules and build metadata with leading zeros.
    let samples = [
        "0.0.0",
        "0.0.1",
        "0.1.0",
        "1.0.0-alpha",
        "1.0.0-alpha.1",
        "1.0.0-alpha.beta",
        "1.0.0-beta",
        "1.0.0-beta.2",
        "1.0.0-beta.11",
        "1.0.0-rc.1",
        "1.0.0-1",
        "1.0.0-2.x",
        "1.0.0-a-b",
        "1.0.0",
        "1.0.0+0",
        "1.0.0+00",
        "1.0.0+1",
        "1.0.0+01",
        "1.0.0+001",
        "1.0.0+0.1",
        "1.0.0+a",
        "1.0.0+a.b",
        "1.0.0+-",
        "1.2.3",
        "1.10.0",
        "2.0.0",
        "10.0.0",
    ];
    for a in samples {
        for b in samples {
            let mine = parse_version(a).unwrap().cmp_with(&parse_version(b).unwrap());
            let theirs = semver::Version::parse(a)
                .unwrap()
                .cmp(&semver::Version::parse(b).unwrap());
            let expected = match theirs {
                std::cmp::Ordering::Less => Ordering::Less,
                std::cmp::Ordering::Equal => Ordering::Equal,
                std::cmp::Ordering::Greater => Ordering::Greater,
            };
            assert_eq!(mine, expected, "disagreement on {} vs {}", a, b);
        }
    }
}

#[test]
fn order_laws_on_sample_versions() {
    let samples = ["1.0.0", "1.0.1", "1.0.0-alpha", "1.0.0-alpha.1", "1.0.0+b", "2.0.0", "1.0.0-9", "1.0.0-10"];
    let parsed: Vec<Version> = samples.iter().map(|s| v(s)).collect();
    for a in &parsed {
        for b in &parsed {
            // Antisymmetry of the non-strict order.
            if a.le(b) && b.le(a) {
                assert!(a.eq_version(b));
            }
            // Totality.
            assert!(a.le(b) || b.le(a));
            for c in &parsed {
                // Transitivity.
                if a.le(b) && b.le(c) {
                    assert!(a.le(c));
                }
            }
        }
    }
}
