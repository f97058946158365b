use comet::semver::{SemVer, VersionOrder};
use comet::Error;

fn parse(s: &str) -> SemVer {
    SemVer::from_string(String::from(s)).expect("version should parse")
}

#[test]
fn format_emits_all_four_fields() {
    let v = SemVer::new(1, 2, 3, String::from("beta"));
    assert_eq!(v.to_string(), "1.2.3-beta");
    let plain = SemVer::new(0, 10, 0, String::new());
    assert_eq!(plain.to_string(), "0.10.0-");
}

#[test]
fn parse_reads_each_field() {
    let v = parse("12.34.56-rc1");
    assert_eq!(v.major, 12);
    assert_eq!(v.minor, 34);
    assert_eq!(v.patch, 56);
    assert_eq!(v.suffix, "rc1");
    let w = parse("1.0.0-");
    assert_eq!(w.major, 1);
    assert_eq!(w.suffix, "");
}

#[test]
fn format_of_parse_round_trips() {
    for s in ["1.2.3-beta", "0.0.0-", "10.20.30-alpha.2", "3.1.4-a-b"] {
        let v = parse(s);
        assert_eq!(v.to_string(), s);
    }
}

#[test]
fn parse_rejects_malformed_strings() {
    for s in ["", "1", "1.2", "1.2.3", "a.b.c-", "1.2.x-", "1..3-", "-1.2.3-", "1.2.3x-"] {
        assert_eq!(
            SemVer::from_string(String::from(s)).err(),
            Some(Error::FormatError),
            "{s:?} should be rejected"
        );
    }
}

#[test]
fn order_compares_numbers_first() {
    assert_eq!(parse("1.0.0-").compare(&parse("2.0.0-")), VersionOrder::Older);
    assert_eq!(parse("2.1.0-").compare(&parse("2.0.9-")), VersionOrder::Newer);
    assert_eq!(parse("2.1.3-").compare(&parse("2.1.4-")), VersionOrder::Older);
    assert_eq!(parse("2.1.3-").compare(&parse("2.1.3-")), VersionOrder::Equal);
}

#[test]
fn order_is_exclusive_and_flips() {
    let pairs = [("1.0.0-", "2.0.0-"), ("1.2.3-a", "1.2.3-b"), ("1.2.3-", "1.2.3-")];
    for (a, b) in pairs {
        let ab = parse(a).compare(&parse(b));
        let ba = parse(b).compare(&parse(a));
        match ab {
            VersionOrder::Older => assert_eq!(ba, VersionOrder::Newer),
            VersionOrder::Newer => assert_eq!(ba, VersionOrder::Older),
            VersionOrder::Equal => assert_eq!(ba, VersionOrder::Equal),
        }
    }
}

#[test]
fn order_is_transitive_across_majors() {
    let a = parse("1.9.9-zzz");
    let b = parse("2.0.0-");
    let c = parse("3.0.0-aaa");
    assert_eq!(a.compare(&b), VersionOrder::Older);
    assert_eq!(b.compare(&c), VersionOrder::Older);
    assert_eq!(a.compare(&c), VersionOrder::Older);
}

#[test]
fn prerelease_orders_before_release() {
    assert_eq!(parse("1.2.0-beta").compare(&parse("1.2.0-")), VersionOrder::Older);
    assert_eq!(parse("1.2.0-").compare(&parse("1.2.0-beta")), VersionOrder::Newer);
}

#[test]
fn nonempty_suffixes_order_lexicographically() {
    assert_eq!(parse("1.0.0-alpha").compare(&parse("1.0.0-beta")), VersionOrder::Older);
    assert_eq!(parse("1.0.0-rc2").compare(&parse("1.0.0-rc10")), VersionOrder::Newer);
    assert_eq!(parse("1.0.0-rc").compare(&parse("1.0.0-rc1")), VersionOrder::Older);
}
