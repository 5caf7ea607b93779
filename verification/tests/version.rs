use aurorus::version::{compare, VersionOrder};

fn inverse(order: VersionOrder) -> VersionOrder {
    match order {
        VersionOrder::Less => VersionOrder::Greater,
        VersionOrder::Greater => VersionOrder::Less,
        other => other,
    }
}

#[test]
fn numeric_parts_compare_as_numbers() {
    assert_eq!(compare("1.2.3", "1.2.10"), VersionOrder::Less);
    assert_eq!(compare("1.2.10", "1.2.3"), VersionOrder::Greater);
    assert_eq!(compare("1.10", "1.9"), VersionOrder::Greater);
    assert_eq!(compare("2", "10"), VersionOrder::Less);
}

#[test]
fn equal_versions_compare_equal() {
    for v in ["1", "1.2.3", "0.9.1-2", "2:1.0-1", "1.2rc1", "r5.0abc"] {
        assert_eq!(compare(v, v), VersionOrder::Equal);
    }
    assert_eq!(compare("1.0", "1"), VersionOrder::Equal);
    assert_eq!(compare("1.02", "1.2"), VersionOrder::Equal);
}

#[test]
fn swapping_the_arguments_inverts_the_outcome() {
    let versions = [
        "1", "1.0", "1.2.3", "1.2.10", "1.2rc1", "1.2", "2:1.0-1", "0.9.1-2", "0.9.1-10", "1.2.3a",
        "1.2.3b", "r5.0abc", "abc", "",
    ];
    for a in versions {
        for b in versions {
            assert_eq!(compare(a, b), inverse(compare(b, a)));
        }
    }
}

#[test]
fn package_releases_are_ordered() {
    assert_eq!(compare("1.4.2-1", "1.4.2-2"), VersionOrder::Less);
    assert_eq!(compare("1:0.1-1", "2:0.0-1"), VersionOrder::Less);
    assert_eq!(compare("1.2rc1", "1.2"), VersionOrder::Less);
    assert_eq!(compare("1.2.3a", "1.2.3b"), VersionOrder::Less);
}

#[test]
fn empty_version_is_incomparable() {
    assert_eq!(compare("", "1.0"), VersionOrder::Incomparable);
    assert_eq!(compare("1.0", ""), VersionOrder::Incomparable);
    assert_eq!(compare("", ""), VersionOrder::Incomparable);
}

#[test]
fn version_without_number_is_incomparable() {
    assert_eq!(compare("abc", "1.0"), VersionOrder::Incomparable);
    assert_eq!(compare("1.0", "git"), VersionOrder::Incomparable);
    assert_eq!(compare("r123.abcdef", "r123.abcdef"), VersionOrder::Incomparable);
}

#[test]
fn only_greater_is_newer() {
    assert!(VersionOrder::Greater.is_newer());
    assert!(!VersionOrder::Less.is_newer());
    assert!(!VersionOrder::Equal.is_newer());
    assert!(!VersionOrder::Incomparable.is_newer());
}
