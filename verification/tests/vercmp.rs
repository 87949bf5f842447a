use std::cmp::Ordering::{Equal, Greater, Less};

use pactience::vercmp::vercmp;

#[test]
fn equal_versions() {
    assert_eq!(vercmp("1.0-1", "1.0-1"), Equal);
    assert_eq!(vercmp("1:2.0-3", "1:2.0-3"), Equal);
}

#[test]
fn basic_ordering() {
    assert_eq!(vercmp("1.0-1", "1.1-1"), Less);
    assert_eq!(vercmp("1.1-1", "1.0-1"), Greater);
    assert_eq!(vercmp("1.0-1", "1.0-2"), Less);
    assert_eq!(vercmp("2.0-1", "10.0-1"), Less); // numeric, not lexical
}

#[test]
fn epoch_dominates() {
    assert_eq!(vercmp("1:1.0-1", "9.9-9"), Greater);
    assert_eq!(vercmp("2:0.1-1", "1:99.9-1"), Greater);
    assert_eq!(vercmp("1.0-1", "1:0.1-1"), Less);
}

#[test]
fn alpha_segments() {
    assert_eq!(vercmp("1.0alpha-1", "1.0beta-1"), Less);
    // rpm/alpm semantics: extra segments make a version *newer*, so
    // "1.0rc1" > "1.0" (this is why rc→final transitions need an epoch).
    assert_eq!(vercmp("1.0alpha-1", "1.0-1"), Greater);
    assert_eq!(vercmp("1.0a-1", "1.0-1"), Greater);
    // Alpha segments compare newer than numeric ones in rpmvercmp.
    assert_eq!(vercmp("1.0-1", "1.a-1"), Less);
}

#[test]
fn pkgrel_compared_when_upstream_equal() {
    assert_eq!(vercmp("6.8.1.arch1-1", "6.8.1.arch1-2"), Less);
    assert_eq!(vercmp("6.8.1.arch1-10", "6.8.1.arch1-2"), Greater);
}

#[test]
fn leading_zeros_are_ignored() {
    assert_eq!(vercmp("1.01-1", "1.1-1"), Equal);
    assert_eq!(vercmp("1.002-1", "1.2-1"), Equal);
}

#[test]
fn real_world_cases() {
    assert_eq!(vercmp("1.34-1", "1.35-1"), Less); // shadow utils style
    assert_eq!(vercmp("2.40+r14+gc3-1", "2.40+r16+gc4-1"), Less);
    assert_eq!(vercmp("2024.01-1", "2024.02-1"), Less);
}

#[test]
fn vercmp_is_reflexive_on_samples() {
    for v in ["", "1", "1:2.0-3", "2.40+r14+gc3-1", "1.0alpha-1", "~1"] {
        assert_eq!(vercmp(v, v), Equal);
    }
}

#[test]
fn vercmp_less_reverses_to_greater_on_samples() {
    let pairs = [("1.0-1", "1.1-1"), ("1.0-1", "1:0.1-1"), ("2.0-1", "10.0-1")];
    for (a, b) in pairs {
        assert_eq!(vercmp(a, b), Less);
        assert_eq!(vercmp(b, a), Greater);
    }
}

#[test]
fn mixed_segments_compare_the_same_both_ways() {
    // A word segment is newer than a number segment, whichever comes first.
    assert_eq!(vercmp("1.1-1", "1.a-1"), Less);
    assert_eq!(vercmp("1.a-1", "1.1-1"), Greater);
    assert_eq!(vercmp("1.a-1", "1.0-1"), Greater);
    assert_eq!(vercmp("0a", "a"), Less);
    assert_eq!(vercmp("a", "0a"), Greater);
    for (a, b) in [("1.0rc1-1", "1.0-1"), ("2.0.1", "2.0a"), ("1..0", "1.0"), ("1:1", "2")] {
        assert_eq!(vercmp(a, b), vercmp(b, a).reverse());
    }
}
