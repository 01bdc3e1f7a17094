use dropper::extract::extract;
use dropper::matcher::{resolve, ResolvedRelease};
use dropper::specifier::VersionConstraint;
use dropper::version::VersionTuple;

fn vt(major: u32, minor: u32, patch: Option<u32>, build: Option<u32>) -> VersionTuple {
    VersionTuple { major, minor, patch, build }
}

fn links(items: &[&str]) -> Vec<String> {
    items.iter().map(|s| s.to_string()).collect()
}

fn rr(version: &str, link: &str) -> ResolvedRelease {
    ResolvedRelease { version: version.to_string(), link: link.to_string() }
}

#[test]
fn newest_takes_position_zero_regardless_of_content() {
    // The first entry is not the numerically greatest: position still wins.
    let versions = vec![vt(1, 0, None, None), vt(9, 9, Some(9), None)];
    let ls = links(&["first", "second"]);
    assert_eq!(resolve(VersionConstraint::Newest, &versions, &ls), Some(rr("1.0", "first")));
}

#[test]
fn newest_on_empty_listing_is_none() {
    let versions: Vec<VersionTuple> = Vec::new();
    let ls: Vec<String> = Vec::new();
    assert_eq!(resolve(VersionConstraint::Newest, &versions, &ls), None);
}

#[test]
fn exact_takes_the_first_structural_match() {
    let versions = vec![vt(6, 1, Some(9), None), vt(6, 1, Some(9), None), vt(6, 2, Some(0), None)];
    let ls = links(&["a", "b", "c"]);
    let got = resolve(VersionConstraint::Exact(vt(6, 1, Some(9), None)), &versions, &ls);
    assert_eq!(got, Some(rr("6.1.9", "a")));
}

#[test]
fn exact_distinguishes_absent_and_zero_patch() {
    let versions = vec![vt(6, 1, Some(0), None), vt(6, 1, None, None)];
    let ls = links(&["with", "without"]);
    let got = resolve(VersionConstraint::Exact(vt(6, 1, None, None)), &versions, &ls);
    assert_eq!(got, Some(rr("6.1", "without")));
}

#[test]
fn not_found_is_none_not_an_error() {
    let labels = vec!["1.0.0".to_string()];
    let versions = extract(&labels).expect("a plain version label extracts");
    let ls = links(&["url"]);
    assert_eq!(resolve(VersionConstraint::Exact(vt(9, 9, Some(9), None)), &versions, &ls), None);
}

#[test]
fn patch_wildcard_takes_the_greatest_patch() {
    let versions = vec![vt(6, 1, Some(9), None), vt(6, 1, Some(11), None), vt(6, 2, Some(0), None)];
    let ls = links(&["a", "b", "c"]);
    let got = resolve(VersionConstraint::PatchWildcard(6, 1), &versions, &ls);
    assert_eq!(got, Some(rr("6.1.11", "b")));
}

#[test]
fn patch_wildcard_ranks_absent_patch_lowest() {
    let versions = vec![vt(6, 1, None, None), vt(6, 1, Some(0), None)];
    let ls = links(&["bare", "zero"]);
    let got = resolve(VersionConstraint::PatchWildcard(6, 1), &versions, &ls);
    assert_eq!(got, Some(rr("6.1.0", "zero")));
}

#[test]
fn patch_wildcard_breaks_ties_by_list_position() {
    let versions = vec![vt(6, 1, Some(5), None), vt(6, 1, Some(5), Some(2))];
    let ls = links(&["early", "late"]);
    let got = resolve(VersionConstraint::PatchWildcard(6, 1), &versions, &ls);
    assert_eq!(got, Some(rr("6.1.5", "early")));
}

#[test]
fn patch_wildcard_without_matches_is_none() {
    let versions = vec![vt(7, 0, Some(1), None)];
    let ls = links(&["a"]);
    assert_eq!(resolve(VersionConstraint::PatchWildcard(6, 1), &versions, &ls), None);
}

#[test]
fn minor_wildcard_orders_lexicographically() {
    // A greater minor wins even with no patch at all.
    let versions = vec![vt(6, 1, Some(9), None), vt(6, 2, None, None)];
    let ls = links(&["a", "b"]);
    let got = resolve(VersionConstraint::MinorWildcard(6), &versions, &ls);
    assert_eq!(got, Some(rr("6.2", "b")));
}

#[test]
fn minor_wildcard_breaks_minor_ties_by_patch() {
    let versions = vec![vt(6, 2, None, None), vt(6, 2, Some(1), None)];
    let ls = links(&["bare", "patched"]);
    let got = resolve(VersionConstraint::MinorWildcard(6), &versions, &ls);
    assert_eq!(got, Some(rr("6.2.1", "patched")));
}

#[test]
fn extraction_feeds_resolution_for_wildcards() {
    let labels = vec![
        "Plugin 6.1.9 (MC 1.12)".to_string(),
        "Plugin 6.1.11 (MC 1.12)".to_string(),
        "Plugin 6.2.0 (MC 1.12)".to_string(),
    ];
    let versions = extract(&labels).expect("labels extract");
    let ls = links(&["u1", "u2", "u3"]);
    let got = resolve(VersionConstraint::PatchWildcard(6, 1), &versions, &ls);
    assert_eq!(got, Some(rr("6.1.11", "u2")));
}

#[test]
fn resolve_is_idempotent() {
    let versions = vec![vt(6, 1, Some(9), None), vt(6, 1, Some(11), None)];
    let ls = links(&["a", "b"]);
    let first = resolve(VersionConstraint::PatchWildcard(6, 1), &versions, &ls);
    let second = resolve(VersionConstraint::PatchWildcard(6, 1), &versions, &ls);
    assert_eq!(first, second);
}
