use dropper::specifier::{parse, PackageSpecifier, SpecifierError, VersionConstraint};
use dropper::version::VersionTuple;

fn vt(major: u32, minor: u32, patch: Option<u32>, build: Option<u32>) -> VersionTuple {
    VersionTuple { major, minor, patch, build }
}

fn expect_ok(raw: &str) -> PackageSpecifier {
    match parse(raw) {
        Ok(sp) => sp,
        Err(e) => panic!("{:?} should parse, got {:?}", raw, e),
    }
}

fn expect_malformed(raw: &str) {
    match parse(raw) {
        Ok(sp) => panic!("{:?} should be malformed, got {:?}", raw, sp),
        Err(SpecifierError::Malformed(m)) => assert_eq!(m, raw),
    }
}

#[test]
fn parses_bare_name_as_newest() {
    let sp = expect_ok("worldedit");
    assert_eq!(sp.name, "worldedit");
    assert_eq!(sp.constraint, VersionConstraint::Newest);
}

#[test]
fn parses_exact_three_field_version() {
    let sp = expect_ok("WorldEdit@6.1.9");
    assert_eq!(sp.name, "WorldEdit");
    assert_eq!(sp.constraint, VersionConstraint::Exact(vt(6, 1, Some(9), None)));
}

#[test]
fn parses_exact_two_field_version() {
    let sp = expect_ok("w_2@6.1");
    assert_eq!(sp.name, "w_2");
    assert_eq!(sp.constraint, VersionConstraint::Exact(vt(6, 1, None, None)));
}

#[test]
fn parses_exact_four_field_version() {
    let sp = expect_ok("w@1.2.3.4");
    assert_eq!(sp.constraint, VersionConstraint::Exact(vt(1, 2, Some(3), Some(4))));
}

#[test]
fn parses_star_as_newest() {
    let sp = expect_ok("w@*");
    assert_eq!(sp.constraint, VersionConstraint::Newest);
}

#[test]
fn parses_minor_wildcard() {
    let sp = expect_ok("w@6.*");
    assert_eq!(sp.constraint, VersionConstraint::MinorWildcard(6));
}

#[test]
fn parses_patch_wildcard() {
    let sp = expect_ok("w@6.1.*");
    assert_eq!(sp.constraint, VersionConstraint::PatchWildcard(6, 1));
}

#[test]
fn rejects_five_version_fields() {
    expect_malformed("a@1.2.3.4.5");
}

#[test]
fn rejects_double_separator() {
    expect_malformed("a@@1.2");
}

#[test]
fn rejects_space_in_name() {
    expect_malformed("1 2@1.2");
}

#[test]
fn rejects_empty_input() {
    expect_malformed("");
}

#[test]
fn rejects_empty_name() {
    expect_malformed("@1.2");
}

#[test]
fn rejects_empty_version() {
    expect_malformed("a@");
}

#[test]
fn rejects_one_field_version() {
    expect_malformed("a@6");
}

#[test]
fn rejects_trailing_dot() {
    expect_malformed("a@6.1.");
}

#[test]
fn rejects_wildcard_before_number() {
    expect_malformed("a@6.*.1");
}

#[test]
fn rejects_version_field_above_u32() {
    expect_malformed("a@4294967296.1");
}

#[test]
fn accepts_version_field_at_u32_max() {
    let sp = expect_ok("a@4294967295.0");
    assert_eq!(sp.constraint, VersionConstraint::Exact(vt(4294967295, 0, None, None)));
}

#[test]
fn leading_zeros_read_as_the_number() {
    let sp = expect_ok("a@6.01");
    assert_eq!(sp.constraint, VersionConstraint::Exact(vt(6, 1, None, None)));
}

#[test]
fn round_trips_stringified_tuples() {
    let tuples = [
        vt(6, 1, Some(9), None),
        vt(6, 1, None, None),
        vt(1, 2, Some(3), Some(4)),
        vt(0, 0, Some(0), None),
        vt(4294967295, 4294967295, Some(4294967295), Some(4294967295)),
    ];
    for t in tuples {
        let raw = format!("name@{}", t.stringify());
        let sp = expect_ok(&raw);
        assert_eq!(sp.name, "name");
        assert_eq!(sp.constraint, VersionConstraint::Exact(t));
    }
}
