use bump::version::{
    bump_version, format_cargo_version, format_tag, format_u32, parse_version, BumpType,
    SemanticVersion,
};

fn v(major: u32, minor: u32, patch: u32) -> SemanticVersion {
    SemanticVersion {
        major,
        minor,
        patch,
    }
}

#[test]
fn test_bump_type_from_cli() {
    assert_eq!(BumpType::from_cli(false, false), BumpType::Patch);
    assert_eq!(BumpType::from_cli(true, false), BumpType::Major);
    assert_eq!(BumpType::from_cli(false, true), BumpType::Minor);
    assert_eq!(BumpType::from_cli(true, true), BumpType::Major); // major takes precedence
}

#[test]
fn test_parse_version() {
    let v = parse_version("1.2.3").unwrap();
    assert_eq!(v.major, 1);
    assert_eq!(v.minor, 2);
    assert_eq!(v.patch, 3);
}

#[test]
fn test_parse_version_with_v_prefix() {
    let v = parse_version("v1.2.3").unwrap();
    assert_eq!(v.major, 1);
    assert_eq!(v.minor, 2);
    assert_eq!(v.patch, 3);
}

#[test]
fn test_parse_version_prerelease_error() {
    let result = parse_version("1.0.0-alpha");
    assert!(result.is_err());
}

#[test]
fn test_parse_version_build_metadata_error() {
    let result = parse_version("1.0.0+build123");
    assert!(result.is_err());
}

#[test]
fn test_bump_patch() {
    let bumped = bump_version(&v(1, 2, 3), BumpType::Patch);
    assert_eq!(bumped, v(1, 2, 4));
}

#[test]
fn test_bump_patch_rollover() {
    let bumped = bump_version(&v(1, 2, 9), BumpType::Patch);
    assert_eq!(bumped, v(1, 2, 10));

    let bumped = bump_version(&v(1, 2, 99), BumpType::Patch);
    assert_eq!(bumped, v(1, 2, 100));
}

#[test]
fn test_bump_minor() {
    let bumped = bump_version(&v(1, 2, 3), BumpType::Minor);
    assert_eq!(bumped, v(1, 3, 0));
}

#[test]
fn test_bump_major() {
    let bumped = bump_version(&v(1, 2, 3), BumpType::Major);
    assert_eq!(bumped, v(2, 0, 0));
}

#[test]
fn test_format_cargo_version() {
    assert_eq!(format_cargo_version(&v(1, 2, 3)), "1.2.3");
}

#[test]
fn test_format_tag() {
    assert_eq!(format_tag(&v(1, 2, 3)), "v1.2.3");
}

#[test]
fn test_format_u32_values() {
    assert_eq!(format_u32(0), "0");
    assert_eq!(format_u32(7), "7");
    assert_eq!(format_u32(10), "10");
    assert_eq!(format_u32(4294967295), "4294967295");
}

#[test]
fn test_parse_large_components() {
    let parsed = parse_version("4294967295.0.1").unwrap();
    assert_eq!(parsed, v(4294967295, 0, 1));
    // one past the largest component is rejected
    assert!(parse_version("4294967296.0.1").is_err());
}

#[test]
fn test_parse_rejects_leading_zeros() {
    assert!(parse_version("01.2.3").is_err());
    assert!(parse_version("1.02.3").is_err());
    assert!(parse_version("1.2.03").is_err());
    // a lone zero component is fine
    assert!(parse_version("0.1.0").is_ok());
}

#[test]
fn test_parse_rejects_malformed() {
    assert!(parse_version("").is_err());
    assert!(parse_version("1.2").is_err());
    assert!(parse_version("1.2.3.4").is_err());
    assert!(parse_version("1..3").is_err());
    assert!(parse_version("a.b.c").is_err());
    assert!(parse_version("v").is_err());
    assert!(parse_version("vv1.2.3").is_err());
    assert!(parse_version("1.2.3 ").is_err());
}

#[test]
fn test_tag_round_trip() {
    // format_tag(parse(strip_v(format_tag(v)))) == format_tag(v)
    let cases = [v(0, 1, 0), v(1, 2, 3), v(10, 0, 28), v(4294967295, 99, 100)];
    for &c in cases.iter() {
        let tag = format_tag(&c);
        let stripped = tag.strip_prefix('v').unwrap();
        let reparsed = parse_version(stripped).unwrap();
        assert_eq!(format_tag(&reparsed), tag);
    }
}

#[test]
fn test_bump_strictly_increases() {
    let base = v(1, 2, 3);
    for &g in [BumpType::Major, BumpType::Minor, BumpType::Patch].iter() {
        let bumped = bump_version(&base, g);
        let gt = (bumped.major, bumped.minor, bumped.patch) > (base.major, base.minor, base.patch);
        assert!(gt);
    }
}

#[test]
fn test_default_bump_is_patch() {
    assert_eq!(BumpType::default(), BumpType::Patch);
}
