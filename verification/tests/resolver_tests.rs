use bump::resolver::{resolve, untouched_default, VersionAction};
use bump::version::{format_cargo_version, format_tag, parse_version, BumpType, SemanticVersion};
use bump::workflow::describe_version_mismatch;

fn v(s: &str) -> SemanticVersion {
    parse_version(s).unwrap()
}

#[test]
fn test_untouched_default_value() {
    assert_eq!(
        untouched_default(),
        SemanticVersion {
            major: 0,
            minor: 1,
            patch: 0
        }
    );
}

#[test]
fn test_resolve_manifest_only_is_initial_tag() {
    // manifest 0.1.0, no tags: tag the current state as-is
    let action = resolve(Some(v("0.1.0")), None, BumpType::Patch).unwrap();
    assert_eq!(
        action,
        VersionAction {
            target_version: v("0.1.0"),
            needs_manifest_update: false,
            is_initial_tag: true,
        }
    );
}

#[test]
fn test_resolve_matching_tag_bumps() {
    // manifest 0.1.0 and tag v0.1.0: bump to 0.1.1
    let action = resolve(Some(v("0.1.0")), Some(v("v0.1.0")), BumpType::Patch).unwrap();
    assert_eq!(
        action,
        VersionAction {
            target_version: v("0.1.1"),
            needs_manifest_update: true,
            is_initial_tag: false,
        }
    );
}

#[test]
fn test_resolve_untouched_manifest_defers_to_tag() {
    // manifest left at 0.1.0 while tags advanced to v0.1.28: bump the tag
    let action = resolve(Some(v("0.1.0")), Some(v("v0.1.28")), BumpType::Minor).unwrap();
    assert_eq!(
        action,
        VersionAction {
            target_version: v("0.2.0"),
            needs_manifest_update: true,
            is_initial_tag: false,
        }
    );
}

#[test]
fn test_resolve_divergent_sources_fail() {
    // manifest 0.2.0 vs tag v0.1.28: fail closed, naming both
    let err = resolve(Some(v("0.2.0")), Some(v("v0.1.28")), BumpType::Patch).unwrap_err();
    assert_eq!(err.manifest_version, v("0.2.0"));
    assert_eq!(err.tag_version, v("0.1.28"));
    let message = describe_version_mismatch(&err);
    assert!(message.contains("0.2.0"));
    assert!(message.contains("v0.1.28"));
    assert_eq!(
        message,
        "version mismatch: manifest has 0.2.0, but the latest tag is v0.1.28"
    );
}

#[test]
fn test_resolve_nothing_anywhere_starts_at_default() {
    // no manifest version, no tags: start at 0.1.0
    let action = resolve(None, None, BumpType::Patch).unwrap();
    assert_eq!(
        action,
        VersionAction {
            target_version: v("0.1.0"),
            needs_manifest_update: true,
            is_initial_tag: true,
        }
    );
}

#[test]
fn test_resolve_tag_only_bumps_tag() {
    let action = resolve(None, Some(v("v2.3.4")), BumpType::Major).unwrap();
    assert_eq!(
        action,
        VersionAction {
            target_version: v("3.0.0"),
            needs_manifest_update: true,
            is_initial_tag: false,
        }
    );
}

#[test]
fn test_resolve_managed_manifest_without_tag_keeps_version() {
    // an actively managed manifest with no published tag is tagged as-is
    let action = resolve(Some(v("2.5.0")), None, BumpType::Major).unwrap();
    assert_eq!(
        action,
        VersionAction {
            target_version: v("2.5.0"),
            needs_manifest_update: false,
            is_initial_tag: true,
        }
    );
}

#[test]
fn test_resolve_target_formats() {
    let action = resolve(Some(v("1.2.3")), Some(v("v1.2.3")), BumpType::Patch).unwrap();
    assert_eq!(format_cargo_version(&action.target_version), "1.2.4");
    assert_eq!(format_tag(&action.target_version), "v1.2.4");
}
