//! The version-resolution decision engine: reconciles the version recorded in
//! the manifest with the most recent version tag into a single target version
//! and the actions a release needs, refusing to proceed when the two sources
//! of truth have diverged.

use vstd::prelude::*;

use crate::version::{spec_bump, spec_can_bump, BumpType, SemanticVersion};

verus! {

/// The distinguished "untouched default" version. A manifest showing exactly
/// this version is treated as not yet actively managed, deferring to tag
/// history rather than being trusted as a real release point.
pub open spec fn spec_untouched_default() -> SemanticVersion {
    SemanticVersion { major: 0, minor: 1, patch: 0 }
}

/// The untouched default version, `0.1.0`.
pub fn untouched_default() -> (r: SemanticVersion)
    ensures
        r == spec_untouched_default(),
{
    SemanticVersion { major: 0, minor: 1, patch: 0 }
}

/// What a release must do: the version to tag, whether the manifest must be
/// rewritten first, and whether the current state is tagged as-is instead of
/// being bumped.
#[derive(Clone, Copy, Debug, PartialEq, Eq, Structural)]
pub struct VersionAction {
    pub target_version: SemanticVersion,
    pub needs_manifest_update: bool,
    pub is_initial_tag: bool,
}

/// The manifest and the latest tag disagree on what was last released; no
/// automatic reconciliation is attempted.
#[derive(Clone, Copy, Debug, PartialEq, Eq, Structural)]
pub struct VersionMismatch {
    pub manifest_version: SemanticVersion,
    pub tag_version: SemanticVersion,
}

/// The resolution decision table, exhaustive over presence and absence of the
/// two readings, with the untouched-default refinement applied when both are
/// present.
pub open spec fn spec_resolve(
    manifest_version: Option<SemanticVersion>,
    latest_tag_version: Option<SemanticVersion>,
    bump: BumpType,
) -> Result<VersionAction, VersionMismatch> {
    match (manifest_version, latest_tag_version) {
        (Some(m), Some(t)) => {
            if m == spec_untouched_default() {
                Ok(
                    VersionAction {
                        target_version: spec_bump(t, bump),
                        needs_manifest_update: true,
                        is_initial_tag: false,
                    },
                )
            } else if m == t {
                Ok(
                    VersionAction {
                        target_version: spec_bump(m, bump),
                        needs_manifest_update: true,
                        is_initial_tag: false,
                    },
                )
            } else {
                Err(VersionMismatch { manifest_version: m, tag_version: t })
            }
        },
        (Some(m), None) => Ok(
            VersionAction { target_version: m, needs_manifest_update: false, is_initial_tag: true },
        ),
        (None, Some(t)) => Ok(
            VersionAction {
                target_version: spec_bump(t, bump),
                needs_manifest_update: true,
                is_initial_tag: false,
            },
        ),
        (None, None) => Ok(
            VersionAction {
                target_version: spec_untouched_default(),
                needs_manifest_update: true,
                is_initial_tag: true,
            },
        ),
    }
}

/// Whether the version that resolution would bump can be bumped without
/// leaving the integer domain. Rows of the decision table that do not bump
/// place no condition.
pub open spec fn spec_resolve_in_domain(
    manifest_version: Option<SemanticVersion>,
    latest_tag_version: Option<SemanticVersion>,
    bump: BumpType,
) -> bool {
    match (manifest_version, latest_tag_version) {
        (Some(m), Some(t)) => {
            if m == spec_untouched_default() {
                spec_can_bump(t, bump)
            } else if m == t {
                spec_can_bump(m, bump)
            } else {
                true
            }
        },
        (Some(m), None) => true,
        (None, Some(t)) => spec_can_bump(t, bump),
        (None, None) => true,
    }
}

/// Whether resolution with these readings stays within the integer domain,
/// so that `resolve` may be called.
pub fn resolve_in_domain(
    manifest_version: Option<SemanticVersion>,
    latest_tag_version: Option<SemanticVersion>,
    bump: BumpType,
) -> (r: bool)
    ensures
        r == spec_resolve_in_domain(manifest_version, latest_tag_version, bump),
{
    match (manifest_version, latest_tag_version) {
        (Some(m), Some(t)) => {
            if m == untouched_default() {
                crate::version::can_bump(&t, bump)
            } else if m == t {
                crate::version::can_bump(&m, bump)
            } else {
                true
            }
        },
        (Some(_), None) => true,
        (None, Some(t)) => crate::version::can_bump(&t, bump),
        (None, None) => true,
    }
}

/// Reconciles the manifest's recorded version (if any) and the latest tag's
/// version (if any) into the action to take, per the decision table: an
/// untouched-default manifest defers to the tag; an actively managed manifest
/// must agree with the tag or resolution fails closed; a manifest without a
/// published tag is tagged as-is; tag history alone is bumped; and nothing at
/// all starts at the untouched default.
pub fn resolve(
    manifest_version: Option<SemanticVersion>,
    latest_tag_version: Option<SemanticVersion>,
    bump: BumpType,
) -> (r: Result<VersionAction, VersionMismatch>)
    requires
        spec_resolve_in_domain(manifest_version, latest_tag_version, bump),
    ensures
        r == spec_resolve(manifest_version, latest_tag_version, bump),
{
    match (manifest_version, latest_tag_version) {
        (Some(m), Some(t)) => {
            if m == untouched_default() {
                Ok(
                    VersionAction {
                        target_version: crate::version::bump_version(&t, bump),
                        needs_manifest_update: true,
                        is_initial_tag: false,
                    },
                )
            } else if m == t {
                Ok(
                    VersionAction {
                        target_version: crate::version::bump_version(&m, bump),
                        needs_manifest_update: true,
                        is_initial_tag: false,
                    },
                )
            } else {
                Err(VersionMismatch { manifest_version: m, tag_version: t })
            }
        },
        (Some(m), None) => Ok(
            VersionAction { target_version: m, needs_manifest_update: false, is_initial_tag: true },
        ),
        (None, Some(t)) => Ok(
            VersionAction {
                target_version: crate::version::bump_version(&t, bump),
                needs_manifest_update: true,
                is_initial_tag: false,
            },
        ),
        (None, None) => Ok(
            VersionAction {
                target_version: untouched_default(),
                needs_manifest_update: true,
                is_initial_tag: true,
            },
        ),
    }
}

} // verus!
