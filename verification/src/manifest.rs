//! The manifest as the decision logic sees it: which version-bearing fields a
//! manifest document holds, which version reading results, where a new
//! version must be written, and how the dependency lock file is synchronized.

use vstd::prelude::*;

verus! {

/// The `version` field of a `[package]` table, as the logic reads it.
#[derive(Debug, Clone)]
pub enum VersionField {
    /// No `[package]` table, or no `version` entry in it.
    Absent,
    /// `version = "..."`: a literal version string.
    Literal(String),
    /// `version.workspace = true`: inherited from the shared workspace
    /// version.
    Inherited,
    /// A `version` entry of some other shape (neither a string nor an
    /// inheritance marker).
    OtherForm,
}

/// What a manifest document holds, reduced to the plain values the release
/// logic reads.
#[derive(Debug, Clone)]
pub struct ManifestFacts {
    /// Whether a `[package]` table is present.
    pub has_package: bool,
    /// The `[package]` table's `name`, when it is a string.
    pub package_name: Option<String>,
    /// The `[package]` table's `version` field.
    pub package_version: VersionField,
    /// Whether a `[workspace]` table is present.
    pub has_workspace: bool,
    /// Whether a `[workspace.package]` table is present.
    pub has_workspace_package: bool,
    /// The `[workspace.package]` table's `version`, when it is a string.
    pub workspace_package_version: Option<String>,
    /// The `[workspace]` table's `members`, when it is an array: its string
    /// entries, in order.
    pub members: Option<Vec<String>>,
}

/// The version a manifest records: a literal `[package]` version wins, and
/// anything else defers to the shared `[workspace.package]` version.
pub open spec fn spec_manifest_version(f: ManifestFacts) -> Option<Seq<char>> {
    match f.package_version {
        VersionField::Literal(v) => Some(v@),
        _ => match f.workspace_package_version {
            Some(w) => Some(w@),
            None => None,
        },
    }
}

/// Reads the version a manifest records, if any: the literal `[package]`
/// version when there is one, else the shared `[workspace.package]` version
/// (which also serves a member whose version is inherited).
pub fn manifest_version(f: &ManifestFacts) -> (r: Option<String>)
    ensures
        match spec_manifest_version(*f) {
            Some(v) => r matches Some(s) && s@ == v,
            None => r is None,
        },
{
    match &f.package_version {
        VersionField::Literal(v) => Some(v.clone()),
        _ => match &f.workspace_package_version {
            Some(w) => Some(w.clone()),
            None => None,
        },
    }
}

/// Where a new version value is written.
#[derive(Clone, Copy, Debug, PartialEq, Eq, Structural)]
pub enum WriteTarget {
    /// The `version` entry of the `[package]` table (created if missing).
    PackageSection,
    /// The `version` entry of the `[workspace.package]` table.
    WorkspacePackageSection,
}

/// A manifest whose shape the logic cannot work with.
#[derive(Clone, Copy, Debug, PartialEq, Eq, Structural)]
pub enum ManifestError {
    /// The document is not well-formed TOML.
    Unparseable,
    /// A member inherits the workspace version, but there is no
    /// `[workspace]` table.
    MissingWorkspaceSection,
    /// A member inherits the workspace version, but there is no
    /// `[workspace.package]` table.
    MissingWorkspacePackageSection,
    /// A member inherits the workspace version, but `[workspace.package]`
    /// has no version entry.
    MissingWorkspaceVersionField,
    /// The `[package]` table has no string `name`, so the lock file cannot
    /// be synchronized for it.
    MissingPackageName,
}

/// Where a version write must go: a workspace-only manifest keeps its version
/// under `[workspace.package]`; a member that inherits the shared version
/// updates the shared entry, which must exist; anything else writes the
/// `[package]` entry.
pub open spec fn spec_write_target(f: ManifestFacts) -> Result<WriteTarget, ManifestError> {
    if f.has_workspace && !f.has_package {
        Ok(WriteTarget::WorkspacePackageSection)
    } else if f.package_version is Inherited {
        if !f.has_workspace {
            Err(ManifestError::MissingWorkspaceSection)
        } else if !f.has_workspace_package {
            Err(ManifestError::MissingWorkspacePackageSection)
        } else if f.workspace_package_version is None {
            Err(ManifestError::MissingWorkspaceVersionField)
        } else {
            Ok(WriteTarget::WorkspacePackageSection)
        }
    } else {
        Ok(WriteTarget::PackageSection)
    }
}

/// Decides where a new version value is written in this manifest.
pub fn write_target(f: &ManifestFacts) -> (r: Result<WriteTarget, ManifestError>)
    ensures
        r == spec_write_target(*f),
{
    if f.has_workspace && !f.has_package {
        Ok(WriteTarget::WorkspacePackageSection)
    } else if matches!(f.package_version, VersionField::Inherited) {
        if !f.has_workspace {
            Err(ManifestError::MissingWorkspaceSection)
        } else if !f.has_workspace_package {
            Err(ManifestError::MissingWorkspacePackageSection)
        } else if f.workspace_package_version.is_none() {
            Err(ManifestError::MissingWorkspaceVersionField)
        } else {
            Ok(WriteTarget::WorkspacePackageSection)
        }
    } else {
        Ok(WriteTarget::PackageSection)
    }
}

/// How the dependency lock file is brought back in line after a version
/// write.
#[derive(Debug, Clone)]
pub enum LockfileSyncPlan {
    /// No lock file: nothing to synchronize.
    NoSync,
    /// A workspace-only manifest: refresh the whole workspace's lock
    /// entries.
    UpdateWorkspace,
    /// A package manifest: refresh the named package's lock entry.
    UpdatePackage(String),
}

pub open spec fn spec_lockfile_plan(lock_exists: bool, f: ManifestFacts) -> Result<
    LockfileSyncPlan,
    ManifestError,
> {
    if !lock_exists {
        Ok(LockfileSyncPlan::NoSync)
    } else if f.has_workspace && !f.has_package {
        Ok(LockfileSyncPlan::UpdateWorkspace)
    } else {
        match f.package_name {
            Some(n) => Ok(LockfileSyncPlan::UpdatePackage(n)),
            None => Err(ManifestError::MissingPackageName),
        }
    }
}

/// Decides how to synchronize the dependency lock file: a no-op without one,
/// a whole-workspace refresh for a workspace-only manifest, and a single
/// package refresh otherwise, which needs the package's name.
pub fn lockfile_plan(lock_exists: bool, f: &ManifestFacts) -> (r: Result<
    LockfileSyncPlan,
    ManifestError,
>)
    ensures
        match spec_lockfile_plan(lock_exists, *f) {
            Ok(LockfileSyncPlan::NoSync) => r matches Ok(LockfileSyncPlan::NoSync),
            Ok(LockfileSyncPlan::UpdateWorkspace) => r matches Ok(LockfileSyncPlan::UpdateWorkspace),
            Ok(LockfileSyncPlan::UpdatePackage(n)) => r matches Ok(
                LockfileSyncPlan::UpdatePackage(m),
            ) && m@ == n@,
            Err(e) => r matches Err(e2) && e2 == e,
        },
{
    if !lock_exists {
        Ok(LockfileSyncPlan::NoSync)
    } else if f.has_workspace && !f.has_package {
        Ok(LockfileSyncPlan::UpdateWorkspace)
    } else {
        match &f.package_name {
            Some(n) => Ok(LockfileSyncPlan::UpdatePackage(n.clone())),
            None => Err(ManifestError::MissingPackageName),
        }
    }
}

/// The path of the manifest file within a directory.
pub fn cargo_toml_path(dir: &str) -> (r: String)
    ensures
        r@ == dir@ + "/Cargo.toml"@,
{
    let mut s = dir.to_owned();
    s.append("/Cargo.toml");
    s
}

} // verus!
