//! The release workflow: per-directory safety checks, the branching on
//! working-tree cleanliness and upstream push state, the commit-message
//! policy, and the batch outcome.

use vstd::prelude::*;

use crate::resolver::{VersionAction, VersionMismatch};
use crate::text::{spec_keep_lines, spec_trim, str_eq, strip_comment_lines, trim};
use crate::version::{spec_tag_str, spec_version_str, SemanticVersion};
use crate::workspace::IndependentVersionMember;

verus! {

/// What a directory's processing can fail on.
#[derive(Debug, Clone)]
pub enum ReleaseError {
    /// The directory is not under version control.
    NotUnderVersionControl,
    /// The directory has no manifest.
    ManifestNotFound,
    /// The workspace has members that manage independent versions.
    WorkspaceIndependentVersions(Vec<IndependentVersionMember>),
    /// The manifest and the latest tag disagree on what was last released.
    VersionMismatch(VersionMismatch),
    /// The computed target tag already exists: a duplicate release.
    TagAlreadyExists(String),
    /// A clean, already-tagged head: there is nothing new to release.
    HeadAlreadyTagged,
    /// The interactively entered commit message was empty.
    EmptyCommitMessageAborted,
}

/// What the workflow observes about the repository before it acts.
#[derive(Clone, Copy, Debug, PartialEq, Eq, Structural)]
pub struct RepositoryState {
    pub has_uncommitted_changes: bool,
    pub head_has_tag: bool,
    pub head_is_pushed: bool,
}

/// The four observed repository conditions the workflow branches on.
#[derive(Clone, Copy, Debug, PartialEq, Eq, Structural)]
pub enum TreeState {
    /// Uncommitted changes are present.
    Dirty,
    /// Clean, and the head commit already carries a tag.
    CleanTagged,
    /// Clean, untagged, and the head commit is on the upstream branch.
    CleanPushed,
    /// Clean, untagged, and the head commit was never pushed, so it may be
    /// amended without rewriting shared history.
    CleanUnpushed,
}

pub open spec fn spec_classify_tree(s: RepositoryState) -> TreeState {
    if s.has_uncommitted_changes {
        TreeState::Dirty
    } else if s.head_has_tag {
        TreeState::CleanTagged
    } else if s.head_is_pushed {
        TreeState::CleanPushed
    } else {
        TreeState::CleanUnpushed
    }
}

/// Names the repository condition the workflow branches on.
pub fn classify_tree(s: &RepositoryState) -> (r: TreeState)
    ensures
        r == spec_classify_tree(*s),
{
    if s.has_uncommitted_changes {
        TreeState::Dirty
    } else if s.head_has_tag {
        TreeState::CleanTagged
    } else if s.head_is_pushed {
        TreeState::CleanPushed
    } else {
        TreeState::CleanUnpushed
    }
}

/// How the release's commit is made.
#[derive(Clone, Copy, Debug, PartialEq, Eq, Structural)]
pub enum CommitKind {
    /// Stage everything, resolve a commit message by the policy, commit if
    /// anything is staged, and tag the resulting commit.
    CommitStaged,
    /// Stage everything, fold the change into the previous, never-pushed
    /// commit (its message unchanged), and tag the amended commit with the
    /// automatic bump message.
    AmendKeepMessage,
}

/// The mutations a release performs, or the description a dry run gives.
#[derive(Clone, Copy, Debug, PartialEq, Eq, Structural)]
pub enum ReleasePlan {
    /// Describe only: whether the manifest would be rewritten, and how the
    /// commit would be made. No mutation.
    DryRun { would_update_manifest: bool, commit: CommitKind },
    /// Perform: rewrite the manifest if needed, synchronize the lock file if
    /// called for, stage, commit as directed, and tag.
    Mutate { update_manifest: bool, sync_lock: bool, commit: CommitKind },
}

/// The workflow's branching, per the observed repository condition: a dirty
/// tree commits what is staged (with a lock-file sync after a manifest
/// write); a clean tagged head refuses; a clean pushed head commits anew; a
/// clean unpushed head amends. A dry run takes the same branches, surfaces
/// the same refusal, and mutates nothing.
pub open spec fn spec_release_plan(
    action: VersionAction,
    state: RepositoryState,
    dry_run: bool,
) -> Result<ReleasePlan, ReleaseError> {
    match spec_classify_tree(state) {
        TreeState::CleanTagged => Err(ReleaseError::HeadAlreadyTagged),
        TreeState::Dirty => Ok(
            spec_plan_shape(
                action,
                dry_run,
                action.needs_manifest_update,
                CommitKind::CommitStaged,
            ),
        ),
        TreeState::CleanPushed => Ok(
            spec_plan_shape(action, dry_run, false, CommitKind::CommitStaged),
        ),
        TreeState::CleanUnpushed => Ok(
            spec_plan_shape(action, dry_run, false, CommitKind::AmendKeepMessage),
        ),
    }
}

pub open spec fn spec_plan_shape(
    action: VersionAction,
    dry_run: bool,
    sync_lock: bool,
    commit: CommitKind,
) -> ReleasePlan {
    if dry_run {
        ReleasePlan::DryRun { would_update_manifest: action.needs_manifest_update, commit }
    } else {
        ReleasePlan::Mutate { update_manifest: action.needs_manifest_update, sync_lock, commit }
    }
}

/// Decides what the release does in this repository state, or refuses: a
/// clean, already-tagged head means there is nothing new to release, in a
/// dry run as in a real one.
pub fn release_plan(action: &VersionAction, state: &RepositoryState, dry_run: bool) -> (r: Result<
    ReleasePlan,
    ReleaseError,
>)
    ensures
        r matches Ok(p) ==> Ok::<ReleasePlan, ReleaseError>(p) == spec_release_plan(
            *action,
            *state,
            dry_run,
        ),
        r is Err <==> spec_release_plan(*action, *state, dry_run) is Err,
        r is Err ==> r matches Err(ReleaseError::HeadAlreadyTagged),
{
    let commit = match classify_tree(state) {
        TreeState::CleanTagged => {
            return Err(ReleaseError::HeadAlreadyTagged);
        },
        TreeState::Dirty => CommitKind::CommitStaged,
        TreeState::CleanPushed => CommitKind::CommitStaged,
        TreeState::CleanUnpushed => CommitKind::AmendKeepMessage,
    };
    let sync_lock = state.has_uncommitted_changes && action.needs_manifest_update;
    if dry_run {
        Ok(ReleasePlan::DryRun { would_update_manifest: action.needs_manifest_update, commit })
    } else {
        Ok(
            ReleasePlan::Mutate {
                update_manifest: action.needs_manifest_update,
                sync_lock,
                commit,
            },
        )
    }
}

/// The safety checks that must all pass, in order, before anything mutates:
/// version control, a manifest, a consistent workspace, and no duplicate
/// target tag.
pub fn check_preconditions(
    is_version_controlled: bool,
    manifest_exists: bool,
    independent_members: Vec<IndependentVersionMember>,
    target_tag: &str,
    target_tag_exists: bool,
) -> (r: Result<(), ReleaseError>)
    ensures
        !is_version_controlled <==> r matches Err(ReleaseError::NotUnderVersionControl),
        is_version_controlled && !manifest_exists <==> r matches Err(
            ReleaseError::ManifestNotFound,
        ),
        (is_version_controlled && manifest_exists && independent_members@.len() > 0) <==> (r
            matches Err(ReleaseError::WorkspaceIndependentVersions(m)) && m
            == independent_members),
        (is_version_controlled && manifest_exists && independent_members@.len() == 0
            && target_tag_exists) <==> (r matches Err(ReleaseError::TagAlreadyExists(t)) && t@
            == target_tag@),
        (is_version_controlled && manifest_exists && independent_members@.len() == 0
            && !target_tag_exists) <==> r is Ok,
{
    if !is_version_controlled {
        Err(ReleaseError::NotUnderVersionControl)
    } else if !manifest_exists {
        Err(ReleaseError::ManifestNotFound)
    } else if independent_members.len() > 0 {
        Err(ReleaseError::WorkspaceIndependentVersions(independent_members))
    } else if target_tag_exists {
        Err(ReleaseError::TagAlreadyExists(target_tag.to_owned()))
    } else {
        Ok(())
    }
}

/// The automatic commit message for a version bump.
pub open spec fn spec_bump_message(tag: Seq<char>) -> Seq<char> {
    "Bump version to "@ + tag
}

/// The commit message for a release that bumps nothing.
pub open spec fn spec_release_message(tag: Seq<char>) -> Seq<char> {
    "Release "@ + tag
}

/// Renders the automatic bump commit message.
pub fn bump_message(tag: &str) -> (r: String)
    ensures
        r@ == spec_bump_message(tag@),
{
    let mut s = "Bump version to ".to_owned();
    s.append(tag);
    s
}

/// Renders the release commit message.
pub fn release_message(tag: &str) -> (r: String)
    ensures
        r@ == spec_release_message(tag@),
{
    let mut s = "Release ".to_owned();
    s.append(tag);
    s
}

/// Whether every staged file is the manifest or its lock file.
pub open spec fn spec_all_manifest_or_lock(files: Seq<Seq<char>>) -> bool {
    forall|i: int|
        0 <= i < files.len() ==> #[trigger] files[i] == "Cargo.toml"@ || files[i] == "Cargo.lock"@
}

/// The commit-message policy, first match wins: an explicit message verbatim;
/// the automatic bump message on request; the release message when nothing is
/// staged; the synthesized message when only the manifest and its lock file
/// are staged; otherwise no message — the caller must ask interactively.
pub open spec fn spec_resolve_message(
    explicit: Option<Seq<char>>,
    automatic: bool,
    staged: Seq<Seq<char>>,
    is_initial_tag: bool,
    tag: Seq<char>,
) -> Option<Seq<char>> {
    if explicit is Some {
        explicit
    } else if automatic {
        Some(spec_bump_message(tag))
    } else if staged.len() == 0 {
        Some(spec_release_message(tag))
    } else if spec_all_manifest_or_lock(staged) {
        if is_initial_tag {
            Some(spec_release_message(tag))
        } else {
            Some(spec_bump_message(tag))
        }
    } else {
        None
    }
}

/// A resolved commit message, or the finding that only an interactive prompt
/// can supply one.
#[derive(Debug, Clone)]
pub enum MessageDecision {
    Message(String),
    NeedsPrompt,
}

/// Resolves the commit message by the priority chain.
pub fn resolve_commit_message(
    explicit: &Option<String>,
    automatic: bool,
    staged_files: &Vec<String>,
    is_initial_tag: bool,
    tag: &str,
) -> (r: MessageDecision)
    ensures
        match spec_resolve_message(
            explicit.deep_view(),
            automatic,
            staged_files.deep_view(),
            is_initial_tag,
            tag@,
        ) {
            Some(m) => r matches MessageDecision::Message(s) && s@ == m,
            None => r is NeedsPrompt,
        },
{
    match explicit {
        Some(m) => {
            return MessageDecision::Message(m.clone());
        },
        None => {},
    }
    proof {
        assert(explicit.deep_view() is None);
    }
    if automatic {
        return MessageDecision::Message(bump_message(tag));
    }
    if staged_files.len() == 0 {
        proof {
            assert(staged_files.deep_view().len() == 0);
        }
        return MessageDecision::Message(release_message(tag));
    }
    let mut i: usize = 0;
    while i < staged_files.len()
        invariant
            explicit.deep_view() is None,
            !automatic,
            staged_files@.len() > 0,
            i <= staged_files@.len(),
            staged_files.deep_view().len() == staged_files@.len(),
            forall|k: int|
                0 <= k < staged_files@.len() ==> #[trigger] staged_files.deep_view()[k]
                    == staged_files@[k]@,
            forall|k: int|
                0 <= k < i as int ==> #[trigger] staged_files.deep_view()[k] == "Cargo.toml"@
                    || staged_files.deep_view()[k] == "Cargo.lock"@,
        decreases staged_files@.len() - i,
    {
        let f = &staged_files[i];
        if !str_eq(f.as_str(), "Cargo.toml") && !str_eq(f.as_str(), "Cargo.lock") {
            proof {
                assert(explicit.deep_view() is None);
                assert(staged_files.deep_view().len() > 0);
                assert(staged_files.deep_view()[i as int] == staged_files@[i as int]@);
                assert(!spec_all_manifest_or_lock(staged_files.deep_view()));
            }
            return MessageDecision::NeedsPrompt;
        }
        i = i + 1;
    }
    proof {
        assert(spec_all_manifest_or_lock(staged_files.deep_view()));
    }
    if is_initial_tag {
        MessageDecision::Message(release_message(tag))
    } else {
        MessageDecision::Message(bump_message(tag))
    }
}

/// The cleaned form of an interactively entered commit message: comment
/// lines dropped, surrounding whitespace trimmed.
pub open spec fn spec_cleaned_message(input: Seq<char>) -> Seq<char> {
    spec_trim(spec_keep_lines(input, 0))
}

/// Cleans an interactively entered commit message and refuses an empty
/// result: an aborted commit leaves the tree staged but uncommitted, and the
/// run can be repeated.
pub fn validate_commit_message(input: &str) -> (r: Result<String, ReleaseError>)
    ensures
        spec_cleaned_message(input@).len() > 0 <==> r is Ok,
        r matches Ok(m) ==> m@ == spec_cleaned_message(input@),
        r is Err ==> r matches Err(ReleaseError::EmptyCommitMessageAborted),
{
    let kept = strip_comment_lines(input);
    let cleaned = trim(kept.as_str());
    if cleaned.as_str().is_empty() {
        Err(ReleaseError::EmptyCommitMessageAborted)
    } else {
        Ok(cleaned)
    }
}

/// The message naming both conflicting versions, for a human to reconcile.
pub fn describe_version_mismatch(m: &VersionMismatch) -> (r: String)
    ensures
        r@ == "version mismatch: manifest has "@ + spec_version_str(m.manifest_version)
            + ", but the latest tag is "@ + spec_tag_str(m.tag_version),
{
    let mut s = "version mismatch: manifest has ".to_owned();
    let mv = crate::version::format_cargo_version(&m.manifest_version);
    s.append(mv.as_str());
    s.append(", but the latest tag is ");
    let tv = crate::version::format_tag(&m.tag_version);
    s.append(tv.as_str());
    s
}

/// How many of the per-directory outcomes succeeded.
pub open spec fn spec_count_true(results: Seq<bool>) -> nat
    decreases results.len(),
{
    if results.len() == 0 {
        0
    } else {
        spec_count_true(results.drop_last()) + (if results.last() {
            1nat
        } else {
            0nat
        })
    }
}

/// Tallies the per-directory outcomes into success and failure counts.
pub fn tally_outcomes(results: &Vec<bool>) -> (r: (usize, usize))
    ensures
        r.0 as nat == spec_count_true(results@),
        r.0 + r.1 == results@.len(),
{
    let mut successes: usize = 0;
    let mut i: usize = 0;
    proof {
        assert(results@.take(0) =~= Seq::<bool>::empty());
    }
    while i < results.len()
        invariant
            i <= results@.len(),
            successes as nat == spec_count_true(results@.take(i as int)),
            successes <= i,
        decreases results@.len() - i,
    {
        let ghost pre = results@.take(i as int);
        if results[i] {
            successes = successes + 1;
        }
        i = i + 1;
        proof {
            let cur = results@.take(i as int);
            assert(cur.drop_last() =~= pre);
            assert(cur.last() == results@[i - 1]);
        }
    }
    proof {
        assert(results@.take(i as int) =~= results@);
    }
    (successes, results.len() - successes)
}

/// Whether the whole batch counts as failed: only when every directory
/// failed does the process exit with failure.
pub fn batch_failed(successes: usize, failures: usize) -> (r: bool)
    ensures
        r == (failures > 0 && successes == 0),
{
    failures > 0 && successes == 0
}

} // verus!
