use bump::resolver::VersionAction;
use bump::version::{parse_version, SemanticVersion};
use bump::workflow::{
    batch_failed, bump_message, check_preconditions, classify_tree, release_message, release_plan,
    resolve_commit_message, tally_outcomes, validate_commit_message, CommitKind, MessageDecision,
    ReleaseError, ReleasePlan, RepositoryState, TreeState,
};
use bump::workspace::IndependentVersionMember;

fn v(s: &str) -> SemanticVersion {
    parse_version(s).unwrap()
}

fn action(needs_update: bool, initial: bool) -> VersionAction {
    VersionAction {
        target_version: v("1.2.3"),
        needs_manifest_update: needs_update,
        is_initial_tag: initial,
    }
}

fn state(dirty: bool, tagged: bool, pushed: bool) -> RepositoryState {
    RepositoryState {
        has_uncommitted_changes: dirty,
        head_has_tag: tagged,
        head_is_pushed: pushed,
    }
}

#[test]
fn test_classify_tree_states() {
    assert_eq!(classify_tree(&state(true, false, false)), TreeState::Dirty);
    assert_eq!(classify_tree(&state(true, true, true)), TreeState::Dirty);
    assert_eq!(classify_tree(&state(false, true, false)), TreeState::CleanTagged);
    assert_eq!(classify_tree(&state(false, true, true)), TreeState::CleanTagged);
    assert_eq!(classify_tree(&state(false, false, true)), TreeState::CleanPushed);
    assert_eq!(classify_tree(&state(false, false, false)), TreeState::CleanUnpushed);
}

#[test]
fn test_release_plan_dirty_tree() {
    let plan = release_plan(&action(true, false), &state(true, false, false), false).unwrap();
    assert_eq!(
        plan,
        ReleasePlan::Mutate {
            update_manifest: true,
            sync_lock: true,
            commit: CommitKind::CommitStaged,
        }
    );
}

#[test]
fn test_release_plan_dirty_tree_without_manifest_write() {
    // no manifest write, no lock-file sync
    let plan = release_plan(&action(false, true), &state(true, false, false), false).unwrap();
    assert_eq!(
        plan,
        ReleasePlan::Mutate {
            update_manifest: false,
            sync_lock: false,
            commit: CommitKind::CommitStaged,
        }
    );
}

#[test]
fn test_release_plan_clean_pushed() {
    let plan = release_plan(&action(true, false), &state(false, false, true), false).unwrap();
    assert_eq!(
        plan,
        ReleasePlan::Mutate {
            update_manifest: true,
            sync_lock: false,
            commit: CommitKind::CommitStaged,
        }
    );
}

#[test]
fn test_release_plan_clean_unpushed_amends() {
    let plan = release_plan(&action(true, false), &state(false, false, false), false).unwrap();
    assert_eq!(
        plan,
        ReleasePlan::Mutate {
            update_manifest: true,
            sync_lock: false,
            commit: CommitKind::AmendKeepMessage,
        }
    );
}

#[test]
fn test_release_plan_clean_tagged_refuses() {
    let err = release_plan(&action(true, false), &state(false, true, true), false).unwrap_err();
    assert!(matches!(err, ReleaseError::HeadAlreadyTagged));
}

#[test]
fn test_release_plan_dry_run_describes() {
    let plan = release_plan(&action(true, false), &state(true, false, false), true).unwrap();
    assert_eq!(
        plan,
        ReleasePlan::DryRun {
            would_update_manifest: true,
            commit: CommitKind::CommitStaged,
        }
    );
    let plan = release_plan(&action(false, true), &state(false, false, false), true).unwrap();
    assert_eq!(
        plan,
        ReleasePlan::DryRun {
            would_update_manifest: false,
            commit: CommitKind::AmendKeepMessage,
        }
    );
}

#[test]
fn test_release_plan_dry_run_surfaces_refusal() {
    let err = release_plan(&action(true, false), &state(false, true, false), true).unwrap_err();
    assert!(matches!(err, ReleaseError::HeadAlreadyTagged));
}

#[test]
fn test_preconditions_not_a_repository() {
    let r = check_preconditions(false, true, Vec::new(), "v1.0.0", false);
    assert!(matches!(r, Err(ReleaseError::NotUnderVersionControl)));
}

#[test]
fn test_preconditions_no_manifest() {
    let r = check_preconditions(true, false, Vec::new(), "v1.0.0", false);
    assert!(matches!(r, Err(ReleaseError::ManifestNotFound)));
}

#[test]
fn test_preconditions_independent_members() {
    let members = vec![IndependentVersionMember {
        name: "crate-b".to_string(),
        path: "crate-b".to_string(),
        version: "2.0.0".to_string(),
    }];
    let r = check_preconditions(true, true, members, "v1.0.0", false);
    match r {
        Err(ReleaseError::WorkspaceIndependentVersions(ms)) => {
            assert_eq!(ms.len(), 1);
            assert_eq!(ms[0].name, "crate-b");
            assert_eq!(ms[0].path, "crate-b");
            assert_eq!(ms[0].version, "2.0.0");
        }
        other => panic!("expected the workspace refusal, got {:?}", other),
    }
}

#[test]
fn test_preconditions_duplicate_tag() {
    let r = check_preconditions(true, true, Vec::new(), "v1.2.3", true);
    assert!(matches!(r, Err(ReleaseError::TagAlreadyExists(t)) if t == "v1.2.3"));
}

#[test]
fn test_preconditions_pass() {
    let r = check_preconditions(true, true, Vec::new(), "v1.2.3", false);
    assert!(r.is_ok());
}

fn staged(files: &[&str]) -> Vec<String> {
    files.iter().map(|s| s.to_string()).collect()
}

fn resolved(d: MessageDecision) -> String {
    match d {
        MessageDecision::Message(m) => m,
        MessageDecision::NeedsPrompt => panic!("expected a resolved message"),
    }
}

#[test]
fn test_message_explicit_wins() {
    let d = resolve_commit_message(
        &Some("say this".to_string()),
        true,
        &staged(&["src/lib.rs"]),
        false,
        "v1.2.3",
    );
    assert_eq!(resolved(d), "say this");
}

#[test]
fn test_message_automatic() {
    let d = resolve_commit_message(&None, true, &staged(&["src/lib.rs"]), false, "v1.2.3");
    assert_eq!(resolved(d), "Bump version to v1.2.3");
}

#[test]
fn test_message_nothing_staged() {
    let d = resolve_commit_message(&None, false, &staged(&[]), false, "v1.2.3");
    assert_eq!(resolved(d), "Release v1.2.3");
}

#[test]
fn test_message_only_manifest_staged() {
    let d = resolve_commit_message(&None, false, &staged(&["Cargo.toml"]), false, "v1.2.3");
    assert_eq!(resolved(d), "Bump version to v1.2.3");
    let d = resolve_commit_message(
        &None,
        false,
        &staged(&["Cargo.toml", "Cargo.lock"]),
        true,
        "v0.1.0",
    );
    assert_eq!(resolved(d), "Release v0.1.0");
}

#[test]
fn test_message_other_files_need_prompt() {
    let d = resolve_commit_message(
        &None,
        false,
        &staged(&["Cargo.toml", "src/lib.rs"]),
        false,
        "v1.2.3",
    );
    assert!(matches!(d, MessageDecision::NeedsPrompt));
}

#[test]
fn test_message_builders() {
    assert_eq!(bump_message("v2.0.0"), "Bump version to v2.0.0");
    assert_eq!(release_message("v2.0.0"), "Release v2.0.0");
}

#[test]
fn test_validate_commit_message_trims() {
    let m = validate_commit_message("  fix the flux capacitor \n").unwrap();
    assert_eq!(m, "fix the flux capacitor");
}

#[test]
fn test_validate_commit_message_empty_aborts() {
    assert!(matches!(
        validate_commit_message("   \n \t"),
        Err(ReleaseError::EmptyCommitMessageAborted)
    ));
    assert!(matches!(
        validate_commit_message(""),
        Err(ReleaseError::EmptyCommitMessageAborted)
    ));
}

#[test]
fn test_validate_commit_message_drops_comment_lines() {
    assert!(matches!(
        validate_commit_message("# everything here\n# is commentary\n"),
        Err(ReleaseError::EmptyCommitMessageAborted)
    ));
    let m = validate_commit_message("# context for the editor\nreal message\n").unwrap();
    assert_eq!(m, "real message");
}

#[test]
fn test_tally_and_batch_outcome() {
    let (s, f) = tally_outcomes(&vec![true, false, true, true]);
    assert_eq!((s, f), (3, 1));
    assert!(!batch_failed(3, 1));
    assert!(batch_failed(0, 4));
    assert!(!batch_failed(0, 0));
}
