use bump::cli::{extract_version_from_output, version_compare, Cli, CliError};

fn args(list: &[&str]) -> Vec<String> {
    list.iter().map(|s| s.to_string()).collect()
}

#[test]
fn test_version_compare() {
    assert!(version_compare("2.34.1", "2.20.0"));
    assert!(version_compare("2.20.0", "2.20.0"));
    assert!(!version_compare("2.19.0", "2.20.0"));
    assert!(version_compare("3.0.0", "2.20.0"));
    assert!(!version_compare("1.0.0", "2.20.0"));
}

#[test]
fn test_extract_git_version() {
    let output = "git version 2.43.0";
    assert_eq!(extract_version_from_output("git", output), "2.43.0");
}

#[test]
fn test_cli_parsing() {
    let cli = Cli::try_parse_from(args(&["bump"])).unwrap();
    assert!(!cli.major);
    assert!(!cli.minor);
    assert!(!cli.dry_run);
    assert!(cli.directories.is_empty());
}

#[test]
fn test_cli_major_flag() {
    let cli = Cli::try_parse_from(args(&["bump", "--major"])).unwrap();
    assert!(cli.major);
    assert!(!cli.minor);
}

#[test]
fn test_cli_minor_flag() {
    let cli = Cli::try_parse_from(args(&["bump", "-m"])).unwrap();
    assert!(!cli.major);
    assert!(cli.minor);
}

#[test]
fn test_cli_dry_run() {
    let cli = Cli::try_parse_from(args(&["bump", "-n"])).unwrap();
    assert!(cli.dry_run);
}

#[test]
fn test_cli_directories() {
    let cli = Cli::try_parse_from(args(&["bump", "./proj1", "./proj2"])).unwrap();
    assert_eq!(cli.directories.len(), 2);
}

#[test]
fn test_cli_major_minor_conflict() {
    let result = Cli::try_parse_from(args(&["bump", "--major", "--minor"]));
    assert!(result.is_err());
}

#[test]
fn test_cli_message_flag() {
    let cli = Cli::try_parse_from(args(&["bump", "--message", "my commit message"])).unwrap();
    assert_eq!(cli.message, Some("my commit message".to_string()));
    assert!(!cli.automatic);
}

#[test]
fn test_cli_automatic_flag() {
    let cli = Cli::try_parse_from(args(&["bump", "-a"])).unwrap();
    assert!(cli.automatic);
    assert!(cli.message.is_none());
}

#[test]
fn test_cli_automatic_long_flag() {
    let cli = Cli::try_parse_from(args(&["bump", "--automatic"])).unwrap();
    assert!(cli.automatic);
}

#[test]
fn test_cli_message_automatic_conflict() {
    let result = Cli::try_parse_from(args(&["bump", "--message", "test", "--automatic"]));
    assert!(result.is_err());
}

#[test]
fn test_cli_unknown_flag() {
    let result = Cli::try_parse_from(args(&["bump", "--frobnicate"]));
    assert!(matches!(result, Err(CliError::UnknownFlag(t)) if t == "--frobnicate"));
}

#[test]
fn test_cli_message_missing_value() {
    let result = Cli::try_parse_from(args(&["bump", "--message"]));
    assert!(matches!(result, Err(CliError::MissingMessageValue)));
}

#[test]
fn test_cli_mixed_flags_and_directories() {
    let cli = Cli::try_parse_from(args(&["bump", "-n", "proj", "--automatic", "other"])).unwrap();
    assert!(cli.dry_run);
    assert!(cli.automatic);
    assert_eq!(cli.directories, vec!["proj".to_string(), "other".to_string()]);
}

#[test]
fn test_extract_version_unknown_tool() {
    assert_eq!(extract_version_from_output("cargo", "cargo 1.75.0"), "unknown");
}

#[test]
fn test_extract_version_short_output() {
    assert_eq!(extract_version_from_output("git", "git version"), "unknown");
    assert_eq!(extract_version_from_output("git", ""), "unknown");
}

#[test]
fn test_extract_version_first_line_only() {
    let output = "git version 2.43.0\nbuilt from source";
    assert_eq!(extract_version_from_output("git", output), "2.43.0");
}

#[test]
fn test_version_compare_length_rule() {
    // a common prefix defers to the segment counts
    assert!(version_compare("2.20.0.1", "2.20.0"));
    assert!(!version_compare("2.20", "2.20.0"));
    // a non-numeric segment counts as zero
    assert!(!version_compare("2.x.5", "2.1.0"));
}
