use mtrm::cli::{cli_version_string, parse_cli_args, CliAction};
use mtrm::errors::AppError;

fn args(list: &[&str]) -> Vec<String> {
    list.iter().map(|a| a.to_string()).collect()
}

#[test]
fn parse_cli_args_defaults_to_run_without_flags() {
    let options = parse_cli_args(args(&["mtrm"])).unwrap();
    assert_eq!(options.action, CliAction::Run);
    assert_eq!(options.debug_log_path, None);
    assert!(!options.disable_clipboard);
}

#[test]
fn parse_cli_args_supports_help_flags() {
    assert_eq!(parse_cli_args(args(&["mtrm", "-h"])).unwrap().action, CliAction::PrintHelp);
    assert_eq!(parse_cli_args(args(&["mtrm", "--help"])).unwrap().action, CliAction::PrintHelp);
}

#[test]
fn parse_cli_args_supports_version_flags() {
    assert_eq!(parse_cli_args(args(&["mtrm", "-v"])).unwrap().action, CliAction::PrintVersion);
    assert_eq!(parse_cli_args(args(&["mtrm", "--version"])).unwrap().action, CliAction::PrintVersion);
}

#[test]
fn parse_cli_args_supports_debug_log_path() {
    let options = parse_cli_args(args(&["mtrm", "--debug-log", "/tmp/mtrm-pty.log"])).unwrap();
    assert_eq!(options.action, CliAction::Run);
    assert_eq!(options.debug_log_path, Some("/tmp/mtrm-pty.log".to_string()));
}

#[test]
fn parse_cli_args_supports_version_with_debug_log_path() {
    let options = parse_cli_args(args(&["mtrm", "--debug-log", "/tmp/mtrm-pty.log", "--version"])).unwrap();
    assert_eq!(options.action, CliAction::PrintVersion);
    assert_eq!(options.debug_log_path, Some("/tmp/mtrm-pty.log".to_string()));
    assert!(!options.disable_clipboard);
}

#[test]
fn parse_cli_args_supports_no_clipboard_flag() {
    let options = parse_cli_args(args(&["mtrm", "--no-clipboard"])).unwrap();
    assert_eq!(options.action, CliAction::Run);
    assert!(options.disable_clipboard);
}

#[test]
fn parse_cli_args_supports_no_clipboard_with_debug_log_path() {
    let options = parse_cli_args(args(&["mtrm", "--debug-log", "/tmp/mtrm-pty.log", "--no-clipboard"])).unwrap();
    assert_eq!(options.action, CliAction::Run);
    assert_eq!(options.debug_log_path, Some("/tmp/mtrm-pty.log".to_string()));
    assert!(options.disable_clipboard);
}

#[test]
fn parse_cli_args_rejects_unknown_flags() {
    let error = parse_cli_args(args(&["mtrm", "--wat"])).unwrap_err();
    assert!(matches!(error, AppError::Config(_)));
    assert_eq!(error.message(), "configuration error");
}

#[test]
fn parse_cli_args_reports_unknown_argument_and_missing_value() {
    match parse_cli_args(args(&["mtrm", "--wat"])).unwrap_err() {
        AppError::Config(detail) => assert_eq!(detail, "unknown argument: --wat"),
        other => panic!("unexpected error: {other:?}"),
    }
    match parse_cli_args(args(&["mtrm", "--debug-log"])).unwrap_err() {
        AppError::Config(detail) => assert_eq!(detail, "missing value for --debug-log"),
        other => panic!("unexpected error: {other:?}"),
    }
}

#[test]
fn parse_cli_args_later_flags_override_earlier_ones() {
    let options = parse_cli_args(args(&["mtrm", "-v", "-h", "--debug-log", "a", "--debug-log", "b"])).unwrap();
    assert_eq!(options.action, CliAction::PrintHelp);
    assert_eq!(options.debug_log_path, Some("b".to_string()));
}

#[test]
fn cli_version_string_uses_git_tag_and_build_timestamp() {
    let version = cli_version_string("v0.1.0", 1_700_000_000);
    let (tag, suffix) = version.split_once(' ').unwrap();

    assert!(tag.starts_with('v'));
    assert_eq!(suffix.len(), 13);
    assert_eq!(suffix.chars().nth(6), Some('-'));
    assert!(suffix
        .chars()
        .enumerate()
        .all(|(index, ch)| if index == 6 { ch == '-' } else { ch.is_ascii_digit() }));
}

#[test]
fn cli_version_string_formats_utc_date_and_time() {
    // 2023-11-14 22:13:20 UTC
    assert_eq!(cli_version_string("v1.2.3", 1_700_000_000), "v1.2.3 231114-221320");
    assert_eq!(cli_version_string("v0", 0), "v0 700101-000000");
}

#[test]
fn app_error_display_is_sanitized_but_debug_keeps_detail() {
    let error = AppError::State("failed to write /tmp/secret/state.yaml: permission denied".to_owned());

    let display = error.message().to_string();
    let debug = format!("{error:?}");

    assert!(!display.contains("/tmp/secret"));
    assert!(!display.contains("permission denied"));
    assert!(debug.contains("/tmp/secret"));
}
