use mtrm::errors::{unsupported_current_dir, ProcessError, StateError, TabsError};

#[test]
fn process_error_display_is_sanitized_but_debug_keeps_detail() {
    let error = ProcessError::CurrentDir("/proc/123/cwd: permission denied".to_owned());

    let display = error.message().to_string();
    let debug = format!("{error:?}");

    assert!(!display.contains("/proc/123/cwd"));
    assert!(!display.contains("permission denied"));
    assert!(debug.contains("/proc/123/cwd"));
}

#[test]
fn unsupported_cwd_strategy_returns_current_dir_error() {
    match unsupported_current_dir() {
        ProcessError::CurrentDir(detail) => {
            assert!(detail.contains("unsupported"));
        }
        other => panic!("unexpected error: {other:?}"),
    }
}

#[test]
fn write_error_display_is_sanitized_but_debug_keeps_path() {
    let error = StateError::Write {
        path: "/tmp/secret/state.toml".to_string(),
        source: "permission denied".to_string(),
    };

    let display = error.message().to_string();
    let debug = format!("{error:?}");

    assert!(!display.contains("/tmp/secret"));
    assert!(!display.contains("permission denied"));
    assert!(debug.contains("/tmp/secret"));
}

#[test]
fn process_error_messages_name_the_operation() {
    assert_eq!(ProcessError::Spawn("x".into()).message(), "failed to spawn shell");
    assert_eq!(ProcessError::Write("x".into()).message(), "failed to write to pty");
    assert_eq!(ProcessError::Read("x".into()).message(), "failed to read from pty");
    assert_eq!(ProcessError::Interrupt("x".into()).message(), "failed to send interrupt");
    assert_eq!(ProcessError::CurrentDir("x".into()).message(), "failed to resolve cwd");
    assert_eq!(StateError::Write { path: "p".into(), source: "s".into() }.message(), "failed to write state file");
}

#[test]
fn tabs_errors_compare_by_value() {
    assert_eq!(TabsError::CannotCloseLastTab, TabsError::CannotCloseLastTab);
    assert_ne!(TabsError::Process("a".into()), TabsError::Process("b".into()));
}
