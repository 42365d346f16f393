use mtrm::config::{join_path, resolve_paths_from_home};
use mtrm::errors::ConfigError;

#[test]
fn resolve_paths_uses_dot_mtrm_directory() {
    let home = "/tmp/example-home".to_string();
    let paths = resolve_paths_from_home(home.clone()).unwrap();

    assert_eq!(paths.home_dir, home);
    assert_eq!(paths.data_dir, "/tmp/example-home/.mtrm");
}

#[test]
fn resolve_paths_uses_state_toml_file() {
    let home = "/tmp/example-home".to_string();
    let paths = resolve_paths_from_home(home).unwrap();

    assert_eq!(paths.state_file, "/tmp/example-home/.mtrm/state.toml");
    assert_eq!(paths.data_dir(), "/tmp/example-home/.mtrm");
    assert_eq!(paths.state_file(), "/tmp/example-home/.mtrm/state.toml");
}

#[test]
fn resolve_paths_from_empty_home_fails() {
    let error = resolve_paths_from_home(String::new()).unwrap_err();
    assert!(matches!(error, ConfigError::HomeDirUnavailable));
    assert_eq!(error.message(), "home directory is unavailable");
}

#[test]
fn join_path_adds_a_separator_only_when_needed() {
    assert_eq!(join_path("/home/u", ".mtrm"), "/home/u/.mtrm");
    assert_eq!(join_path("/home/u/", ".mtrm"), "/home/u/.mtrm");
    assert_eq!(join_path("", ".mtrm"), ".mtrm");
    assert_eq!(resolve_paths_from_home("/".to_string()).unwrap().data_dir, "/.mtrm");
}

#[test]
fn config_error_messages_name_the_path() {
    let error = ConfigError::CreateDir { path: "/x/.mtrm".into(), source: "denied".into() };
    assert_eq!(error.message(), "failed to create directory /x/.mtrm: denied");
}
