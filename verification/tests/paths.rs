use kuku::error::Error;
use kuku::paths::{
    global_memory_path, kuku_home_with_env, project_home, project_memory_path, project_policy_path,
    session_events_path, session_lock_path,
};

#[test]
fn project_home_discards_root_dir_and_cur_dir() {
    let path = project_home("/tmp/kuku-home", "/code/./kuku//example").unwrap();
    assert_eq!(path, "/tmp/kuku-home/p/code/kuku/example");
}

#[test]
fn project_home_rejects_parent_dir_in_workspace() {
    let err = project_home("/tmp/kuku-home", "/code/../escape").unwrap_err();
    assert_eq!(err, Error::InvalidWorkspacePath("/code/../escape".to_string()));
}

#[test]
fn session_files_live_under_the_project_home() {
    assert_eq!(
        session_events_path("/h", "/w/x", "s1").unwrap(),
        "/h/p/w/x/sessions/s1/events.jsonl"
    );
    assert_eq!(session_lock_path("/h", "/w/x", "s1"), "/h/p/w/x/sessions/s1/lock");
    assert_eq!(session_lock_path("/h", "/w/../x", "s1"), "");
    assert_eq!(project_policy_path("/h", "/w").unwrap(), "/h/p/w/policy.md");
    assert_eq!(project_memory_path("/h", "/w").unwrap(), "/h/p/w/memory.md");
    assert_eq!(global_memory_path("/h"), "/h/memory.md");
    assert!(matches!(session_events_path("/h", "../w", "s1"), Err(Error::InvalidWorkspacePath(_))));
}

#[test]
fn paths_kuku_home_returns_missing_home_directory_when_platform_lookup_fails() {
    let error = kuku_home_with_env(None, None).unwrap_err();
    assert!(matches!(error, Error::MissingHomeDirectory));
}

#[test]
fn environment_kuku_home_returns_missing_home_directory_when_platform_lookup_fails() {
    let error = kuku_home_with_env(None, None).unwrap_err();
    assert!(matches!(error, Error::MissingHomeDirectory));
}

#[test]
fn paths_kuku_home_uses_platform_home_lookup_when_kuku_home_is_unset() {
    assert_eq!(
        kuku_home_with_env(None, Some("/tmp/mock-home".to_string())).unwrap(),
        "/tmp/mock-home/.kuku"
    );
}

#[test]
fn environment_kuku_home_uses_platform_home_lookup_when_kuku_home_is_unset() {
    assert_eq!(
        kuku_home_with_env(None, Some("/tmp/mock-home".to_string())).unwrap(),
        "/tmp/mock-home/.kuku"
    );
}

#[test]
fn paths_kuku_home_rejects_empty_kuku_home() {
    let error = kuku_home_with_env(Some(String::new()), None).unwrap_err();
    assert!(matches!(error, Error::InvalidKukuHome(value) if value.is_empty()));
}

#[test]
fn environment_kuku_home_rejects_empty_kuku_home() {
    let error = kuku_home_with_env(Some(String::new()), None).unwrap_err();
    assert!(matches!(error, Error::InvalidKukuHome(value) if value.is_empty()));
}

#[test]
fn kuku_home_variable_wins_over_the_platform_home() {
    assert_eq!(
        kuku_home_with_env(Some("/custom".to_string()), Some("/tmp/mock-home".to_string())).unwrap(),
        "/custom"
    );
}

#[test]
fn absolute_session_id_replaces_the_path_as_push_does() {
    assert_eq!(session_events_path("/h", "/w", "/abs").unwrap(), "/abs/events.jsonl");
    assert_eq!(session_lock_path("/h", "/w", "/abs"), "/abs/lock");
}
