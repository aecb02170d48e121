//! Registry behavior over in-memory states.  The store itself has no
//! cross-process locking: concurrent writers follow last-write-wins at the
//! file level, so these tests exercise single-writer semantics only.

use envhub::apps::{
    add_profile, clone_profile, list_apps, list_profiles, register_app, remove_profile,
    remove_profile_env, set_active_profile, set_profile_env,
};
use envhub::error::ErrorCode;
use envhub::state::{validate_state, AppConfig, State};
use envhub::text::blank;

#[test]
fn register_app_creates_default_profile() {
    let mut state = State::default();
    register_app(&mut state, "tool", "tool-bin").expect("register");
    let app = state.apps.get("tool").expect("app exists");
    assert_eq!(app.target_binary, "tool-bin");
    assert!(app.profiles.contains_key("default"));
    assert_eq!(app.active_profile.as_deref(), Some("default"));
}

#[test]
fn set_active_profile_requires_existing_profile() {
    let mut state = State::default();
    register_app(&mut state, "tool", "tool-bin").expect("register");
    let err = set_active_profile(&mut state, "tool", "missing").unwrap_err();
    assert_eq!(err.code, ErrorCode::ProfileNotFound);
}

#[test]
fn add_and_remove_profile_updates_active() {
    let mut state = State::default();
    register_app(&mut state, "tool", "tool-bin").expect("register");
    add_profile(&mut state, "tool", "work").expect("add");
    set_active_profile(&mut state, "tool", "work").expect("active");
    remove_profile(&mut state, "tool", "work").expect("remove");
    let app = state.apps.get("tool").expect("app");
    assert_ne!(app.active_profile.as_deref(), Some("work"));
}

#[test]
fn set_and_remove_profile_env() {
    let mut state = State::default();
    register_app(&mut state, "tool", "tool-bin").expect("register");
    set_profile_env(&mut state, "tool", "default", "KEY", "VALUE").expect("set");
    let app = state.apps.get("tool").expect("app");
    assert_eq!(
        app.profiles
            .get("default")
            .and_then(|p| p.env.get("KEY").map(String::as_str)),
        Some("VALUE")
    );
    remove_profile_env(&mut state, "tool", "default", "KEY").expect("remove");
    let app = state.apps.get("tool").expect("app");
    assert!(app
        .profiles
        .get("default")
        .and_then(|p| p.env.get("KEY"))
        .is_none());
}

#[test]
fn validate_state_fills_missing_profiles_and_active() {
    let mut state = State::default();
    state.apps.insert(
        "tool".to_string(),
        AppConfig {
            target_binary: "tool-bin".to_string(),
            ..AppConfig::default()
        },
    );
    validate_state(&mut state).expect("validate_state should succeed");
    let app = state.apps.get("tool").expect("app exists");
    assert!(app.profiles.contains_key("default"));
    assert_eq!(app.active_profile.as_deref(), Some("default"));
}

#[test]
fn validate_state_rejects_blank_target() {
    let mut state = State::default();
    state.apps.insert("tool".to_string(), AppConfig::default());
    let err = validate_state(&mut state).unwrap_err();
    assert_eq!(err.code, ErrorCode::InvalidState);
}

#[test]
fn validate_state_repairs_dangling_active_profile() {
    let mut state = State::default();
    register_app(&mut state, "tool", "tool-bin").expect("register");
    add_profile(&mut state, "tool", "work").expect("add");
    {
        let app = state.apps.get("tool").unwrap();
        assert_eq!(app.active_profile.as_deref(), Some("default"));
    }
    // Hand-edit the state so the active profile names nothing.
    let idx = state.apps.index_of("tool").unwrap();
    state.apps.value_at_mut(idx).active_profile = Some("gone".to_string());
    validate_state(&mut state).expect("validate");
    let app = state.apps.get("tool").unwrap();
    // Falls back to the first profile in insertion order.
    assert_eq!(app.active_profile.as_deref(), Some("default"));
}

#[test]
fn clone_profile_copies_bindings() {
    let mut state = State::default();
    register_app(&mut state, "tool", "tool-bin").expect("register");
    set_profile_env(&mut state, "tool", "default", "KEY", "VALUE").expect("set");
    clone_profile(&mut state, "tool", "default", "work").expect("clone");
    let app = state.apps.get("tool").unwrap();
    assert_eq!(
        app.profiles
            .get("work")
            .and_then(|p| p.env.get("KEY").map(String::as_str)),
        Some("VALUE")
    );
}

#[test]
fn clone_profile_into_existing_name_fails_and_keeps_target() {
    let mut state = State::default();
    register_app(&mut state, "tool", "tool-bin").expect("register");
    add_profile(&mut state, "tool", "work").expect("add");
    set_profile_env(&mut state, "tool", "work", "KEY", "KEEP").expect("set");
    set_profile_env(&mut state, "tool", "default", "KEY", "OTHER").expect("set");
    let err = clone_profile(&mut state, "tool", "default", "work").unwrap_err();
    assert_eq!(err.code, ErrorCode::InvalidState);
    // The existing target profile's bindings are unmodified.
    let app = state.apps.get("tool").unwrap();
    assert_eq!(
        app.profiles
            .get("work")
            .and_then(|p| p.env.get("KEY").map(String::as_str)),
        Some("KEEP")
    );
}

#[test]
fn clone_profile_missing_source_fails_profile_not_found() {
    let mut state = State::default();
    register_app(&mut state, "tool", "tool-bin").expect("register");
    let err = clone_profile(&mut state, "tool", "nope", "work").unwrap_err();
    assert_eq!(err.code, ErrorCode::ProfileNotFound);
}

#[test]
fn operations_on_unknown_app_fail_app_not_found() {
    let mut state = State::default();
    let err = add_profile(&mut state, "ghost", "work").unwrap_err();
    assert_eq!(err.code, ErrorCode::AppNotFound);
    let err = set_profile_env(&mut state, "ghost", "default", "K", "V").unwrap_err();
    assert_eq!(err.code, ErrorCode::AppNotFound);
    let err = list_profiles(&state, "ghost").unwrap_err();
    assert_eq!(err.code, ErrorCode::AppNotFound);
}

#[test]
fn register_app_rejects_blank_inputs() {
    let mut state = State::default();
    let err = register_app(&mut state, "  ", "tool-bin").unwrap_err();
    assert_eq!(err.code, ErrorCode::InvalidState);
    let err = register_app(&mut state, "tool", "").unwrap_err();
    assert_eq!(err.code, ErrorCode::InvalidState);
    assert_eq!(state.apps.len(), 0);
}

#[test]
fn remove_profile_env_missing_key_fails_invalid_state() {
    let mut state = State::default();
    register_app(&mut state, "tool", "tool-bin").expect("register");
    let err = remove_profile_env(&mut state, "tool", "default", "KEY").unwrap_err();
    assert_eq!(err.code, ErrorCode::InvalidState);
}

#[test]
fn listing_keeps_insertion_order() {
    let mut state = State::default();
    register_app(&mut state, "bravo", "b-bin").expect("register");
    register_app(&mut state, "alpha", "a-bin").expect("register");
    assert_eq!(list_apps(&state), vec!["bravo".to_string(), "alpha".to_string()]);
    add_profile(&mut state, "bravo", "work").expect("add");
    assert_eq!(
        list_profiles(&state, "bravo").expect("profiles"),
        vec!["default".to_string(), "work".to_string()]
    );
}

#[test]
fn repeated_registration_is_idempotent() {
    let mut state = State::default();
    register_app(&mut state, "tool", "tool-bin").expect("register");
    set_profile_env(&mut state, "tool", "default", "KEY", "VALUE").expect("set");
    register_app(&mut state, "tool", "tool-bin").expect("register again");
    let app = state.apps.get("tool").unwrap();
    assert_eq!(app.target_binary, "tool-bin");
    // Profiles and bindings survive a re-registration.
    assert_eq!(
        app.profiles
            .get("default")
            .and_then(|p| p.env.get("KEY").map(String::as_str)),
        Some("VALUE")
    );
}

#[test]
fn removing_active_profile_falls_back_to_first_remaining() {
    let mut state = State::default();
    register_app(&mut state, "tool", "tool-bin").expect("register");
    add_profile(&mut state, "tool", "work").expect("add");
    add_profile(&mut state, "tool", "play").expect("add");
    set_active_profile(&mut state, "tool", "default").expect("activate");
    remove_profile(&mut state, "tool", "default").expect("remove");
    let app = state.apps.get("tool").unwrap();
    // The first remaining profile, in insertion order, becomes active.
    assert_eq!(app.active_profile.as_deref(), Some("work"));
}

#[test]
fn removing_last_profile_clears_active() {
    let mut state = State::default();
    register_app(&mut state, "tool", "tool-bin").expect("register");
    remove_profile(&mut state, "tool", "default").expect("remove");
    let app = state.apps.get("tool").unwrap();
    assert!(app.profiles.len() == 0);
    assert!(app.active_profile.is_none());
}

#[test]
fn error_text_renders_kind_and_message() {
    let mut state = State::default();
    let err = add_profile(&mut state, "ghost", "work").unwrap_err();
    assert_eq!(err.code.label(), "app_not_found");
    assert_eq!(
        err.display_text(),
        format!("app_not_found: {}", err.message)
    );
    assert_eq!(err.message, "App \"ghost\" is not registered");
}

#[test]
fn blank_names_are_whitespace_or_empty() {
    assert!(blank(""));
    assert!(blank(" \t\r\n"));
    assert!(!blank(" x "));
}
