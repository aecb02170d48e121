use envhub::state::{AppConfig, ProfileConfig, State};
use envhub::tui::{next_index, App, Focus, InputMode, InputStep, InputState, Page};

#[test]
fn next_index_wraps() {
    assert_eq!(next_index(0, 3, -1), 2);
    assert_eq!(next_index(2, 3, 1), 0);
    assert_eq!(next_index(1, 3, 1), 2);
}

#[test]
fn next_index_pins_empty_list_to_zero() {
    assert_eq!(next_index(0, 0, 1), 0);
    assert_eq!(next_index(0, 0, -1), 0);
}

#[test]
fn from_state_maps_profiles() {
    let mut state = State::default();
    let mut profiles = envhub::omap::OrderedMap::new();
    let mut env = envhub::omap::OrderedMap::new();
    env.insert("KEY".to_string(), "VALUE".to_string());
    profiles.insert(
        "work".to_string(),
        ProfileConfig {
            env,
            command_args: Vec::new(),
        },
    );
    state.apps.insert(
        "tool".to_string(),
        AppConfig {
            target_binary: "tool-bin".to_string(),
            active_profile: Some("work".to_string()),
            profiles,
            ..AppConfig::default()
        },
    );

    let app = App::from_state(state);
    assert_eq!(app.entries.len(), 1);
    assert_eq!(app.entries[0].name, "tool");
    assert_eq!(app.entries[0].profiles, vec!["work".to_string()]);
}

#[test]
fn from_state_sorts_apps_and_profiles_for_display() {
    let mut state = State::default();
    envhub::apps::register_app(&mut state, "zeta", "z-bin").expect("register");
    envhub::apps::register_app(&mut state, "alpha", "a-bin").expect("register");
    envhub::apps::add_profile(&mut state, "alpha", "berlin").expect("add");
    envhub::apps::add_profile(&mut state, "alpha", "amsterdam").expect("add");
    let app = App::from_state(state);
    let names: Vec<&str> = app.entries.iter().map(|e| e.name.as_str()).collect();
    assert_eq!(names, vec!["alpha", "zeta"]);
    assert_eq!(
        app.entries[0].profiles,
        vec![
            "amsterdam".to_string(),
            "berlin".to_string(),
            "default".to_string(),
        ]
    );
}

#[test]
fn from_state_snaps_selection_to_active_profile() {
    let mut state = State::default();
    envhub::apps::register_app(&mut state, "tool", "tool-bin").expect("register");
    envhub::apps::add_profile(&mut state, "tool", "work").expect("add");
    envhub::apps::set_active_profile(&mut state, "tool", "work").expect("activate");
    let app = App::from_state(state);
    // Profiles display sorted: ["default", "work"]; "work" is active.
    assert_eq!(app.entries[0].profiles[app.selected_profile], "work");
    assert_eq!(app.status, "Ready");
    assert_eq!(app.page, Page::AppsList);
    assert_eq!(app.focus, Focus::Apps);
}

#[test]
fn input_state_resets_to_idle() {
    let mut input = InputState::new();
    input.mode = InputMode::SetEnv;
    input.step = InputStep::Second;
    input.buf = "KEY".to_string();
    input.first = "VALUE".to_string();
    input.selection_index = 3;
    input.reset();
    assert_eq!(input.mode, InputMode::Normal);
    assert_eq!(input.step, InputStep::First);
    assert!(input.buf.is_empty());
    assert!(input.first.is_empty());
    assert!(input.second.is_empty());
    assert_eq!(input.selection_index, 0);
}

#[test]
fn move_selection_wraps_in_apps_list() {
    let mut state = State::default();
    envhub::apps::register_app(&mut state, "a", "a-bin").expect("register");
    envhub::apps::register_app(&mut state, "b", "b-bin").expect("register");
    let mut app = App::from_state(state);
    assert_eq!(app.selected_app, 0);
    app.move_selection(-1);
    assert_eq!(app.selected_app, 1);
    app.move_selection(1);
    assert_eq!(app.selected_app, 0);
}

#[test]
fn current_env_list_reads_selected_profile() {
    let mut state = State::default();
    envhub::apps::register_app(&mut state, "tool", "tool-bin").expect("register");
    envhub::apps::set_profile_env(&mut state, "tool", "default", "KEY", "VALUE").expect("set");
    let app = App::from_state(state);
    let env = app.current_env_list();
    assert_eq!(env, vec![("KEY".to_string(), "VALUE".to_string())]);
    assert_eq!(
        app.current_env_pair(),
        Some(("KEY".to_string(), "VALUE".to_string()))
    );
    assert_eq!(app.current_app_name().as_deref(), Some("tool"));
    assert_eq!(app.current_profile_name().as_deref(), Some("default"));
}
