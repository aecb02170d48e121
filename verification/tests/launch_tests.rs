use envhub::apps::{add_profile, register_app, set_active_profile, set_profile_env};
use envhub::error::ErrorCode;
use envhub::launch::{
    app_name_from_argv0, assemble_args, classify_target, merge_env, plan_candidates, plan_launch,
    resolve_path_target, search_path, select_profile_config, CandidateInfo, TargetKind,
};
use envhub::omap::OrderedMap;
use envhub::state::{AppConfig, ProfileConfig, State};

fn pairs(v: &[(&str, &str)]) -> Vec<(String, String)> {
    v.iter()
        .map(|(k, val)| (k.to_string(), val.to_string()))
        .collect()
}

#[test]
fn select_profile_env_falls_back_to_first_profile() {
    let mut app = AppConfig::default();
    app.target_binary = "tool".to_string();
    let mut profile = ProfileConfig::new();
    profile.env.insert("KEY".to_string(), "VALUE".to_string());
    app.profiles.insert("work".to_string(), profile);
    let (env, _args) = select_profile_config(&app);
    assert_eq!(env.get("KEY").map(String::as_str), Some("VALUE"));
}

#[test]
fn profiles_resolve_in_insertion_order_not_alphabetical() {
    let mut app = AppConfig::default();
    app.target_binary = "tool".to_string();
    let mut work = ProfileConfig::new();
    work.env.insert("WHICH".to_string(), "work".to_string());
    let mut default_profile = ProfileConfig::new();
    default_profile
        .env
        .insert("WHICH".to_string(), "default".to_string());
    app.profiles.insert("work".to_string(), work);
    app.profiles.insert("default".to_string(), default_profile);
    // No explicit active profile: the first inserted profile wins, even
    // though "default" orders first alphabetically.
    let (env, _args) = select_profile_config(&app);
    assert_eq!(env.get("WHICH").map(String::as_str), Some("work"));
}

#[test]
fn merge_env_overrides_existing_values() {
    let base = pairs(&[("KEY", "OLD")]);
    let mut overrides: OrderedMap<String> = OrderedMap::new();
    overrides.insert("KEY".to_string(), "NEW".to_string());
    let merged = merge_env(&base, &overrides);
    assert_eq!(merged.get("KEY").map(String::as_str), Some("NEW"));
}

#[test]
fn merge_env_keeps_unmentioned_keys() {
    let base = pairs(&[("KEY", "OLD"), ("HOME", "/home/u")]);
    let overrides: OrderedMap<String> = OrderedMap::new();
    let merged = merge_env(&base, &overrides);
    assert_eq!(merged.get("KEY").map(String::as_str), Some("OLD"));
    assert_eq!(merged.get("HOME").map(String::as_str), Some("/home/u"));
}

#[test]
fn resolve_target_binary_skips_self() {
    // A PATH search whose only hit is the launcher itself finds nothing.
    let candidates = vec!["/bin/tool".to_string()];
    let facts = vec![CandidateInfo {
        exists: true,
        executable: true,
        is_self: true,
    }];
    let found = search_path(&candidates, &facts, false);
    assert!(found.is_none());
}

#[test]
fn absolute_target_that_is_self_fails_target_not_found() {
    let info = CandidateInfo {
        exists: true,
        executable: true,
        is_self: true,
    };
    let err = resolve_path_target("/usr/bin/launcher", false, &info).unwrap_err();
    assert_eq!(err.code, ErrorCode::TargetNotFound);
}

#[test]
fn missing_relative_target_fails_target_not_found() {
    let info = CandidateInfo {
        exists: false,
        executable: false,
        is_self: false,
    };
    let err = resolve_path_target("./bin/tool", false, &info).unwrap_err();
    assert_eq!(err.code, ErrorCode::TargetNotFound);
}

#[test]
fn search_takes_first_executable_hit() {
    let candidates = vec![
        "/a/tool".to_string(),
        "/b/tool".to_string(),
        "/c/tool".to_string(),
    ];
    let facts = vec![
        CandidateInfo { exists: true, executable: false, is_self: false },
        CandidateInfo { exists: true, executable: true, is_self: true },
        CandidateInfo { exists: true, executable: true, is_self: false },
    ];
    assert_eq!(search_path(&candidates, &facts, false), Some("/c/tool".to_string()));
}

#[test]
fn classify_target_tiers() {
    assert_eq!(classify_target("/usr/bin/x", false), TargetKind::AbsolutePath);
    assert_eq!(classify_target("./x", false), TargetKind::RelativePath);
    assert_eq!(classify_target("sub/dir/x", false), TargetKind::RelativePath);
    assert_eq!(classify_target("x", false), TargetKind::BareName);
    assert_eq!(classify_target("C:\\tools\\x", true), TargetKind::AbsolutePath);
}

#[test]
fn plan_candidates_joins_each_path_directory() {
    let dirs = vec!["/a".to_string(), "/b".to_string()];
    let exts: Vec<String> = Vec::new();
    let cands = plan_candidates("tool", &dirs, &exts, false);
    assert_eq!(cands, vec!["/a/tool".to_string(), "/b/tool".to_string()]);
}

#[test]
fn plan_candidates_tries_extensions_per_directory() {
    let dirs = vec!["C:\\bin".to_string()];
    let exts = vec![".EXE".to_string(), ".CMD".to_string()];
    let cands = plan_candidates("tool", &dirs, &exts, true);
    assert_eq!(
        cands,
        vec![
            "C:\\bin\\tool".to_string(),
            "C:\\bin\\tool.EXE".to_string(),
            "C:\\bin\\tool.CMD".to_string(),
        ]
    );
}

#[test]
fn app_name_from_argv0_takes_file_name() {
    assert_eq!(
        app_name_from_argv0("/usr/local/bin/tool", false),
        Some("tool".to_string())
    );
    assert_eq!(app_name_from_argv0("tool", false), Some("tool".to_string()));
    assert_eq!(app_name_from_argv0("", false), None);
    assert_eq!(app_name_from_argv0("/usr/local/bin/", false), None);
    assert_eq!(
        app_name_from_argv0("C:\\bin\\tool.exe", true),
        Some("tool".to_string())
    );
}

#[test]
fn plan_launch_passes_through_unregistered_alias() {
    let state = State::default();
    let plan = plan_launch(&state, "cc").expect("plan");
    assert_eq!(plan.target, "cc");
    assert_eq!(plan.env.len(), 0);
    assert!(plan.args.is_empty());
}

#[test]
fn plan_launch_rejects_blank_target() {
    let mut state = State::default();
    state.apps.insert("tool".to_string(), AppConfig::default());
    let err = plan_launch(&state, "tool").unwrap_err();
    assert_eq!(err.code, ErrorCode::InvalidState);
}

#[test]
fn assemble_args_prepends_profile_arguments() {
    let profile_args = vec!["--flag".to_string(), "-v".to_string()];
    let user_args = vec!["build".to_string(), "x.txt".to_string()];
    let all = assemble_args(&profile_args, &user_args);
    assert_eq!(
        all,
        vec![
            "--flag".to_string(),
            "-v".to_string(),
            "build".to_string(),
            "x.txt".to_string(),
        ]
    );
}

#[test]
fn end_to_end_resolution_merges_profile_env() {
    // Register "tool" -> "tool-bin", add a "work" profile with KEY=VALUE,
    // activate it, then resolve an invocation of "tool".
    let mut state = State::default();
    register_app(&mut state, "tool", "tool-bin").expect("register");
    add_profile(&mut state, "tool", "work").expect("add profile");
    set_profile_env(&mut state, "tool", "work", "KEY", "VALUE").expect("set env");
    set_active_profile(&mut state, "tool", "work").expect("activate");

    let alias = app_name_from_argv0("/home/u/.envhub/bin/tool", false).expect("alias");
    assert_eq!(alias, "tool");

    let plan = plan_launch(&state, &alias).expect("plan");
    assert_eq!(plan.target, "tool-bin");

    assert_eq!(classify_target(&plan.target, false), TargetKind::BareName);
    let path_dirs = vec!["/somewhere/else".to_string(), "/opt/tools".to_string()];
    let exts: Vec<String> = Vec::new();
    let candidates = plan_candidates(&plan.target, &path_dirs, &exts, false);
    assert_eq!(
        candidates,
        vec![
            "/somewhere/else/tool-bin".to_string(),
            "/opt/tools/tool-bin".to_string(),
        ]
    );
    // Only the second PATH directory holds an executable "tool-bin".
    let facts = vec![
        CandidateInfo { exists: false, executable: false, is_self: false },
        CandidateInfo { exists: true, executable: true, is_self: false },
    ];
    let resolved = search_path(&candidates, &facts, false).expect("resolved");
    assert_eq!(resolved, "/opt/tools/tool-bin");

    let inherited = pairs(&[("PATH", "/somewhere/else:/opt/tools"), ("KEY", "OLD")]);
    let merged = merge_env(&inherited, &plan.env);
    assert_eq!(merged.get("KEY").map(String::as_str), Some("VALUE"));
    assert_eq!(
        merged.get("PATH").map(String::as_str),
        Some("/somewhere/else:/opt/tools")
    );

    let user_args = vec!["--input".to_string(), "data.txt".to_string()];
    let all_args = assemble_args(&plan.args, &user_args);
    // The profile has no extra arguments, so the user's arguments pass
    // through unchanged and in order.
    assert_eq!(all_args, user_args);
}
