use envhub::error::ErrorCode;
use envhub::install::{
    effective_install_dir, install_shim, is_shim_installed, path_contains_dir, resolve_platform,
    shim_file_name, InstallMode, PlatformInfo,
};
use envhub::state::AppConfig;

#[test]
fn resolve_platform_picks_per_user_directory() {
    let p = resolve_platform(InstallMode::User, false, Some("/home/u")).expect("platform");
    assert!(!p.is_windows);
    assert_eq!(p.install_dir, "/home/u/.envhub/bin");
}

#[test]
fn resolve_platform_global_is_fixed() {
    let p = resolve_platform(InstallMode::Global, false, None).expect("platform");
    assert_eq!(p.install_dir, "/usr/local/bin");
}

#[test]
fn resolve_platform_without_base_fails_install_path() {
    let err = resolve_platform(InstallMode::User, false, None).unwrap_err();
    assert_eq!(err.code, ErrorCode::InstallPath);
    let err = resolve_platform(InstallMode::User, true, None).unwrap_err();
    assert_eq!(err.code, ErrorCode::InstallPath);
}

#[test]
fn resolve_platform_windows_uses_app_data() {
    let p = resolve_platform(InstallMode::User, true, Some("C:\\Users\\u\\AppData\\Local"))
        .expect("platform");
    assert!(p.is_windows);
    assert_eq!(p.install_dir, "C:\\Users\\u\\AppData\\Local\\EnvHub\\bin");
}

#[test]
fn shim_file_name_adds_suffix_only_on_windows() {
    assert_eq!(shim_file_name("tool", false), "tool");
    assert_eq!(shim_file_name("tool", true), "tool.exe");
}

#[test]
fn install_shim_computes_destination() {
    let platform = PlatformInfo {
        is_windows: false,
        install_dir: "/home/u/.envhub/bin".to_string(),
    };
    let dest = install_shim("tool", &platform).expect("dest");
    assert_eq!(dest, "/home/u/.envhub/bin/tool");
}

#[test]
fn install_shim_rejects_blank_alias() {
    let platform = PlatformInfo {
        is_windows: false,
        install_dir: "/x".to_string(),
    };
    let err = install_shim("   ", &platform).unwrap_err();
    assert_eq!(err.code, ErrorCode::InvalidState);
}

#[test]
fn is_shim_installed_checks_directory_listing() {
    let platform = PlatformInfo {
        is_windows: false,
        install_dir: "/x".to_string(),
    };
    let entries = vec!["other".to_string(), "tool".to_string()];
    assert!(is_shim_installed("tool", &platform, &entries));
    assert!(!is_shim_installed("gone", &platform, &entries));
    assert!(!is_shim_installed("", &platform, &entries));
}

#[test]
fn effective_install_dir_prefers_app_override() {
    let platform = PlatformInfo {
        is_windows: false,
        install_dir: "/default/bin".to_string(),
    };
    let mut app = AppConfig::default();
    assert_eq!(effective_install_dir(&app, &platform), "/default/bin");
    app.install_path = Some("/custom".to_string());
    assert_eq!(effective_install_dir(&app, &platform), "/custom");
}

#[test]
fn path_contains_dir_matches_whole_entries_only() {
    let path_var = "/usr/bin:/home/u/.envhub/bin:/opt";
    assert!(path_contains_dir(path_var, "/home/u/.envhub/bin", ':'));
    assert!(path_contains_dir(path_var, "/opt", ':'));
    assert!(!path_contains_dir(path_var, "/home/u/.envhub", ':'));
    assert!(!path_contains_dir(path_var, "/usr", ':'));
    assert!(!path_contains_dir("", "/usr", ':'));
}
