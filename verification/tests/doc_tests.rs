use envhub::doc::{state_from_doc, state_to_doc};
use envhub::error::ErrorCode;
use envhub::json::JsonValue;
use envhub::omap::OrderedMap;
use envhub::state::validate_state;

fn obj(entries: Vec<(&str, JsonValue)>) -> JsonValue {
    let mut m: OrderedMap<JsonValue> = OrderedMap::new();
    for (k, v) in entries {
        m.insert(k.to_string(), v);
    }
    JsonValue::Object(m)
}

fn text(s: &str) -> JsonValue {
    JsonValue::Text(s.to_string())
}

#[test]
fn save_and_load_preserves_unknown_fields() {
    // { "apps": {}, "future": { "flag": true } }
    let doc = obj(vec![
        ("apps", obj(vec![])),
        ("future", obj(vec![("flag", JsonValue::Bool(true))])),
    ]);
    let mut state = state_from_doc(doc).expect("load");
    validate_state(&mut state).expect("validate");
    let out = state_to_doc(state);
    let m = match out {
        JsonValue::Object(m) => m,
        _ => panic!("document must be an object"),
    };
    match m.get("future") {
        Some(JsonValue::Object(fm)) => match fm.get("flag") {
            Some(JsonValue::Bool(true)) => {}
            _ => panic!("the unknown field's value changed"),
        },
        _ => panic!("the unknown field was dropped"),
    }
}

#[test]
fn load_reads_rich_profile_shape() {
    let profile = obj(vec![
        ("env", obj(vec![("KEY", text("VALUE"))])),
        ("command_args", JsonValue::Array(vec![text("--flag")])),
    ]);
    let app = obj(vec![
        ("target_binary", text("tool-bin")),
        ("profiles", obj(vec![("work", profile)])),
    ]);
    let doc = obj(vec![("apps", obj(vec![("tool", app)]))]);
    let state = state_from_doc(doc).expect("load");
    let app = state.apps.get("tool").expect("app");
    assert_eq!(app.target_binary, "tool-bin");
    let p = app.profiles.get("work").expect("profile");
    assert_eq!(p.env.get("KEY").map(String::as_str), Some("VALUE"));
    assert_eq!(p.command_args, vec!["--flag".to_string()]);
    assert!(!app.installed);
    assert!(app.active_profile.is_none());
}

#[test]
fn load_reads_older_flat_profile_shape() {
    // An older document stores a profile as a flat object of bindings.
    let profile = obj(vec![("KEY", text("VALUE")), ("OTHER", text("X"))]);
    let app = obj(vec![
        ("target_binary", text("tool-bin")),
        ("profiles", obj(vec![("default", profile)])),
    ]);
    let doc = obj(vec![("apps", obj(vec![("tool", app)]))]);
    let state = state_from_doc(doc).expect("load");
    let p = state
        .apps
        .get("tool")
        .and_then(|a| a.profiles.get("default"))
        .expect("profile");
    assert_eq!(p.env.get("KEY").map(String::as_str), Some("VALUE"));
    assert_eq!(p.env.get("OTHER").map(String::as_str), Some("X"));
    assert!(p.command_args.is_empty());
}

#[test]
fn load_rejects_non_object_document() {
    let err = state_from_doc(text("nonsense")).unwrap_err();
    assert_eq!(err.code, ErrorCode::Json);
}

#[test]
fn load_rejects_mistyped_fields() {
    let app = obj(vec![("target_binary", JsonValue::Bool(true))]);
    let doc = obj(vec![("apps", obj(vec![("tool", app)]))]);
    let err = state_from_doc(doc).unwrap_err();
    assert_eq!(err.code, ErrorCode::Json);

    let doc = obj(vec![("apps", text("not an object"))]);
    let err = state_from_doc(doc).unwrap_err();
    assert_eq!(err.code, ErrorCode::Json);
}

#[test]
fn missing_apps_field_reads_as_empty_state() {
    let doc = obj(vec![("note", text("hello"))]);
    let state = state_from_doc(doc).expect("load");
    assert_eq!(state.apps.len(), 0);
    assert_eq!(state.extra.len(), 1);
}

#[test]
fn round_trip_keeps_app_fields_and_unknown_app_fields() {
    let app = obj(vec![
        ("target_binary", text("tool-bin")),
        ("active_profile", text("default")),
        (
            "profiles",
            obj(vec![("default", obj(vec![("env", obj(vec![]))]))]),
        ),
        ("color", text("teal")),
    ]);
    let doc = obj(vec![("apps", obj(vec![("tool", app)]))]);
    let state = state_from_doc(doc).expect("load");
    let out = state_to_doc(state);
    let m = match out {
        JsonValue::Object(m) => m,
        _ => panic!("document must be an object"),
    };
    let apps = match m.get("apps") {
        Some(JsonValue::Object(am)) => am,
        _ => panic!("apps must be an object"),
    };
    let tool = match apps.get("tool") {
        Some(JsonValue::Object(tm)) => tm,
        _ => panic!("app must be an object"),
    };
    match tool.get("target_binary") {
        Some(JsonValue::Text(t)) => assert_eq!(t, "tool-bin"),
        _ => panic!("target_binary missing"),
    }
    match tool.get("color") {
        Some(JsonValue::Text(t)) => assert_eq!(t, "teal"),
        _ => panic!("unknown app field dropped"),
    }
    match tool.get("installed") {
        Some(JsonValue::Bool(false)) => {}
        _ => panic!("installed must be written as a boolean"),
    }
}
