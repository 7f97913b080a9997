use game_passport::release::{
    check_report_size, clean, contains_secret_marker, library_path, prepare_log_entry, preflight,
    replace_chars, rotation_steps, sanitize_json, supported_windows, windows_version_text,
    JsonValue, ProductionLogEntry, APP_VERSION, MAX_LOG_BYTES, MAX_LOG_FILES,
};
use game_passport::release::{prepare_report, report_bytes};

#[test]
fn release_version_comes_from_package() {
    assert_eq!(APP_VERSION, "0.6.0");
}

#[test]
fn log_limits_are_bounded() {
    assert_eq!(MAX_LOG_BYTES, 1024 * 1024);
    assert_eq!(MAX_LOG_FILES, 3);
}

#[test]
fn secret_markers_are_found_without_case() {
    assert!(contains_secret_marker("Authorization: Bearer abc"));
    assert!(contains_secret_marker("x PASSWORD=1"));
    assert!(!contains_secret_marker("sensitivity 1.0"));
}

#[test]
fn clean_redacts_rewrites_home_and_cuts() {
    assert_eq!(clean("a\rb\0c", 64, None), "a bc");
    assert_eq!(clean("cookie: x", 64, None), "[REDACTED: sensitive-looking value]");
    assert_eq!(clean("C:\\Users\\me\\file", 64, Some("C:\\Users\\me")), "%USERPROFILE%\\file");
    assert_eq!(clean("abcdef", 3, None), "abc");
}

#[test]
fn replace_matches_str_replace() {
    let s: Vec<char> = "a   b".chars().collect();
    let two: Vec<char> = "  ".chars().collect();
    let one: Vec<char> = " ".chars().collect();
    let out: String = replace_chars(&s, &two, &one).into_iter().collect();
    assert_eq!(out, "a   b".replace("  ", " "));
    let empty: Vec<char> = vec![];
    let x: Vec<char> = "X".chars().collect();
    let abc: Vec<char> = "abc".chars().collect();
    let out2: String = replace_chars(&abc, &empty, &x).into_iter().collect();
    assert_eq!(out2, "abc".replace("", "X"));
}

#[test]
fn log_entry_with_unknown_severity_is_refused() {
    let entry = ProductionLogEntry {
        timestamp: "t".into(),
        severity: "debug".into(),
        adapter: "a".into(),
        operation: "o".into(),
        code: None,
        message: "m".into(),
        technical_details: None,
    };
    let r = prepare_log_entry(entry, None);
    assert!(r.is_err());
    assert_eq!(r.unwrap_err().message, "Invalid production log severity.");
}

#[test]
fn log_entry_fields_are_cleaned() {
    let entry = ProductionLogEntry {
        timestamp: "t".into(),
        severity: "info".into(),
        adapter: "adapter".into(),
        operation: "op".into(),
        code: Some("token".into()),
        message: "refresh_token=abc".into(),
        technical_details: Some("x".repeat(5000)),
    };
    let e = prepare_log_entry(entry, None).unwrap();
    assert_eq!(e.message, "[REDACTED: sensitive-looking value]");
    assert_eq!(e.code.as_deref(), Some("token"));
    assert_eq!(e.technical_details.unwrap().len(), 4000);
}

#[test]
fn report_json_is_sanitized() {
    let mut v = JsonValue::Object(vec![
        ("userId".into(), JsonValue::Str("42".into())),
        ("note".into(), JsonValue::Str("C:\\Users\\me\\x".into())),
        ("jwt".into(), JsonValue::Str("eyJa.b.c".into())),
        (
            "list".into(),
            JsonValue::Array(vec![JsonValue::Str("Bearer abc".into()), JsonValue::Number("1".into())]),
        ),
    ]);
    sanitize_json(&mut v, Some("C:\\Users\\me"));
    match v {
        JsonValue::Object(members) => {
            assert_eq!(members.len(), 3);
            assert_eq!(members[0].0, "note");
            match &members[0].1 {
                JsonValue::Str(s) => assert_eq!(s, "%USERPROFILE%\\x"),
                _ => panic!("string expected"),
            }
            match &members[1].1 {
                JsonValue::Str(s) => assert_eq!(s, "[REDACTED]"),
                _ => panic!("string expected"),
            }
            match &members[2].1 {
                JsonValue::Array(items) => match &items[0] {
                    JsonValue::Str(s) => assert_eq!(s, "[REDACTED]"),
                    _ => panic!("string expected"),
                },
                _ => panic!("array expected"),
            }
        }
        _ => panic!("object expected"),
    }
}

#[test]
fn windows_build_support_boundary() {
    assert!(supported_windows(Some("19045")));
    assert!(supported_windows(Some("22631")));
    assert!(!supported_windows(Some("19044")));
    assert!(!supported_windows(Some("abc")));
    assert!(!supported_windows(None));
}

#[test]
fn windows_version_text_collapses_double_spaces() {
    assert_eq!(windows_version_text("Windows 10 Pro", "", "19045"), "Windows 10 Pro (build 19045)");
    assert_eq!(windows_version_text("Windows 11", "23H2", "22631"), "Windows 11 23H2 (build 22631)");
}

#[test]
fn library_path_lines() {
    assert_eq!(library_path("\t\t\"path\"\t\t\"D:\\\\SteamLibrary\"").as_deref(), Some("D:\\SteamLibrary"));
    assert_eq!(library_path("\"label\"\t\"\""), None);
}

#[test]
fn rotation_moves_logs_upward() {
    let steps = rotation_steps();
    assert_eq!(steps.len(), 4);
    assert_eq!(steps[0], ("game-passport.log.3".to_string(), None));
    assert_eq!(steps[1], ("game-passport.log.2".to_string(), Some("game-passport.log.3".to_string())));
    assert_eq!(steps[3], ("game-passport.log".to_string(), Some("game-passport.log.1".to_string())));
}

#[test]
fn report_size_limit() {
    assert!(check_report_size("{}").is_ok());
    let big = "a".repeat(2 * 1024 * 1024 + 1);
    assert_eq!(check_report_size(&big).unwrap_err().message, "Diagnostic report exceeds the safe 2 MB limit.");
}

#[test]
fn portable_preflight_reports_nothing_available() {
    let p = preflight(None, "linux");
    assert_eq!(p.build, "local");
    assert_eq!(p.windows_version, "linux");
    assert!(!p.windows_supported);
    assert_eq!(p.app_version, "0.6.0");
}

#[test]
fn report_text_is_parsed_sanitized_and_pretty_printed() {
    let contents = r#"{"userId":"42","note":"C:\\Users\\me\\x","list":["Bearer abc",1.5],"ok":true,"none":null}"#;
    let bytes = prepare_report(contents, Some("C:\\Users\\me")).unwrap();
    let text = String::from_utf8(bytes).unwrap();
    assert_eq!(
        text,
        "{\n  \"list\": [\n    \"[REDACTED]\",\n    1.5\n  ],\n  \"none\": null,\n  \"note\": \"%USERPROFILE%\\\\x\",\n  \"ok\": true\n}"
    );
}

#[test]
fn report_errors_name_the_problem() {
    let big = "a".repeat(2 * 1024 * 1024 + 1);
    assert_eq!(prepare_report(&big, None).unwrap_err().message, "Diagnostic report exceeds the safe 2 MB limit.");
    let bad = prepare_report("{\"a\":", None).unwrap_err();
    assert_eq!(bad.state, "error");
    assert_eq!(bad.message, "Diagnostic report is not valid JSON.");
    let unreadable = report_bytes(JsonValue::Number("not a number".into()), None).unwrap_err();
    assert!(unreadable.message.starts_with("Could not save diagnostic report: "));
    assert!(unreadable.path.is_none());
}

#[test]
fn report_bytes_sanitize_before_printing() {
    let report = JsonValue::Array(vec![JsonValue::Str("password=hunter2".into()), JsonValue::Number("7".into())]);
    let text = String::from_utf8(report_bytes(report, None).unwrap()).unwrap();
    assert_eq!(text, "[\n  \"[REDACTED]\",\n  7\n]");
}
