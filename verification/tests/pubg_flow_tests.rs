use game_passport::pubg::{
    apply_failed, apply_succeeded, backup_file, capture_file, capture_report, category_total,
    check_backup_file, check_backup_header, diagnostics_of, parse_portable_ini, parsed_file,
    preflight_response, restored_response, verify_applied, PubgBackupFile, PubgConfigFile,
    PubgResults,
};

const GUS: &str = "[/Script/TslGame.TslGameUserSettings]\nResolutionSizeX=1728\nResolutionSizeY=1080\nFullscreenMode=0\nMouseSensitivity=50\nAudioOutputDeviceId=secret-device\n";

fn no_results() -> PubgResults {
    PubgResults { capture: None, apply: None, backup: None, restore: None, parse_errors: vec![], write_errors: vec![] }
}

#[test]
fn capture_steps_record_files_and_problems() {
    let mut files: Vec<PubgConfigFile> = vec![];
    let mut warnings: Vec<String> = vec![];
    let mut errors: Vec<String> = vec![];
    capture_file("GameUserSettings.ini", None, &mut files, &mut warnings, &mut errors);
    assert_eq!(errors, vec!["Required file not found: GameUserSettings.ini".to_string()]);
    capture_file("Input.ini", None, &mut files, &mut warnings, &mut errors);
    assert_eq!(warnings, vec!["Optional file not found: Input.ini".to_string()]);
    capture_file("Scalability.ini", Some(Err("denied".into())), &mut files, &mut warnings, &mut errors);
    assert_eq!(errors.last().unwrap(), "denied");
    assert!(files.is_empty());

    let mut files: Vec<PubgConfigFile> = vec![];
    let mut warnings: Vec<String> = vec![];
    let mut errors: Vec<String> = vec![];
    capture_file("GameUserSettings.ini", Some(Ok(GUS.into())), &mut files, &mut warnings, &mut errors);
    assert!(errors.is_empty());
    assert_eq!(files.len(), 1);
    assert_eq!(files[0].relative_id, "GameUserSettings.ini");
    assert_eq!(
        warnings,
        vec!["GameUserSettings.ini: excluded 1 hardware-specific or sensitive setting(s).".to_string()]
    );
    capture_file("Input.ini", Some(Ok("; only a comment\n".into())), &mut files, &mut warnings, &mut errors);
    assert_eq!(files.len(), 1);
    assert_eq!(warnings.last().unwrap(), "Input.ini: no portable settings were found.");
}

#[test]
fn capture_report_requires_game_user_settings() {
    let r = capture_report(vec![], vec![], vec![], "now".into());
    assert_eq!(r.state, "error");
    assert_eq!(r.message, "PUBG configuration could not be captured safely.");
    assert!(r.retryable && r.payload.is_none());

    let file = parsed_file("GameUserSettings.ini", GUS).unwrap();
    let files = vec![file];
    assert_eq!(category_total(&files), Some(files[0].entries.iter().map(|e| e.categories.len()).sum()));
    let r = capture_report(files, vec![], vec!["broken".into()], "now".into());
    assert_eq!(r.state, "error");
    assert_eq!(r.details, vec!["broken".to_string()]);

    let files = vec![parsed_file("GameUserSettings.ini", GUS).unwrap()];
    let r = capture_report(files, vec![], vec![], "2026-01-01T00:00:00Z".into());
    assert_eq!(r.state, "warning");
    assert_eq!(r.message, "PUBG profile captured from real Windows configuration files.");
    let payload = r.payload.unwrap();
    assert_eq!(payload.game, "pubg");
    assert_eq!(payload.normalized.width, Some(1728));
    assert_eq!(payload.unsupported_categories.len(), 4);
    assert!(payload.warnings.contains(&"No keybinds settings were confirmed in the current config.".to_string()));
    assert!(r.details[0].starts_with("Gameplay ✓ ("));
}

#[test]
fn written_files_are_verified_against_the_saved_entries() {
    let (saved, _) = parse_portable_ini("GameUserSettings.ini", GUS).unwrap();
    assert_eq!(verify_applied("GameUserSettings.ini", Ok(GUS.into()), &saved), Ok(()));
    assert_eq!(
        verify_applied("GameUserSettings.ini", Ok("[/Script/TslGame.TslGameUserSettings]\nResolutionSizeX=1\n".into()), &saved),
        Err("GameUserSettings.ini verification did not match the saved snapshot.".into())
    );
    assert_eq!(
        verify_applied("GameUserSettings.ini", Err("gone".into()), &saved),
        Err("GameUserSettings.ini verification failed: gone".into())
    );
}

#[test]
fn backup_files_restore_their_bytes() {
    let record = backup_file("Input.ini", true, b"[Input]\nKey=1\n");
    assert!(record.existed);
    assert_eq!(check_backup_file(&record), Ok(b"[Input]\nKey=1\n".to_vec()));
    let tampered = PubgBackupFile { sha256: "00".into(), ..record.clone() };
    assert_eq!(check_backup_file(&tampered), Err("PUBG backup integrity check failed.".into()));
    let unsafe_id = PubgBackupFile { relative_id: "../Input.ini".into(), ..record.clone() };
    assert_eq!(check_backup_file(&unsafe_id), Err("PUBG backup contains an unsafe path.".into()));
    let invalid = PubgBackupFile { content_base64: "***".into(), ..record };
    assert_eq!(check_backup_file(&invalid), Err("PUBG backup contains invalid data.".into()));
    assert_eq!(check_backup_header(1, "WindowsNoEditor", 3), Ok(()));
    assert_eq!(check_backup_header(1, "Other", 3), Err("PUBG backup is corrupted or unsupported.".into()));
    assert!(check_backup_header(2, "Windows", 3).is_err());
    assert!(check_backup_header(1, "Windows", 2).is_err());
}

#[test]
fn pubg_answers_name_their_outcome() {
    let d = diagnostics_of(Some("C:\\cfg".into()), None, vec!["GameUserSettings.ini".into()], &[], true, no_results());
    assert!(d.pubg_detected && d.process_running);
    assert_eq!(d.unsupported_settings.len(), 3);
    let r = preflight_response(true, d.clone());
    assert_eq!(r.state, "error");
    assert!(r.retryable);
    let r = preflight_response(false, d);
    assert_eq!(r.state, "success");
    let r = apply_succeeded(2, "C:\\b.json".into());
    assert_eq!(r.details, vec!["Configuration files applied: 2".to_string(), "Local backup: C:\\b.json".to_string()]);
    let r = apply_failed(vec!["x".into()], Err("no".into()), "b".into());
    assert_eq!(r.details, vec!["x".to_string(), "Automatic PUBG rollback failed: no".to_string()]);
    let r = apply_failed(vec![], Ok(3), "b".into());
    assert_eq!(r.details, vec!["Automatic PUBG rollback completed.".to_string()]);
    let r = restored_response(3, "b");
    assert_eq!(r.details, vec!["Files restored: 3".to_string(), "Backup used: b".to_string()]);
}
