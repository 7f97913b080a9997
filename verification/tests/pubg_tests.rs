use game_passport::pubg::{
    category_details, entries_multiset_contains, manifest_install_dir, file_hash, is_pubg_process_name, merge_ini,
    normalized, parse_portable_ini, summarize, validate_payload, PubgCategorySummary,
    PubgConfigFile, PubgIniEntry, PubgPayload,
};

fn fixture() -> &'static str {
    "[/Script/TslGame.TslGameUserSettings]\nResolutionSizeX=1728\nResolutionSizeY=1080\nFullscreenMode=0\nTslPersistantData=(MouseSensitiveList=(General=50.0),CustomInputSettings=((ActionName=\"Jump\",Key=SpaceBar)),MasterSoundVolume=80)\nAudioOutputDeviceId=secret-device\n[/Script/Engine.GameUserSettings]\nbUseVSync=False\n[ScalabilityGroups]\nsg.ShadowQuality=1\n"
}

fn payload() -> PubgPayload {
    let (entries, _) = parse_portable_ini("GameUserSettings.ini", fixture()).unwrap();
    let files = vec![PubgConfigFile {
        relative_id: "GameUserSettings.ini".into(),
        sha256: file_hash(&entries),
        entries,
    }];
    PubgPayload {
        schema_version: 1,
        captured_at: "2026-01-01T00:00:00Z".into(),
        game: "pubg".into(),
        normalized: normalized(&files),
        captured_categories: summarize(&files),
        files,
        unsupported_categories: vec![],
        warnings: vec![],
    }
}

#[test]
fn parses_nested_persistent_data_without_splitting() {
    let (entries, excluded) = parse_portable_ini("GameUserSettings.ini", fixture()).unwrap();
    assert!(entries
        .iter()
        .any(|e| e.key == "TslPersistantData" && e.value.contains("ActionName")));
    assert_eq!(excluded, 1)
}

#[test]
fn extracts_resolution_and_mode() {
    let p = payload();
    assert_eq!(p.normalized.width, Some(1728));
    assert_eq!(p.normalized.height, Some(1080));
    assert_eq!(p.normalized.display_mode, "fullscreen")
}

#[test]
fn classifies_all_major_categories() {
    let p = payload();
    assert!(p.captured_categories.gameplay > 0);
    assert!(p.captured_categories.keybinds > 0);
    assert!(p.captured_categories.graphics > 0);
    assert!(p.captured_categories.audio > 0)
}

#[test]
fn rejects_traversal_and_unknown_files() {
    let mut p = payload();
    p.files[0].relative_id = "../Engine.ini".into();
    assert!(validate_payload(&p).is_err())
}

#[test]
fn rejects_integrity_mismatch() {
    let mut p = payload();
    p.files[0].entries[0].value = "999".into();
    assert!(validate_payload(&p).is_err())
}

#[test]
fn rejects_secret_in_snapshot() {
    let mut p = payload();
    p.files[0].entries.push(PubgIniEntry {
        section: "/Script/TslGame.TslGameUserSettings".into(),
        key: "AuthToken".into(),
        operator: "".into(),
        value: "secret".into(),
        categories: vec!["gameplay".into()],
    });
    p.files[0].sha256 = file_hash(&p.files[0].entries);
    assert!(validate_payload(&p).is_err())
}

#[test]
fn serializer_preserves_local_hardware_and_replaces_saved_keys() {
    let p = payload();
    let merged = merge_ini(
        "[/Script/TslGame.TslGameUserSettings]\nResolutionSizeX=800\nAudioOutputDeviceId=local\n",
        &p.files[0].entries,
    )
    .unwrap();
    assert!(merged.contains("AudioOutputDeviceId=local"));
    assert!(!merged.contains("ResolutionSizeX=800"));
    assert!(merged.contains("ResolutionSizeX=1728"))
}

#[test]
fn parses_array_operators() {
    let (text, _) = parse_portable_ini(
        "Input.ini",
        "[/Script/Engine.InputSettings]\n+ActionMappings=(ActionName=\"Jump\",Key=SpaceBar)\n",
    )
    .unwrap();
    assert_eq!(text[0].operator, "+")
}

#[test]
fn malformed_nul_is_rejected() {
    assert!(parse_portable_ini("GameUserSettings.ini", "[x]\0\na=b").is_err())
}

#[test]
fn missing_required_payload_is_rejected() {
    let mut p = payload();
    p.files.clear();
    assert!(validate_payload(&p).is_err())
}

#[test]
fn schema_migration_boundary_is_explicit() {
    let mut p = payload();
    p.schema_version = 2;
    assert!(validate_payload(&p).is_err())
}

#[test]
fn partial_category_summary_is_truthful() {
    let (entries, _) =
        parse_portable_ini("Scalability.ini", "[ScalabilityGroups]\nsg.TextureQuality=2\n").unwrap();
    let files = vec![PubgConfigFile {
        relative_id: "Scalability.ini".into(),
        sha256: file_hash(&entries),
        entries,
    }];
    let s = summarize(&files);
    assert!(s.graphics > 0);
    assert_eq!(s.audio, 0)
}

#[test]
fn file_hash_is_deterministic() {
    let p = payload();
    assert_eq!(p.files[0].sha256, file_hash(&p.files[0].entries))
}

#[test]
fn recognizes_only_pubg_launch_processes() {
    assert!(is_pubg_process_name("TSLGAME.EXE"));
    assert!(is_pubg_process_name("TslGame_BE.exe"));
    assert!(!is_pubg_process_name("BEService_pubg.exe"));
    assert!(!is_pubg_process_name("steam.exe"));
}

#[test]
fn redacts_nested_device_and_auth_values_without_losing_gameplay() {
    let text = "[/Script/TslGame.TslGameUserSettings]\nTslPersistantData=(MouseSensitiveList=(General=50),AudioOutputDeviceId=\"DEVICE-123\",AuthToken=\"secret\",FpsCameraFov=95)\n";
    let (entries, removed) = parse_portable_ini("GameUserSettings.ini", text).unwrap();
    assert_eq!(removed, 2);
    assert!(entries[0].value.contains("MouseSensitiveList"));
    assert!(entries[0].value.contains("FpsCameraFov=95"));
    assert!(!entries[0].value.contains("DEVICE-123"));
    assert!(!entries[0].value.contains("secret"));
}

#[test]
fn captured_snapshot_passes_validation() {
    assert!(validate_payload(&payload()).is_ok());
}

#[test]
fn validation_errors_name_the_problem() {
    let mut p = payload();
    p.game = "cs2".into();
    assert_eq!(validate_payload(&p).unwrap_err(), "Unsupported or corrupted PUBG snapshot.");
    let mut p = payload();
    p.files.clear();
    assert_eq!(validate_payload(&p).unwrap_err(), "PUBG snapshot has an invalid file count.");
    let mut p = payload();
    p.files[0].sha256 = "00".into();
    assert_eq!(validate_payload(&p).unwrap_err(), "PUBG snapshot integrity check failed.");
    let mut p = payload();
    let copy = p.files[0].clone();
    p.files.push(copy);
    assert_eq!(validate_payload(&p).unwrap_err(), "PUBG snapshot contains an unsafe or duplicate file identifier.");
}

#[test]
fn merge_groups_sections_in_order_and_ends_lines_with_crlf() {
    let saved = vec![
        PubgIniEntry { section: "B".into(), key: "k".into(), operator: "".into(), value: "1".into(), categories: vec![] },
        PubgIniEntry { section: "A".into(), key: "x".into(), operator: "+".into(), value: "2".into(), categories: vec![] },
    ];
    let merged = merge_ini("[b]\nK=old\nkeep=1\n", &saved).unwrap();
    assert_eq!(
        merged,
        "[b]\r\nkeep=1\r\n\r\n; Game Passport portable PUBG settings\r\n[A]\r\n+x=2\r\n[B]\r\nk=1\r\n"
    );
    assert_eq!(merge_ini("a\0b", &saved).unwrap_err(), "Target PUBG config contains a NUL byte.");
}

#[test]
fn merged_file_parses_back_to_the_saved_entries() {
    let p = payload();
    let merged = merge_ini("", &p.files[0].entries).unwrap();
    let (entries, _) = parse_portable_ini("GameUserSettings.ini", &merged).unwrap();
    assert!(entries_multiset_contains(&entries, &p.files[0].entries));
}

#[test]
fn multiset_containment_counts_repeats() {
    let e = PubgIniEntry { section: "S".into(), key: "K".into(), operator: "".into(), value: "1".into(), categories: vec![] };
    let lower = PubgIniEntry { section: "s".into(), key: "k".into(), operator: "".into(), value: "1".into(), categories: vec![] };
    assert!(entries_multiset_contains(&[lower.clone()], &[e.clone()]));
    assert!(!entries_multiset_contains(&[lower], &[e.clone(), e]));
}

#[test]
fn category_details_mark_missing_categories() {
    let c = PubgCategorySummary { gameplay: 3, keybinds: 0, graphics: 2, audio: 1 };
    let d = category_details(&c, &["w".to_string()]);
    assert_eq!(d, vec![
        "Gameplay ✓ (3 values)".to_string(),
        "Keybinds Warning (0 values)".to_string(),
        "Graphics ✓ (2 values)".to_string(),
        "Audio ✓ (1 values)".to_string(),
        "w".to_string(),
    ]);
}

#[test]
fn manifest_lines_give_the_install_folder() {
    assert_eq!(manifest_install_dir(r#"	"installdir"		"PUBG""#), Some("PUBG".to_string()));
    assert_eq!(manifest_install_dir(r#"	" installdir "		"PUBG""#), Some("PUBG".to_string()));
    assert_eq!(manifest_install_dir(r#"	"name"		"PUBG: BATTLEGROUNDS""#), None);
    assert_eq!(manifest_install_dir(r#"	"installdir""#), None);
}

fn payload_of(relative_id: &str, text: &str) -> PubgPayload {
    let (entries, _) = parse_portable_ini(relative_id, text).unwrap();
    let files = vec![PubgConfigFile { relative_id: relative_id.into(), sha256: file_hash(&entries), entries }];
    PubgPayload {
        schema_version: 1,
        captured_at: "2026-01-01T00:00:00Z".into(),
        game: "pubg".into(),
        normalized: normalized(&files),
        captured_categories: summarize(&files),
        files,
        unsupported_categories: vec![],
        warnings: vec![],
    }
}

#[test]
fn captured_nested_secrets_are_redacted_and_still_apply() {
    let text = "[/Script/TslGame.TslGameUserSettings]\nTslPersistantData=(MouseSensitiveList=(General=50),AudioOutputDeviceId=\"DEVICE-123\",AuthToken=\"secret\",FpsCameraFov=95)\n";
    let p = payload_of("GameUserSettings.ini", text);
    assert_eq!(
        p.files[0].entries[0].value,
        "(MouseSensitiveList=(General=50),AudioOutputDeviceId=\"\",AuthToken=\"\",FpsCameraFov=95)"
    );
    assert!(validate_payload(&p).is_ok());
}

#[test]
fn a_nested_secret_value_is_refused_on_apply() {
    let mut p = payload_of(
        "GameUserSettings.ini",
        "[/Script/TslGame.TslGameUserSettings]\nTslPersistantData=(General=50,FpsCameraFov=95)\n",
    );
    p.files[0].entries[0].value = "(General=50,AuthToken=\"secret\")".into();
    p.files[0].sha256 = file_hash(&p.files[0].entries);
    assert_eq!(validate_payload(&p).unwrap_err(), "PUBG snapshot contains unsafe or malformed settings.");
    p.files[0].entries[0].value = "(General=50,AuthToken=\"\")".into();
    p.files[0].sha256 = file_hash(&p.files[0].entries);
    assert!(validate_payload(&p).is_ok());
}
