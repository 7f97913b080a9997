use game_passport::nvidia::{
    applied_response, apply_failed_response, apply_state, availability_state, backup_from_raw, capture_response, restored_response, check_backup, raw_from_backup, portable_setting_key, scaling_name,
    target_for_executable, target_for_game, validate_payload, BackupSetting, NvidiaBackup,
    ApplyReport, NvidiaPayload, NvidiaSetting, RawSetting, RawSnapshot,
};

fn payload() -> NvidiaPayload {
    NvidiaPayload {
        schema_version: 1,
        captured_at: "2026-01-01T00:00:00Z".into(),
        profile_executable: "cs2.exe".into(),
        settings: vec![NvidiaSetting {
            id: 0x1057EB71,
            key: "power_management_mode".into(),
            value: 1,
        }],
        scaling_mode: "stretched".into(),
        scaling_value: 2,
        scaling_supported: true,
    }
}

#[test]
fn rejects_unknown_setting() {
    let mut value = payload();
    value.settings[0].id = 0xDEADBEEF;
    assert!(validate_payload(&value).is_err());
}

#[test]
fn rejects_duplicate_setting() {
    let mut value = payload();
    value.settings.push(value.settings[0].clone());
    assert!(validate_payload(&value).is_err());
}

#[test]
fn rejects_corrupted_snapshot() {
    let mut value = payload();
    value.schema_version = 99;
    assert!(validate_payload(&value).is_err());
}

#[test]
fn accepts_pubg_executable_but_rejects_arbitrary_executables() {
    let mut value = payload();
    value.profile_executable = "TslGame.exe".into();
    assert!(validate_payload(&value).is_ok());
    value.profile_executable = "malware.exe".into();
    assert!(validate_payload(&value).is_err());
}

#[test]
fn maps_full_screen_scaling_to_stretched() {
    assert_eq!(scaling_name(1), "stretched");
    assert_eq!(scaling_name(2), "stretched");
    assert_eq!(scaling_name(5), "aspect_ratio");
}

#[test]
fn classifies_missing_gpu_or_nvapi_as_unsupported() {
    assert_eq!(availability_state(false, false), "unsupported");
    assert_eq!(availability_state(true, false), "unsupported");
    assert_eq!(availability_state(true, true), "available");
}

#[test]
fn reports_incompatible_driver_settings_as_partial_success() {
    assert_eq!(apply_state(1, 0, true), "warning");
    assert_eq!(apply_state(0, 1, true), "warning");
    assert_eq!(apply_state(0, 0, false), "warning");
    assert_eq!(apply_state(0, 0, true), "success");
}

#[test]
fn targets_are_known_games_only() {
    assert_eq!(target_for_game("pubg").unwrap().executable, "TslGame.exe");
    assert_eq!(target_for_game("dota").err().unwrap(), "Unsupported NVIDIA game profile.");
    assert_eq!(target_for_executable("cs2.exe").unwrap().friendly_name, "Counter-Strike 2");
    assert_eq!(portable_setting_key(0x1057EB71), Some("power_management_mode"));
    assert_eq!(portable_setting_key(0xDEADBEEF), None);
}

#[test]
fn backups_with_unknown_settings_are_refused() {
    let mut b = NvidiaBackup {
        schema_version: 1,
        captured_at: "now".into(),
        profile_executable: "cs2.exe".into(),
        profile_found: true,
        scaling_supported: false,
        scaling_value: 0,
        settings: vec![BackupSetting { id: 0x1057EB71, key: "power_management_mode".into(), value: 1, present: true }],
    };
    assert!(check_backup(&b).is_ok());
    b.settings[0].key = "other".into();
    assert_eq!(check_backup(&b).unwrap_err(), "NVIDIA backup contains an unknown setting.");
    b.profile_executable = "x.exe".into();
    assert_eq!(check_backup(&b).unwrap_err(), "NVIDIA backup contains an unknown executable.");
}

#[test]
fn backup_then_restore_gives_the_snapshot_back() {
    let raw = RawSnapshot {
        schema_version: 1,
        initialized: 1,
        gpu_found: 1,
        driver_version: 59000,
        profile_found: 7,
        profile_created: 0,
        scaling_supported: 1,
        scaling: 3,
        setting_count: 2,
        gpu_name: "GeForce".into(),
        driver_branch: "r590".into(),
        profile_name: "Counter-Strike 2".into(),
        settings: vec![
            RawSetting { id: 0x1057EB71, value: 1, present: 5, key: "power_management_mode".into() },
            RawSetting { id: 0x10835002, value: 0, present: 0, key: "max_frame_rate".into() },
            RawSetting { id: 0x00A879CF, value: 9, present: 1, key: "vertical_sync".into() },
        ],
    };
    let backup = backup_from_raw(&raw, "cs2.exe", "2026-01-01T00:00:00Z".into());
    assert_eq!(backup.settings.len(), 2);
    assert!(backup.profile_found && backup.scaling_supported);
    let restored = raw_from_backup(&backup);
    assert_eq!(restored.profile_found, 1);
    assert_eq!(restored.scaling_supported, 1);
    assert_eq!(restored.scaling, 3);
    assert_eq!(restored.setting_count, 2);
    assert_eq!(restored.settings.len(), 2);
    assert_eq!(restored.settings[0].id, 0x1057EB71);
    assert_eq!(restored.settings[0].present, 1);
    assert_eq!(restored.settings[0].value, 1);
    assert_eq!(restored.settings[0].key, "power_management_mode");
    assert_eq!(restored.settings[1].id, 0x10835002);
    assert_eq!(restored.settings[1].present, 0);
    assert_eq!(restored.settings[1].key, "max_frame_rate");
}

fn snapshot(scaling_supported: u32) -> RawSnapshot {
    RawSnapshot {
        schema_version: 1,
        initialized: 1,
        gpu_found: 1,
        driver_version: 59000,
        profile_found: 1,
        profile_created: 0,
        scaling_supported,
        scaling: 2,
        setting_count: 2,
        gpu_name: "GeForce".into(),
        driver_branch: "".into(),
        profile_name: "Counter-Strike 2".into(),
        settings: vec![
            RawSetting { id: 0x1057EB71, value: 1, present: 1, key: "power_management_mode".into() },
            RawSetting { id: 0x10835002, value: 0, present: 0, key: "max_frame_rate".into() },
        ],
    }
}

#[test]
fn captures_present_settings_and_scaling() {
    let target = target_for_game("cs2").unwrap();
    let r = capture_response(&snapshot(1), target, "now".into());
    assert_eq!(r.state, "success");
    assert_eq!(r.message, "Captured 1 portable NVIDIA settings for Counter-Strike 2.");
    assert_eq!(r.details, vec!["Portable DRS settings read: 1".to_string(), "Captured scaling mode: stretched".to_string()]);
    let p = r.payload.unwrap();
    assert_eq!(p.settings.len(), 1);
    assert_eq!(p.profile_executable, "cs2.exe");
    assert_eq!(p.scaling_mode, "stretched");
    let d = r.diagnostics.unwrap();
    assert_eq!(d.driver_branch, None);
    let r = capture_response(&snapshot(0), target, "now".into());
    assert_eq!(r.state, "warning");
    assert!(r.retryable);
    assert_eq!(r.details[1], "NVIDIA Scaling — Unsupported for the primary display path.");
}

#[test]
fn apply_and_restore_reports() {
    let target = target_for_game("pubg").unwrap();
    let report = ApplyReport {
        settings_applied: 3,
        settings_skipped: 0,
        settings_unsupported: 0,
        profile_found: 1,
        profile_created: 0,
        scaling_requested: 1,
        scaling_applied: 1,
        scaling_message: "ok".into(),
    };
    let r = applied_response(payload(), &snapshot(1), report.clone(), target, "b.json".into());
    assert_eq!(r.state, "success");
    assert_eq!(r.message, "NVIDIA PUBG: BATTLEGROUNDS application profile and scaling were applied.");
    assert_eq!(r.details.len(), 6);
    assert_eq!(r.details[4], "NVIDIA backup: b.json");
    assert_eq!(r.backup_token, Some("b.json".to_string()));
    let skipped = ApplyReport { settings_skipped: 1, ..report.clone() };
    let r = applied_response(payload(), &snapshot(1), skipped, target, "b.json".into());
    assert_eq!(r.state, "warning");
    assert_eq!(r.message, "NVIDIA application profile was applied with unsupported or skipped settings.");
    let r = apply_failed_response("bad".into(), Err("worse".into()), "b.json".into());
    assert_eq!(r.details, vec!["bad".to_string(), "NVIDIA rollback failed: worse".to_string()]);
    let failed_scaling = ApplyReport { scaling_applied: 0, ..report };
    let r = restored_response(failed_scaling, "b.json");
    assert_eq!(r.state, "warning");
    assert!(r.retryable);
    assert_eq!(r.details[0], "Backup used: b.json");
}
