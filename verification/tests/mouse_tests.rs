use game_passport::mouse::{
    apply_outcome_state, classify_vid_pid, hidpp_answer, hidpp_dpi_from, hidpp_dpi_values_from,
    hidpp_feature_index, hidpp_rates_from, hidpp_report, interval_to_rate, normalize_desired_dpi,
    normalize_polling_rate, physical_key, razer_check, razer_polling_code, razer_polling_from_code,
    razer_report, rate_to_interval, select_unique_controllable, short_hash, summarize_dpi_values,
    validate_backup_values, validate_payload, valid_backup_token, verify_readback, DpiCapabilities,
    HidppAnswer, MouseAdapterKind, MousePayload, SelectionFixture,
};
use game_passport::mouse::{
    apply_step, backup_outcome, logitech_probe_indices, logitech_target_key, restore_step, ApplyAction, ApplyEvent,
    ApplyPlan, ProbeLog, RestoreAction, RestoreEvent,
};

#[test]
fn exact_dpi_is_preserved() {
    let caps = DpiCapabilities {
        minimum: 100,
        maximum: 3200,
        step: 50,
        values: vec![],
    };
    assert_eq!(normalize_desired_dpi(800, &caps), Some(800));
}

#[test]
fn dpi_rounds_to_nearest_and_ties_go_lower() {
    let caps = DpiCapabilities {
        minimum: 100,
        maximum: 3200,
        step: 50,
        values: vec![],
    };
    assert_eq!(normalize_desired_dpi(805, &caps), Some(800));
    assert_eq!(normalize_desired_dpi(825, &caps), Some(800));
    assert_eq!(normalize_desired_dpi(826, &caps), Some(850));
}

#[test]
fn dpi_is_clamped_to_hardware_range() {
    let caps = DpiCapabilities {
        minimum: 200,
        maximum: 1600,
        step: 100,
        values: vec![],
    };
    assert_eq!(normalize_desired_dpi(50, &caps), Some(200));
    assert_eq!(normalize_desired_dpi(5000, &caps), Some(1600));
}

#[test]
fn discrete_dpi_capabilities_are_used() {
    let caps = DpiCapabilities {
        minimum: 400,
        maximum: 1600,
        step: 0,
        values: vec![400, 800, 1600],
    };
    assert_eq!(normalize_desired_dpi(1000, &caps), Some(800));
}

#[test]
fn polling_falls_back_to_highest_not_above_request() {
    assert_eq!(normalize_polling_rate(2000, &[125, 500, 1000]), Some(1000));
    assert_eq!(normalize_polling_rate(4000, &[1000, 2000, 4000]), Some(4000));
    assert_eq!(normalize_polling_rate(100, &[125, 500]), Some(125));
}

#[test]
fn selection_rejects_multiple_physical_mice_but_deduplicates_interfaces() {
    let duplicate = vec![
        SelectionFixture {
            instance_id: "a".into(),
            controllable: true,
        },
        SelectionFixture {
            instance_id: "a".into(),
            controllable: true,
        },
    ];
    assert_eq!(select_unique_controllable(&duplicate), Ok(Some(0)));
    let multiple = vec![
        SelectionFixture {
            instance_id: "a".into(),
            controllable: true,
        },
        SelectionFixture {
            instance_id: "b".into(),
            controllable: true,
        },
    ];
    assert!(select_unique_controllable(&multiple).is_err());
}

#[test]
fn unknown_devices_are_not_selected() {
    assert_eq!(
        select_unique_controllable(&[SelectionFixture {
            instance_id: "unknown".into(),
            controllable: false
        }]),
        Ok(None)
    );
}

#[test]
fn vid_pid_detection_selects_only_implemented_families() {
    assert_eq!(classify_vid_pid(0x046D, 0xC548), MouseAdapterKind::LogitechProbe);
    assert_eq!(classify_vid_pid(0x1532, 0x00C1), MouseAdapterKind::Razer);
    assert_eq!(classify_vid_pid(0x1532, 0xFFFF), MouseAdapterKind::Unsupported);
    assert_eq!(classify_vid_pid(0x373E, 0x001E), MouseAdapterKind::LamzuDetectionOnly);
    assert_eq!(classify_vid_pid(0x1234, 0x5678), MouseAdapterKind::Unsupported);
}

#[test]
fn unsupported_and_partial_results_never_claim_success() {
    assert_eq!(apply_outcome_state(false, true, false, false), "warning");
    assert_eq!(apply_outcome_state(true, true, false, false), "warning");
    assert_eq!(apply_outcome_state(true, true, true, true), "warning");
    assert_eq!(apply_outcome_state(true, true, true, false), "success");
}

#[test]
fn corrupted_backup_values_are_rejected() {
    assert!(validate_backup_values(1, 800, Some(1000)));
    assert!(!validate_backup_values(2, 800, Some(1000)));
    assert!(!validate_backup_values(1, 0, Some(1000)));
    assert!(!validate_backup_values(1, 800, Some(16_000)));
}

#[test]
fn corrupted_snapshot_is_rejected() {
    let invalid = MousePayload {
        schema_version: 99,
        captured_at: "now".into(),
        dpi: 800,
        polling_rate_hz: Some(1000),
    };
    assert!(validate_payload(&invalid).is_err());
    let invalid_rate = MousePayload {
        schema_version: 1,
        captured_at: "now".into(),
        dpi: 800,
        polling_rate_hz: Some(16_000),
    };
    assert!(validate_payload(&invalid_rate).is_err());
}

#[derive(Clone)]
struct FixtureMouse {
    dpi: u32,
    polling: Option<u32>,
}

#[derive(Clone, PartialEq, Eq, Debug)]
struct FixtureBackup {
    dpi: u32,
    polling: Option<u32>,
}

fn fixture_backup(mouse: &FixtureMouse) -> FixtureBackup {
    FixtureBackup {
        dpi: mouse.dpi,
        polling: mouse.polling,
    }
}

fn fixture_restore(mouse: &mut FixtureMouse, backup: &FixtureBackup) {
    mouse.dpi = backup.dpi;
    mouse.polling = backup.polling;
}

#[test]
fn backup_fixture_captures_both_readable_values() {
    let mouse = FixtureMouse {
        dpi: 400,
        polling: Some(1000),
    };
    assert_eq!(
        fixture_backup(&mouse),
        FixtureBackup {
            dpi: 400,
            polling: Some(1000)
        }
    );
}

#[test]
fn restore_fixture_returns_pre_apply_values() {
    let mut mouse = FixtureMouse {
        dpi: 400,
        polling: Some(1000),
    };
    let backup = fixture_backup(&mouse);
    mouse.dpi = 800;
    mouse.polling = Some(2000);
    fixture_restore(&mut mouse, &backup);
    assert_eq!(mouse.dpi, 400);
    assert_eq!(mouse.polling, Some(1000));
}

#[test]
fn mouse_payload_errors_name_the_problem() {
    let dpi = MousePayload { schema_version: 1, captured_at: "now".into(), dpi: 10, polling_rate_hz: None };
    assert_eq!(validate_payload(&dpi).unwrap_err(), "Mouse snapshot contains an unsafe DPI value.");
    let ok = MousePayload { schema_version: 1, captured_at: "now".into(), dpi: 800, polling_rate_hz: None };
    assert!(validate_payload(&ok).is_ok());
}

#[test]
fn hidpp_intervals_round_trip() {
    for rate in [1000u32, 500, 250, 125] {
        assert_eq!(interval_to_rate(rate_to_interval(rate).unwrap()), Ok(rate));
    }
    assert_eq!(rate_to_interval(2000).unwrap_err(), "2000 Hz is not represented by HID++ 0x8060.");
    assert_eq!(interval_to_rate(3).unwrap_err(), "Unknown HID++ report interval 3.");
}

#[test]
fn razer_polling_codes_round_trip() {
    for rate in [125u32, 250, 500, 1000, 2000, 4000, 8000] {
        assert_eq!(razer_polling_from_code(razer_polling_code(rate, true).unwrap(), true), Ok(rate));
    }
    assert_eq!(razer_polling_code(250, false).unwrap_err(), "Unsupported legacy Razer polling rate 250.");
    assert_eq!(razer_polling_from_code(0x80, true).unwrap_err(), "Unknown Razer polling code 0x80.");
}

#[test]
fn hidpp_request_layout() {
    let r = hidpp_report(0xFF, 0x05, 2, &[0, 3, 0x20]);
    assert_eq!(r.len(), 20);
    assert_eq!(&r[..7], &[0x11, 0xFF, 0x05, 0x2A, 0, 3, 0x20]);
    assert!(r[7..].iter().all(|b| *b == 0));
}

#[test]
fn hidpp_answers_are_classified() {
    let mut answer = [0u8; 64];
    answer[0] = 0x11;
    answer[1] = 1;
    answer[2] = 5;
    answer[3] = 0x2A;
    match hidpp_answer(1, 5, 0x2A, &answer, 7) {
        HidppAnswer::Reply(v) => assert_eq!(v.len(), 7),
        _ => panic!("reply expected"),
    }
    answer[0] = 0x8F;
    answer[4] = 0x0B;
    match hidpp_answer(1, 5, 0x2A, &answer, 7) {
        HidppAnswer::DeviceError(e) => assert_eq!(e, "HID++ device error 0x0B."),
        _ => panic!("error expected"),
    }
    assert!(matches!(hidpp_answer(1, 5, 0x2A, &answer, 0), HidppAnswer::Skip));
}

#[test]
fn hidpp_replies_are_decoded() {
    assert_eq!(hidpp_feature_index(0x2201, &[0x11, 0xFF, 0, 0x0A, 7]), Ok(7));
    assert_eq!(hidpp_feature_index(0x2201, &[0x11, 0xFF, 0, 0x0A, 0]).unwrap_err(), "HID++ feature 0x2201 is unavailable.");
    assert_eq!(hidpp_dpi_from(&[0, 0, 0, 0, 0, 0x03, 0x20]), Ok(800));
    assert!(hidpp_dpi_from(&[0, 0, 0]).is_err());
    assert_eq!(hidpp_rates_from(&[0, 0, 0, 0, 0x0F]), Ok(vec![1000, 500, 250, 125]));
}

#[test]
fn hidpp_dpi_lists_are_sorted_and_stepped() {
    let listed = [0u8, 0, 0, 0, 0x03, 0x20, 0x01, 0x90, 0x03, 0x20, 0, 0];
    assert_eq!(hidpp_dpi_values_from(&listed), Ok(vec![400, 800]));
    let stepped = [0u8, 0, 0, 0, 0x00, 0x64, 0xE0, 0x64, 0x01, 0x90, 0, 0];
    assert_eq!(hidpp_dpi_values_from(&stepped), Ok(vec![100, 200, 300, 400]));
    assert!(hidpp_dpi_values_from(&[0, 0, 0, 0, 0, 0]).is_err());
    assert_eq!(summarize_dpi_values(&[100, 200, 400]), (100, 400, 100));
}

#[test]
fn razer_reports_carry_a_checksum() {
    let r = razer_report(0x04, 0x85, &[1, 0, 0]);
    assert_eq!(r.len(), 90);
    assert_eq!(r[1], 0x1F);
    assert_eq!(r[5], 3);
    let crc = r[2..88].iter().fold(0u8, |a, b| a ^ b);
    assert_eq!(r[88], crc);
    let mut answer = r.clone();
    answer[0] = 0x02;
    assert_eq!(razer_check(&answer, 90, 0x04, 0x85), Ok(()));
    assert_eq!(razer_check(&answer, 10, 0x04, 0x85).unwrap_err(), "Razer feature response was truncated.");
    answer[88] ^= 1;
    assert_eq!(razer_check(&answer, 90, 0x04, 0x85).unwrap_err(), "Razer feature response failed CRC validation.");
}

#[test]
fn physical_keys_drop_interface_parts() {
    assert_eq!(
        physical_key("\\\\?\\HID#VID_046D&PID_C539&MI_02&Col01#8&2c3&0&0000#{4d1e55b2-f16f}"),
        "\\\\?\\hid#vid_046d&pid_c539#8&2c3&0&0000"
    );
    assert_eq!(short_hash("abc").len(), 16);
    assert_eq!(short_hash("abc"), "ba7816bf8f01cfea");
}

#[test]
fn readback_verification_messages() {
    assert_eq!(verify_readback(800, Some(1000), 800, Some(1000)), Ok(()));
    assert_eq!(verify_readback(800, None, 400, None).unwrap_err(), "DPI readback mismatch: expected 800, got 400.");
    assert_eq!(verify_readback(800, Some(1000), 800, None).unwrap_err(), "Polling readback mismatch: expected 1000, got None.");
}

#[test]
fn backup_tokens_are_plain_file_names() {
    assert!(valid_backup_token("mouse-20260101T000000000Z.json"));
    assert!(!valid_backup_token("mouse-../x.json"));
    assert!(!valid_backup_token("other.json"));
}

#[test]
fn logitech_probing_order_and_target_keys() {
    assert_eq!(logitech_probe_indices(), vec![0xFF, 1, 2, 3, 4, 5, 6, 0]);
    assert_eq!(logitech_target_key("usb:abc", 255), "usb:abc:255");
    assert_eq!(logitech_target_key("usb:abc", 0), "usb:abc:0");
}

#[test]
fn probe_log_keeps_each_target_once_and_caps_errors() {
    let mut log = ProbeLog::new();
    assert!(log.keep_target("usb:abc:1".to_string()));
    assert!(!log.keep_target("usb:abc:1".to_string()));
    assert!(log.keep_target("usb:abc:2".to_string()));
    assert_eq!(log.target_keys, vec!["usb:abc:1".to_string(), "usb:abc:2".to_string()]);
    for n in 0..20 {
        log.record_error(format!("error {n}"));
    }
    assert_eq!(log.probe_errors.len(), 12);
    assert_eq!(log.probe_errors[11], "error 11");
}

#[test]
fn backup_outcome_reports_the_backup() {
    let (token, line) = backup_outcome(Some(Ok("mouse-1.json".to_string())));
    assert_eq!(token.as_deref(), Some("mouse-1.json"));
    assert_eq!(line.as_deref(), Some("Local pre-Game Passport backup saved."));
    let (token, line) = backup_outcome(Some(Err("disk full".to_string())));
    assert!(token.is_none());
    assert_eq!(line.as_deref(), Some("Backup failed: disk full"));
    let (token, line) = backup_outcome(None);
    assert!(token.is_none() && line.is_none());
}

#[test]
fn apply_steps_follow_the_hardware_answers() {
    let mut plan = ApplyPlan { dpi: 800, polling: Some(1000), warnings: vec![] };
    assert!(matches!(apply_step(&mut plan, ApplyEvent::DpiWritten(Ok(()))), ApplyAction::WritePolling(1000)));
    assert!(matches!(
        apply_step(&mut plan, ApplyEvent::PollingWritten(Err("busy".to_string()))),
        ApplyAction::ReadToConfirm
    ));
    assert_eq!(plan.warnings, vec!["Polling-rate write failed: busy".to_string()]);
    assert!(matches!(apply_step(&mut plan, ApplyEvent::Confirmed(Ok((800, Some(500))))), ApplyAction::ReadToVerify));
    match apply_step(&mut plan, ApplyEvent::Confirmed(Ok((1600, None)))) {
        ApplyAction::Manual(m) => assert_eq!(m, "The DPI change could not be verified by hardware readback."),
        _ => panic!("expected manual mode"),
    }
    assert!(matches!(apply_step(&mut plan, ApplyEvent::Verified(Ok((800, Some(500))))), ApplyAction::Finish(800, Some(500))));
    match apply_step(&mut plan, ApplyEvent::DpiWritten(Err("stall".to_string()))) {
        ApplyAction::Manual(m) => assert_eq!(m, "The mouse rejected the DPI change."),
        _ => panic!("expected manual mode"),
    }
    let mut no_rate = ApplyPlan { dpi: 800, polling: None, warnings: vec![] };
    assert!(matches!(apply_step(&mut no_rate, ApplyEvent::DpiWritten(Ok(()))), ApplyAction::ReadToConfirm));
}

#[test]
fn restore_steps_only_touch_the_backed_up_mouse() {
    let id = "HID\\VID_046D&PID_C08B";
    assert!(matches!(
        restore_step(id, 800, Some(1000), RestoreEvent::Selected(Ok(Some(id.to_string())))),
        RestoreAction::WriteDpi(800)
    ));
    match restore_step(id, 800, Some(1000), RestoreEvent::Selected(Ok(Some("other".to_string())))) {
        RestoreAction::Manual(m) => {
            assert_eq!(m, "The backed-up physical mouse is not currently selected; restore was not attempted.")
        }
        _ => panic!("expected manual mode"),
    }
    match restore_step(id, 800, None, RestoreEvent::Selected(Ok(None))) {
        RestoreAction::Manual(m) => assert_eq!(m, "The backed-up mouse is not connected."),
        _ => panic!("expected manual mode"),
    }
    assert!(matches!(restore_step(id, 800, Some(1000), RestoreEvent::DpiWritten(Ok(()))), RestoreAction::WritePolling(1000)));
    assert!(matches!(restore_step(id, 800, None, RestoreEvent::DpiWritten(Ok(()))), RestoreAction::ReadSettings));
    match restore_step(id, 800, None, RestoreEvent::DpiWritten(Err("stall".to_string()))) {
        RestoreAction::Manual(m) => assert_eq!(m, "Restore DPI write failed: stall"),
        _ => panic!("expected manual mode"),
    }
    match restore_step(id, 800, Some(1000), RestoreEvent::PollingWritten(Err("busy".to_string()))) {
        RestoreAction::Manual(m) => assert_eq!(m, "Restore polling-rate write failed: busy"),
        _ => panic!("expected manual mode"),
    }
    assert!(matches!(
        restore_step(id, 800, Some(1000), RestoreEvent::ReadBack(Ok((800, Some(1000))))),
        RestoreAction::Finish(800, Some(1000))
    ));
    match restore_step(id, 800, None, RestoreEvent::ReadBack(Err("gone".to_string()))) {
        RestoreAction::Manual(m) => assert_eq!(m, "Restore readback failed: gone"),
        _ => panic!("expected manual mode"),
    }
}
