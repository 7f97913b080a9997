use game_passport::display::{aspect_ratio, backup_before_change, choose_best_mode, choose_primary_index, normalize_modes, restore_target, wide_array_to_string, DisplayMode};

fn mode(width: u32, height: u32, hz: u32, interlaced: bool) -> DisplayMode {
    DisplayMode {
        width,
        height,
        refresh_hz: hz,
        bits_per_pixel: 32,
        interlaced,
    }
}

#[test]
fn chooses_highest_progressive_refresh_for_exact_resolution() {
    let modes = vec![
        mode(1280, 960, 144, false),
        mode(1280, 960, 400, true),
        mode(1280, 960, 360, false),
        mode(1920, 1080, 500, false),
    ];
    assert_eq!(
        choose_best_mode(&modes, 1280, 960),
        Some(mode(1280, 960, 360, false))
    );
}

#[test]
fn returns_none_instead_of_silent_fallback() {
    assert_eq!(
        choose_best_mode(&[mode(1920, 1080, 240, false)], 1280, 960),
        None
    );
}

#[test]
fn handles_duplicate_refresh_rates_deterministically() {
    let mut high_bpp = mode(1280, 960, 240, false);
    high_bpp.bits_per_pixel = 64;
    assert_eq!(
        choose_best_mode(&[mode(1280, 960, 240, false), high_bpp.clone()], 1280, 960),
        Some(high_bpp)
    );
}

#[test]
fn normalizes_aspect_ratio() {
    assert_eq!(aspect_ratio(1280, 960), "4:3");
    assert_eq!(aspect_ratio(1920, 1080), "16:9");
}

#[test]
fn selects_only_the_primary_display_in_multi_monitor_setup() {
    assert_eq!(choose_primary_index(&[false, true, false]), Some(1));
    assert_eq!(choose_primary_index(&[false, false]), Some(0));
    assert_eq!(choose_primary_index(&[]), None);
}

#[test]
fn aspect_ratio_of_a_zero_side_is_unknown() {
    assert_eq!(aspect_ratio(0, 1080), "unknown");
    assert_eq!(aspect_ratio(2560, 1080), "64:27");
    assert_eq!(aspect_ratio(7, 7), "1:1");
}

#[test]
fn interlaced_mode_is_used_only_without_progressive_one() {
    assert_eq!(
        choose_best_mode(&[mode(1280, 960, 400, true)], 1280, 960),
        Some(mode(1280, 960, 400, true))
    );
    let mut low_depth = mode(1280, 960, 500, false);
    low_depth.bits_per_pixel = 16;
    assert_eq!(choose_best_mode(&[low_depth], 1280, 960), None);
    assert_eq!(choose_best_mode(&[], 1280, 960), None);
}

#[test]
fn listed_modes_are_filtered_deduplicated_and_sorted() {
    let mut low_depth = mode(1920, 1080, 60, false);
    low_depth.bits_per_pixel = 16;
    let raw = vec![
        mode(1920, 1080, 144, false),
        mode(1280, 960, 60, false),
        mode(1920, 1080, 60, true),
        mode(1920, 1080, 144, false),
        mode(0, 1080, 60, false),
        mode(1920, 1080, 1, false),
        low_depth,
        mode(1920, 1080, 60, false),
    ];
    let modes = normalize_modes(&raw);
    assert_eq!(
        modes,
        vec![
            mode(1280, 960, 60, false),
            mode(1920, 1080, 60, true),
            mode(1920, 1080, 60, false),
            mode(1920, 1080, 144, false),
        ]
    );
    assert!(normalize_modes(&[]).is_empty());
}

#[test]
fn a_backup_restores_the_mode_it_was_written_with() {
    let before = mode(2560, 1440, 144, false);
    let backup = backup_before_change("\\\\.\\DISPLAY1".to_string(), before, "2026-01-01T00:00:00Z".to_string());
    assert_eq!(backup.schema_version, 1);
    let (device, restored) = restore_target(&backup).unwrap();
    assert_eq!(device, "\\\\.\\DISPLAY1");
    assert_eq!(restored, before);
    let mut newer = backup.clone();
    newer.schema_version = 2;
    assert_eq!(restore_target(&newer).unwrap_err(), "Display backup schema is unsupported.");
}

#[test]
fn wide_names_decode_up_to_the_first_nul() {
    let units: [u16; 10] = [0x0048, 0xD83D, 0xDE00, 0xD800, 0x0041, 0xDC00, 0x00E9, 0, 0x0042, 0x0043];
    assert_eq!(wide_array_to_string(&units), "H\u{1F600}\u{FFFD}A\u{FFFD}\u{E9}");
    assert_eq!(wide_array_to_string(&[0x0041, 0x0042]), "AB");
    assert_eq!(wide_array_to_string(&[0, 0x0041]), "");
}
