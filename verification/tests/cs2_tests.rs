use game_passport::text::latest_backup;
use game_passport::cs2::{
    add_bytes, capture_report, contains_sensitive_data, decode_and_resolve, quoted_tokens,
    referenced_cfgs, safe_relative_path, sanitize_custom_cfg, sanitize_hardware_config,
    validate_file_name, validate_payload, vdf_library_folder, vdf_value, AutoexecWalk, Cs2ConfigFile, Cs2Payload, WalkStep,
};

#[test]
fn parses_steam_library_path() {
    assert_eq!(
        quoted_tokens(r#"\t\t"path"\t\t"D:\\SteamLibrary""#),
        vec!["path", r#"D:\\SteamLibrary"#]
    );
}

#[test]
fn follows_only_safe_exec_references() {
    let values = referenced_cfgs(b"exec crosshair\nexec \"sub/binds.cfg\"\nsensitivity 1.2\n");
    assert_eq!(values, vec!["crosshair.cfg", "sub/binds.cfg"]);
    assert!(safe_relative_path(&values[1]).is_ok());
    assert!(safe_relative_path("../secret.cfg").is_err());
}

#[test]
fn removes_credentials_and_fixed_refresh_rate() {
    let (custom, removed) = sanitize_custom_cfg(b"sensitivity 1.0\nrcon_password secret\n").unwrap();
    assert_eq!(removed, 1);
    assert_eq!(String::from_utf8(custom).unwrap(), "sensitivity 1.0\n");
    let (video, removed) = sanitize_hardware_config(
        b"\"setting.defaultres\" \"1920\"\n\"setting.refreshrate_numerator\" \"240\"\n",
    )
    .unwrap();
    assert_eq!(removed, 1);
    assert!(String::from_utf8(video).unwrap().contains("defaultres"));
}

#[test]
fn unsafe_paths_are_refused() {
    assert_eq!(safe_relative_path("").unwrap_err().message, "The CS2 profile contains an invalid file name.");
    assert_eq!(safe_relative_path("C:x.cfg").unwrap_err().message, "The CS2 profile contains an unsafe relative path.");
    assert!(safe_relative_path("/abs.cfg").is_err());
    assert!(safe_relative_path("./a.cfg").is_err());
    assert!(safe_relative_path("a/b/c/d/e.cfg").is_err());
    assert_eq!(safe_relative_path("a//b.cfg").unwrap(), "a\\\\b.cfg");
}

#[test]
fn file_names_follow_the_scope_rules() {
    assert!(validate_file_name("userdata", "cs2_video.txt").is_ok());
    assert!(validate_file_name("userdata", "autoexec.cfg").is_ok());
    assert!(validate_file_name("userdata", "sub\\a.cfg").is_err());
    assert!(validate_file_name("install", "sub\\a.cfg").is_ok());
    assert!(validate_file_name("install", "a.txt").is_err());
    assert!(validate_file_name("other", "a.cfg").is_err());
}

#[test]
fn file_names_outside_the_folder_are_refused() {
    let unsafe_path = "The CS2 profile contains an unsafe relative path.";
    assert_eq!(validate_file_name("install", "..\\a.cfg").unwrap_err().message, unsafe_path);
    assert_eq!(validate_file_name("install", "C:\\a.cfg").unwrap_err().message, unsafe_path);
    assert_eq!(validate_file_name("install", "/etc/a.cfg").unwrap_err().message, unsafe_path);
    assert_eq!(validate_file_name("install", "./a.cfg").unwrap_err().message, unsafe_path);
    assert_eq!(
        validate_file_name("install", "a.txt").unwrap_err().message,
        "The CS2 profile contains a file type that Game Passport will not write."
    );
}

#[test]
fn sensitive_and_invalid_text_is_detected() {
    assert!(contains_sensitive_data(b"connect 1.2.3.4\n"));
    assert!(contains_sensitive_data(&[0xFF, 0xFE]));
    assert!(!contains_sensitive_data(b"bind space +jump\n"));
    assert!(sanitize_custom_cfg(&[0xFF]).is_err());
}

#[test]
fn exec_arguments_are_normalized() {
    let refs = referenced_cfgs(b"EXEC 'a\\b' ; execifexists c.CFG // exec d\nexec\n");
    assert_eq!(refs, vec!["a/b.cfg", "c.CFG"]);
}

fn file(scope: &str, relative: &str, bytes: &[u8]) -> Cs2ConfigFile {
    let mut files = Vec::new();
    add_bytes(&mut files, scope, relative, bytes.to_vec()).unwrap();
    files.pop().unwrap()
}

fn payload_of(files: Vec<Cs2ConfigFile>) -> Cs2Payload {
    let total = files.iter().map(|f| f.size).sum();
    Cs2Payload {
        schema_version: 1,
        captured_at: "now".into(),
        files,
        total_bytes: total,
        core_files_found: vec![],
        optional_files_missing: vec![],
    }
}

#[test]
fn captured_files_decode_back_to_their_bytes() {
    let f1 = file("userdata", "cs2_user_convars_0_slot0.vcfg", b"sensitivity 1\n");
    let f2 = file("userdata", "cs2_user_keys_0_slot0.vcfg", b"bind a b\n");
    let f3 = file("install", "sub/x.cfg", b"exec y\n");
    let p = payload_of(vec![f1, f2, f3]);
    assert!(validate_payload(&p).is_ok());
    let d = decode_and_resolve(&p, "C:\\U", Some("D:\\G\\cfg\\")).unwrap();
    assert_eq!(d[0].content, b"sensitivity 1\n".to_vec());
    assert_eq!(d[0].target, "C:\\U\\cs2_user_convars_0_slot0.vcfg");
    assert_eq!(d[2].target, "D:\\G\\cfg\\sub\\x.cfg");
}

#[test]
fn decode_refuses_tampering_and_duplicates() {
    let f1 = file("userdata", "cs2_user_convars_0_slot0.vcfg", b"sensitivity 1\n");
    let mut bad = f1.clone();
    bad.sha256 = "00".into();
    let p = payload_of(vec![bad]);
    assert_eq!(decode_and_resolve(&p, "C:\\U", None).unwrap_err().message, "The saved CS2 profile failed its integrity check. Nothing was changed.");
    let dup = payload_of(vec![f1.clone(), f1.clone()]);
    assert_eq!(decode_and_resolve(&dup, "C:\\U", None).unwrap_err().message, "The saved CS2 profile contains duplicate files.");
    let install = payload_of(vec![file("install", "x.cfg", b"a\n")]);
    let e = decode_and_resolve(&install, "C:\\U", None).unwrap_err();
    assert_eq!(e.message, "CS2 installation folder is unavailable.");
    assert!(e.retryable);
    let mut total = payload_of(vec![f1]);
    total.total_bytes += 1;
    assert_eq!(decode_and_resolve(&total, "C:\\U", None).unwrap_err().message, "The saved CS2 profile failed its total-size validation.");
}

#[test]
fn profile_frame_is_checked() {
    let p = payload_of(vec![file("userdata", "cs2_user_convars_0_slot0.vcfg", b"a\n")]);
    assert_eq!(validate_payload(&p).unwrap_err().message, "The saved CS2 profile is missing cs2_user_keys_0_slot0.vcfg.");
    let mut q = p.clone();
    q.schema_version = 2;
    assert_eq!(validate_payload(&q).unwrap_err().message, "This CS2 profile format is not supported by this app version.");
}

#[test]
fn capture_report_counts_files() {
    let files = vec![
        file("userdata", "cs2_user_convars_0_slot0.vcfg", b"a\n"),
        file("userdata", "cs2_user_keys_0_slot0.vcfg", b"b\n"),
        file("userdata", "autoexec.cfg", b"c\n"),
    ];
    let core = vec!["cs2_user_convars_0_slot0.vcfg".to_string(), "cs2_user_keys_0_slot0.vcfg".to_string()];
    let r = capture_report(files, vec![], core, vec!["cs2_video.txt".into()], "now".into()).unwrap();
    assert_eq!(r.state, "warning");
    assert_eq!(r.message, "Сохранено файлов настроек CS2: 3 (есть пояснения).");
    assert!(r.details.contains(&"Сохранено дополнительных CFG-файлов: 1.".to_string()));
    assert_eq!(r.details.last().unwrap(), "Необязательный файл не найден: cs2_video.txt");
    assert_eq!(r.payload.unwrap().total_bytes, 6);
}

#[test]
fn autoexec_walk_visits_each_file_once() {
    let mut walk = AutoexecWalk::new();
    match walk.next() {
        WalkStep::Visit(v) => assert_eq!(v, "autoexec.cfg"),
        _ => panic!("visit expected"),
    }
    walk.follow(b"exec a\nexec ../b\nexec autoexec\n");
    assert_eq!(walk.queue, vec!["a.cfg", "autoexec.cfg"]);
    assert!(matches!(walk.next(), WalkStep::Visit(_)));
    assert!(matches!(walk.next(), WalkStep::Skip));
    assert!(matches!(walk.next(), WalkStep::Done));
}

#[test]
fn vdf_values_are_read_by_key() {
    assert_eq!(vdf_value(r#"	"installdir"		"Counter-Strike Global Offensive""#, "installdir"), Some("Counter-Strike Global Offensive".to_string()));
    assert_eq!(vdf_value(r#"	"name"		"Counter-Strike 2""#, "installdir"), None);
    assert_eq!(vdf_value(r#""installdir""#, "installdir"), None);
    assert_eq!(vdf_library_folder(r#"		"path"		"D:\\SteamLibrary""#), Some(r"D:\SteamLibrary".to_string()));
    assert_eq!(vdf_library_folder(r#"		"label"		"""#), None);
}

#[test]
fn userdata_cfg_names_and_core_files() {
    assert!(game_passport::cs2::is_cfg_file_name("practice.CFG"));
    assert!(!game_passport::cs2::is_cfg_file_name("practice.cfg.bak"));
    assert_eq!(
        game_passport::cs2::core_list(),
        ["cs2_user_convars_0_slot0.vcfg", "cs2_user_keys_0_slot0.vcfg", "cs2_machine_convars.vcfg", "cs2_video.txt"]
    );
}

#[test]
fn sensitive_lines_are_found_after_trimming_and_lowering() {
    assert!(game_passport::cs2::sensitive_line("  SetInfo name x"));
    assert!(game_passport::cs2::sensitive_line("connect 1.2.3.4"));
    assert!(!game_passport::cs2::sensitive_line("bind w +forward"));
    assert!(!game_passport::cs2::sensitive_line("connected_players 1"));
}

#[test]
fn sanitized_cfg_passes_the_sensitive_data_check() {
    let raw = b"sensitivity 2\r\r\nsetinfo name x\r\nconnect 10.0.0.1\nbind w +forward\r";
    assert!(contains_sensitive_data(raw));
    let (clean, removed) = sanitize_custom_cfg(raw).unwrap();
    assert_eq!(removed, 2);
    assert!(!contains_sensitive_data(&clean));
    assert_eq!(clean, b"sensitivity 2\r\nbind w +forward\r\n".to_vec());
}

#[test]
fn latest_backup_is_the_last_time_stamp() {
    let names = vec!["20260102-101010".to_string(), "20260315-080000".to_string(), "20251231-235959".to_string()];
    assert_eq!(latest_backup(&names), Some(1));
    assert_eq!(latest_backup(&[]), None);
    assert_eq!(latest_backup(&["a".to_string(), "ab".to_string()]), Some(1));
}
