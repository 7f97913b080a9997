use vstd::prelude::*;

use crate::text::{chars_of, compose, decimal, decimal_chars, extend_chars, hex_chars, hex_digits, push_str_chars, str_eq, string_of};
use crate::pubg::strings_view;

verus! {

pub const MAX_SETTINGS: usize = 32;

/// The public driver-setting ids that a profile may carry, with their names.
pub open spec fn portable_key(id: u32) -> Option<Seq<char>> {
    if id == 0x1057EB71 {
        Some("power_management_mode"@)
    } else if id == 0x10835002 {
        Some("max_frame_rate"@)
    } else if id == 0x00A879CF {
        Some("vertical_sync"@)
    } else if id == 0x00CE2691 {
        Some("texture_filtering_quality"@)
    } else if id == 0x00198FFF {
        Some("shader_cache"@)
    } else if id == 0x00AC8497 {
        Some("shader_cache_size"@)
    } else if id == 0x10D2BB16 {
        Some("anisotropic_filtering_mode"@)
    } else if id == 0x101E61A9 {
        Some("anisotropic_filtering_level"@)
    } else if id == 0x00E73211 {
        Some("anisotropic_sample_optimization"@)
    } else if id == 0x0084CD70 {
        Some("anisotropic_filter_optimization"@)
    } else if id == 0x002ECAF2 {
        Some("trilinear_optimization"@)
    } else if id == 0x0019BB68 {
        Some("negative_lod_bias"@)
    } else if id == 0x007BA09E {
        Some("maximum_pre_rendered_frames"@)
    } else if id == 0x1074C972 {
        Some("fxaa"@)
    } else if id == 0x0098C1AC {
        Some("mfaa"@)
    } else if id == 0x0064B541 {
        Some("preferred_refresh_rate"@)
    } else {
        None
    }
}

/// The name of a portable driver setting id, if it is one.
pub fn portable_setting_key(id: u32) -> (r: Option<&'static str>)
    ensures
        r is None <==> portable_key(id) is None,
        r matches Some(k) ==> portable_key(id) == Some(k@),
{
    if id == 0x1057EB71 {
        Some("power_management_mode")
    } else if id == 0x10835002 {
        Some("max_frame_rate")
    } else if id == 0x00A879CF {
        Some("vertical_sync")
    } else if id == 0x00CE2691 {
        Some("texture_filtering_quality")
    } else if id == 0x00198FFF {
        Some("shader_cache")
    } else if id == 0x00AC8497 {
        Some("shader_cache_size")
    } else if id == 0x10D2BB16 {
        Some("anisotropic_filtering_mode")
    } else if id == 0x101E61A9 {
        Some("anisotropic_filtering_level")
    } else if id == 0x00E73211 {
        Some("anisotropic_sample_optimization")
    } else if id == 0x0084CD70 {
        Some("anisotropic_filter_optimization")
    } else if id == 0x002ECAF2 {
        Some("trilinear_optimization")
    } else if id == 0x0019BB68 {
        Some("negative_lod_bias")
    } else if id == 0x007BA09E {
        Some("maximum_pre_rendered_frames")
    } else if id == 0x1074C972 {
        Some("fxaa")
    } else if id == 0x0098C1AC {
        Some("mfaa")
    } else if id == 0x0064B541 {
        Some("preferred_refresh_rate")
    } else {
        None
    }
}

/// Which game's driver profile to read.
#[derive(Debug, Clone)]
pub struct NvidiaCaptureRequest {
    pub game: String,
}

/// The driver profile of one supported game.
#[derive(Clone, Copy)]
pub struct NvidiaTarget {
    pub executable: &'static str,
    pub profile_name: &'static str,
    pub friendly_name: &'static str,
}

/// The profile target of a game id, as (executable, profile name, friendly name).
pub open spec fn game_target(game: Seq<char>) -> Option<(Seq<char>, Seq<char>, Seq<char>)> {
    if game == "cs2"@ {
        Some(("cs2.exe"@, "Game Passport - Counter-Strike 2"@, "Counter-Strike 2"@))
    } else if game == "pubg"@ {
        Some(("TslGame.exe"@, "Game Passport - PUBG BATTLEGROUNDS"@, "PUBG: BATTLEGROUNDS"@))
    } else {
        None
    }
}

/// The game id whose profile targets an executable.
pub open spec fn executable_game(executable: Seq<char>) -> Option<Seq<char>> {
    if executable == "cs2.exe"@ {
        Some("cs2"@)
    } else if executable == "TslGame.exe"@ {
        Some("pubg"@)
    } else {
        None
    }
}

/// The view of a target as (executable, profile name, friendly name).
pub open spec fn target_view(t: NvidiaTarget) -> (Seq<char>, Seq<char>, Seq<char>) {
    (t.executable@, t.profile_name@, t.friendly_name@)
}

/// The driver profile of a game id ("cs2" or "pubg").
pub fn target_for_game(game: &str) -> (r: Result<NvidiaTarget, String>)
    ensures
        r is Ok <==> game_target(game@) is Some,
        r matches Ok(t) ==> game_target(game@) == Some(target_view(t)),
        r matches Err(e) ==> e@ == "Unsupported NVIDIA game profile."@,
{
    if str_eq(game, "cs2") {
        Ok(NvidiaTarget {
            executable: "cs2.exe",
            profile_name: "Game Passport - Counter-Strike 2",
            friendly_name: "Counter-Strike 2",
        })
    } else if str_eq(game, "pubg") {
        Ok(NvidiaTarget {
            executable: "TslGame.exe",
            profile_name: "Game Passport - PUBG BATTLEGROUNDS",
            friendly_name: "PUBG: BATTLEGROUNDS",
        })
    } else {
        Err(String::from_str("Unsupported NVIDIA game profile."))
    }
}

/// The driver profile that a snapshot's executable belongs to.
pub fn target_for_executable(executable: &str) -> (r: Result<NvidiaTarget, String>)
    ensures
        r is Ok <==> executable_game(executable@) is Some,
        r matches Ok(t) ==> game_target(executable_game(executable@)->0) == Some(target_view(t)),
        r matches Err(e) ==> e@ == "Unsupported NVIDIA executable in snapshot."@,
{
    if str_eq(executable, "cs2.exe") {
        target_for_game("cs2")
    } else if str_eq(executable, "TslGame.exe") {
        target_for_game("pubg")
    } else {
        Err(String::from_str("Unsupported NVIDIA executable in snapshot."))
    }
}

/// One driver setting override.
#[derive(Debug, Clone)]
pub struct NvidiaSetting {
    pub id: u32,
    pub key: String,
    pub value: u32,
}

/// The portable NVIDIA profile stored in a profile.
#[derive(Debug, Clone)]
pub struct NvidiaPayload {
    pub schema_version: u32,
    pub captured_at: String,
    pub profile_executable: String,
    pub settings: Vec<NvidiaSetting>,
    pub scaling_mode: String,
    pub scaling_value: u32,
    pub scaling_supported: bool,
}

/// What was learnt about the GPU, the driver and the game profile.
#[derive(Debug, Clone)]
pub struct NvidiaDiagnostics {
    pub gpu_detected: bool,
    pub gpu_name: Option<String>,
    pub driver_available: bool,
    pub driver_version: Option<u32>,
    pub driver_branch: Option<String>,
    pub nvapi_initialized: bool,
    pub cs2_profile_found: bool,
    pub cs2_profile_created: bool,
    pub profile_name: Option<String>,
    pub settings_read: usize,
    pub settings_applied: usize,
    pub settings_skipped: usize,
    pub settings_unsupported: usize,
    pub scaling_supported: bool,
    pub scaling_mode: Option<String>,
    pub scaling_result: Option<String>,
}

/// The answer of an NVIDIA command.
#[derive(Debug)]
pub struct NvidiaCommandResponse {
    pub state: String,
    pub message: String,
    pub details: Vec<String>,
    pub retryable: bool,
    pub payload: Option<NvidiaPayload>,
    pub diagnostics: Option<NvidiaDiagnostics>,
    pub backup_token: Option<String>,
}

impl NvidiaCommandResponse {
    /// An "unsupported" answer carrying `message`.
    pub fn unsupported(message: &str) -> (r: Self)
        ensures
            r.state@ == "unsupported"@,
            r.message@ == message@,
            r.details@.len() == 0,
            !r.retryable,
            r.payload is None,
            r.diagnostics is None,
            r.backup_token is None,
    {
        NvidiaCommandResponse {
            state: String::from_str("unsupported"),
            message: String::from_str(message),
            details: Vec::new(),
            retryable: false,
            payload: None,
            diagnostics: None,
            backup_token: None,
        }
    }
}

/// An error answer carrying `message`.
pub fn error_response(message: String, retryable: bool) -> (r: NvidiaCommandResponse)
    ensures
        r.state@ == "error"@,
        r.message == message,
        r.details@.len() == 0,
        r.retryable == retryable,
        r.payload is None,
        r.diagnostics is None,
        r.backup_token is None,
{
    NvidiaCommandResponse {
        state: String::from_str("error"),
        message,
        details: Vec::new(),
        retryable,
        payload: None,
        diagnostics: None,
        backup_token: None,
    }
}

/// The name of an NV_SCALING value.
pub open spec fn spec_scaling_name(value: u32) -> Seq<char> {
    if value == 1 || value == 2 {
        "stretched"@
    } else if value == 3 || value == 7 {
        "centered"@
    } else if value == 5 || value == 6 {
        "aspect_ratio"@
    } else if value == 8 {
        "integer_aspect"@
    } else if value == 0 {
        "driver_default"@
    } else {
        "unknown"@
    }
}

/// Names an NV_SCALING value: full-screen GPU scaling is "stretched".
pub fn scaling_name(value: u32) -> (s: &'static str)
    ensures
        s@ == spec_scaling_name(value),
{
    if value == 1 || value == 2 {
        "stretched"
    } else if value == 3 || value == 7 {
        "centered"
    } else if value == 5 || value == 6 {
        "aspect_ratio"
    } else if value == 8 {
        "integer_aspect"
    } else if value == 0 {
        "driver_default"
    } else {
        "unknown"
    }
}

/// "available" only when NVAPI initialised and a GPU was found, else "unsupported".
pub fn availability_state(initialized: bool, gpu_found: bool) -> (s: &'static str)
    ensures
        s@ == (if initialized && gpu_found { "available"@ } else { "unsupported"@ }),
{
    if !initialized || !gpu_found {
        "unsupported"
    } else {
        "available"
    }
}

/// "success" only when nothing was skipped or unsupported and scaling succeeded, else "warning".
pub fn apply_state(settings_skipped: u32, settings_unsupported: u32, scaling_ok: bool) -> (s: &'static str)
    ensures
        s@ == (if settings_skipped == 0 && settings_unsupported == 0 && scaling_ok {
            "success"@
        } else {
            "warning"@
        }),
{
    if settings_skipped > 0 || settings_unsupported > 0 || !scaling_ok {
        "warning"
    } else {
        "success"
    }
}

/// The scaling values that a snapshot may carry.
pub open spec fn known_scaling(v: u32) -> bool {
    v == 0 || v == 1 || v == 2 || v == 3 || v == 5 || v == 6 || v == 7 || v == 8
}

/// The first problem among the first `n` settings, in order: an unknown id, a name that does not
/// match the id, or an id seen before.
pub open spec fn settings_problem(s: Seq<NvidiaSetting>, n: int) -> Option<Seq<char>>
    decreases n,
{
    if n <= 0 {
        None
    } else if settings_problem(s, n - 1) is Some {
        settings_problem(s, n - 1)
    } else {
        let x = s[n - 1];
        if portable_key(x.id) is None {
            Some("Unknown NVIDIA setting id: 0x"@ + hex_digits(x.id as nat, 8))
        } else if portable_key(x.id) != Some(x.key@) {
            Some("NVIDIA setting name mismatch for 0x"@ + hex_digits(x.id as nat, 8) + "."@)
        } else if exists|k: int| 0 <= k < n - 1 && s[k].id == x.id {
            Some("Duplicate NVIDIA setting id: 0x"@ + hex_digits(x.id as nat, 8))
        } else {
            None
        }
    }
}

/// Once a problem is found among the first `m` settings, it stays the first problem.
proof fn lemma_settings_problem_stable(s: Seq<NvidiaSetting>, m: int, n: int)
    requires
        0 <= m <= n,
        settings_problem(s, m) is Some,
    ensures
        settings_problem(s, n) == settings_problem(s, m),
    decreases n - m,
{
    if n > m {
        lemma_settings_problem_stable(s, m, n - 1);
    }
}

fn has_earlier_id(settings: &[NvidiaSetting], i: usize) -> (r: bool)
    requires
        i < settings@.len(),
    ensures
        r == exists|k: int| 0 <= k < i && settings@[k].id == settings@[i as int].id,
{
    let mut k: usize = 0;
    while k < i
        invariant
            k <= i < settings@.len(),
            forall|j: int| 0 <= j < k ==> settings@[j].id != settings@[i as int].id,
        decreases i - k,
    {
        if settings[k].id == settings[i].id {
            return true;
        }
        k = k + 1;
    }
    false
}

/// The reason an NVIDIA snapshot is refused; `None` when it is acceptable.
pub open spec fn payload_problem(p: NvidiaPayload) -> Option<Seq<char>> {
    if p.schema_version != 1 || executable_game(p.profile_executable@) is None {
        Some("Unsupported or corrupted NVIDIA snapshot."@)
    } else if p.settings@.len() > MAX_SETTINGS {
        Some("NVIDIA snapshot contains too many settings."@)
    } else if settings_problem(p.settings@, p.settings@.len() as int) is Some {
        settings_problem(p.settings@, p.settings@.len() as int)
    } else if p.scaling_supported && !known_scaling(p.scaling_value) {
        Some("NVIDIA snapshot contains an unknown scaling mode."@)
    } else {
        None
    }
}

/// Checks an NVIDIA snapshot before it is applied: known executable, at most 32 whitelisted
/// settings with matching names and no duplicates, and a known scaling value.
pub fn validate_payload(payload: &NvidiaPayload) -> (r: Result<(), String>)
    ensures
        r is Ok <==> payload_problem(*payload) is None,
        r matches Err(e) ==> payload_problem(*payload) == Some(e@),
{
    if payload.schema_version != 1 || target_for_executable(payload.profile_executable.as_str()).is_err() {
        return Err(String::from_str("Unsupported or corrupted NVIDIA snapshot."));
    }
    if payload.settings.len() > MAX_SETTINGS {
        return Err(String::from_str("NVIDIA snapshot contains too many settings."));
    }
    let settings = &payload.settings;
    let mut i: usize = 0;
    while i < settings.len()
        invariant
            i <= settings.len(),
            settings_problem(settings@, i as int) is None,
            settings@ == payload.settings@,
            payload.schema_version == 1,
            executable_game(payload.profile_executable@) is Some,
            payload.settings@.len() <= MAX_SETTINGS,
        decreases settings.len() - i,
    {
        let setting = &settings[i];
        let hex = hex_chars(setting.id as u64, 8);
        proof {
            reveal_strlit("");
            assert(settings@[i as int] == *setting);
        }
        match portable_setting_key(setting.id) {
            None => {
                proof {
                    assert("Unknown NVIDIA setting id: 0x"@ + hex@ + ""@ =~= "Unknown NVIDIA setting id: 0x"@ + hex@);
                    assert(portable_key(settings@[i as int].id) is None);
                    assert(settings_problem(settings@, i + 1) == Some("Unknown NVIDIA setting id: 0x"@ + hex@));
                    lemma_settings_problem_stable(settings@, i + 1, settings@.len() as int);
                }
                return Err(compose("Unknown NVIDIA setting id: 0x", hex.as_slice(), ""));
            },
            Some(expected) => {
                if !str_eq(setting.key.as_str(), expected) {
                    proof { lemma_settings_problem_stable(settings@, i + 1, settings@.len() as int); }
                    return Err(compose("NVIDIA setting name mismatch for 0x", hex.as_slice(), "."));
                }
            },
        }
        if has_earlier_id(settings.as_slice(), i) {
            proof {
                assert("Duplicate NVIDIA setting id: 0x"@ + hex@ + ""@ =~= "Duplicate NVIDIA setting id: 0x"@ + hex@);
                lemma_settings_problem_stable(settings@, i + 1, settings@.len() as int);
            }
            return Err(compose("Duplicate NVIDIA setting id: 0x", hex.as_slice(), ""));
        }
        i = i + 1;
    }
    let v = payload.scaling_value;
    if payload.scaling_supported && !(v == 0 || v == 1 || v == 2 || v == 3 || v == 5 || v == 6 || v == 7 || v == 8) {
        return Err(String::from_str("NVIDIA snapshot contains an unknown scaling mode."));
    }
    Ok(())
}

/// The answer on a platform without NVIDIA support.
pub open spec fn unsupported_response(r: NvidiaCommandResponse) -> bool {
    &&& r.state@ == "unsupported"@
    &&& r.message@ == "NVIDIA settings are unsupported on this platform."@
    &&& r.details@.len() == 0
    &&& !r.retryable
    &&& r.payload is None
    &&& r.diagnostics is None
    &&& r.backup_token is None
}

/// NVIDIA capture on a platform without NVIDIA support.
pub fn capture(_request: NvidiaCaptureRequest) -> (r: NvidiaCommandResponse)
    ensures
        unsupported_response(r),
{
    NvidiaCommandResponse::unsupported("NVIDIA settings are unsupported on this platform.")
}

/// NVIDIA apply on a platform without NVIDIA support.
pub fn apply(_payload: NvidiaPayload) -> (r: NvidiaCommandResponse)
    ensures
        unsupported_response(r),
{
    NvidiaCommandResponse::unsupported("NVIDIA settings are unsupported on this platform.")
}

/// NVIDIA diagnostics on a platform without NVIDIA support.
pub fn diagnostics() -> (r: NvidiaCommandResponse)
    ensures
        unsupported_response(r),
{
    NvidiaCommandResponse::unsupported("NVIDIA settings are unsupported on this platform.")
}

/// NVIDIA restore on a platform without NVIDIA support.
pub fn restore(_backup_token: Option<String>) -> (r: NvidiaCommandResponse)
    ensures
        unsupported_response(r),
{
    NvidiaCommandResponse::unsupported("NVIDIA settings are unsupported on this platform.")
}

/// One driver setting as the native layer reports it.
#[derive(Debug, Clone)]
pub struct RawSetting {
    pub id: u32,
    pub value: u32,
    pub present: u32,
    pub key: String,
}

/// A snapshot of the GPU, the driver and a game profile as the native layer reports it.
#[derive(Debug, Clone)]
pub struct RawSnapshot {
    pub schema_version: u32,
    pub initialized: u32,
    pub gpu_found: u32,
    pub driver_version: u32,
    pub profile_found: u32,
    pub profile_created: u32,
    pub scaling_supported: u32,
    pub scaling: u32,
    pub setting_count: u32,
    pub gpu_name: String,
    pub driver_branch: String,
    pub profile_name: String,
    pub settings: Vec<RawSetting>,
}

/// How many settings of a snapshot count: the reported count, at most 32 and at most those held.
pub open spec fn used_count(raw: RawSnapshot) -> int {
    let a = if raw.setting_count < MAX_SETTINGS { raw.setting_count as int } else { MAX_SETTINGS as int };
    if a < raw.settings@.len() { a } else { raw.settings@.len() as int }
}

/// A setting as (id, key, value).
pub open spec fn setting_view(s: NvidiaSetting) -> (u32, Seq<char>, u32) {
    (s.id, s.key@, s.value)
}

/// The present settings among the first `n` of a snapshot, in order.
pub open spec fn present_prefix(settings: Seq<RawSetting>, n: int) -> Seq<(u32, Seq<char>, u32)>
    decreases n,
{
    if n <= 0 {
        Seq::empty()
    } else if settings[n - 1].present != 0 {
        present_prefix(settings, n - 1).push((settings[n - 1].id, settings[n - 1].key@, settings[n - 1].value))
    } else {
        present_prefix(settings, n - 1)
    }
}

/// The settings of a snapshot that are present, in order.
pub fn present_settings(raw: &RawSnapshot) -> (r: Vec<NvidiaSetting>)
    ensures
        r@.map_values(|s: NvidiaSetting| setting_view(s)) == present_prefix(raw.settings@, used_count(*raw)),
{
    let n: usize = if (raw.setting_count as usize) < MAX_SETTINGS { raw.setting_count as usize } else { MAX_SETTINGS };
    let n: usize = if n < raw.settings.len() { n } else { raw.settings.len() };
    let mut r: Vec<NvidiaSetting> = Vec::new();
    let mut i: usize = 0;
    while i < n
        invariant
            i <= n <= raw.settings@.len(),
            n == used_count(*raw),
            r@.map_values(|s: NvidiaSetting| setting_view(s)) == present_prefix(raw.settings@, i as int),
        decreases n - i,
    {
        let st = &raw.settings[i];
        if st.present != 0 {
            let ghost prev = r@.map_values(|s: NvidiaSetting| setting_view(s));
            let k = chars_of(st.key.as_str());
            r.push(NvidiaSetting { id: st.id, key: string_of(k.as_slice()), value: st.value });
            proof { assert(r@.map_values(|s: NvidiaSetting| setting_view(s)) =~= prev.push((st.id, st.key@, st.value))); }
        }
        i = i + 1;
    }
    r
}

/// A text, or `None` when it is empty.
pub fn nonempty(value: String) -> (r: Option<String>)
    ensures
        value@.len() == 0 ==> r is None,
        value@.len() > 0 ==> r == Some(value),
{
    if value.as_str().is_empty() {
        None
    } else {
        Some(value)
    }
}

fn copy_text(s: &String) -> (r: String)
    ensures
        r@ == s@,
{
    let c = chars_of(s.as_str());
    string_of(c.as_slice())
}

/// An optional text: `None` for an empty one.
pub open spec fn nonempty_view(s: Seq<char>) -> Option<Seq<char>> {
    if s.len() == 0 { None } else { Some(s) }
}

/// An optional string holds the optional text `t`.
pub open spec fn opt_is(o: Option<String>, t: Option<Seq<char>>) -> bool {
    match (o, t) {
        (Some(a), Some(b)) => a@ == b,
        (None, None) => true,
        _ => false,
    }
}

/// The diagnostics a snapshot gives: what was found, the present settings counted, and the
/// scaling mode when scaling is supported.
pub open spec fn raw_diagnostics_ok(d: NvidiaDiagnostics, raw: RawSnapshot) -> bool {
    &&& d.gpu_detected == (raw.gpu_found != 0)
    &&& opt_is(d.gpu_name, nonempty_view(raw.gpu_name@))
    &&& d.driver_available == (raw.initialized != 0)
    &&& d.driver_version == (if raw.driver_version != 0 { Some(raw.driver_version) } else { None })
    &&& opt_is(d.driver_branch, nonempty_view(raw.driver_branch@))
    &&& d.nvapi_initialized == (raw.initialized != 0)
    &&& d.cs2_profile_found == (raw.profile_found != 0)
    &&& d.cs2_profile_created == (raw.profile_created != 0)
    &&& opt_is(d.profile_name, nonempty_view(raw.profile_name@))
    &&& d.settings_read == present_prefix(raw.settings@, used_count(raw)).len()
    &&& d.settings_applied == 0 && d.settings_skipped == 0 && d.settings_unsupported == 0
    &&& d.scaling_supported == (raw.scaling_supported != 0)
    &&& opt_is(d.scaling_mode, if raw.scaling_supported != 0 { Some(spec_scaling_name(raw.scaling)) } else { None })
    &&& d.scaling_result is None
}

/// The diagnostics of a snapshot; see `raw_diagnostics_ok`.
pub fn diagnostics_from_raw(raw: &RawSnapshot) -> (d: NvidiaDiagnostics)
    ensures
        raw_diagnostics_ok(d, *raw),
{
    let settings = present_settings(raw);
    proof { assert(settings@.map_values(|s: NvidiaSetting| setting_view(s)).len() == settings@.len()); }
    NvidiaDiagnostics {
        gpu_detected: raw.gpu_found != 0,
        gpu_name: nonempty(copy_text(&raw.gpu_name)),
        driver_available: raw.initialized != 0,
        driver_version: if raw.driver_version != 0 { Some(raw.driver_version) } else { None },
        driver_branch: nonempty(copy_text(&raw.driver_branch)),
        nvapi_initialized: raw.initialized != 0,
        cs2_profile_found: raw.profile_found != 0,
        cs2_profile_created: raw.profile_created != 0,
        profile_name: nonempty(copy_text(&raw.profile_name)),
        settings_read: settings.len(),
        settings_applied: 0,
        settings_skipped: 0,
        settings_unsupported: 0,
        scaling_supported: raw.scaling_supported != 0,
        scaling_mode: if raw.scaling_supported != 0 { Some(String::from_str(scaling_name(raw.scaling))) } else { None },
        scaling_result: None,
    }
}

/// A native setting written from a profile setting.
pub open spec fn raw_of_setting(r: RawSetting, st: NvidiaSetting) -> bool {
    r.id == st.id && r.value == st.value && r.present == 1 && r.key@ == st.key@
}

/// A backup setting saved from a native setting.
pub open spec fn backup_of_raw(b: BackupSetting, r: RawSetting) -> bool {
    b.id == r.id && b.key@ == r.key@ && b.value == r.value && b.present == (r.present != 0)
}

/// A native setting restored from a backup setting.
pub open spec fn raw_of_backup(r: RawSetting, b: BackupSetting) -> bool {
    r.id == b.id && r.value == b.value && r.present == (if b.present { 1u32 } else { 0u32 }) && r.key@ == b.key@
}

/// The snapshot to write for a profile: schema 1, every setting present, and the saved scaling.
pub fn raw_from_payload(payload: &NvidiaPayload, profile_found: bool) -> (r: RawSnapshot)
    requires
        payload.settings@.len() <= MAX_SETTINGS,
    ensures
        r.schema_version == 1,
        r.initialized == 0 && r.gpu_found == 0 && r.driver_version == 0 && r.profile_created == 0,
        r.profile_found == (if profile_found { 1u32 } else { 0u32 }),
        r.scaling_supported == (if payload.scaling_supported { 1u32 } else { 0u32 }),
        r.scaling == payload.scaling_value,
        r.setting_count == payload.settings@.len(),
        r.gpu_name@.len() == 0 && r.driver_branch@.len() == 0 && r.profile_name@.len() == 0,
        r.settings@.len() == payload.settings@.len(),
        forall|i: int| 0 <= i < r.settings@.len() ==> raw_of_setting(#[trigger] r.settings@[i], payload.settings@[i]),
{
    let mut settings: Vec<RawSetting> = Vec::new();
    let mut i: usize = 0;
    while i < payload.settings.len()
        invariant
            i <= payload.settings@.len(),
            settings@.len() == i,
            forall|q: int| 0 <= q < i ==> raw_of_setting(#[trigger] settings@[q], payload.settings@[q]),
        decreases payload.settings.len() - i,
    {
        let st = &payload.settings[i];
        let ghost prev = settings@;
        settings.push(RawSetting { id: st.id, value: st.value, present: 1, key: copy_text(&st.key) });
        proof {
            assert forall|q: int| 0 <= q < i + 1 implies raw_of_setting(#[trigger] settings@[q], payload.settings@[q]) by {
                if q < i { assert(settings@[q] == prev[q]); }
            }
        }
        i = i + 1;
    }
    proof {
        reveal_strlit("");
    }
    RawSnapshot {
        schema_version: 1,
        initialized: 0,
        gpu_found: 0,
        driver_version: 0,
        profile_found: if profile_found { 1 } else { 0 },
        profile_created: 0,
        scaling_supported: if payload.scaling_supported { 1 } else { 0 },
        scaling: payload.scaling_value,
        setting_count: payload.settings.len() as u32,
        gpu_name: String::new(),
        driver_branch: String::new(),
        profile_name: String::new(),
        settings,
    }
}

/// One setting of a local NVIDIA backup.
#[derive(Debug, Clone)]
pub struct BackupSetting {
    pub id: u32,
    pub key: String,
    pub value: u32,
    pub present: bool,
}

/// The NVIDIA state saved before an apply.
#[derive(Debug, Clone)]
pub struct NvidiaBackup {
    pub schema_version: u32,
    pub captured_at: String,
    pub profile_executable: String,
    pub profile_found: bool,
    pub scaling_supported: bool,
    pub scaling_value: u32,
    pub settings: Vec<BackupSetting>,
}

/// `b` is the backup of snapshot `raw` for `executable`: schema 1, the profile flags, the scaling
/// and the counted settings of `raw` with their presence.
pub open spec fn backup_of_snapshot(b: NvidiaBackup, raw: RawSnapshot, executable: Seq<char>) -> bool {
    &&& b.schema_version == 1
    &&& b.profile_executable@ == executable
    &&& b.profile_found == (raw.profile_found != 0)
    &&& b.scaling_supported == (raw.scaling_supported != 0)
    &&& b.scaling_value == raw.scaling
    &&& b.settings@.len() == used_count(raw)
    &&& forall|i: int| 0 <= i < b.settings@.len() ==> backup_of_raw(#[trigger] b.settings@[i], raw.settings@[i])
}

/// The backup of a snapshot taken before an apply: its profile flags, scaling and first settings.
pub fn backup_from_raw(raw: &RawSnapshot, executable: &str, captured_at: String) -> (b: NvidiaBackup)
    ensures
        backup_of_snapshot(b, *raw, executable@),
        b.captured_at == captured_at,
{
    let n: usize = if (raw.setting_count as usize) < MAX_SETTINGS { raw.setting_count as usize } else { MAX_SETTINGS };
    let n: usize = if n < raw.settings.len() { n } else { raw.settings.len() };
    let mut settings: Vec<BackupSetting> = Vec::new();
    let mut i: usize = 0;
    while i < n
        invariant
            i <= n <= raw.settings@.len(),
            settings@.len() == i,
            forall|q: int| 0 <= q < i ==> backup_of_raw(#[trigger] settings@[q], raw.settings@[q]),
        decreases n - i,
    {
        let st = &raw.settings[i];
        let ghost prev = settings@;
        let key = copy_text(&st.key);
        let item = BackupSetting { id: st.id, key, value: st.value, present: st.present != 0 };
        proof {
            assert(item.key@ == raw.settings@[i as int].key@);
        }
        settings.push(item);
        proof {
            assert(settings@[i as int] == item);
            assert forall|q: int| 0 <= q < i + 1 implies backup_of_raw(#[trigger] settings@[q], raw.settings@[q]) by {
                if q < i { assert(settings@[q] == prev[q]); }
            }
        }
        i = i + 1;
    }
    NvidiaBackup {
        schema_version: 1,
        captured_at,
        profile_executable: String::from_str(executable),
        profile_found: raw.profile_found != 0,
        scaling_supported: raw.scaling_supported != 0,
        scaling_value: raw.scaling,
        settings,
    }
}

/// `r` is the snapshot that restores backup `b`: schema 1, nothing reported found but the
/// profile, the saved scaling, and the first 32 saved settings with their presence.
pub open spec fn snapshot_of_backup(r: RawSnapshot, b: NvidiaBackup) -> bool {
    &&& r.schema_version == 1
    &&& r.initialized == 0 && r.gpu_found == 0 && r.driver_version == 0 && r.profile_created == 0
    &&& r.profile_found == (if b.profile_found { 1u32 } else { 0u32 })
    &&& r.scaling_supported == (if b.scaling_supported { 1u32 } else { 0u32 })
    &&& r.scaling == b.scaling_value
    &&& r.setting_count == (if b.settings@.len() < MAX_SETTINGS { b.settings@.len() } else { MAX_SETTINGS as nat })
    &&& r.settings@.len() == r.setting_count
    &&& forall|i: int| 0 <= i < r.settings@.len() ==> raw_of_backup(#[trigger] r.settings@[i], b.settings@[i])
}

/// The snapshot that restores a backup: its first 32 settings with their presence.
pub fn raw_from_backup(backup: &NvidiaBackup) -> (r: RawSnapshot)
    ensures
        snapshot_of_backup(r, *backup),
{
    let n: usize = if backup.settings.len() < MAX_SETTINGS { backup.settings.len() } else { MAX_SETTINGS };
    let mut settings: Vec<RawSetting> = Vec::new();
    let mut i: usize = 0;
    while i < n
        invariant
            i <= n <= backup.settings@.len(),
            settings@.len() == i,
            forall|q: int| 0 <= q < i ==> raw_of_backup(#[trigger] settings@[q], backup.settings@[q]),
        decreases n - i,
    {
        let st = &backup.settings[i];
        let ghost prev = settings@;
        let key = copy_text(&st.key);
        let present: u32 = if st.present { 1 } else { 0 };
        let item = RawSetting { id: st.id, value: st.value, present, key };
        proof {
            assert(item.key@ == backup.settings@[i as int].key@);
            assert(item.present == (if backup.settings@[i as int].present { 1u32 } else { 0u32 }));
        }
        settings.push(item);
        proof {
            assert(settings@[i as int] == item);
            assert forall|q: int| 0 <= q < i + 1 implies raw_of_backup(#[trigger] settings@[q], backup.settings@[q]) by {
                if q < i { assert(settings@[q] == prev[q]); }
            }
        }
        i = i + 1;
    }
    RawSnapshot {
        schema_version: 1,
        initialized: 0,
        gpu_found: 0,
        driver_version: 0,
        profile_found: if backup.profile_found { 1 } else { 0 },
        profile_created: 0,
        scaling_supported: if backup.scaling_supported { 1 } else { 0 },
        scaling: backup.scaling_value,
        setting_count: n as u32,
        gpu_name: String::new(),
        driver_branch: String::new(),
        profile_name: String::new(),
        settings,
    }
}

/// Restoring the backup of a snapshot writes back what the snapshot held: the profile flag, the
/// scaling support and value, and each counted setting with its id, key, value and presence
/// (presence as 0 or 1).
pub proof fn law_backup_restores_snapshot(raw: RawSnapshot, executable: Seq<char>, b: NvidiaBackup, r: RawSnapshot)
    requires
        backup_of_snapshot(b, raw, executable),
        snapshot_of_backup(r, b),
    ensures
        (r.profile_found != 0) == (raw.profile_found != 0),
        (r.scaling_supported != 0) == (raw.scaling_supported != 0),
        r.scaling == raw.scaling,
        r.settings@.len() == used_count(raw),
        r.setting_count == used_count(raw),
        forall|i: int| 0 <= i < used_count(raw) ==> {
            &&& (#[trigger] r.settings@[i]).id == raw.settings@[i].id
            &&& r.settings@[i].key@ == raw.settings@[i].key@
            &&& r.settings@[i].value == raw.settings@[i].value
            &&& (r.settings@[i].present != 0) == (raw.settings@[i].present != 0)
        },
{
    assert(used_count(raw) <= MAX_SETTINGS);
    assert forall|i: int| 0 <= i < used_count(raw) implies {
        &&& (#[trigger] r.settings@[i]).id == raw.settings@[i].id
        &&& r.settings@[i].key@ == raw.settings@[i].key@
        &&& r.settings@[i].value == raw.settings@[i].value
        &&& (r.settings@[i].present != 0) == (raw.settings@[i].present != 0)
    } by {
        assert(raw_of_backup(r.settings@[i], b.settings@[i]));
        assert(backup_of_raw(b.settings@[i], raw.settings@[i]));
    }
}

/// Why a parsed backup is refused; `None` when it may be restored.
pub open spec fn backup_problem(b: NvidiaBackup) -> Option<Seq<char>> {
    if b.schema_version != 1 || b.settings@.len() > MAX_SETTINGS {
        Some("NVIDIA backup is corrupted or unsupported."@)
    } else if executable_game(b.profile_executable@) is None {
        Some("NVIDIA backup contains an unknown executable."@)
    } else if exists|i: int| 0 <= i < b.settings@.len() && portable_key(b.settings@[i].id) != Some(#[trigger] b.settings@[i].key@) {
        Some("NVIDIA backup contains an unknown setting."@)
    } else {
        None
    }
}

/// Checks a parsed backup; see `backup_problem`.
pub fn check_backup(backup: &NvidiaBackup) -> (r: Result<(), String>)
    ensures
        r is Ok <==> backup_problem(*backup) is None,
        r matches Err(e) ==> backup_problem(*backup) == Some(e@),
{
    if backup.schema_version != 1 || backup.settings.len() > MAX_SETTINGS {
        return Err(String::from_str("NVIDIA backup is corrupted or unsupported."));
    }
    if target_for_executable(backup.profile_executable.as_str()).is_err() {
        return Err(String::from_str("NVIDIA backup contains an unknown executable."));
    }
    let mut i: usize = 0;
    while i < backup.settings.len()
        invariant
            i <= backup.settings@.len(),
            backup.schema_version == 1,
            backup.settings@.len() <= MAX_SETTINGS,
            executable_game(backup.profile_executable@) is Some,
            forall|q: int| 0 <= q < i ==> portable_key(backup.settings@[q].id) == Some(#[trigger] backup.settings@[q].key@),
        decreases backup.settings.len() - i,
    {
        let st = &backup.settings[i];
        let ok = match portable_setting_key(st.id) {
            Some(k) => str_eq(st.key.as_str(), k),
            None => false,
        };
        if !ok {
            proof {
                assert(portable_key(backup.settings@[i as int].id) != Some(backup.settings@[i as int].key@));
                assert(executable_game(backup.profile_executable@) is Some);
            }
            return Err(String::from_str("NVIDIA backup contains an unknown setting."));
        }
        i = i + 1;
    }
    Ok(())
}

/// The answer when the native layer failed: "unsupported" when NVAPI or a GPU is missing (what
/// `availability_state` calls unsupported), else a retryable error; a non-empty native message becomes the only detail.
pub fn unavailable_or_error(message: String, raw: &RawSnapshot) -> (r: NvidiaCommandResponse)
    ensures
        (raw.initialized != 0 && raw.gpu_found != 0) ==> (r.state@ == "error"@
            && r.message@ == "NVIDIA NVAPI operation failed."@ && r.retryable),
        !(raw.initialized != 0 && raw.gpu_found != 0) ==> (r.state@ == "unsupported"@
            && r.message@ == "NVIDIA GPU or compatible NVIDIA Driver/NVAPI was not detected."@ && !r.retryable),
        strings_view(r.details@) == (if message@.len() == 0 { Seq::<Seq<char>>::empty() } else { seq![message@] }),
        r.diagnostics matches Some(d) && raw_diagnostics_ok(d, *raw),
        r.payload is None && r.backup_token is None,
{
    let diagnostics = diagnostics_from_raw(raw);
    let mut details: Vec<String> = Vec::new();
    let ghost mv = message@;
    match nonempty(message) {
        Some(m) => details.push(m),
        None => {},
    }
    proof { assert(strings_view(details@) =~= (if mv.len() == 0 { Seq::<Seq<char>>::empty() } else { seq![mv] })); }
    if !(raw.initialized != 0 && raw.gpu_found != 0) {
        NvidiaCommandResponse {
            state: String::from_str("unsupported"),
            message: String::from_str("NVIDIA GPU or compatible NVIDIA Driver/NVAPI was not detected."),
            details,
            retryable: false,
            payload: None,
            diagnostics: Some(diagnostics),
            backup_token: None,
        }
    } else {
        NvidiaCommandResponse {
            state: String::from_str("error"),
            message: String::from_str("NVIDIA NVAPI operation failed."),
            details,
            retryable: true,
            payload: None,
            diagnostics: Some(diagnostics),
            backup_token: None,
        }
    }
}

/// `prefix` followed by the decimal text of `n`.
fn count_line(prefix: &str, n: u64) -> (r: String)
    ensures
        r@ == prefix@ + decimal(n as nat),
{
    let d = decimal_chars(n);
    let mut v = chars_of(prefix);
    extend_chars(&mut v, d.as_slice());
    string_of(v.as_slice())
}

/// `prefix` followed by `text`.
fn text_line(prefix: &str, text: &str) -> (r: String)
    ensures
        r@ == prefix@ + text@,
{
    let mut v = chars_of(prefix);
    push_str_chars(&mut v, text);
    string_of(v.as_slice())
}

/// How many present settings a snapshot holds.
pub open spec fn present_count(raw: RawSnapshot) -> nat {
    present_prefix(raw.settings@, used_count(raw)).len()
}

/// The profile payload captured from a snapshot for `executable` at `captured_at`.
pub open spec fn captured_payload(p: NvidiaPayload, raw: RawSnapshot, executable: Seq<char>, captured_at: String) -> bool {
    &&& p.schema_version == 1
    &&& p.captured_at == captured_at
    &&& p.profile_executable@ == executable
    &&& p.settings@.map_values(|s: NvidiaSetting| setting_view(s)) == present_prefix(raw.settings@, used_count(raw))
    &&& p.scaling_mode@ == spec_scaling_name(raw.scaling)
    &&& p.scaling_value == raw.scaling
    &&& p.scaling_supported == (raw.scaling_supported != 0)
}

/// The details of a capture: the settings read, a note when there are none, and the scaling.
pub open spec fn capture_details(raw: RawSnapshot) -> Seq<Seq<char>> {
    seq!["Portable DRS settings read: "@ + decimal(present_count(raw))]
        + (if present_count(raw) == 0 { seq!["The game profile currently has no explicit portable overrides."@] } else { Seq::empty() })
        + (if raw.scaling_supported != 0 {
            seq!["Captured scaling mode: "@ + spec_scaling_name(raw.scaling)]
        } else {
            seq!["NVIDIA Scaling — Unsupported for the primary display path."@]
        })
}

/// The answer of a capture from the snapshot read: the present settings and the scaling become
/// the payload; a warning (retryable when scaling is unsupported) when there are no settings or
/// no scaling.
pub fn capture_response(raw: &RawSnapshot, target: NvidiaTarget, captured_at: String) -> (r: NvidiaCommandResponse)
    ensures
        r.state@ == (if present_count(*raw) == 0 || raw.scaling_supported == 0 { "warning"@ } else { "success"@ }),
        r.message@ == "Captured "@ + decimal(present_count(*raw)) + " portable NVIDIA settings for "@ + target.friendly_name@ + "."@,
        strings_view(r.details@) == capture_details(*raw),
        r.retryable == (raw.scaling_supported == 0),
        r.payload matches Some(p) && captured_payload(p, *raw, target.executable@, captured_at),
        r.diagnostics matches Some(d) && raw_diagnostics_ok(d, *raw),
        r.backup_token is None,
{
    let diagnostics = diagnostics_from_raw(raw);
    let settings = present_settings(raw);
    let ghost sv = settings@.map_values(|s: NvidiaSetting| setting_view(s));
    proof { assert(sv.len() == settings@.len()); }
    let n = settings.len();
    let supported = raw.scaling_supported != 0;
    let mut details: Vec<String> = Vec::new();
    details.push(count_line("Portable DRS settings read: ", n as u64));
    if n == 0 {
        details.push(String::from_str("The game profile currently has no explicit portable overrides."));
    }
    if !supported {
        details.push(String::from_str("NVIDIA Scaling — Unsupported for the primary display path."));
    } else {
        details.push(text_line("Captured scaling mode: ", scaling_name(raw.scaling)));
    }
    proof { assert(strings_view(details@) =~= capture_details(*raw)); }
    let mut m = chars_of("Captured ");
    extend_chars(&mut m, decimal_chars(n as u64).as_slice());
    push_str_chars(&mut m, " portable NVIDIA settings for ");
    push_str_chars(&mut m, target.friendly_name);
    push_str_chars(&mut m, ".");
    let message = string_of(m.as_slice());
    proof {
        assert(message@ =~= "Captured "@ + decimal(present_count(*raw)) + " portable NVIDIA settings for "@ + target.friendly_name@ + "."@);
    }
    let payload = NvidiaPayload {
        schema_version: 1,
        captured_at,
        profile_executable: String::from_str(target.executable),
        settings,
        scaling_mode: String::from_str(scaling_name(raw.scaling)),
        scaling_value: raw.scaling,
        scaling_supported: supported,
    };
    NvidiaCommandResponse {
        state: String::from_str(if n == 0 || !supported { "warning" } else { "success" }),
        message,
        details,
        retryable: !supported,
        payload: Some(payload),
        diagnostics: Some(diagnostics),
        backup_token: None,
    }
}

/// What the native layer reports after writing a snapshot.
#[derive(Debug, Clone)]
pub struct ApplyReport {
    pub settings_applied: u32,
    pub settings_skipped: u32,
    pub settings_unsupported: u32,
    pub profile_found: u32,
    pub profile_created: u32,
    pub scaling_requested: u32,
    pub scaling_applied: u32,
    pub scaling_message: String,
}

/// The scaling was not requested, or it was applied.
pub open spec fn scaling_ok(report: ApplyReport) -> bool {
    report.scaling_requested == 0 || report.scaling_applied != 0
}

/// The diagnostics after an apply: what the snapshot taken before reported about the GPU and
/// driver, what the native layer reported about the profile and the settings, and the payload's
/// scaling.
pub open spec fn applied_diagnostics(d: NvidiaDiagnostics, payload: NvidiaPayload, before: RawSnapshot, report: ApplyReport, executable: Seq<char>) -> bool {
    &&& d.gpu_detected && d.driver_available && d.nvapi_initialized
    &&& opt_is(d.gpu_name, nonempty_view(before.gpu_name@))
    &&& d.driver_version == (if before.driver_version != 0 { Some(before.driver_version) } else { None })
    &&& opt_is(d.driver_branch, nonempty_view(before.driver_branch@))
    &&& d.cs2_profile_found == (report.profile_found != 0)
    &&& d.cs2_profile_created == (report.profile_created != 0)
    &&& opt_is(d.profile_name, Some(executable))
    &&& d.settings_read == payload.settings@.len()
    &&& d.settings_applied == report.settings_applied
    &&& d.settings_skipped == report.settings_skipped
    &&& d.settings_unsupported == report.settings_unsupported
    &&& d.scaling_supported == payload.scaling_supported
    &&& opt_is(d.scaling_mode, Some(payload.scaling_mode@))
    &&& opt_is(d.scaling_result, nonempty_view(report.scaling_message@))
}

/// The details of an apply: the setting counts, the scaling message and the backup, then a note
/// when full-screen scaling was accepted.
pub open spec fn applied_details(payload: NvidiaPayload, report: ApplyReport, backup_token: Seq<char>) -> Seq<Seq<char>> {
    seq![
        "DRS settings applied: "@ + decimal(report.settings_applied as nat),
        "DRS settings skipped: "@ + decimal(report.settings_skipped as nat),
        "DRS settings unsupported: "@ + decimal(report.settings_unsupported as nat),
        "Scaling: "@ + report.scaling_message@,
        "NVIDIA backup: "@ + backup_token,
    ] + (if payload.scaling_mode@ == "stretched"@ && scaling_ok(report) {
        seq!["NVAPI accepted Force GPU - Full Screen for the primary NVIDIA display path."@]
    } else {
        Seq::empty()
    })
}

/// The answer of an apply that the native layer accepted: the state follows `apply_state`, and it
/// is retryable when the requested scaling was not applied.
pub fn applied_response(payload: NvidiaPayload, before: &RawSnapshot, report: ApplyReport, target: NvidiaTarget, backup_token: String) -> (r: NvidiaCommandResponse)
    ensures
        r.state@ == (if report.settings_skipped == 0 && report.settings_unsupported == 0 && scaling_ok(report) { "success"@ } else { "warning"@ }),
        r.message@ == (if report.settings_skipped == 0 && report.settings_unsupported == 0 && scaling_ok(report) {
            "NVIDIA "@ + target.friendly_name@ + " application profile and scaling were applied."@
        } else {
            "NVIDIA application profile was applied with unsupported or skipped settings."@
        }),
        strings_view(r.details@) == applied_details(payload, report, backup_token@),
        r.retryable == !scaling_ok(report),
        r.payload is None,
        r.diagnostics matches Some(d) && applied_diagnostics(d, payload, *before, report, target.executable@),
        r.backup_token == Some(backup_token),
{
    let ok = report.scaling_requested == 0 || report.scaling_applied != 0;
    let state = apply_state(report.settings_skipped, report.settings_unsupported, ok);
    let mut details: Vec<String> = Vec::new();
    details.push(count_line("DRS settings applied: ", report.settings_applied as u64));
    details.push(count_line("DRS settings skipped: ", report.settings_skipped as u64));
    details.push(count_line("DRS settings unsupported: ", report.settings_unsupported as u64));
    details.push(text_line("Scaling: ", report.scaling_message.as_str()));
    details.push(text_line("NVIDIA backup: ", backup_token.as_str()));
    if str_eq(payload.scaling_mode.as_str(), "stretched") && ok {
        details.push(String::from_str("NVAPI accepted Force GPU - Full Screen for the primary NVIDIA display path."));
    }
    proof { assert(strings_view(details@) =~= applied_details(payload, report, backup_token@)); }
    let message = if str_eq(state, "warning") {
        String::from_str("NVIDIA application profile was applied with unsupported or skipped settings.")
    } else {
        let mut m = chars_of("NVIDIA ");
        push_str_chars(&mut m, target.friendly_name);
        push_str_chars(&mut m, " application profile and scaling were applied.");
        string_of(m.as_slice())
    };
    proof {
        reveal_strlit("warning");
        reveal_strlit("success");
        assert("warning"@ != "success"@) by { assert("warning"@[0] != "success"@[0]); }
    }
    let diagnostics = NvidiaDiagnostics {
        gpu_detected: true,
        gpu_name: nonempty(copy_text(&before.gpu_name)),
        driver_available: true,
        driver_version: if before.driver_version != 0 { Some(before.driver_version) } else { None },
        driver_branch: nonempty(copy_text(&before.driver_branch)),
        nvapi_initialized: true,
        cs2_profile_found: report.profile_found != 0,
        cs2_profile_created: report.profile_created != 0,
        profile_name: Some(String::from_str(target.executable)),
        settings_read: payload.settings.len(),
        settings_applied: report.settings_applied as usize,
        settings_skipped: report.settings_skipped as usize,
        settings_unsupported: report.settings_unsupported as usize,
        scaling_supported: payload.scaling_supported,
        scaling_mode: Some(copy_text(&payload.scaling_mode)),
        scaling_result: nonempty(copy_text(&report.scaling_message)),
    };
    NvidiaCommandResponse {
        state: String::from_str(state),
        message,
        details,
        retryable: !ok,
        payload: None,
        diagnostics: Some(diagnostics),
        backup_token: Some(backup_token),
    }
}

/// The answer when the native layer refused an apply: the error, and whether the rollback to the
/// snapshot taken before succeeded.
pub fn apply_failed_response(message: String, rollback: Result<(), String>, backup_token: String) -> (r: NvidiaCommandResponse)
    ensures
        r.state@ == "error"@,
        r.message@ == "NVIDIA application profile could not be applied."@,
        strings_view(r.details@) == seq![message@, match rollback {
            Ok(_) => "Previous NVIDIA state was restored."@,
            Err(e) => "NVIDIA rollback failed: "@ + e@,
        }],
        r.retryable,
        r.payload is None && r.diagnostics is None,
        r.backup_token == Some(backup_token),
{
    let second = match &rollback {
        Ok(_) => String::from_str("Previous NVIDIA state was restored."),
        Err(e) => text_line("NVIDIA rollback failed: ", e.as_str()),
    };
    let ghost mv = message@;
    let mut details: Vec<String> = Vec::new();
    details.push(message);
    details.push(second);
    proof {
        assert(strings_view(details@) =~= seq![mv, match rollback {
            Ok(_) => "Previous NVIDIA state was restored."@,
            Err(e) => "NVIDIA rollback failed: "@ + e@,
        }]);
    }
    NvidiaCommandResponse {
        state: String::from_str("error"),
        message: String::from_str("NVIDIA application profile could not be applied."),
        details,
        retryable: true,
        payload: None,
        diagnostics: None,
        backup_token: Some(backup_token),
    }
}

/// The answer of a restore that the native layer accepted: a warning (retryable when the scaling
/// was not applied) when settings were skipped or the scaling failed.
pub fn restored_response(report: ApplyReport, backup_used: &str) -> (r: NvidiaCommandResponse)
    ensures
        r.state@ == (if scaling_ok(report) && report.settings_skipped == 0 { "success"@ } else { "warning"@ }),
        r.message@ == "Restored the latest NVIDIA state saved by Game Passport."@,
        strings_view(r.details@) == seq![
            "Backup used: "@ + backup_used@,
            "Settings restored/deleted: "@ + decimal(report.settings_applied as nat),
            "Settings skipped: "@ + decimal(report.settings_skipped as nat),
            "Scaling: "@ + report.scaling_message@,
        ],
        r.retryable == !scaling_ok(report),
        r.payload is None && r.diagnostics is None && r.backup_token is None,
{
    let ok = report.scaling_requested == 0 || report.scaling_applied != 0;
    let mut details: Vec<String> = Vec::new();
    details.push(text_line("Backup used: ", backup_used));
    details.push(count_line("Settings restored/deleted: ", report.settings_applied as u64));
    details.push(count_line("Settings skipped: ", report.settings_skipped as u64));
    details.push(text_line("Scaling: ", report.scaling_message.as_str()));
    proof {
        assert(strings_view(details@) =~= seq![
            "Backup used: "@ + backup_used@,
            "Settings restored/deleted: "@ + decimal(report.settings_applied as nat),
            "Settings skipped: "@ + decimal(report.settings_skipped as nat),
            "Scaling: "@ + report.scaling_message@,
        ]);
    }
    NvidiaCommandResponse {
        state: String::from_str(if ok && report.settings_skipped == 0 { "success" } else { "warning" }),
        message: String::from_str("Restored the latest NVIDIA state saved by Game Passport."),
        details,
        retryable: !ok,
        payload: None,
        diagnostics: None,
        backup_token: None,
    }
}

/// The answer of a diagnostics run whose snapshot the native layer returned.
pub fn diagnostics_response(raw: &RawSnapshot) -> (r: NvidiaCommandResponse)
    ensures
        r.state@ == "success"@,
        r.message@ == "NVIDIA NVAPI diagnostics completed."@,
        r.details@.len() == 0 && !r.retryable && r.payload is None && r.backup_token is None,
        r.diagnostics matches Some(d) && raw_diagnostics_ok(d, *raw),
{
    NvidiaCommandResponse {
        state: String::from_str("success"),
        message: String::from_str("NVIDIA NVAPI diagnostics completed."),
        details: Vec::new(),
        retryable: false,
        payload: None,
        diagnostics: Some(diagnostics_from_raw(raw)),
        backup_token: None,
    }
}

/// Law: the names of the NV_SCALING values. 1 and 2 are "stretched", 3 and 7 "centered", 5 and 6
/// "aspect_ratio", 8 "integer_aspect" and 0 "driver_default"; every other value, and only those,
/// is "unknown".
pub proof fn law_scaling_names(value: u32)
    ensures
        (value == 1 || value == 2) ==> spec_scaling_name(value) == "stretched"@,
        (value == 3 || value == 7) ==> spec_scaling_name(value) == "centered"@,
        (value == 5 || value == 6) ==> spec_scaling_name(value) == "aspect_ratio"@,
        value == 8 ==> spec_scaling_name(value) == "integer_aspect"@,
        value == 0 ==> spec_scaling_name(value) == "driver_default"@,
        spec_scaling_name(value) == "unknown"@ <==> !(value == 0 || value == 1 || value == 2 || value == 3 || value == 5
            || value == 6 || value == 7 || value == 8),
{
    reveal_strlit("stretched");
    reveal_strlit("centered");
    reveal_strlit("aspect_ratio");
    reveal_strlit("integer_aspect");
    reveal_strlit("driver_default");
    reveal_strlit("unknown");
    assert("unknown"@.len() == 7);
    assert("stretched"@.len() == 9);
    assert("centered"@.len() == 8);
    assert("aspect_ratio"@.len() == 12);
    assert("integer_aspect"@.len() == 14);
    assert("driver_default"@.len() == 14);
}

/// Law: the scaling value of a snapshot decides validation only through whether it is named.
/// When the rest of the snapshot is valid (schema 1, a known game, at most 32 whitelisted
/// settings without duplicates), the snapshot is accepted exactly when scaling is unsupported or
/// its value is one of 0, 1, 2, 3, 5, 6, 7 and 8, the values whose name is not "unknown"; so each
/// scaling value that capture names is accepted again.
pub proof fn law_named_scaling_is_accepted(p: NvidiaPayload)
    requires
        p.schema_version == 1,
        executable_game(p.profile_executable@) is Some,
        p.settings@.len() <= MAX_SETTINGS,
        settings_problem(p.settings@, p.settings@.len() as int) is None,
    ensures
        payload_problem(p) is None <==> (!p.scaling_supported || p.scaling_value == 0 || p.scaling_value == 1
            || p.scaling_value == 2 || p.scaling_value == 3 || p.scaling_value == 5 || p.scaling_value == 6
            || p.scaling_value == 7 || p.scaling_value == 8),
        spec_scaling_name(p.scaling_value) != "unknown"@ ==> payload_problem(p) is None,
        !(payload_problem(p) is None) ==> payload_problem(p) == Some("NVIDIA snapshot contains an unknown scaling mode."@),
{
    law_scaling_names(p.scaling_value);
}

} // verus!
