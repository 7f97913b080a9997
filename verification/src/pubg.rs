use vstd::prelude::*;

use crate::codec::{base64_decode, base64_encode, hex_lower, sha256_hex, spec_base64_decode, spec_base64_encode, spec_sha256};
use crate::text::{lemma_lines_append, lemma_lines_no_lf, lemma_lines_of_line, no_lf, strip_cr, contains_char, lex_less, lex_lt, lemma_lex_total, lemma_lex_trans, chars_eq, str_eq, parse_u32, parse_u32_chars, trim_quotes, trim_quotes_chars, eq_ignore_case_chars, chars_eq_str, occurs_at, concat_chars, decimal, decimal_chars, find_char, index_of, lemma_index_of_found, lemma_lines_total_len, lemma_total_len_prefix, lines, push_str_chars, split_lines, string_of, total_len, trim, trim_chars, utf8_len, utf8_len_capped, chars_of, contains_any, contains_any_str, contains_str, contains_sub, eq_ignore_case, eq_ignore_case_str, extend_chars, has_prefix, lower, lower_chars, starts_with_str, sub_chars, views};

verus! {

pub const SCHEMA_VERSION: u32 = 1;
pub const MAX_FILES: usize = 3;
pub const MAX_ENTRIES: usize = 8192;
pub const MAX_VALUE_BYTES: usize = 262144;
pub const MAX_SNAPSHOT_BYTES: usize = 2097152;

/// One portable INI setting.
#[derive(Debug, Clone, PartialEq, Eq)]
pub struct PubgIniEntry {
    pub section: String,
    pub key: String,
    pub operator: String,
    pub value: String,
    pub categories: Vec<String>,
}

/// The character views of some strings.
pub open spec fn strings_view(v: Seq<String>) -> Seq<Seq<char>> {
    v.map_values(|s: String| s@)
}

/// The mathematical content of an INI entry.
pub ghost struct EntryView {
    pub section: Seq<char>,
    pub key: Seq<char>,
    pub operator: Seq<char>,
    pub value: Seq<char>,
    pub categories: Seq<Seq<char>>,
}

impl View for PubgIniEntry {
    type V = EntryView;

    open spec fn view(&self) -> EntryView {
        EntryView {
            section: self.section@,
            key: self.key@,
            operator: self.operator@,
            value: self.value@,
            categories: strings_view(self.categories@),
        }
    }
}

/// The views of some entries.
pub open spec fn entries_view(v: Seq<PubgIniEntry>) -> Seq<EntryView> {
    v.map_values(|e: PubgIniEntry| e@)
}

/// One captured configuration file.
#[derive(Debug, Clone)]
pub struct PubgConfigFile {
    pub relative_id: String,
    pub entries: Vec<PubgIniEntry>,
    pub sha256: String,
}

/// How many captured values fall into each category.
#[derive(Debug, Clone)]
pub struct PubgCategorySummary {
    pub gameplay: usize,
    pub keybinds: usize,
    pub graphics: usize,
    pub audio: usize,
}

/// Resolution and window mode read from the captured settings.
#[derive(Debug, Clone)]
pub struct PubgNormalizedSettings {
    pub width: Option<u32>,
    pub height: Option<u32>,
    pub display_mode: String,
}

/// The portable PUBG profile.
#[derive(Debug, Clone)]
pub struct PubgPayload {
    pub schema_version: u32,
    pub captured_at: String,
    pub game: String,
    pub files: Vec<PubgConfigFile>,
    pub normalized: PubgNormalizedSettings,
    pub captured_categories: PubgCategorySummary,
    pub unsupported_categories: Vec<String>,
    pub warnings: Vec<String>,
}

/// What was learnt about the PUBG installation and the last operations.
#[derive(Debug, Clone)]
pub struct PubgDiagnostics {
    pub pubg_detected: bool,
    pub install_path: Option<String>,
    pub config_directory: Option<String>,
    pub config_files_found: Vec<String>,
    pub process_running: bool,
    pub capture_result: Option<String>,
    pub apply_result: Option<String>,
    pub backup_result: Option<String>,
    pub restore_result: Option<String>,
    pub categories: PubgCategorySummary,
    pub unsupported_settings: Vec<String>,
    pub parse_errors: Vec<String>,
    pub write_errors: Vec<String>,
}

/// The answer of a PUBG command.
#[derive(Debug)]
pub struct PubgCommandResponse {
    pub state: String,
    pub message: String,
    pub details: Vec<String>,
    pub retryable: bool,
    pub payload: Option<PubgPayload>,
    pub diagnostics: Option<PubgDiagnostics>,
    pub backup_token: Option<String>,
}

impl PubgCommandResponse {
    /// An "unsupported" answer carrying `message`.
    pub fn unsupported(message: &str) -> (r: Self)
        ensures
            r.state@ == "unsupported"@,
            r.message@ == message@,
            r.details@.len() == 0,
            !r.retryable,
            r.payload is None,
            r.diagnostics is None,
            r.backup_token is None,
    {
        PubgCommandResponse {
            state: String::from_str("unsupported"),
            message: String::from_str(message),
            details: Vec::new(),
            retryable: false,
            payload: None,
            diagnostics: None,
            backup_token: None,
        }
    }

    /// An error answer.
    pub fn error(message: String, details: Vec<String>, retryable: bool, diagnostics: Option<PubgDiagnostics>) -> (r: Self)
        ensures
            r.state@ == "error"@,
            r.message == message,
            r.details == details,
            r.retryable == retryable,
            r.payload is None,
            r.diagnostics == diagnostics,
            r.backup_token is None,
    {
        PubgCommandResponse {
            state: String::from_str("error"),
            message,
            details,
            retryable,
            payload: None,
            diagnostics,
            backup_token: None,
        }
    }
}

/// Markers of secrets and hardware-specific values that never enter a profile.
pub open spec fn forbidden_markers() -> Seq<Seq<char>> {
    seq!["password"@, "authtoken"@, "auth_token"@, "cookie"@, "sessiontoken"@, "session_token"@, "steamlogin"@, "steam_login"@, "accountid"@, "userid"@, "machineid"@, "deviceid"@, "monitorid"@, "monitorname"@, "gpuadapter"@, "graphicsadapter"@, "audiooutputdevice"@, "audioinputdevice"@, "voicedevice"@, "preferredmonitor"@, "windowpos"@, "benchmarkresult"@, "lastrecommended"@, "battleye"@, "displayfrequency"@, "refreshrate"@]
}

fn forbidden_list() -> (r: [&'static str; 26])
    ensures
        views(r@) == forbidden_markers(),
{
    let r = ["password", "authtoken", "auth_token", "cookie", "sessiontoken", "session_token", "steamlogin", "steam_login", "accountid", "userid", "machineid", "deviceid", "monitorid", "monitorname", "gpuadapter", "graphicsadapter", "audiooutputdevice", "audioinputdevice", "voicedevice", "preferredmonitor", "windowpos", "benchmarkresult", "lastrecommended", "battleye", "displayfrequency", "refreshrate"];
    proof { assert(views(r@) =~= forbidden_markers()); }
    r
}

/// Markers of key-binding settings.
pub open spec fn keybind_markers() -> Seq<Seq<char>> {
    seq!["key"@, "bind"@, "input"@, "actionmapping"@, "axismapping"@, "custominputsettings"@]
}

fn keybind_list() -> (r: [&'static str; 6])
    ensures
        views(r@) == keybind_markers(),
{
    let r = ["key", "bind", "input", "actionmapping", "axismapping", "custominputsettings"];
    proof { assert(views(r@) =~= keybind_markers()); }
    r
}

/// Markers of graphics settings.
pub open spec fn graphics_markers() -> Seq<Seq<char>> {
    seq!["resolution"@, "fullscreen"@, "windowmode"@, "screen"@, "render"@, "quality"@, "scalability"@, "shadow"@, "texture"@, "foliage"@, "effect"@, "postprocess"@, "antialias"@, "vsync"@, "motionblur"@, "sharpen"@, "framerate"@, "fps"@, "directx"@, "viewdistance"@, "sg."@]
}

fn graphics_list() -> (r: [&'static str; 21])
    ensures
        views(r@) == graphics_markers(),
{
    let r = ["resolution", "fullscreen", "windowmode", "screen", "render", "quality", "scalability", "shadow", "texture", "foliage", "effect", "postprocess", "antialias", "vsync", "motionblur", "sharpen", "framerate", "fps", "directx", "viewdistance", "sg."];
    proof { assert(views(r@) =~= graphics_markers()); }
    r
}

/// Markers of audio settings.
pub open spec fn audio_markers() -> Seq<Seq<char>> {
    seq!["audio"@, "sound"@, "volume"@, "voice"@, "music"@, "mastervolume"@, "effectvolume"@, "uivolume"@, "mic"@]
}

fn audio_list() -> (r: [&'static str; 9])
    ensures
        views(r@) == audio_markers(),
{
    let r = ["audio", "sound", "volume", "voice", "music", "mastervolume", "effectvolume", "uivolume", "mic"];
    proof { assert(views(r@) =~= audio_markers()); }
    r
}

/// Markers of gameplay settings.
pub open spec fn gameplay_markers() -> Seq<Seq<char>> {
    seq!["sensitive"@, "sensitivity"@, "mouse"@, "fov"@, "gameplay"@, "toggle"@, "hold"@, "lean"@, "scope"@, "ads"@, "aim"@, "tslpersistantdata"@]
}

fn gameplay_list() -> (r: [&'static str; 12])
    ensures
        views(r@) == gameplay_markers(),
{
    let r = ["sensitive", "sensitivity", "mouse", "fov", "gameplay", "toggle", "hold", "lean", "scope", "ads", "aim", "tslpersistantdata"];
    proof { assert(views(r@) =~= gameplay_markers()); }
    r
}


/// A file id is one of the three allowed INI names (any ASCII case) with no path characters.
pub open spec fn spec_safe_file_id(v: Seq<char>) -> bool {
    &&& (eq_ignore_case(v, "GameUserSettings.ini"@) || eq_ignore_case(v, "Input.ini"@) || eq_ignore_case(v, "Scalability.ini"@))
    &&& !contains_sub(v, "/"@)
    &&& !contains_sub(v, "\\"@)
    &&& !contains_sub(v, ".."@)
}

/// Whether a file id names one of the allowed PUBG configuration files.
pub fn safe_file_id(value: &[char]) -> (r: bool)
    ensures
        r == spec_safe_file_id(value@),
{
    (eq_ignore_case_str(value, "GameUserSettings.ini") || eq_ignore_case_str(value, "Input.ini")
        || eq_ignore_case_str(value, "Scalability.ini")) && !contains_str(value, "/") && !contains_str(value, "\\")
        && !contains_str(value, "..")
}

/// `a`, a space, then `b`.
pub open spec fn spaced(a: Seq<char>, b: Seq<char>) -> Seq<char> {
    a + seq![' '] + b
}

fn spaced_chars(a: &[char], b: &[char]) -> (r: Vec<char>)
    ensures
        r@ == spaced(a@, b@),
{
    let mut r = sub_chars(a, 0, a.len());
    proof { assert(a@.subrange(0, a@.len() as int) =~= a@); }
    r.push(' ');
    extend_chars(&mut r, b);
    r
}

/// An entry's section or key names a secret or a hardware-specific value.
pub open spec fn spec_forbidden_entry(section: Seq<char>, key: Seq<char>) -> bool {
    contains_any(lower(spaced(section, key)), forbidden_markers())
}

/// Whether an entry must never be stored, judged by its section and key.
pub fn forbidden_entry(section: &[char], key: &[char], _value: &[char]) -> (r: bool)
    ensures
        r == spec_forbidden_entry(section@, key@),
{
    let t = spaced_chars(section, key);
    let l = lower_chars(t.as_slice());
    let markers = forbidden_list();
    contains_any_str(l.as_slice(), &markers)
}

/// An identifier inside a structured value names a secret or a hardware-specific value.
pub open spec fn spec_sensitive_identifier(identifier: Seq<char>) -> bool {
    contains_any(lower(identifier), forbidden_markers())
}

/// Whether an identifier inside a structured value must be redacted.
pub fn sensitive_identifier(identifier: &[char]) -> (r: bool)
    ensures
        r == spec_sensitive_identifier(identifier@),
{
    let l = lower_chars(identifier);
    let markers = forbidden_list();
    contains_any_str(l.as_slice(), &markers)
}

/// The categories of a setting, in sorted order ("audio", "gameplay", "graphics", "keybinds").
pub open spec fn spec_categories(file: Seq<char>, section: Seq<char>, key: Seq<char>, value: Seq<char>) -> Seq<Seq<char>> {
    let t = lower(spaced(spaced(section, key), value));
    let kb = eq_ignore_case(file, "Input.ini"@) || contains_any(t, keybind_markers());
    let gr = eq_ignore_case(file, "Scalability.ini"@) || contains_any(t, graphics_markers());
    let au = contains_any(t, audio_markers());
    let gp = contains_any(t, gameplay_markers()) || (!kb && !gr && !au && eq_ignore_case(file, "GameUserSettings.ini"@));
    (if au { seq!["audio"@] } else { Seq::empty() }) + (if gp { seq!["gameplay"@] } else { Seq::empty() }) + (if gr {
        seq!["graphics"@]
    } else {
        Seq::empty()
    }) + (if kb { seq!["keybinds"@] } else { Seq::empty() })
}

/// Classifies a setting into gameplay, key-binding, graphics and audio categories; a
/// GameUserSettings.ini value that matches nothing counts as gameplay.
pub fn categories_for(file: &[char], section: &[char], key: &[char], value: &[char]) -> (r: Vec<String>)
    ensures
        strings_view(r@) == spec_categories(file@, section@, key@, value@),
{
    let a = spaced_chars(section, key);
    let b = spaced_chars(a.as_slice(), value);
    let t = lower_chars(b.as_slice());
    let kl = keybind_list();
    let gl = graphics_list();
    let al = audio_list();
    let pl = gameplay_list();
    let kb = eq_ignore_case_str(file, "Input.ini") || contains_any_str(t.as_slice(), &kl);
    let gr = eq_ignore_case_str(file, "Scalability.ini") || contains_any_str(t.as_slice(), &gl);
    let au = contains_any_str(t.as_slice(), &al);
    let gp = contains_any_str(t.as_slice(), &pl) || (!kb && !gr && !au && eq_ignore_case_str(file, "GameUserSettings.ini"));
    let mut out: Vec<String> = Vec::new();
    if au {
        out.push(String::from_str("audio"));
    }
    if gp {
        out.push(String::from_str("gameplay"));
    }
    if gr {
        out.push(String::from_str("graphics"));
    }
    if kb {
        out.push(String::from_str("keybinds"));
    }
    proof {
        assert(strings_view(out@) =~= spec_categories(file@, section@, key@, value@));
    }
    out
}

/// Only portable sections of each allowed file are kept, and never a forbidden entry.
pub open spec fn spec_entry_allowed(file: Seq<char>, section: Seq<char>, key: Seq<char>) -> bool {
    &&& !spec_forbidden_entry(section, key)
    &&& if eq_ignore_case(file, "GameUserSettings.ini"@) {
        let s = lower(section);
        contains_sub(s, "tslgameusersettings"@) || contains_sub(s, "gameusersettings"@) || contains_sub(s, "scalabilitygroups"@)
    } else if eq_ignore_case(file, "Input.ini"@) {
        contains_sub(lower(section), "input"@)
    } else {
        eq_ignore_case(file, "Scalability.ini"@) && (contains_sub(lower(section), "scalability"@) || has_prefix(lower(key), "sg."@))
    }
}

/// Whether an entry may be stored in a profile.
pub fn entry_allowed(file: &[char], section: &[char], key: &[char], value: &[char]) -> (r: bool)
    ensures
        r == spec_entry_allowed(file@, section@, key@),
{
    if forbidden_entry(section, key, value) {
        return false;
    }
    let s = lower_chars(section);
    if eq_ignore_case_str(file, "GameUserSettings.ini") {
        return contains_str(s.as_slice(), "tslgameusersettings") || contains_str(s.as_slice(), "gameusersettings")
            || contains_str(s.as_slice(), "scalabilitygroups");
    }
    if eq_ignore_case_str(file, "Input.ini") {
        return contains_str(s.as_slice(), "input");
    }
    let k = lower_chars(key);
    eq_ignore_case_str(file, "Scalability.ini") && (contains_str(s.as_slice(), "scalability") || starts_with_str(k.as_slice(), "sg."))
}

/// The executable names under which PUBG runs.
pub open spec fn spec_is_pubg_process_name(name: Seq<char>) -> bool {
    eq_ignore_case(name, "TslGame.exe"@) || eq_ignore_case(name, "TslGame_BE.exe"@) || eq_ignore_case(name, "TslGame_UC.exe"@)
        || eq_ignore_case(name, "ExecPubg.exe"@)
}

/// The install folder name that a line of an app manifest gives: the text between the third
/// and fourth quote when the text between the first two, trimmed, is "installdir".
pub open spec fn spec_manifest_install_dir(line: Seq<char>) -> Option<Seq<char>> {
    let parts = crate::cs2::split_at_char(line, '"');
    if parts.len() >= 4 && trim(parts[1]) == "installdir"@ { Some(parts[3]) } else { None }
}

/// The install folder name on a line of PUBG's app manifest, if the line gives one.
pub fn manifest_install_dir(line: &str) -> (r: Option<String>)
    ensures
        match spec_manifest_install_dir(line@) {
            Some(p) => r matches Some(s) && s@ == p,
            None => r is None,
        },
{
    let c = chars_of(line);
    let parts = crate::cs2::split_char_pub(c.as_slice(), '"');
    proof { assert(char_lines(parts@).len() == parts@.len()); }
    if parts.len() >= 4 {
        let t = trim_chars(parts[1].as_slice());
        proof {
            assert(char_lines(parts@)[1] == parts@[1]@);
            assert(char_lines(parts@)[3] == parts@[3]@);
        }
        if chars_eq_str(t.as_slice(), "installdir") {
            return Some(string_of(parts[3].as_slice()));
        }
    }
    None
}

/// Whether a process name is one of PUBG's launch executables (any ASCII case).
pub fn is_pubg_process_name(name: &str) -> (r: bool)
    ensures
        r == spec_is_pubg_process_name(name@),
{
    let n = chars_of(name);
    eq_ignore_case_str(n.as_slice(), "TslGame.exe") || eq_ignore_case_str(n.as_slice(), "TslGame_BE.exe")
        || eq_ignore_case_str(n.as_slice(), "TslGame_UC.exe") || eq_ignore_case_str(n.as_slice(), "ExecPubg.exe")
}


/// An ASCII letter.
pub open spec fn is_ascii_alpha(c: char) -> bool {
    ('a' <= c && c <= 'z') || ('A' <= c && c <= 'Z')
}

/// A character that may start an identifier inside a structured value.
pub open spec fn ident_start(c: char) -> bool {
    is_ascii_alpha(c) || c == '_'
}

/// A character that may continue an identifier inside a structured value.
pub open spec fn ident_char(c: char) -> bool {
    is_ascii_alpha(c) || ('0' <= c && c <= '9') || c == '_' || c == '.'
}

/// ASCII white space as `u8::is_ascii_whitespace` defines it.
pub open spec fn is_ascii_ws(c: char) -> bool {
    c == ' ' || c == '\t' || c == '\n' || c == '\u{0C}' || c == '\r'
}

/// The end of the run of identifier characters starting at `i`.
pub open spec fn ident_end(s: Seq<char>, i: int) -> int
    decreases s.len() - i,
{
    if 0 <= i < s.len() && ident_char(s[i]) {
        ident_end(s, i + 1)
    } else {
        i
    }
}

/// The end of the run of ASCII white space starting at `i`.
pub open spec fn ws_end(s: Seq<char>, i: int) -> int
    decreases s.len() - i,
{
    if 0 <= i < s.len() && is_ascii_ws(s[i]) {
        ws_end(s, i + 1)
    } else {
        i
    }
}

/// The end of a value that starts at `i`: the first ',' or unmatched ')' outside quotes and
/// parentheses, or the end of the text.
pub open spec fn value_end(s: Seq<char>, i: int, depth: nat, quoted: bool, escaped: bool) -> int
    decreases s.len() - i,
{
    if !(0 <= i < s.len()) {
        i
    } else {
        let c = s[i];
        if quoted {
            if escaped {
                value_end(s, i + 1, depth, true, false)
            } else if c == '\\' {
                value_end(s, i + 1, depth, true, true)
            } else if c == '"' {
                value_end(s, i + 1, depth, false, false)
            } else {
                value_end(s, i + 1, depth, true, false)
            }
        } else if c == '"' {
            value_end(s, i + 1, depth, true, false)
        } else if c == '(' {
            value_end(s, i + 1, depth + 1, false, false)
        } else if c == ')' {
            if depth == 0 {
                i
            } else {
                value_end(s, i + 1, (depth - 1) as nat, false, false)
            }
        } else if c == ',' && depth == 0 {
            i
        } else {
            value_end(s, i + 1, depth, false, false)
        }
    }
}

pub proof fn lemma_ident_end(s: Seq<char>, i: int)
    requires
        0 <= i <= s.len(),
    ensures
        i <= ident_end(s, i) <= s.len(),
    decreases s.len() - i,
{
    if i < s.len() && ident_char(s[i]) {
        lemma_ident_end(s, i + 1);
    }
}

pub proof fn lemma_ws_end(s: Seq<char>, i: int)
    requires
        0 <= i <= s.len(),
    ensures
        i <= ws_end(s, i) <= s.len(),
    decreases s.len() - i,
{
    if i < s.len() && is_ascii_ws(s[i]) {
        lemma_ws_end(s, i + 1);
    }
}

pub proof fn lemma_value_end(s: Seq<char>, i: int, depth: nat, quoted: bool, escaped: bool)
    requires
        0 <= i <= s.len(),
    ensures
        i <= value_end(s, i, depth, quoted, escaped) <= s.len(),
    decreases s.len() - i,
{
    if i < s.len() {
        let c = s[i];
        if quoted {
            if escaped {
                lemma_value_end(s, i + 1, depth, true, false);
            } else if c == '\\' {
                lemma_value_end(s, i + 1, depth, true, true);
            } else if c == '"' {
                lemma_value_end(s, i + 1, depth, false, false);
            } else {
                lemma_value_end(s, i + 1, depth, true, false);
            }
        } else if c == '"' {
            lemma_value_end(s, i + 1, depth, true, false);
        } else if c == '(' {
            lemma_value_end(s, i + 1, depth + 1, false, false);
        } else if c == ')' {
            if depth != 0 {
                lemma_value_end(s, i + 1, (depth - 1) as nat, false, false);
            }
        } else if c == ',' && depth == 0 {
        } else {
            lemma_value_end(s, i + 1, depth, false, false);
        }
    }
}

/// Redaction of a structured value from position `i` on: every `identifier = value` whose
/// identifier names a secret or hardware value has its value replaced by `""`; the rest is kept.
/// The second component counts the redactions.
pub open spec fn redact_from(s: Seq<char>, i: int) -> (Seq<char>, nat)
    decreases s.len() - i,
{
    if !(0 <= i < s.len()) {
        (Seq::empty(), 0)
    } else if !ident_start(s[i]) {
        let r = redact_from(s, i + 1);
        (seq![s[i]] + r.0, r.1)
    } else {
        let e = ident_end(s, i + 1);
        let q = ws_end(s, e);
        proof {
            lemma_ident_end(s, i + 1);
            lemma_ws_end(s, e);
        }
        if q >= s.len() || s[q] != '=' || !spec_sensitive_identifier(s.subrange(i, e)) {
            let r = redact_from(s, e);
            (s.subrange(i, e) + r.0, r.1)
        } else {
            let v0 = ws_end(s, q + 1);
            proof {
                lemma_ws_end(s, q + 1);
                lemma_value_end(s, v0, 0, false, false);
            }
            let v1 = value_end(s, v0, 0, false, false);
            let r = redact_from(s, v1);
            (s.subrange(i, e) + seq!['=', '"', '"'] + r.0, r.1 + 1)
        }
    }
}

/// Redacts secret or hardware-specific fields inside a nested Unreal struct value in place, keeping
/// every other field; returns the new value and how many fields were redacted.
pub fn redact_structured_value(value: &[char]) -> (r: (Vec<char>, usize))
    ensures
        r.0@ == redact_from(value@, 0).0,
        r.1 == redact_from(value@, 0).1,
        r.1 <= value@.len(),
{
    let n = value.len();
    let mut out: Vec<char> = Vec::new();
    let mut cursor: usize = 0;
    let mut redacted: usize = 0;
    while cursor < n
        invariant
            n == value@.len(),
            cursor <= n,
            redacted <= cursor,
            redact_from(value@, 0).0 == out@ + redact_from(value@, cursor as int).0,
            redact_from(value@, 0).1 == redacted + redact_from(value@, cursor as int).1,
        decreases n - cursor,
    {
        let start = cursor;
        let c = value[cursor];
        if !(('a' <= c && c <= 'z') || ('A' <= c && c <= 'Z') || c == '_') {
            out.push(c);
            cursor = cursor + 1;
            proof {
                assert(out@ =~= out@.drop_last() + seq![c]);
            }
        } else {
            let mut e: usize = cursor + 1;
            while e < n && (('a' <= value[e] && value[e] <= 'z') || ('A' <= value[e] && value[e] <= 'Z') || ('0' <= value[e] && value[e] <= '9') || value[e] == '_' || value[e] == '.')
                invariant
                    n == value@.len(),
                    start < e <= n,
                    ident_end(value@, e as int) == ident_end(value@, start + 1),
                decreases n - e,
            {
                e = e + 1;
            }
            let mut q: usize = e;
            while q < n && (value[q] == ' ' || value[q] == '\t' || value[q] == '\n' || value[q] == '\u{0C}' || value[q] == '\r')
                invariant
                    n == value@.len(),
                    e <= q <= n,
                    ws_end(value@, q as int) == ws_end(value@, e as int),
                decreases n - q,
            {
                q = q + 1;
            }
            let identifier = sub_chars(value, start, e);
            proof {
                assert(ident_end(value@, start + 1) == e);
                assert(ws_end(value@, e as int) == q);
                lemma_ident_end(value@, start + 1);
                lemma_ws_end(value@, e as int);
            }
            if q >= n || value[q] != '=' || !sensitive_identifier(identifier.as_slice()) {
                extend_chars(&mut out, identifier.as_slice());
                proof {
                    assert(redact_from(value@, start as int) == (identifier@ + redact_from(value@, e as int).0, redact_from(value@, e as int).1));
                }
                cursor = e;
                proof {
                    assert(out@ =~= out@.subrange(0, out@.len() - identifier@.len()) + identifier@);
                }
            } else {
                extend_chars(&mut out, identifier.as_slice());
                out.push('=');
                out.push('"');
                out.push('"');
                let mut v: usize = q + 1;
                while v < n && (value[v] == ' ' || value[v] == '\t' || value[v] == '\n' || value[v] == '\u{0C}' || value[v] == '\r')
                    invariant
                        n == value@.len(),
                        q < v <= n,
                        ws_end(value@, v as int) == ws_end(value@, q + 1),
                    decreases n - v,
                {
                    v = v + 1;
                }
                let v0 = v;
                proof { assert(ws_end(value@, q + 1) == v0); }
                let mut depth: u64 = 0;
                let mut quoted = false;
                let mut escaped = false;
                while v < n
                    invariant
                        n == value@.len(),
                        v0 <= v <= n,
                        depth <= v - v0,
                        !quoted ==> !escaped,
                        value_end(value@, v as int, depth as nat, quoted, escaped) == value_end(value@, v0 as int, 0, false, false),
                    ensures
                        v0 <= v <= n,
                        v == value_end(value@, v0 as int, 0, false, false),
                    decreases n - v,
                {
                    let ch = value[v];
                    if quoted {
                        if escaped {
                            escaped = false;
                        } else if ch == '\\' {
                            escaped = true;
                        } else if ch == '"' {
                            quoted = false;
                        }
                    } else if ch == '"' {
                        quoted = true;
                    } else if ch == '(' {
                        depth = depth + 1;
                    } else if ch == ')' {
                        if depth == 0 {
                            break;
                        }
                        depth = depth - 1;
                    } else if ch == ',' && depth == 0 {
                        break;
                    }
                    v = v + 1;
                }
                proof {
                    lemma_ident_end(value@, start + 1);
                    let r = redact_from(value@, v as int);
                    assert(redact_from(value@, start as int).0 == identifier@ + seq!['=', '"', '"'] + r.0);
                    assert(out@ =~= out@.subrange(0, out@.len() - identifier@.len() - 3) + identifier@ + seq!['=', '"', '"']);
                }
                cursor = v;
                redacted = redacted + 1;
            }
        }
    }
    (out, redacted)
}

proof fn lemma_ident_end_run(s: Seq<char>, i: int)
    requires
        0 <= i <= s.len(),
    ensures
        forall|x: int| i <= x < ident_end(s, i) ==> ident_char(#[trigger] s[x]),
        ident_end(s, i) == s.len() || !ident_char(s[ident_end(s, i)]),
    decreases s.len() - i,
{
    lemma_ident_end(s, i);
    if i < s.len() && ident_char(s[i]) {
        lemma_ident_end_run(s, i + 1);
    }
}

proof fn lemma_ws_end_run(s: Seq<char>, i: int)
    requires
        0 <= i <= s.len(),
    ensures
        forall|x: int| i <= x < ws_end(s, i) ==> is_ascii_ws(#[trigger] s[x]),
        ws_end(s, i) == s.len() || !is_ascii_ws(s[ws_end(s, i)]),
    decreases s.len() - i,
{
    lemma_ws_end(s, i);
    if i < s.len() && is_ascii_ws(s[i]) {
        lemma_ws_end_run(s, i + 1);
    }
}

proof fn lemma_ident_end_at(t: Seq<char>, j: int, m: int)
    requires
        0 <= j <= m <= t.len(),
        forall|x: int| j <= x < m ==> ident_char(#[trigger] t[x]),
        m == t.len() || !ident_char(t[m]),
    ensures
        ident_end(t, j) == m,
    decreases m - j,
{
    if j < m {
        lemma_ident_end_at(t, j + 1, m);
    }
}

proof fn lemma_ws_end_at(t: Seq<char>, j: int, m: int)
    requires
        0 <= j <= m <= t.len(),
        forall|x: int| j <= x < m ==> is_ascii_ws(#[trigger] t[x]),
        m == t.len() || !is_ascii_ws(t[m]),
    ensures
        ws_end(t, j) == m,
    decreases m - j,
{
    if j < m {
        lemma_ws_end_at(t, j + 1, m);
    }
}

/// A value ends at a ',' or a ')', or at the end of the text.
proof fn lemma_value_end_stop(s: Seq<char>, i: int, depth: nat, quoted: bool, escaped: bool)
    requires
        0 <= i <= s.len(),
    ensures
        value_end(s, i, depth, quoted, escaped) < s.len() ==> (s[value_end(s, i, depth, quoted, escaped)] == ','
            || s[value_end(s, i, depth, quoted, escaped)] == ')'),
    decreases s.len() - i,
{
    if i < s.len() {
        let c = s[i];
        if quoted {
            if escaped {
                lemma_value_end_stop(s, i + 1, depth, true, false);
            } else if c == '\\' {
                lemma_value_end_stop(s, i + 1, depth, true, true);
            } else if c == '"' {
                lemma_value_end_stop(s, i + 1, depth, false, false);
            } else {
                lemma_value_end_stop(s, i + 1, depth, true, false);
            }
        } else if c == '"' {
            lemma_value_end_stop(s, i + 1, depth, true, false);
        } else if c == '(' {
            lemma_value_end_stop(s, i + 1, depth + 1, false, false);
        } else if c == ')' {
            if depth != 0 {
                lemma_value_end_stop(s, i + 1, (depth - 1) as nat, false, false);
            }
        } else if c == ',' && depth == 0 {
        } else {
            lemma_value_end_stop(s, i + 1, depth, false, false);
        }
    }
}

proof fn lemma_ident_end_shift(t: Seq<char>, k: int, j: int)
    requires
        0 <= k <= t.len(),
        0 <= j,
    ensures
        ident_end(t, k + j) == k + ident_end(t.skip(k), j),
    decreases t.len() - (k + j),
{
    if k + j < t.len() {
        assert(t.skip(k)[j] == t[k + j]);
        if ident_char(t[k + j]) {
            lemma_ident_end_shift(t, k, j + 1);
        }
    }
}

proof fn lemma_ws_end_shift(t: Seq<char>, k: int, j: int)
    requires
        0 <= k <= t.len(),
        0 <= j,
    ensures
        ws_end(t, k + j) == k + ws_end(t.skip(k), j),
    decreases t.len() - (k + j),
{
    if k + j < t.len() {
        assert(t.skip(k)[j] == t[k + j]);
        if is_ascii_ws(t[k + j]) {
            lemma_ws_end_shift(t, k, j + 1);
        }
    }
}

proof fn lemma_value_end_shift(t: Seq<char>, k: int, j: int, depth: nat, quoted: bool, escaped: bool)
    requires
        0 <= k <= t.len(),
        0 <= j,
    ensures
        value_end(t, k + j, depth, quoted, escaped) == k + value_end(t.skip(k), j, depth, quoted, escaped),
    decreases t.len() - (k + j),
{
    if k + j < t.len() {
        let c = t[k + j];
        assert(t.skip(k)[j] == c);
        if quoted {
            if escaped {
                lemma_value_end_shift(t, k, j + 1, depth, true, false);
            } else if c == '\\' {
                lemma_value_end_shift(t, k, j + 1, depth, true, true);
            } else if c == '"' {
                lemma_value_end_shift(t, k, j + 1, depth, false, false);
            } else {
                lemma_value_end_shift(t, k, j + 1, depth, true, false);
            }
        } else if c == '"' {
            lemma_value_end_shift(t, k, j + 1, depth, true, false);
        } else if c == '(' {
            lemma_value_end_shift(t, k, j + 1, depth + 1, false, false);
        } else if c == ')' {
            if depth != 0 {
                lemma_value_end_shift(t, k, j + 1, (depth - 1) as nat, false, false);
            }
        } else if c == ',' && depth == 0 {
        } else {
            lemma_value_end_shift(t, k, j + 1, depth, false, false);
        }
    }
}

/// Redaction from position `k + j` of a text is redaction from `j` of the text without its first
/// `k` characters.
proof fn lemma_redact_shift(t: Seq<char>, k: int, j: int)
    requires
        0 <= k <= t.len(),
        0 <= j,
    ensures
        redact_from(t, k + j) == redact_from(t.skip(k), j),
    decreases t.len() - (k + j),
{
    let u = t.skip(k);
    if k + j < t.len() {
        assert(u[j] == t[k + j]);
        if !ident_start(t[k + j]) {
            lemma_redact_shift(t, k, j + 1);
        } else {
            lemma_ident_end_shift(t, k, j + 1);
            lemma_ident_end(u, j + 1);
            let e = ident_end(u, j + 1);
            lemma_ws_end_shift(t, k, e);
            lemma_ws_end(u, e);
            let q = ws_end(u, e);
            assert(t.subrange(k + j, k + e) =~= u.subrange(j, e));
            if q < u.len() {
                assert(u[q] == t[k + q]);
            }
            if q >= u.len() || u[q] != '=' || !spec_sensitive_identifier(u.subrange(j, e)) {
                lemma_redact_shift(t, k, e);
            } else {
                lemma_ws_end_shift(t, k, q + 1);
                lemma_ws_end(u, q + 1);
                let v0 = ws_end(u, q + 1);
                lemma_value_end_shift(t, k, v0, 0, false, false);
                lemma_value_end(u, v0, 0, false, false);
                lemma_redact_shift(t, k, value_end(u, v0, 0, false, false));
            }
        }
    }
}

/// Redaction starting at a character copies it first; from the end of the text it gives nothing.
proof fn lemma_redact_first(s: Seq<char>, i: int)
    requires
        0 <= i <= s.len(),
    ensures
        i == s.len() ==> redact_from(s, i).0.len() == 0,
        i < s.len() ==> redact_from(s, i).0.len() > 0 && redact_from(s, i).0[0] == s[i],
{
    if i < s.len() && ident_start(s[i]) {
        lemma_ident_end(s, i + 1);
    }
}

/// A run of characters that cannot start an identifier is copied unchanged.
proof fn lemma_redact_copy_run(s: Seq<char>, a: int, b: int)
    requires
        0 <= a <= b <= s.len(),
        forall|x: int| a <= x < b ==> !ident_start(#[trigger] s[x]),
    ensures
        redact_from(s, a).0 == s.subrange(a, b) + redact_from(s, b).0,
        redact_from(s, a).1 == redact_from(s, b).1,
    decreases b - a,
{
    if a < b {
        lemma_redact_copy_run(s, a + 1, b);
        assert(s.subrange(a, b) =~= seq![s[a]] + s.subrange(a + 1, b));
    } else {
        assert(s.subrange(a, b) =~= Seq::<char>::empty());
    }
}

/// Redacting the output of a redaction again changes nothing; a redaction that counted nothing
/// kept the text as it was.
proof fn lemma_redact_idempotent(s: Seq<char>, i: int)
    requires
        0 <= i <= s.len(),
    ensures
        redact_from(redact_from(s, i).0, 0).0 == redact_from(s, i).0,
        redact_from(s, i).1 == 0 ==> redact_from(s, i).0 == s.subrange(i, s.len() as int),
    decreases s.len() - i,
{
    let o = redact_from(s, i).0;
    if i == s.len() {
        assert(o.len() == 0);
        assert(o =~= Seq::<char>::empty());
        assert(s.subrange(i, s.len() as int) =~= Seq::<char>::empty());
    } else if !ident_start(s[i]) {
        let r = redact_from(s, i + 1);
        lemma_redact_idempotent(s, i + 1);
        assert(o[0] == s[i]);
        lemma_redact_shift(o, 1, 0);
        assert(o.skip(1) =~= r.0);
        assert(redact_from(o, 0).0 =~= o);
        assert(s.subrange(i, s.len() as int) =~= seq![s[i]] + s.subrange(i + 1, s.len() as int));
    } else {
        lemma_ident_end(s, i + 1);
        lemma_ident_end_run(s, i + 1);
        let e = ident_end(s, i + 1);
        lemma_ws_end(s, e);
        lemma_ws_end_run(s, e);
        let q = ws_end(s, e);
        let n = e - i;
        if q >= s.len() || s[q] != '=' || !spec_sensitive_identifier(s.subrange(i, e)) {
            let r = redact_from(s, e);
            lemma_redact_idempotent(s, e);
            lemma_redact_copy_run(s, e, q);
            lemma_redact_first(s, q);
            let rq = redact_from(s, q).0;
            assert(o =~= s.subrange(i, q) + rq);
            assert forall|x: int| 0 <= x <= q - i && i + x < s.len() implies o[x] == s[i + x] by {
                if x < q - i {
                    assert(o[x] == s.subrange(i, q)[x]);
                } else {
                    assert(o[x] == rq[0]);
                }
            }
            assert(o.len() > q - i <==> q < s.len());
            lemma_ident_end_at(o, 1, n);
            lemma_ws_end_at(o, n, q - i);
            assert(o.subrange(0, n) =~= s.subrange(i, e));
            assert(ident_start(o[0]));
            lemma_redact_shift(o, n, 0);
            assert(o.skip(n) =~= r.0);
            assert(redact_from(o, 0).0 =~= o);
            if redact_from(s, i).1 == 0 {
                assert(s.subrange(i, s.len() as int) =~= s.subrange(i, e) + s.subrange(e, s.len() as int));
            }
        } else {
            lemma_ws_end(s, q + 1);
            let v0 = ws_end(s, q + 1);
            lemma_value_end(s, v0, 0, false, false);
            lemma_value_end_stop(s, v0, 0, false, false);
            let v1 = value_end(s, v0, 0, false, false);
            let r = redact_from(s, v1);
            lemma_redact_idempotent(s, v1);
            lemma_redact_first(s, v1);
            assert(o =~= s.subrange(i, e) + seq!['=', '"', '"'] + r.0);
            assert(o[n] == '=');
            assert(o[n + 1] == '"');
            assert(o[n + 2] == '"');
            lemma_ident_end_at(o, 1, n);
            lemma_ws_end_at(o, n, n);
            lemma_ws_end_at(o, n + 1, n + 1);
            assert(o.subrange(0, n) =~= s.subrange(i, e));
            assert(ident_start(o[0]));
            if o.len() > n + 3 {
                assert(o[n + 3] == r.0[0]);
            }
            assert(value_end(o, n + 3, 0, false, false) == n + 3);
            assert(value_end(o, n + 2, 0, true, false) == n + 3);
            assert(value_end(o, n + 1, 0, false, false) == n + 3);
            lemma_redact_shift(o, n + 3, 0);
            assert(o.skip(n + 3) =~= r.0);
            assert(redact_from(o, 0).0 =~= o);
        }
    }
}

/// Law: redaction is idempotent. Redacting an already redacted value changes nothing, and a
/// redaction that redacted no field gave the value back unchanged.
pub proof fn law_redaction_idempotent(v: Seq<char>)
    ensures
        redact_from(redact_from(v, 0).0, 0).0 == redact_from(v, 0).0,
        redact_from(v, 0).1 == 0 ==> redact_from(v, 0).0 == v,
{
    lemma_redact_idempotent(v, 0);
    assert(v.subrange(0, v.len() as int) =~= v);
}


/// The parser's state between lines: the current section, the kept entries, and how many values
/// were left out.
pub ghost struct ParseState {
    pub section: Seq<char>,
    pub entries: Seq<EntryView>,
    pub excluded: nat,
}

/// A key with its leading array operator (`+`, `-`, `!` or `.`) split off.
pub open spec fn split_operator(raw_key: Seq<char>) -> (Seq<char>, Seq<char>) {
    if raw_key.len() > 0 && (raw_key[0] == '+' || raw_key[0] == '-' || raw_key[0] == '!' || raw_key[0] == '.') {
        (seq![raw_key[0]], trim(raw_key.skip(1)))
    } else {
        (Seq::empty(), raw_key)
    }
}

/// One line of an INI file applied to the parser state (`index` counts lines from 0).
pub open spec fn parse_line(file: Seq<char>, raw: Seq<char>, index: int, st: ParseState) -> Result<ParseState, Seq<char>> {
    let line = trim(raw);
    let number = decimal((index + 1) as nat);
    if utf8_len(raw) > MAX_VALUE_BYTES {
        Err(file + " line "@ + number + " exceeds the safe size limit."@)
    } else if line.len() == 0 || line[0] == ';' || line[0] == '#' {
        Ok(st)
    } else if line[0] == '[' && line.last() == ']' {
        let sec = trim(line.subrange(1, line.len() - 1));
        if sec.len() == 0 || utf8_len(sec) > 512 {
            Err("Malformed section in "@ + file + " at line "@ + number + "."@)
        } else {
            Ok(ParseState { section: sec, entries: st.entries, excluded: st.excluded })
        }
    } else {
        match index_of(line, '=') {
            None => Ok(st),
            Some(k) => {
                let (operator, key) = split_operator(trim(line.take(k)));
                if st.section.len() == 0 || key.len() == 0 || utf8_len(key) > 512 {
                    Err("Malformed key in "@ + file + " at line "@ + number + "."@)
                } else {
                    let red = redact_from(trim(line.skip(k + 1)), 0);
                    let value = red.0;
                    let excluded = st.excluded + red.1;
                    if !spec_entry_allowed(file, st.section, key) {
                        Ok(ParseState { section: st.section, entries: st.entries, excluded: excluded + 1 })
                    } else {
                        let entry = EntryView {
                            section: st.section,
                            key: key,
                            operator: operator,
                            value: value,
                            categories: spec_categories(file, st.section, key, value),
                        };
                        let entries = st.entries.push(entry);
                        if entries.len() > MAX_ENTRIES {
                            Err(file + " contains too many portable settings."@)
                        } else {
                            Ok(ParseState { section: st.section, entries: entries, excluded: excluded })
                        }
                    }
                }
            },
        }
    }
}

/// The lines from `i` on applied in order; the first error stops the parse.
pub open spec fn parse_from(file: Seq<char>, ls: Seq<Seq<char>>, i: int, st: ParseState) -> Result<ParseState, Seq<char>>
    decreases ls.len() - i,
{
    if !(0 <= i < ls.len()) {
        Ok(st)
    } else {
        match parse_line(file, ls[i], i, st) {
            Err(e) => Err(e),
            Ok(next) => parse_from(file, ls, i + 1, next),
        }
    }
}

/// The portable entries of an INI text and the number of values left out, or the error.
pub open spec fn spec_parse_ini(file: Seq<char>, text: Seq<char>) -> Result<(Seq<EntryView>, nat), Seq<char>> {
    if !spec_safe_file_id(file) {
        Err("Unsafe PUBG configuration file identifier."@)
    } else if contains_sub(text, seq!['\0']) {
        Err(file + " contains a NUL byte."@)
    } else {
        match parse_from(file, lines(text), 0, ParseState { section: Seq::empty(), entries: Seq::empty(), excluded: 0 }) {
            Ok(st) => Ok((st.entries, st.excluded)),
            Err(e) => Err(e),
        }
    }
}

/// What capture guarantees of each entry it keeps: a section and a key, an allowed setting, and a
/// value that redaction leaves as it is.
pub open spec fn entry_captured_well(file: Seq<char>, e: EntryView) -> bool {
    &&& e.section.len() > 0
    &&& e.key.len() > 0
    &&& spec_entry_allowed(file, e.section, e.key)
    &&& redact_from(e.value, 0).0 == e.value
}

proof fn lemma_parse_from_captures_well(file: Seq<char>, ls: Seq<Seq<char>>, i: int, st: ParseState)
    requires
        0 <= i,
        forall|k: int| 0 <= k < st.entries.len() ==> entry_captured_well(file, #[trigger] st.entries[k]),
        parse_from(file, ls, i, st) is Ok,
    ensures
        forall|k: int| 0 <= k < parse_from(file, ls, i, st)->Ok_0.entries.len()
            ==> entry_captured_well(file, #[trigger] parse_from(file, ls, i, st)->Ok_0.entries[k]),
    decreases ls.len() - i,
{
    if i < ls.len() {
        let next = parse_line(file, ls[i], i, st)->Ok_0;
        let line = trim(ls[i]);
        match index_of(line, '=') {
            Some(k) => {
                law_redaction_idempotent(trim(line.skip(k + 1)));
            },
            None => {},
        }
        assert forall|k: int| 0 <= k < next.entries.len() implies entry_captured_well(file, #[trigger] next.entries[k]) by {
            if k < st.entries.len() {
                assert(entry_captured_well(file, st.entries[k]));
            }
        }
        lemma_parse_from_captures_well(file, ls, i + 1, next);
    }
}

/// Law: every entry that parsing an INI file keeps can be applied again. It has a section and a
/// key, it is an allowed setting, and its value holds no secret: redacting it again changes
/// nothing. The one exception is a value longer than the size limit.
pub proof fn law_parsed_entries_pass_validation(file: Seq<char>, text: Seq<char>)
    requires
        spec_parse_ini(file, text) is Ok,
    ensures
        forall|k: int| 0 <= k < spec_parse_ini(file, text)->Ok_0.0.len()
            ==> entry_captured_well(file, #[trigger] spec_parse_ini(file, text)->Ok_0.0[k]),
        forall|k: int| 0 <= k < spec_parse_ini(file, text)->Ok_0.0.len()
            && utf8_len(spec_parse_ini(file, text)->Ok_0.0[k].value) <= MAX_VALUE_BYTES
            ==> !entry_bad(file, #[trigger] spec_parse_ini(file, text)->Ok_0.0[k]),
{
    let st0 = ParseState { section: Seq::empty(), entries: Seq::empty(), excluded: 0 };
    lemma_parse_from_captures_well(file, lines(text), 0, st0);
}

fn message5(a: &[char], b: &str, c: &[char], d: &str) -> (r: String)
    ensures
        r@ == a@ + b@ + c@ + d@,
{
    let mut v = sub_chars(a, 0, a.len());
    proof { assert(a@.subrange(0, a@.len() as int) =~= a@); }
    push_str_chars(&mut v, b);
    extend_chars(&mut v, c);
    push_str_chars(&mut v, d);
    string_of(v.as_slice())
}

fn message2(a: &[char], b: &str) -> (r: String)
    ensures
        r@ == a@ + b@,
{
    let mut v = sub_chars(a, 0, a.len());
    proof { assert(a@.subrange(0, a@.len() as int) =~= a@); }
    push_str_chars(&mut v, b);
    string_of(v.as_slice())
}

/// Parses one allowed PUBG INI file into its portable entries, dropping comments, unsafe sections
/// and forbidden keys and redacting nested secrets; returns the entries and the number of values
/// left out, or the first error (unsafe file id, NUL byte, oversized line, malformed section or key,
/// too many entries).
pub fn parse_portable_ini(file: &str, text: &str) -> (r: Result<(Vec<PubgIniEntry>, usize), String>)
    ensures
        r matches Ok((es, n)) ==> spec_parse_ini(file@, text@) == Ok::<(Seq<EntryView>, nat), Seq<char>>((entries_view(es@), n as nat)),
        r matches Err(e) ==> spec_parse_ini(file@, text@) == Err::<(Seq<EntryView>, nat), Seq<char>>(e@),
{
    let f = chars_of(file);
    if !safe_file_id(f.as_slice()) {
        return Err(String::from_str("Unsafe PUBG configuration file identifier."));
    }
    let t = chars_of(text);
    if find_char(t.as_slice(), '\0').is_some() {
        proof {
            lemma_index_of_found(t@, '\0');
            let k = index_of(t@, '\0')->0;
            assert(t@.subrange(k, k + 1) =~= seq!['\0']);
            assert(occurs_at(t@, seq!['\0'], k));
        }
        return Err(message2(f.as_slice(), " contains a NUL byte."));
    }
    proof {
        lemma_index_of_found(t@, '\0');
        assert forall|k: int| !occurs_at(t@, seq!['\0'], k) by {
            if occurs_at(t@, seq!['\0'], k) {
                assert(t@.subrange(k, k + 1)[0] == t@[k]);
            }
        }
    }
    let ls = split_lines(t.as_slice());
    let ghost gl = lines(t@);
    proof {
        assert(ls@.map_values(|l: Vec<char>| l@) =~= gl);
        lemma_lines_total_len(t@);
    }
    let mut section: Vec<char> = Vec::new();
    let mut entries: Vec<PubgIniEntry> = Vec::new();
    let mut excluded: usize = 0;
    let ghost init = ParseState { section: Seq::empty(), entries: Seq::empty(), excluded: 0 };
    let mut i: usize = 0;
    let tl = t.len();
    proof {
        assert(section@ =~= Seq::<char>::empty());
        assert(entries_view(entries@) =~= Seq::<EntryView>::empty());
        assert(gl.take(0) =~= Seq::<Seq<char>>::empty());
    }
    while i < ls.len()
        invariant
            i <= ls@.len(),
            ls@.len() == gl.len(),
            forall|j: int| 0 <= j < ls@.len() ==> #[trigger] ls@[j]@ == gl[j],
            gl == lines(t@),
            init == (ParseState { section: Seq::empty(), entries: Seq::empty(), excluded: 0 }),
            f@ == file@,
            spec_safe_file_id(file@),
            !contains_sub(text@, seq!['\0']),
            t@ == text@,
            total_len(gl) <= t@.len(),
            t@.len() <= usize::MAX,
            excluded <= total_len(gl.take(i as int)),
            entries@.len() <= MAX_ENTRIES,
            parse_from(file@, gl, 0, init) == parse_from(file@, gl, i as int, ParseState { section: section@, entries: entries_view(entries@), excluded: excluded as nat }),
        decreases ls.len() - i,
    {
        let ghost st = ParseState { section: section@, entries: entries_view(entries@), excluded: excluded as nat };
        proof {
            lemma_total_len_prefix(gl, i as int);
            lemma_total_len_prefix(gl, (i + 1) as int);
        }
        let raw = &ls[i];
        let number = decimal_chars((i + 1) as u64);
        proof {
            assert(raw@ == gl[i as int]);
            assert(parse_from(file@, gl, i as int, st) == match parse_line(file@, gl[i as int], i as int, st) {
                Err(e) => Err(e),
                Ok(next) => parse_from(file@, gl, i + 1, next),
            });
        }
        if utf8_len_capped(raw.as_slice(), MAX_VALUE_BYTES) > MAX_VALUE_BYTES {
            let e = message5(f.as_slice(), " line ", number.as_slice(), " exceeds the safe size limit.");
            proof {
                assert(parse_line(file@, gl[i as int], i as int, st) == Err::<ParseState, Seq<char>>(e@));
                assert(parse_from(file@, gl, 0, init) == Err::<ParseState, Seq<char>>(e@));
                assert(lines(text@) == gl);
            }
            return Err(e);
        }
        let line = trim_chars(raw.as_slice());
        if line.len() == 0 || line[0] == ';' || line[0] == '#' {
            i = i + 1;
            continue;
        }
        if line[0] == '[' && line[line.len() - 1] == ']' {
            let inner = sub_chars(line.as_slice(), 1, line.len() - 1);
            let sec = trim_chars(inner.as_slice());
            if sec.len() == 0 || utf8_len_capped(sec.as_slice(), 512) > 512 {
                let mut m = chars_of("Malformed section in ");
                extend_chars(&mut m, f.as_slice());
                let e = message5(m.as_slice(), " at line ", number.as_slice(), ".");
                proof {
                    assert(line@.subrange(1, line@.len() - 1) == inner@);
                    assert(parse_line(file@, gl[i as int], i as int, st) == Err::<ParseState, Seq<char>>(e@));
                    assert(parse_from(file@, gl, 0, init) == Err::<ParseState, Seq<char>>(e@));
                    assert(lines(text@) == gl);
                }
                return Err(e);
            }
            section = sec;
            i = i + 1;
            continue;
        }
        let eq = find_char(line.as_slice(), '=');
        match eq {
            None => {
                i = i + 1;
                continue;
            },
            Some(k) => {
                proof { lemma_index_of_found(line@, '='); }
                let before = sub_chars(line.as_slice(), 0, k);
                let raw_key = trim_chars(before.as_slice());
                let mut operator: Vec<char> = Vec::new();
                let key: Vec<char>;
                if raw_key.len() > 0 && (raw_key[0] == '+' || raw_key[0] == '-' || raw_key[0] == '!' || raw_key[0] == '.') {
                    operator.push(raw_key[0]);
                    let rest = sub_chars(raw_key.as_slice(), 1, raw_key.len());
                    key = trim_chars(rest.as_slice());
                    proof {
                        assert(operator@ =~= seq![raw_key@[0]]);
                        assert(raw_key@.subrange(1, raw_key@.len() as int) =~= raw_key@.skip(1));
                    }
                } else {
                    key = raw_key;
                }
                proof {
                    assert(line@.subrange(0, k as int) =~= line@.take(k as int));
                    assert(split_operator(trim(line@.take(k as int))) == (operator@, key@));
                }
                if section.len() == 0 || key.len() == 0 || utf8_len_capped(key.as_slice(), 512) > 512 {
                    let mut m = chars_of("Malformed key in ");
                    extend_chars(&mut m, f.as_slice());
                    return Err(message5(m.as_slice(), " at line ", number.as_slice(), "."));
                }
                let after = sub_chars(line.as_slice(), k + 1, line.len());
                let vt = trim_chars(after.as_slice());
                proof { assert(line@.subrange(k + 1, line@.len() as int) =~= line@.skip(k + 1)); }
                let (value, red) = redact_structured_value(vt.as_slice());
                excluded = excluded + red;
                if !entry_allowed(f.as_slice(), section.as_slice(), key.as_slice(), value.as_slice()) {
                    excluded = excluded + 1;
                    i = i + 1;
                    continue;
                }
                let categories = categories_for(f.as_slice(), section.as_slice(), key.as_slice(), value.as_slice());
                let entry = PubgIniEntry {
                    section: string_of(section.as_slice()),
                    key: string_of(key.as_slice()),
                    operator: string_of(operator.as_slice()),
                    value: string_of(value.as_slice()),
                    categories: categories,
                };
                let ghost ev = entry@;
                entries.push(entry);
                proof {
                    assert(entries_view(entries@) =~= st.entries.push(ev));
                }
                if entries.len() > MAX_ENTRIES {
                    return Err(message2(f.as_slice(), " contains too many portable settings."));
                }
                i = i + 1;
            },
        }
    }
    Ok((entries, excluded))
}


/// The canonical text of some entries, as hashed: "[section]\n" then "operator key=value\n" per entry.
pub open spec fn canonical(es: Seq<EntryView>) -> Seq<char>
    decreases es.len(),
{
    if es.len() == 0 {
        Seq::empty()
    } else {
        let e = es.last();
        canonical(es.drop_last()) + seq!['['] + e.section + seq![']', '\n'] + e.operator + e.key + seq!['='] + e.value + seq!['\n']
    }
}

/// The canonical text of some entries.
pub fn canonical_entries(entries: &[PubgIniEntry]) -> (r: String)
    ensures
        r@ == canonical(entries_view(entries@)),
{
    let mut v: Vec<char> = Vec::new();
    let mut i: usize = 0;
    while i < entries.len()
        invariant
            i <= entries@.len(),
            v@ == canonical(entries_view(entries@.take(i as int))),
        decreases entries.len() - i,
    {
        let e = &entries[i];
        v.push('[');
        let sec = chars_of(e.section.as_str());
        extend_chars(&mut v, sec.as_slice());
        v.push(']');
        v.push('\n');
        let op = chars_of(e.operator.as_str());
        extend_chars(&mut v, op.as_slice());
        let key = chars_of(e.key.as_str());
        extend_chars(&mut v, key.as_slice());
        v.push('=');
        let val = chars_of(e.value.as_str());
        extend_chars(&mut v, val.as_slice());
        v.push('\n');
        proof {
            let ev = entries_view(entries@.take(i + 1));
            assert(ev.drop_last() =~= entries_view(entries@.take(i as int)));
            assert(ev.last() == entries@[i as int]@);
            assert(v@ =~= canonical(ev));
        }
        i = i + 1;
    }
    proof { assert(entries@.take(entries@.len() as int) =~= entries@); }
    string_of(v.as_slice())
}

/// The integrity hash of some entries: lower-case hex SHA-256 of their canonical text in UTF-8.
pub open spec fn spec_file_hash(es: Seq<EntryView>) -> Seq<char> {
    hex_lower(spec_sha256(vstd::utf8::encode_utf8(canonical(es))))
}

/// The integrity hash of a file's entries.
pub fn file_hash(entries: &[PubgIniEntry]) -> (r: String)
    ensures
        r@ == spec_file_hash(entries_view(entries@)),
{
    let text = canonical_entries(entries);
    let bytes = text.as_str().as_bytes();
    sha256_hex(bytes)
}

/// All category names of all entries of some files, in order.
pub open spec fn all_categories(files: Seq<PubgConfigFile>) -> Seq<Seq<char>>
    decreases files.len(),
{
    if files.len() == 0 {
        Seq::empty()
    } else {
        all_categories(files.drop_last()) + entry_categories(entries_view(files.last().entries@))
    }
}

/// All category names of some entries, in order.
pub open spec fn entry_categories(es: Seq<EntryView>) -> Seq<Seq<char>>
    decreases es.len(),
{
    if es.len() == 0 {
        Seq::empty()
    } else {
        entry_categories(es.drop_last()) + es.last().categories
    }
}

/// How often `name` occurs in `s`.
pub open spec fn count_of(s: Seq<Seq<char>>, name: Seq<char>) -> nat
    decreases s.len(),
{
    if s.len() == 0 {
        0
    } else {
        count_of(s.drop_last(), name) + if s.last() == name { 1nat } else { 0nat }
    }
}

proof fn lemma_count_of_append(a: Seq<Seq<char>>, b: Seq<Seq<char>>, name: Seq<char>)
    ensures
        count_of(a + b, name) == count_of(a, name) + count_of(b, name),
        count_of(a, name) <= a.len(),
    decreases b.len(),
{
    if b.len() > 0 {
        lemma_count_of_append(a, b.drop_last(), name);
        assert((a + b).drop_last() =~= a + b.drop_last());
    } else {
        assert(a + b =~= a);
    }
    lemma_count_bound(a, name);
}

proof fn lemma_count_bound(a: Seq<Seq<char>>, name: Seq<char>)
    ensures
        count_of(a, name) <= a.len(),
    decreases a.len(),
{
    if a.len() > 0 {
        lemma_count_bound(a.drop_last(), name);
    }
}

/// Counts the captured values per category over all files.
pub fn summarize(files: &[PubgConfigFile]) -> (r: PubgCategorySummary)
    requires
        all_categories(files@).len() <= usize::MAX,
    ensures
        r.gameplay == count_of(all_categories(files@), "gameplay"@),
        r.keybinds == count_of(all_categories(files@), "keybinds"@),
        r.graphics == count_of(all_categories(files@), "graphics"@),
        r.audio == count_of(all_categories(files@), "audio"@),
{
    let mut r = PubgCategorySummary { gameplay: 0, keybinds: 0, graphics: 0, audio: 0 };
    let mut f: usize = 0;
    let ghost total = all_categories(files@);
    while f < files.len()
        invariant
            f <= files@.len(),
            total == all_categories(files@),
            total.len() <= usize::MAX,
            ({
                let done = all_categories(files@.take(f as int));
                &&& r.gameplay == count_of(done, "gameplay"@)
                &&& r.keybinds == count_of(done, "keybinds"@)
                &&& r.graphics == count_of(done, "graphics"@)
                &&& r.audio == count_of(done, "audio"@)
                &&& done.len() <= total.len()
            }),
        decreases files.len() - f,
    {
        let entries = &files[f].entries;
        let ghost before = all_categories(files@.take(f as int));
        let mut i: usize = 0;
        proof {
            assert(entries_view(entries@).take(0) =~= Seq::<EntryView>::empty());
            lemma_all_categories_prefix(files@, f as int);
            lemma_all_categories_prefix(files@, (f + 1) as int);
        }
        while i < entries.len()
            invariant
                i <= entries@.len(),
                total.len() <= usize::MAX,
                before.len() + entry_categories(entries_view(entries@)).len() <= total.len(),
                ({
                    let done = before + entry_categories(entries_view(entries@.take(i as int)));
                    &&& r.gameplay == count_of(done, "gameplay"@)
                    &&& r.keybinds == count_of(done, "keybinds"@)
                    &&& r.graphics == count_of(done, "graphics"@)
                    &&& r.audio == count_of(done, "audio"@)
                }),
            decreases entries.len() - i,
        {
            let cats = &entries[i].categories;
            let ghost base = before + entry_categories(entries_view(entries@.take(i as int)));
            proof {
                lemma_entry_categories_prefix(entries_view(entries@), i as int);
                lemma_entry_categories_prefix(entries_view(entries@), (i + 1) as int);
                assert(entries_view(entries@.take(i + 1)) =~= entries_view(entries@).take(i + 1));
                assert(entries_view(entries@.take(i as int)) =~= entries_view(entries@).take(i as int));
            }
            let mut k: usize = 0;
            while k < cats.len()
                invariant
                    k <= cats@.len(),
                    base.len() + cats@.len() <= total.len(),
                    total.len() <= usize::MAX,
                    ({
                        let done = base + strings_view(cats@).take(k as int);
                        &&& r.gameplay == count_of(done, "gameplay"@)
                        &&& r.keybinds == count_of(done, "keybinds"@)
                        &&& r.graphics == count_of(done, "graphics"@)
                        &&& r.audio == count_of(done, "audio"@)
                        &&& done.len() <= total.len()
                    }),
                decreases cats.len() - k,
            {
                let c = chars_of(cats[k].as_str());
                let ghost prev = base + strings_view(cats@).take(k as int);
                proof {
                    let next = base + strings_view(cats@).take(k + 1);
                    assert(next.drop_last() =~= prev);
                    assert(next.last() == c@);
                    lemma_count_bound(prev, "gameplay"@);
                    lemma_count_bound(prev, "keybinds"@);
                    lemma_count_bound(prev, "graphics"@);
                    lemma_count_bound(prev, "audio"@);
                    reveal_strlit("gameplay");
                    reveal_strlit("keybinds");
                    reveal_strlit("graphics");
                    reveal_strlit("audio");
                }
                if chars_eq_str(c.as_slice(), "gameplay") {
                    r.gameplay = r.gameplay + 1;
                } else if chars_eq_str(c.as_slice(), "keybinds") {
                    r.keybinds = r.keybinds + 1;
                } else if chars_eq_str(c.as_slice(), "graphics") {
                    r.graphics = r.graphics + 1;
                } else if chars_eq_str(c.as_slice(), "audio") {
                    r.audio = r.audio + 1;
                }
                proof {
                    reveal_strlit("gameplay");
                    reveal_strlit("keybinds");
                    reveal_strlit("graphics");
                    reveal_strlit("audio");
                    assert("gameplay"@[0] != "keybinds"@[0]);
                    assert("gameplay"@[1] != "graphics"@[1]);
                    assert("keybinds"@[0] != "graphics"@[0]);
                    let next = base + strings_view(cats@).take(k + 1);
                    assert(next.drop_last() =~= prev);
                    assert(count_of(next, "gameplay"@) == count_of(prev, "gameplay"@) + if c@ == "gameplay"@ { 1nat } else { 0nat });
                    assert(count_of(next, "keybinds"@) == count_of(prev, "keybinds"@) + if c@ == "keybinds"@ { 1nat } else { 0nat });
                    assert(count_of(next, "graphics"@) == count_of(prev, "graphics"@) + if c@ == "graphics"@ { 1nat } else { 0nat });
                    assert(count_of(next, "audio"@) == count_of(prev, "audio"@) + if c@ == "audio"@ { 1nat } else { 0nat });
                    assert(r.gameplay == count_of(next, "gameplay"@));
                    assert(r.keybinds == count_of(next, "keybinds"@));
                    assert(r.graphics == count_of(next, "graphics"@));
                    assert(r.audio == count_of(next, "audio"@));
                    assert(next.len() <= total.len());
                }
                k = k + 1;
            }
            proof {
                assert(strings_view(cats@).take(cats@.len() as int) =~= strings_view(cats@));
                assert(base + strings_view(cats@) =~= before + entry_categories(entries_view(entries@.take(i + 1))));
            }
            i = i + 1;
        }
        proof {
            assert(entries@.take(entries@.len() as int) =~= entries@);
            assert(before + entry_categories(entries_view(entries@)) =~= all_categories(files@.take(f + 1)));
        }
        f = f + 1;
    }
    proof { assert(files@.take(files@.len() as int) =~= files@); }
    r
}

proof fn lemma_entry_categories_prefix(es: Seq<EntryView>, n: int)
    requires
        0 <= n <= es.len(),
    ensures
        entry_categories(es.take(n)).len() <= entry_categories(es).len(),
        n < es.len() ==> entry_categories(es.take(n + 1)) == entry_categories(es.take(n)) + es[n].categories,
    decreases es.len() - n,
{
    if n < es.len() {
        lemma_entry_categories_prefix(es, n + 1);
        assert(es.take(n + 1).drop_last() =~= es.take(n));
    } else {
        assert(es.take(n) =~= es);
    }
}

proof fn lemma_all_categories_prefix(files: Seq<PubgConfigFile>, n: int)
    requires
        0 <= n <= files.len(),
    ensures
        all_categories(files.take(n)).len() <= all_categories(files).len(),
        n < files.len() ==> all_categories(files.take(n + 1)) == all_categories(files.take(n)) + entry_categories(entries_view(files[n].entries@)),
    decreases files.len() - n,
{
    if n < files.len() {
        lemma_all_categories_prefix(files, n + 1);
        assert(files.take(n + 1).drop_last() =~= files.take(n));
    } else {
        assert(files.take(n) =~= files);
    }
}


/// The entries of the first GameUserSettings.ini file (any ASCII case), or none.
pub open spec fn gus_entries(files: Seq<PubgConfigFile>) -> Seq<EntryView>
    decreases files.len(),
{
    if files.len() == 0 {
        Seq::empty()
    } else if eq_ignore_case(files[0].relative_id@, "GameUserSettings.ini"@) {
        entries_view(files[0].entries@)
    } else {
        gus_entries(files.drop_first())
    }
}

/// The last entry whose key equals `name` ignoring ASCII case.
pub open spec fn last_with_key(es: Seq<EntryView>, name: Seq<char>) -> Option<EntryView>
    decreases es.len(),
{
    if es.len() == 0 {
        None
    } else if eq_ignore_case(es.last().key, name) {
        Some(es.last())
    } else {
        last_with_key(es.drop_last(), name)
    }
}

/// The number stored under the last `name` key (quotes removed), if it parses.
pub open spec fn number_setting(es: Seq<EntryView>, name: Seq<char>) -> Option<u32> {
    match last_with_key(es, name) {
        None => None,
        Some(e) => parse_u32(trim_quotes(e.value)),
    }
}

/// The window-mode name of PUBG's FullscreenMode number.
pub open spec fn mode_name(mode: Option<u32>) -> Seq<char> {
    match mode {
        Some(0) => "fullscreen"@,
        Some(1) => "borderless"@,
        Some(2) => "windowed"@,
        _ => "unknown"@,
    }
}

/// Resolution and window mode read from GameUserSettings.ini.
pub open spec fn spec_normalized(files: Seq<PubgConfigFile>) -> (Option<u32>, Option<u32>, Seq<char>) {
    let es = gus_entries(files);
    let mode = match number_setting(es, "FullscreenMode"@) {
        Some(m) => Some(m),
        None => number_setting(es, "LastConfirmedFullscreenMode"@),
    };
    (number_setting(es, "ResolutionSizeX"@), number_setting(es, "ResolutionSizeY"@), mode_name(mode))
}

fn number_from(entries: &[PubgIniEntry], name: &str) -> (r: Option<u32>)
    ensures
        r == number_setting(entries_view(entries@), name@),
{
    let n = chars_of(name);
    let mut i: usize = entries.len();
    proof { assert(entries@.take(entries@.len() as int) =~= entries@); }
    while i > 0
        invariant
            i <= entries@.len(),
            n@ == name@,
            last_with_key(entries_view(entries@), name@) == last_with_key(entries_view(entries@.take(i as int)), name@),
        decreases i,
    {
        let key = chars_of(entries[i - 1].key.as_str());
        proof {
            let es = entries_view(entries@.take(i as int));
            assert(es.drop_last() =~= entries_view(entries@.take(i - 1)));
            assert(es.last() == entries@[i - 1]@);
        }
        if eq_ignore_case_chars(key.as_slice(), n.as_slice()) {
            let v = chars_of(entries[i - 1].value.as_str());
            let t = trim_quotes_chars(v.as_slice());
            return parse_u32_chars(t.as_slice());
        }
        i = i - 1;
    }
    proof { assert(entries_view(entries@.take(0)) =~= Seq::<EntryView>::empty()); }
    None
}

/// Reads the resolution and window mode (0 fullscreen, 1 borderless, 2 windowed) from the
/// GameUserSettings.ini entries; the last occurrence of a key counts.
pub fn normalized(files: &[PubgConfigFile]) -> (r: PubgNormalizedSettings)
    ensures
        (r.width, r.height, r.display_mode@) == spec_normalized(files@),
{
    let mut i: usize = 0;
    let empty: Vec<PubgIniEntry> = Vec::new();
    proof { assert(files@.skip(0) =~= files@); }
    while i < files.len()
        invariant
            i <= files@.len(),
            gus_entries(files@) == gus_entries(files@.skip(i as int)),
        ensures
            i <= files@.len(),
            gus_entries(files@) == gus_entries(files@.skip(i as int)),
            i < files@.len() ==> eq_ignore_case(files@[i as int].relative_id@, "GameUserSettings.ini"@),
        decreases files.len() - i,
    {
        let id = chars_of(files[i].relative_id.as_str());
        if eq_ignore_case_str(id.as_slice(), "GameUserSettings.ini") {
            break;
        }
        proof { assert(files@.skip(i as int).drop_first() =~= files@.skip(i + 1)); }
        i = i + 1;
    }
    let entries: &Vec<PubgIniEntry> = if i < files.len() {
        &files[i].entries
    } else {
        &empty
    };
    proof {
        if i < files@.len() {
            assert(files@.skip(i as int)[0] == files@[i as int]);
        } else {
            assert(entries_view(empty@) =~= Seq::<EntryView>::empty());
            assert(files@.skip(files@.len() as int).len() == 0);
        }
        assert(entries_view(entries@) == gus_entries(files@));
    }
    let width = number_from(entries.as_slice(), "ResolutionSizeX");
    let height = number_from(entries.as_slice(), "ResolutionSizeY");
    let mode = match number_from(entries.as_slice(), "FullscreenMode") {
        Some(m) => Some(m),
        None => number_from(entries.as_slice(), "LastConfirmedFullscreenMode"),
    };
    let display_mode = match mode {
        Some(0) => String::from_str("fullscreen"),
        Some(1) => String::from_str("borderless"),
        Some(2) => String::from_str("windowed"),
        _ => String::from_str("unknown"),
    };
    PubgNormalizedSettings { width, height, display_mode }
}


/// An entry of a snapshot file that must not be applied.
pub open spec fn entry_bad(id: Seq<char>, e: EntryView) -> bool {
    ||| e.section.len() == 0
    ||| e.key.len() == 0
    ||| utf8_len(e.value) > MAX_VALUE_BYTES
    ||| spec_forbidden_entry(e.section, e.key)
    ||| redact_from(e.value, 0).0 != e.value
    ||| !spec_entry_allowed(id, e.section, e.key)
}

/// Total number of entries in the first `n` files.
pub open spec fn entries_count(files: Seq<PubgConfigFile>, n: int) -> nat
    decreases n,
{
    if n <= 0 {
        0
    } else {
        entries_count(files, n - 1) + files[n - 1].entries@.len()
    }
}

/// Total UTF-8 size of the canonical text of the first `n` files.
pub open spec fn bytes_count(files: Seq<PubgConfigFile>, n: int) -> nat
    decreases n,
{
    if n <= 0 {
        0
    } else {
        bytes_count(files, n - 1) + utf8_len(canonical(entries_view(files[n - 1].entries@)))
    }
}

/// The first problem among the first `n` files of a snapshot, in order.
pub open spec fn files_problem(files: Seq<PubgConfigFile>, n: int) -> Option<Seq<char>>
    decreases n,
{
    if n <= 0 {
        None
    } else if files_problem(files, n - 1) is Some {
        files_problem(files, n - 1)
    } else {
        let f = files[n - 1];
        let es = entries_view(f.entries@);
        if !spec_safe_file_id(f.relative_id@) || exists|j: int| 0 <= j < n - 1 && lower(#[trigger] files[j].relative_id@) == lower(f.relative_id@) {
            Some("PUBG snapshot contains an unsafe or duplicate file identifier."@)
        } else if entries_count(files, n) > MAX_ENTRIES || bytes_count(files, n) > MAX_SNAPSHOT_BYTES
            || exists|k: int| 0 <= k < es.len() && entry_bad(f.relative_id@, #[trigger] es[k]) {
            Some("PUBG snapshot contains unsafe or malformed settings."@)
        } else if f.sha256@ != spec_file_hash(es) {
            Some("PUBG snapshot integrity check failed."@)
        } else {
            None
        }
    }
}

/// The reason a PUBG snapshot is refused; `None` when it is acceptable.
pub open spec fn payload_problem(p: PubgPayload) -> Option<Seq<char>> {
    if p.schema_version != SCHEMA_VERSION || p.game@ != "pubg"@ {
        Some("Unsupported or corrupted PUBG snapshot."@)
    } else if p.files@.len() == 0 || p.files@.len() > MAX_FILES {
        Some("PUBG snapshot has an invalid file count."@)
    } else {
        files_problem(p.files@, p.files@.len() as int)
    }
}

proof fn lemma_counts_grow(files: Seq<PubgConfigFile>, m: int, n: int)
    requires
        0 <= m <= n,
    ensures
        entries_count(files, m) <= entries_count(files, n),
        bytes_count(files, m) <= bytes_count(files, n),
    decreases n - m,
{
    if m < n {
        lemma_counts_grow(files, m, n - 1);
    }
}

/// Files as a capture records them: each the portable entries that parsing `texts[j]` as the file
/// `relative_id` gave, with their hash, under ids that differ in lower case.
pub open spec fn captured_files(files: Seq<PubgConfigFile>, texts: Seq<Seq<char>>) -> bool {
    &&& texts.len() == files.len()
    &&& forall|j: int| 0 <= j < files.len() ==> {
        &&& #[trigger] spec_parse_ini(files[j].relative_id@, texts[j]) is Ok
        &&& file_of(files[j], files[j].relative_id@, spec_parse_ini(files[j].relative_id@, texts[j])->Ok_0.0)
    }
    &&& forall|j: int, k: int| 0 <= j < k < files.len() ==> lower(#[trigger] files[j].relative_id@) != lower(#[trigger] files[k].relative_id@)
}

proof fn lemma_captured_files_pass(files: Seq<PubgConfigFile>, texts: Seq<Seq<char>>, n: int)
    requires
        0 <= n <= files.len(),
        captured_files(files, texts),
        entries_count(files, files.len() as int) <= MAX_ENTRIES,
        bytes_count(files, files.len() as int) <= MAX_SNAPSHOT_BYTES,
        forall|j: int, k: int| 0 <= j < files.len() && 0 <= k < files[j].entries@.len()
            ==> utf8_len(#[trigger] files[j].entries@[k]@.value) <= MAX_VALUE_BYTES,
    ensures
        files_problem(files, n) is None,
    decreases n,
{
    if n > 0 {
        lemma_captured_files_pass(files, texts, n - 1);
        lemma_counts_grow(files, n, files.len() as int);
        let f = files[n - 1];
        let parsed = spec_parse_ini(f.relative_id@, texts[n - 1]);
        assert(parsed is Ok);
        assert(file_of(f, f.relative_id@, parsed->Ok_0.0));
        let es = entries_view(f.entries@);
        law_parsed_entries_pass_validation(f.relative_id@, texts[n - 1]);
        assert(spec_safe_file_id(f.relative_id@));
        assert forall|j: int| 0 <= j < n - 1 implies lower(#[trigger] files[j].relative_id@) != lower(f.relative_id@) by {
            assert(lower(files[j].relative_id@) != lower(files[n - 1].relative_id@));
        }
        assert forall|k: int| 0 <= k < es.len() implies !entry_bad(f.relative_id@, #[trigger] es[k]) by {
            assert(es[k] == f.entries@[k]@);
            assert(utf8_len(files[n - 1].entries@[k]@.value) <= MAX_VALUE_BYTES);
        }
    }
}

/// Law: a profile as capture builds it can be applied. A snapshot of schema 1 for "pubg" with one
/// to three files, each holding what parsing its text gave and the hash of it, under distinct ids,
/// passes validation whenever it stays within the entry and size limits, including each value's.
pub proof fn law_captured_payload_validates(p: PubgPayload, texts: Seq<Seq<char>>)
    requires
        p.schema_version == SCHEMA_VERSION,
        p.game@ == "pubg"@,
        0 < p.files@.len() <= MAX_FILES,
        captured_files(p.files@, texts),
        entries_count(p.files@, p.files@.len() as int) <= MAX_ENTRIES,
        bytes_count(p.files@, p.files@.len() as int) <= MAX_SNAPSHOT_BYTES,
        forall|j: int, k: int| 0 <= j < p.files@.len() && 0 <= k < p.files@[j].entries@.len()
            ==> utf8_len(#[trigger] p.files@[j].entries@[k]@.value) <= MAX_VALUE_BYTES,
    ensures
        payload_problem(p) is None,
{
    lemma_captured_files_pass(p.files@, texts, p.files@.len() as int);
}

proof fn lemma_files_problem_stable(files: Seq<PubgConfigFile>, m: int, n: int)
    requires
        0 <= m <= n,
        files_problem(files, m) is Some,
    ensures
        files_problem(files, n) == files_problem(files, m),
    decreases n - m,
{
    if n > m {
        lemma_files_problem_stable(files, m, n - 1);
    }
}

fn entry_is_bad(id: &[char], e: &PubgIniEntry) -> (r: bool)
    ensures
        r == entry_bad(id@, e@),
{
    let section = chars_of(e.section.as_str());
    let key = chars_of(e.key.as_str());
    let value = chars_of(e.value.as_str());
    if section.len() == 0 || key.len() == 0 {
        return true;
    }
    if utf8_len_capped(value.as_slice(), MAX_VALUE_BYTES) > MAX_VALUE_BYTES {
        return true;
    }
    if forbidden_entry(section.as_slice(), key.as_slice(), value.as_slice()) {
        return true;
    }
    let (again, _) = redact_structured_value(value.as_slice());
    if !chars_eq(again.as_slice(), value.as_slice()) {
        return true;
    }
    !entry_allowed(id, section.as_slice(), key.as_slice(), value.as_slice())
}

/// Checks a PUBG snapshot before it is applied: schema 1 and game "pubg"; one to three files with
/// allowed, distinct ids; at most 8192 entries and 2 MB of canonical text in all; no empty,
/// oversized, forbidden or disallowed entry, none whose value still holds a secret (that redaction
/// would change); and each file's hash matching.
pub fn validate_payload(payload: &PubgPayload) -> (r: Result<(), String>)
    ensures
        r is Ok <==> payload_problem(*payload) is None,
        r matches Err(e) ==> payload_problem(*payload) == Some(e@),
{
    if payload.schema_version != SCHEMA_VERSION || !str_eq(payload.game.as_str(), "pubg") {
        return Err(String::from_str("Unsupported or corrupted PUBG snapshot."));
    }
    let files = &payload.files;
    if files.len() == 0 || files.len() > MAX_FILES {
        return Err(String::from_str("PUBG snapshot has an invalid file count."));
    }
    let mut seen: Vec<Vec<char>> = Vec::new();
    let mut count: usize = 0;
    let mut total: usize = 0;
    let mut i: usize = 0;
    while i < files.len()
        invariant
            i <= files@.len(),
            files@ == payload.files@,
            payload.schema_version == SCHEMA_VERSION,
            payload.game@ == "pubg"@,
            0 < files@.len() <= MAX_FILES,
            files_problem(files@, i as int) is None,
            count == entries_count(files@, i as int),
            total == bytes_count(files@, i as int),
            count <= MAX_ENTRIES,
            total <= MAX_SNAPSHOT_BYTES,
            seen@.len() == i,
            forall|j: int| 0 <= j < i ==> #[trigger] seen@[j]@ == lower(files@[j].relative_id@),
        decreases files.len() - i,
    {
        let f = &files[i];
        let id = chars_of(f.relative_id.as_str());
        let lid = lower_chars(id.as_slice());
        let mut dup = false;
        let mut k: usize = 0;
        while k < seen.len()
            invariant
                k <= seen@.len(),
                !dup ==> forall|j: int| 0 <= j < k ==> seen@[j]@ != lid@,
                dup ==> exists|j: int| 0 <= j < seen@.len() && seen@[j]@ == lid@,
            decreases seen.len() - k,
        {
            if chars_eq(seen[k].as_slice(), lid.as_slice()) {
                dup = true;
            }
            k = k + 1;
        }
        proof {
            assert(files@[i as int] == *f);
            if dup {
                let j = choose|j: int| 0 <= j < seen@.len() && seen@[j]@ == lid@;
                assert(lower(files@[j].relative_id@) == lower(f.relative_id@));
            } else {
                assert forall|j: int| 0 <= j < i implies lower(#[trigger] files@[j].relative_id@) != lower(f.relative_id@) by {
                    assert(seen@[j]@ == lower(files@[j].relative_id@));
                }
            }
        }
        if !safe_file_id(id.as_slice()) || dup {
            proof { lemma_files_problem_stable(files@, i + 1, files@.len() as int); }
            return Err(String::from_str("PUBG snapshot contains an unsafe or duplicate file identifier."));
        }
        let canon = canonical_entries(f.entries.as_slice());
        let canon_chars = chars_of(canon.as_str());
        let size = utf8_len_capped(canon_chars.as_slice(), MAX_SNAPSHOT_BYTES);
        let mut bad = f.entries.len() > MAX_ENTRIES - count || size > MAX_SNAPSHOT_BYTES - total;
        let mut e: usize = 0;
        while !bad && e < f.entries.len()
            invariant
                e <= f.entries@.len(),
                count <= MAX_ENTRIES,
                total <= MAX_SNAPSHOT_BYTES,
                !bad ==> f.entries@.len() <= MAX_ENTRIES - count && size <= MAX_SNAPSHOT_BYTES - total,
                !bad ==> forall|j: int| 0 <= j < e ==> !entry_bad(id@, #[trigger] entries_view(f.entries@)[j]),
                bad ==> (f.entries@.len() > MAX_ENTRIES - count || size > MAX_SNAPSHOT_BYTES - total
                    || exists|j: int| 0 <= j < f.entries@.len() && entry_bad(id@, #[trigger] entries_view(f.entries@)[j])),
            decreases f.entries.len() - e,
        {
            if entry_is_bad(id.as_slice(), &f.entries[e]) {
                proof { assert(entries_view(f.entries@)[e as int] == f.entries@[e as int]@); }
                bad = true;
            }
            e = e + 1;
        }
        proof {
            if !bad {
                assert forall|j: int| 0 <= j < entries_view(f.entries@).len() implies !entry_bad(id@, #[trigger] entries_view(f.entries@)[j]) by {}
            }
        }
        if bad {
            proof { lemma_files_problem_stable(files@, i + 1, files@.len() as int); }
            return Err(String::from_str("PUBG snapshot contains unsafe or malformed settings."));
        }
        proof {
            assert(canon_chars@ == canonical(entries_view(f.entries@)));
            assert(size == utf8_len(canonical(entries_view(f.entries@))));
            assert(entries_count(files@, i + 1) == count + f.entries@.len());
            assert(bytes_count(files@, i + 1) == total + size);
            assert(!(exists|k: int| 0 <= k < entries_view(f.entries@).len() && entry_bad(f.relative_id@, #[trigger] entries_view(f.entries@)[k])));
        }
        let hash = file_hash(f.entries.as_slice());
        if !str_eq(f.sha256.as_str(), hash.as_str()) {
            proof { lemma_files_problem_stable(files@, i + 1, files@.len() as int); }
            return Err(String::from_str("PUBG snapshot integrity check failed."));
        }
        count = count + f.entries.len();
        total = total + size;
        seen.push(lid);
        i = i + 1;
    }
    Ok(())
}

/// The character views of some character vectors.
pub open spec fn char_lines(v: Seq<Vec<char>>) -> Seq<Seq<char>> {
    v.map_values(|x: Vec<char>| x@)
}

/// A trimmed line that opens a section (`[name]`).
pub open spec fn is_header(line: Seq<char>) -> bool {
    line.len() > 0 && line[0] == '[' && line.last() == ']'
}

/// The lower-cased name of the section that a header line opens.
pub open spec fn header_name(line: Seq<char>) -> Seq<char> {
    lower(trim(line.subrange(1, line.len() - 1)))
}

/// An array-operator mark that may precede a key.
pub open spec fn is_mark(c: char) -> bool {
    c == '+' || c == '-' || c == '!' || c == '.'
}

/// `s` without its leading operator marks.
pub open spec fn strip_marks(s: Seq<char>) -> Seq<char>
    decreases s.len(),
{
    if s.len() > 0 && is_mark(s[0]) {
        strip_marks(s.drop_first())
    } else {
        s
    }
}

/// The lower-cased key that a trimmed line assigns, when it holds an `=`.
pub open spec fn line_key(line: Seq<char>) -> Option<Seq<char>> {
    match index_of(line, '=') {
        None => None,
        Some(k) => Some(lower(trim(strip_marks(trim(line.take(k)))))),
    }
}

/// Some saved entry sets `key` in `section` (both compared lower-cased).
pub open spec fn replaced(saved: Seq<EntryView>, section: Seq<char>, key: Seq<char>) -> bool {
    exists|j: int| 0 <= j < saved.len() && lower(saved[j].section) == section && lower(#[trigger] saved[j].key) == key
}

/// The lines of the current file from `i` on that stay: every line but those that assign a key
/// which a saved entry sets in the same section.
pub open spec fn kept_lines(ls: Seq<Seq<char>>, i: int, section: Seq<char>, saved: Seq<EntryView>) -> Seq<Seq<char>>
    decreases ls.len() - i,
{
    if !(0 <= i < ls.len()) {
        Seq::empty()
    } else {
        let line = trim(ls[i]);
        if is_header(line) {
            seq![ls[i]] + kept_lines(ls, i + 1, header_name(line), saved)
        } else if line_key(line) matches Some(key) && replaced(saved, section, key) {
            kept_lines(ls, i + 1, section, saved)
        } else {
            seq![ls[i]] + kept_lines(ls, i + 1, section, saved)
        }
    }
}

/// The INI line of a saved entry.
pub open spec fn entry_line(e: EntryView) -> Seq<char> {
    e.operator + e.key + seq!['='] + e.value
}

/// The lines of the saved entries of section `sec`, in their order.
pub open spec fn lines_of_section(saved: Seq<EntryView>, sec: Seq<char>) -> Seq<Seq<char>>
    decreases saved.len(),
{
    if saved.len() == 0 {
        Seq::empty()
    } else if saved.last().section == sec {
        lines_of_section(saved.drop_last(), sec).push(entry_line(saved.last()))
    } else {
        lines_of_section(saved.drop_last(), sec)
    }
}

/// Each section in `secs` with its header line and its saved entries.
pub open spec fn group_lines(secs: Seq<Seq<char>>, saved: Seq<EntryView>) -> Seq<Seq<char>>
    decreases secs.len(),
{
    if secs.len() == 0 {
        Seq::empty()
    } else {
        group_lines(secs.drop_last(), saved) + seq![seq!['['] + secs.last() + seq![']']]
            + lines_of_section(saved, secs.last())
    }
}

/// Lines joined, each one ended by CR LF.
pub open spec fn crlf_text(ls: Seq<Seq<char>>) -> Seq<char>
    decreases ls.len(),
{
    if ls.len() == 0 {
        Seq::empty()
    } else {
        crlf_text(ls.drop_last()) + ls.last() + seq!['\r', '\n']
    }
}

/// `secs` holds the distinct sections of the saved entries in ascending order.
pub open spec fn sections_of(saved: Seq<EntryView>, secs: Seq<Seq<char>>) -> bool {
    &&& forall|a: int, b: int| 0 <= a < b < secs.len() ==> lex_lt(#[trigger] secs[a], #[trigger] secs[b])
    &&& forall|x: Seq<char>| secs.contains(x) <==> exists|j: int| 0 <= j < saved.len() && #[trigger] saved[j].section == x
}

/// The lines of a merged file: the kept lines, an empty line, a comment, then the saved
/// entries grouped by section in the order `secs`.
pub open spec fn merged_lines(current: Seq<char>, saved: Seq<EntryView>, secs: Seq<Seq<char>>) -> Seq<Seq<char>> {
    kept_lines(lines(current), 0, Seq::empty(), saved)
        + seq![Seq::empty(), "; Game Passport portable PUBG settings"@]
        + group_lines(secs, saved)
}

fn strip_marks_chars(s: &[char]) -> (r: Vec<char>)
    ensures
        r@ == strip_marks(s@),
{
    let mut a: usize = 0;
    proof { assert(s@.skip(0) =~= s@); }
    while a < s.len() && (s[a] == '+' || s[a] == '-' || s[a] == '!' || s[a] == '.')
        invariant
            a <= s@.len(),
            strip_marks(s@) == strip_marks(s@.skip(a as int)),
        decreases s.len() - a,
    {
        proof { assert(s@.skip(a as int).drop_first() =~= s@.skip(a + 1)); }
        a = a + 1;
    }
    proof { assert(s@.skip(a as int) =~= s@.subrange(a as int, s@.len() as int)); }
    sub_chars(s, a, s.len())
}

fn copy_chars(s: &[char]) -> (r: Vec<char>)
    ensures
        r@ == s@,
{
    let r = sub_chars(s, 0, s.len());
    proof { assert(r@ =~= s@); }
    r
}

/// The lines of `cur` that a merge keeps.
fn kept_current_lines(cur: &[char], saved: &[PubgIniEntry]) -> (r: Vec<Vec<char>>)
    ensures
        char_lines(r@) == kept_lines(lines(cur@), 0, Seq::empty(), entries_view(saved@)),
{
    let ghost sv = entries_view(saved@);
    let mut lsec: Vec<Vec<char>> = Vec::new();
    let mut lkey: Vec<Vec<char>> = Vec::new();
    let mut j: usize = 0;
    while j < saved.len()
        invariant
            j <= saved@.len(),
            sv == entries_view(saved@),
            lsec@.len() == j,
            lkey@.len() == j,
            forall|q: int| 0 <= q < j ==> #[trigger] lsec@[q]@ == lower(sv[q].section) && lkey@[q]@ == lower(sv[q].key),
        decreases saved.len() - j,
    {
        let sc = chars_of(saved[j].section.as_str());
        let kc = chars_of(saved[j].key.as_str());
        lsec.push(lower_chars(sc.as_slice()));
        lkey.push(lower_chars(kc.as_slice()));
        j = j + 1;
    }
    let ls = split_lines(cur);
    let ghost gl = lines(cur@);
    let mut section: Vec<char> = Vec::new();
    let mut out: Vec<Vec<char>> = Vec::new();
    let mut i: usize = 0;
    proof { assert(char_lines(out@) + kept_lines(gl, 0, section@, sv) =~= kept_lines(gl, 0, Seq::empty(), sv)); }
    while i < ls.len()
        invariant
            i <= ls@.len(),
            gl == lines(cur@),
            ls@.len() == gl.len(),
            forall|q: int| 0 <= q < ls@.len() ==> #[trigger] ls@[q]@ == gl[q],
            sv == entries_view(saved@),
            lsec@.len() == saved@.len(),
            lkey@.len() == saved@.len(),
            forall|q: int| 0 <= q < saved@.len() ==> #[trigger] lsec@[q]@ == lower(sv[q].section) && lkey@[q]@ == lower(sv[q].key),
            char_lines(out@) + kept_lines(gl, i as int, section@, sv) == kept_lines(gl, 0, Seq::empty(), sv),
        decreases ls.len() - i,
    {
        let raw = &ls[i];
        let line = trim_chars(raw.as_slice());
        let n = line.len();
        let ghost before = char_lines(out@);
        if n > 0 && line[0] == '[' && line[n - 1] == ']' {
            let inner = sub_chars(line.as_slice(), 1, n - 1);
            let t = trim_chars(inner.as_slice());
            let new_section = lower_chars(t.as_slice());
            out.push(copy_chars(raw.as_slice()));
            proof {
                assert(gl[i as int] == raw@);
                assert(is_header(line@));
                assert(header_name(line@) == new_section@);
                assert(char_lines(out@) =~= before.push(raw@));
                assert(kept_lines(gl, i as int, section@, sv) == seq![raw@] + kept_lines(gl, i + 1, new_section@, sv));
                assert(char_lines(out@) + kept_lines(gl, i + 1, new_section@, sv) =~= before + kept_lines(gl, i as int, section@, sv));
            }
            section = new_section;
        } else {
            let mut drop = false;
            let found = find_char(line.as_slice(), '=');
            match found {
                Some(k) => {
                    proof { lemma_index_of_found(line@, '='); }
                    let head = sub_chars(line.as_slice(), 0, k);
                    let t1 = trim_chars(head.as_slice());
                    let t2 = strip_marks_chars(t1.as_slice());
                    let t3 = trim_chars(t2.as_slice());
                    let key = lower_chars(t3.as_slice());
                    proof {
                        assert(head@ =~= line@.take(k as int));
                        assert(line_key(line@) == Some(key@));
                    }
                    let mut q: usize = 0;
                    while q < saved.len() && !drop
                        invariant
                            q <= saved@.len(),
                            sv == entries_view(saved@),
                            lsec@.len() == saved@.len(),
                            lkey@.len() == saved@.len(),
                            forall|p: int| 0 <= p < saved@.len() ==> #[trigger] lsec@[p]@ == lower(sv[p].section) && lkey@[p]@ == lower(sv[p].key),
                            !drop ==> forall|p: int| 0 <= p < q ==> !(lower(sv[p].section) == section@ && lower(#[trigger] sv[p].key) == key@),
                            drop ==> replaced(sv, section@, key@),
                        decreases saved.len() - q,
                    {
                        if chars_eq(lsec[q].as_slice(), section.as_slice()) && chars_eq(lkey[q].as_slice(), key.as_slice()) {
                            proof { assert(lsec@[q as int]@ == lower(sv[q as int].section)); }
                            drop = true;
                        } else {
                            proof { assert(lsec@[q as int]@ == lower(sv[q as int].section)); }
                        }
                        q = q + 1;
                    }
                    proof {
                        if !drop {
                            assert(!replaced(sv, section@, key@));
                        }
                    }
                },
                None => {
                    proof { assert(line_key(line@) is None); }
                },
            }
            if !drop {
                out.push(copy_chars(raw.as_slice()));
                proof {
                    assert(gl[i as int] == raw@);
                    assert(char_lines(out@) =~= before.push(raw@));
                    assert(kept_lines(gl, i as int, section@, sv) == seq![raw@] + kept_lines(gl, i + 1, section@, sv));
                    assert(char_lines(out@) + kept_lines(gl, i + 1, section@, sv) =~= before + kept_lines(gl, i as int, section@, sv));
                }
            } else {
                proof {
                    assert(gl[i as int] == raw@);
                    assert(kept_lines(gl, i as int, section@, sv) == kept_lines(gl, i + 1, section@, sv));
                }
            }
        }
        i = i + 1;
    }
    proof { assert(char_lines(out@) =~= char_lines(out@) + kept_lines(gl, i as int, section@, sv)); }
    out
}

proof fn lemma_insert_sorted(old: Seq<Seq<char>>, p: int, s: Seq<char>)
    requires
        0 <= p <= old.len(),
        forall|a: int, b: int| 0 <= a < b < old.len() ==> lex_lt(#[trigger] old[a], #[trigger] old[b]),
        forall|a: int| 0 <= a < p ==> lex_lt(#[trigger] old[a], s),
        p < old.len() ==> lex_lt(s, old[p]),
    ensures
        forall|a: int, b: int| 0 <= a < b < old.len() + 1 ==> lex_lt(#[trigger] old.insert(p, s)[a], #[trigger] old.insert(p, s)[b]),
{
    let n = old.insert(p, s);
    assert forall|a: int, b: int| 0 <= a < b < old.len() + 1 implies lex_lt(#[trigger] n[a], #[trigger] n[b]) by {
        if a == p && b > p + 1 {
            assert(lex_lt(old[p], old[b - 1]));
            lemma_lex_trans(s, old[p], old[b - 1]);
        } else if a < p && b > p {
            assert(n[a] == old[a]);
            assert(n[b] == old[b - 1]);
        } else if a > p {
            assert(n[a] == old[a - 1]);
            assert(n[b] == old[b - 1]);
        }
    }
}

/// The distinct sections of the saved entries, in ascending order.
fn sorted_sections(saved: &[PubgIniEntry]) -> (r: Vec<Vec<char>>)
    ensures
        sections_of(entries_view(saved@), char_lines(r@)),
{
    let ghost sv = entries_view(saved@);
    let mut secs: Vec<Vec<char>> = Vec::new();
    let mut e: usize = 0;
    while e < saved.len()
        invariant
            e <= saved@.len(),
            sv == entries_view(saved@),
            forall|a: int, b: int| 0 <= a < b < secs@.len() ==> lex_lt(#[trigger] char_lines(secs@)[a], #[trigger] char_lines(secs@)[b]),
            forall|x: Seq<char>| char_lines(secs@).contains(x) <==> exists|j: int| 0 <= j < e && #[trigger] sv[j].section == x,
        decreases saved.len() - e,
    {
        let s = chars_of(saved[e].section.as_str());
        let ghost cl = char_lines(secs@);
        let mut p: usize = 0;
        let mut present = false;
        loop
            invariant_except_break
                !present,
            invariant
                p <= secs@.len(),
                cl == char_lines(secs@),
                forall|a: int| 0 <= a < p ==> lex_lt(#[trigger] cl[a], s@),
            ensures
                p <= secs@.len(),
                present ==> p < secs@.len() && cl[p as int] == s@,
                !present ==> (forall|a: int| 0 <= a < p ==> lex_lt(#[trigger] cl[a], s@)),
                !present ==> (p < secs@.len() ==> lex_lt(s@, cl[p as int])),
            decreases secs.len() - p,
        {
            if p >= secs.len() {
                break;
            }
            if chars_eq(secs[p as usize].as_slice(), s.as_slice()) {
                present = true;
                break;
            }
            if lex_less(s.as_slice(), secs[p].as_slice()) {
                break;
            }
            proof { lemma_lex_total(s@, cl[p as int]); }
            p = p + 1;
        }
        proof { assert(s@ == sv[e as int].section); }
        if !present {
            secs.insert(p, s);
            proof {
                lemma_insert_sorted(cl, p as int, s@);
                assert(char_lines(secs@) =~= cl.insert(p as int, s@));
                assert forall|x: Seq<char>| char_lines(secs@).contains(x) <==> exists|j: int| 0 <= j < e + 1 && #[trigger] sv[j].section == x by {
                    if char_lines(secs@).contains(x) {
                        let a = choose|a: int| 0 <= a < char_lines(secs@).len() && char_lines(secs@)[a] == x;
                        if a < p {
                            assert(cl.contains(x));
                        } else if a > p {
                            assert(cl[a - 1] == x);
                            assert(cl.contains(x));
                        }
                    }
                    if exists|j: int| 0 <= j < e + 1 && #[trigger] sv[j].section == x {
                        let j = choose|j: int| 0 <= j < e + 1 && #[trigger] sv[j].section == x;
                        if j < e {
                            assert(cl.contains(x));
                            let a = choose|a: int| 0 <= a < cl.len() && cl[a] == x;
                            if a < p {
                                assert(char_lines(secs@)[a] == x);
                            } else {
                                assert(char_lines(secs@)[a + 1] == x);
                            }
                        } else {
                            assert(char_lines(secs@)[p as int] == x);
                        }
                    }
                }
            }
        } else {
            proof {
                assert(cl.contains(s@));
                assert forall|x: Seq<char>| char_lines(secs@).contains(x) <==> exists|j: int| 0 <= j < e + 1 && #[trigger] sv[j].section == x by {
                    if exists|j: int| 0 <= j < e + 1 && #[trigger] sv[j].section == x {
                        let j = choose|j: int| 0 <= j < e + 1 && #[trigger] sv[j].section == x;
                        if j < e {
                            assert(exists|j: int| 0 <= j < e && #[trigger] sv[j].section == x);
                        }
                    }
                    if char_lines(secs@).contains(x) {
                        assert(exists|j: int| 0 <= j < e && #[trigger] sv[j].section == x);
                        let j = choose|j: int| 0 <= j < e && #[trigger] sv[j].section == x;
                        assert(0 <= j < e + 1 && sv[j].section == x);
                    }
                }
            }
        }
        e = e + 1;
    }
    secs
}

/// The lines of the saved entries of section `sec`.
fn section_entry_lines(saved: &[PubgIniEntry], sec: &[char]) -> (r: Vec<Vec<char>>)
    ensures
        char_lines(r@) == lines_of_section(entries_view(saved@), sec@),
{
    let ghost sv = entries_view(saved@);
    let mut out: Vec<Vec<char>> = Vec::new();
    let mut e: usize = 0;
    while e < saved.len()
        invariant
            e <= saved@.len(),
            sv == entries_view(saved@),
            char_lines(out@) == lines_of_section(sv.take(e as int), sec@),
        decreases saved.len() - e,
    {
        let ec = chars_of(saved[e].section.as_str());
        let ghost before = char_lines(out@);
        proof {
            assert(sv.take(e + 1).drop_last() =~= sv.take(e as int));
            assert(sv.take(e + 1).last() == saved@[e as int]@);
        }
        if chars_eq(ec.as_slice(), sec) {
            let mut l = chars_of(saved[e].operator.as_str());
            let k = chars_of(saved[e].key.as_str());
            let v = chars_of(saved[e].value.as_str());
            extend_chars(&mut l, k.as_slice());
            l.push('=');
            extend_chars(&mut l, v.as_slice());
            out.push(l);
            proof {
                assert(l@ =~= entry_line(saved@[e as int]@));
                assert(char_lines(out@) =~= before.push(l@));
            }
        }
        e = e + 1;
    }
    proof { assert(sv.take(saved@.len() as int) =~= sv); }
    out
}

/// Lines joined, each ended by CR LF.
fn crlf_join(ls: &[Vec<char>]) -> (r: Vec<char>)
    ensures
        r@ == crlf_text(char_lines(ls@)),
{
    let mut text: Vec<char> = Vec::new();
    let mut i: usize = 0;
    while i < ls.len()
        invariant
            i <= ls@.len(),
            text@ == crlf_text(char_lines(ls@).take(i as int)),
        decreases ls.len() - i,
    {
        extend_chars(&mut text, ls[i].as_slice());
        text.push('\r');
        text.push('\n');
        proof {
            let t = char_lines(ls@).take(i + 1);
            assert(t.drop_last() =~= char_lines(ls@).take(i as int));
            assert(text@ =~= crlf_text(t));
        }
        i = i + 1;
    }
    proof { assert(char_lines(ls@).take(ls@.len() as int) =~= char_lines(ls@)); }
    text
}

/// Merges saved entries into the text of a PUBG config file: each current line that sets a
/// saved key of the same section (compared without case) is dropped, every other line stays,
/// and after an empty line and a comment the saved entries follow, grouped by section, the
/// sections in ascending order and the entries in their order. Every line ends with CR LF.
pub fn merge_ini(current: &str, saved: &[PubgIniEntry]) -> (r: Result<String, String>)
    ensures
        r is Err <==> contains_sub(current@, seq!['\0']),
        r matches Err(e) ==> e@ == "Target PUBG config contains a NUL byte."@,
        r matches Ok(t) ==> exists|secs: Seq<Seq<char>>|
            sections_of(entries_view(saved@), secs) && t@ == crlf_text(merged_lines(current@, entries_view(saved@), secs)),
{
    let cur = chars_of(current);
    if contains_char(cur.as_slice(), '\0') {
        return Err(String::from_str("Target PUBG config contains a NUL byte."));
    }
    let ghost sv = entries_view(saved@);
    let mut out = kept_current_lines(cur.as_slice(), saved);
    let ghost kept = char_lines(out@);
    out.push(Vec::new());
    let comment = String::from_str("; Game Passport portable PUBG settings");
    out.push(chars_of(comment.as_str()));
    proof {
        assert(char_lines(out@) =~= kept + seq![Seq::empty(), "; Game Passport portable PUBG settings"@]);
    }
    let ghost head = char_lines(out@);
    let secs = sorted_sections(saved);
    let ghost cl = char_lines(secs@);
    let mut g: usize = 0;
    proof { assert(head + group_lines(cl.take(0), sv) =~= head); }
    while g < secs.len()
        invariant
            g <= secs@.len(),
            cl == char_lines(secs@),
            sv == entries_view(saved@),
            char_lines(out@) == head + group_lines(cl.take(g as int), sv),
        decreases secs.len() - g,
    {
        let ghost before = char_lines(out@);
        let mut h: Vec<char> = Vec::new();
        h.push('[');
        extend_chars(&mut h, secs[g].as_slice());
        h.push(']');
        out.push(h);
        let body = section_entry_lines(saved, secs[g].as_slice());
        let mut b: usize = 0;
        let ghost mid = char_lines(out@);
        while b < body.len()
            invariant
                b <= body@.len(),
                char_lines(out@) == mid + char_lines(body@).take(b as int),
            decreases body.len() - b,
        {
            let ghost prev = char_lines(out@);
            out.push(copy_chars(body[b].as_slice()));
            proof {
                assert(char_lines(out@) =~= prev.push(body@[b as int]@));
                assert(char_lines(body@).take(b + 1) =~= char_lines(body@).take(b as int).push(body@[b as int]@));
            }
            b = b + 1;
        }
        proof {
            assert(char_lines(body@).take(body@.len() as int) =~= char_lines(body@));
            let t = cl.take(g + 1);
            assert(t.drop_last() =~= cl.take(g as int));
            assert(t.last() == secs@[g as int]@);
            assert(h@ =~= seq!['['] + t.last() + seq![']']);
            assert(mid =~= before.push(h@));
            assert(char_lines(out@) =~= head + group_lines(t, sv));
        }
        g = g + 1;
    }
    proof { assert(cl.take(secs@.len() as int) =~= cl); }
    let text = crlf_join(out.as_slice());
    Ok(string_of(text.as_slice()))
}

/// The section that the current file is in after its lines `i..k`, starting in `sec`.
pub open spec fn section_from(ls: Seq<Seq<char>>, i: int, sec: Seq<char>, k: int) -> Seq<char>
    decreases k - i,
{
    if i >= k {
        sec
    } else {
        let t = trim(ls[i]);
        section_from(ls, i + 1, if is_header(t) { header_name(t) } else { sec }, k)
    }
}

/// A current line that a merge drops: it assigns a key that a saved entry sets in its section.
pub open spec fn replaced_line(line: Seq<char>, sec: Seq<char>, saved: Seq<EntryView>) -> bool {
    let t = trim(line);
    !is_header(t) && match line_key(t) {
        Some(key) => replaced(saved, sec, key),
        None => false,
    }
}

proof fn lemma_kept_line(ls: Seq<Seq<char>>, i: int, sec: Seq<char>, saved: Seq<EntryView>, k: int)
    requires
        0 <= i <= k < ls.len(),
        !replaced_line(ls[k], section_from(ls, i, sec, k), saved),
    ensures
        kept_lines(ls, i, sec, saved).contains(ls[k]),
    decreases k - i,
{
    let t = trim(ls[i]);
    let nsec = if is_header(t) { header_name(t) } else { sec };
    let here = kept_lines(ls, i, sec, saved);
    if i == k {
        assert(here[0] == ls[k]);
    } else {
        lemma_kept_line(ls, i + 1, nsec, saved, k);
        let rest = kept_lines(ls, i + 1, nsec, saved);
        let q = choose|q: int| 0 <= q < rest.len() && rest[q] == ls[k];
        if here == seq![ls[i]] + rest {
            assert(here[q + 1] == ls[k]);
        } else {
            assert(here == rest);
        }
    }
}

proof fn lemma_section_has_entry(saved: Seq<EntryView>, j: int)
    requires
        0 <= j < saved.len(),
    ensures
        lines_of_section(saved, saved[j].section).contains(entry_line(saved[j])),
    decreases saved.len(),
{
    let sec = saved[j].section;
    let p = lines_of_section(saved.drop_last(), sec);
    if j == saved.len() - 1 {
        assert(p.push(entry_line(saved.last()))[p.len() as int] == entry_line(saved[j]));
    } else {
        lemma_section_has_entry(saved.drop_last(), j);
        assert(saved.drop_last()[j] == saved[j]);
        let k = choose|k: int| 0 <= k < p.len() && p[k] == entry_line(saved[j]);
        if saved.last().section == sec {
            assert(p.push(entry_line(saved.last()))[k] == p[k]);
        }
    }
}

proof fn lemma_group_has_section(secs: Seq<Seq<char>>, saved: Seq<EntryView>, g: int, x: Seq<char>)
    requires
        0 <= g < secs.len(),
        lines_of_section(saved, secs[g]).contains(x),
    ensures
        group_lines(secs, saved).contains(x),
    decreases secs.len(),
{
    let prev = group_lines(secs.drop_last(), saved);
    let hdr = seq![seq!['['] + secs.last() + seq![']']];
    let los = lines_of_section(saved, secs.last());
    let whole = prev + hdr + los;
    assert(group_lines(secs, saved) == whole);
    if g == secs.len() - 1 {
        let k = choose|k: int| 0 <= k < los.len() && los[k] == x;
        assert(whole[prev.len() + 1 + k] == x);
    } else {
        assert(secs.drop_last()[g] == secs[g]);
        lemma_group_has_section(secs.drop_last(), saved, g, x);
        let k = choose|k: int| 0 <= k < prev.len() && prev[k] == x;
        assert(whole[k] == x);
    }
}

/// A merge keeps every line of the target file that no saved entry replaces: headers, comments,
/// unknown keys and keys of other sections stay as they were.
pub proof fn law_merge_keeps_other_lines(current: Seq<char>, saved: Seq<EntryView>, secs: Seq<Seq<char>>, k: int)
    requires
        0 <= k < lines(current).len(),
        !replaced_line(lines(current)[k], section_from(lines(current), 0, Seq::empty(), k), saved),
    ensures
        merged_lines(current, saved, secs).contains(lines(current)[k]),
{
    let ls = lines(current);
    lemma_kept_line(ls, 0, Seq::empty(), saved, k);
    let kept = kept_lines(ls, 0, Seq::empty(), saved);
    let q = choose|q: int| 0 <= q < kept.len() && kept[q] == ls[k];
    let tail = seq![Seq::empty(), "; Game Passport portable PUBG settings"@];
    assert((kept + tail + group_lines(secs, saved))[q] == ls[k]);
}

proof fn lemma_crlf_lines(ls: Seq<Seq<char>>)
    requires
        forall|i: int| 0 <= i < ls.len() ==> no_lf(#[trigger] ls[i]),
    ensures
        lines(crlf_text(ls)) == ls,
        crlf_text(ls).len() == 0 || crlf_text(ls).last() == '\n',
    decreases ls.len(),
{
    if ls.len() > 0 {
        let d = ls.drop_last();
        assert forall|i: int| 0 <= i < d.len() implies no_lf(#[trigger] d[i]) by {
            assert(d[i] == ls[i]);
        }
        lemma_crlf_lines(d);
        let l = ls.last();
        let lr = l + seq!['\r'];
        assert(no_lf(l));
        assert(no_lf(lr));
        lemma_lines_of_line(lr);
        assert(strip_cr(lr) =~= l);
        let a = crlf_text(d);
        lemma_lines_append(a, lr + seq!['\n']);
        assert(crlf_text(ls) =~= a + (lr + seq!['\n']));
        assert(lines(crlf_text(ls)) =~= ls);
    }
}

proof fn lemma_kept_from(ls: Seq<Seq<char>>, i: int, section: Seq<char>, saved: Seq<EntryView>)
    ensures
        forall|q: int| #![trigger kept_lines(ls, i, section, saved)[q]] 0 <= q < kept_lines(ls, i, section, saved).len() ==>
            exists|k: int| #![trigger ls[k]] 0 <= k < ls.len() && kept_lines(ls, i, section, saved)[q] == ls[k],
    decreases ls.len() - i,
{
    if 0 <= i < ls.len() {
        let line = trim(ls[i]);
        let nsec = if is_header(line) { header_name(line) } else { section };
        lemma_kept_from(ls, i + 1, nsec, saved);
        lemma_kept_from(ls, i + 1, section, saved);
        let here = kept_lines(ls, i, section, saved);
        assert forall|q: int| #![trigger here[q]] 0 <= q < here.len() implies
            exists|k: int| #![trigger ls[k]] 0 <= k < ls.len() && here[q] == ls[k] by {
            let rest = kept_lines(ls, i + 1, nsec, saved);
            if here == seq![ls[i]] + rest && q > 0 {
                assert(here[q] == rest[q - 1]);
            } else if here == seq![ls[i]] + rest {
                assert(here[q] == ls[i]);
            } else {
                assert(here[q] == kept_lines(ls, i + 1, section, saved)[q]);
            }
        }
    }
}

proof fn lemma_section_lines_no_lf(saved: Seq<EntryView>, sec: Seq<char>)
    requires
        forall|j: int| 0 <= j < saved.len() ==> no_lf(#[trigger] entry_line(saved[j])),
    ensures
        forall|q: int| 0 <= q < lines_of_section(saved, sec).len() ==> no_lf(#[trigger] lines_of_section(saved, sec)[q]),
    decreases saved.len(),
{
    if saved.len() > 0 {
        let d = saved.drop_last();
        assert forall|j: int| 0 <= j < d.len() implies no_lf(#[trigger] entry_line(d[j])) by {
            assert(d[j] == saved[j]);
        }
        lemma_section_lines_no_lf(d, sec);
        assert(no_lf(entry_line(saved[saved.len() - 1])));
        let prev = lines_of_section(d, sec);
        let cur = lines_of_section(saved, sec);
        assert forall|q: int| 0 <= q < cur.len() implies no_lf(#[trigger] cur[q]) by {
            if q < prev.len() {
                assert(cur[q] == prev[q]);
            } else {
                assert(cur[q] == entry_line(saved.last()));
            }
        }
    }
}

proof fn lemma_group_lines_no_lf(secs: Seq<Seq<char>>, saved: Seq<EntryView>)
    requires
        forall|g: int| 0 <= g < secs.len() ==> no_lf(#[trigger] secs[g]),
        forall|j: int| 0 <= j < saved.len() ==> no_lf(#[trigger] entry_line(saved[j])),
    ensures
        forall|q: int| 0 <= q < group_lines(secs, saved).len() ==> no_lf(#[trigger] group_lines(secs, saved)[q]),
    decreases secs.len(),
{
    if secs.len() > 0 {
        let d = secs.drop_last();
        assert forall|g: int| 0 <= g < d.len() implies no_lf(#[trigger] d[g]) by {
            assert(d[g] == secs[g]);
        }
        lemma_group_lines_no_lf(d, saved);
        lemma_section_lines_no_lf(saved, secs.last());
        let prev = group_lines(d, saved);
        let hdr = seq!['['] + secs.last() + seq![']'];
        assert(no_lf(secs[secs.len() - 1]));
        assert(no_lf(hdr));
        let los = lines_of_section(saved, secs.last());
        let whole = prev + seq![hdr] + los;
        assert(group_lines(secs, saved) == whole);
        assert forall|q: int| 0 <= q < whole.len() implies no_lf(#[trigger] whole[q]) by {
            if q < prev.len() {
                assert(whole[q] == prev[q]);
            } else if q == prev.len() {
                assert(whole[q] == hdr);
            } else {
                assert(whole[q] == los[q - prev.len() - 1]);
            }
        }
    }
}

/// The merged file, read back line by line, gives exactly the merged lines, when no saved
/// section or entry holds a line feed.
pub proof fn law_merged_text_reads_back(current: Seq<char>, saved: Seq<EntryView>, secs: Seq<Seq<char>>)
    requires
        sections_of(saved, secs),
        forall|j: int| 0 <= j < saved.len() ==> no_lf(#[trigger] saved[j].section) && no_lf(entry_line(saved[j])),
    ensures
        lines(crlf_text(merged_lines(current, saved, secs))) == merged_lines(current, saved, secs),
{
    let ls = lines(current);
    lemma_lines_no_lf(current);
    lemma_kept_from(ls, 0, Seq::empty(), saved);
    let kept = kept_lines(ls, 0, Seq::empty(), saved);
    assert forall|g: int| 0 <= g < secs.len() implies no_lf(#[trigger] secs[g]) by {
        assert(secs.contains(secs[g]));
        let j = choose|j: int| 0 <= j < saved.len() && #[trigger] saved[j].section == secs[g];
    }
    assert forall|j: int| 0 <= j < saved.len() implies no_lf(#[trigger] entry_line(saved[j])) by {
        assert(no_lf(saved[j].section));
    }
    lemma_group_lines_no_lf(secs, saved);
    let comment = "; Game Passport portable PUBG settings"@;
    reveal_strlit("; Game Passport portable PUBG settings");
    assert(no_lf(comment));
    assert(no_lf(Seq::<char>::empty()));
    let gl = group_lines(secs, saved);
    let m = merged_lines(current, saved, secs);
    assert(m == kept + seq![Seq::<char>::empty(), comment] + gl);
    assert forall|q: int| 0 <= q < m.len() implies no_lf(#[trigger] m[q]) by {
        if q < kept.len() {
            assert(m[q] == kept[q]);
            let k = choose|k: int| #![trigger ls[k]] 0 <= k < ls.len() && kept[q] == ls[k];
        } else if q == kept.len() {
            assert(m[q] == Seq::<char>::empty());
        } else if q == kept.len() + 1 {
            assert(m[q] == comment);
        } else {
            assert(m[q] == gl[q - kept.len() - 2]);
        }
    }
    lemma_crlf_lines(m);
}

/// A merge writes every saved entry: its line is in the merged file.
pub proof fn law_merge_writes_saved_entries(current: Seq<char>, saved: Seq<EntryView>, secs: Seq<Seq<char>>)
    requires
        sections_of(saved, secs),
    ensures
        forall|j: int| 0 <= j < saved.len() ==> merged_lines(current, saved, secs).contains(#[trigger] entry_line(saved[j])),
{
    assert forall|j: int| 0 <= j < saved.len() implies merged_lines(current, saved, secs).contains(#[trigger] entry_line(saved[j])) by {
        lemma_section_has_entry(saved, j);
        assert(secs.contains(saved[j].section));
        let g = choose|g: int| 0 <= g < secs.len() && secs[g] == saved[j].section;
        lemma_group_has_section(secs, saved, g, entry_line(saved[j]));
        let gl = group_lines(secs, saved);
        let k = choose|k: int| 0 <= k < gl.len() && gl[k] == entry_line(saved[j]);
        let head = kept_lines(lines(current), 0, Seq::empty(), saved) + seq![Seq::empty(), "; Game Passport portable PUBG settings"@];
        assert((head + gl)[head.len() + k] == entry_line(saved[j]));
    }
}

/// The mark for a category: a check when values were found, else a warning.
pub open spec fn category_mark(count: usize) -> Seq<char> {
    if count > 0 { "✓"@ } else { "Warning"@ }
}

/// One detail line of a capture: `<name> <mark> (<count> values)`.
pub open spec fn category_line(name: Seq<char>, mark: Seq<char>, count: usize) -> Seq<char> {
    name + " "@ + mark + " ("@ + decimal(count as nat) + " values)"@
}

fn category_line_string(name: &str, mark: &str, count: usize) -> (r: String)
    ensures
        r@ == category_line(name@, mark@, count),
{
    let mut v = chars_of(name);
    push_str_chars(&mut v, " ");
    push_str_chars(&mut v, mark);
    push_str_chars(&mut v, " (");
    let d = decimal_chars(count as u64);
    extend_chars(&mut v, d.as_slice());
    push_str_chars(&mut v, " values)");
    proof { assert(v@ =~= category_line(name@, mark@, count)); }
    string_of(v.as_slice())
}

/// The detail lines of a capture: one per category (gameplay is always marked found), then the
/// warnings.
pub fn category_details(categories: &PubgCategorySummary, warnings: &[String]) -> (r: Vec<String>)
    ensures
        strings_view(r@) == seq![
            category_line("Gameplay"@, "✓"@, categories.gameplay),
            category_line("Keybinds"@, category_mark(categories.keybinds), categories.keybinds),
            category_line("Graphics"@, category_mark(categories.graphics), categories.graphics),
            category_line("Audio"@, category_mark(categories.audio), categories.audio),
        ] + strings_view(warnings@),
{
    let mut r: Vec<String> = Vec::new();
    r.push(category_line_string("Gameplay", "✓", categories.gameplay));
    let k = if categories.keybinds > 0 { "✓" } else { "Warning" };
    r.push(category_line_string("Keybinds", k, categories.keybinds));
    let g = if categories.graphics > 0 { "✓" } else { "Warning" };
    r.push(category_line_string("Graphics", g, categories.graphics));
    let a = if categories.audio > 0 { "✓" } else { "Warning" };
    r.push(category_line_string("Audio", a, categories.audio));
    let ghost head = strings_view(r@);
    let mut i: usize = 0;
    while i < warnings.len()
        invariant
            i <= warnings@.len(),
            strings_view(r@) == head + strings_view(warnings@).take(i as int),
        decreases warnings.len() - i,
    {
        let ghost prev = strings_view(r@);
        r.push(warnings[i].clone());
        proof {
            assert(strings_view(r@) =~= prev.push(warnings@[i as int]@));
            assert(strings_view(warnings@).take(i + 1) =~= strings_view(warnings@).take(i as int).push(warnings@[i as int]@));
        }
        i = i + 1;
    }
    proof { assert(strings_view(warnings@).take(warnings@.len() as int) =~= strings_view(warnings@)); }
    r
}

/// An entry as it is compared after a write: section and key lower-cased, operator and value as
/// they are.
pub open spec fn entry_shape(e: EntryView) -> (Seq<char>, Seq<char>, Seq<char>, Seq<char>) {
    (lower(e.section), lower(e.key), e.operator, e.value)
}

/// How many entries of `es` have the shape `t`.
pub open spec fn shape_count(es: Seq<EntryView>, t: (Seq<char>, Seq<char>, Seq<char>, Seq<char>)) -> nat
    decreases es.len(),
{
    if es.len() == 0 {
        0
    } else {
        shape_count(es.drop_last(), t) + (if entry_shape(es.last()) == t { 1nat } else { 0nat })
    }
}

fn entry_shape_chars(e: &PubgIniEntry) -> (r: (Vec<char>, Vec<char>, Vec<char>, Vec<char>))
    ensures
        (r.0@, r.1@, r.2@, r.3@) == entry_shape(e@),
{
    let s = chars_of(e.section.as_str());
    let k = chars_of(e.key.as_str());
    (lower_chars(s.as_slice()), lower_chars(k.as_slice()), chars_of(e.operator.as_str()), chars_of(e.value.as_str()))
}

fn count_shape(es: &[PubgIniEntry], t: &(Vec<char>, Vec<char>, Vec<char>, Vec<char>)) -> (r: usize)
    ensures
        r == shape_count(entries_view(es@), (t.0@, t.1@, t.2@, t.3@)),
{
    let ghost tv = (t.0@, t.1@, t.2@, t.3@);
    let mut n: usize = 0;
    let mut i: usize = 0;
    while i < es.len()
        invariant
            i <= es@.len(),
            n <= i,
            tv == (t.0@, t.1@, t.2@, t.3@),
            n == shape_count(entries_view(es@).take(i as int), tv),
        decreases es.len() - i,
    {
        let x = entry_shape_chars(&es[i]);
        proof {
            let t2 = entries_view(es@).take(i + 1);
            assert(t2.drop_last() =~= entries_view(es@).take(i as int));
            assert(t2.last() == es@[i as int]@);
        }
        if chars_eq(x.0.as_slice(), t.0.as_slice()) && chars_eq(x.1.as_slice(), t.1.as_slice())
            && chars_eq(x.2.as_slice(), t.2.as_slice()) && chars_eq(x.3.as_slice(), t.3.as_slice()) {
            proof { assert(entry_shape(es@[i as int]@) == tv); }
            n = n + 1;
        } else {
            proof {
                if entry_shape(es@[i as int]@) == tv {
                    assert(x.0@ == t.0@ && x.1@ == t.1@ && x.2@ == t.2@ && x.3@ == t.3@);
                }
            }
        }
        i = i + 1;
    }
    proof { assert(entries_view(es@).take(es@.len() as int) =~= entries_view(es@)); }
    n
}

/// Every entry of `expected` occurs in `actual` at least as often as in `expected`, entries
/// compared by section and key without case and by operator and value exactly.
pub fn entries_multiset_contains(actual: &[PubgIniEntry], expected: &[PubgIniEntry]) -> (r: bool)
    ensures
        r == forall|j: int| 0 <= j < expected@.len() ==>
            shape_count(entries_view(actual@), entry_shape(#[trigger] entries_view(expected@)[j]))
                >= shape_count(entries_view(expected@), entry_shape(entries_view(expected@)[j])),
{
    let mut j: usize = 0;
    while j < expected.len()
        invariant
            j <= expected@.len(),
            forall|q: int| 0 <= q < j ==>
                shape_count(entries_view(actual@), entry_shape(#[trigger] entries_view(expected@)[q]))
                    >= shape_count(entries_view(expected@), entry_shape(entries_view(expected@)[q])),
        decreases expected.len() - j,
    {
        let t = entry_shape_chars(&expected[j]);
        let have = count_shape(actual, &t);
        let want = count_shape(expected, &t);
        proof { assert(entries_view(expected@)[j as int] == expected@[j as int]@); }
        if have < want {
            return false;
        }
        j = j + 1;
    }
    true
}

/// An "unsupported" answer carrying `message`.
pub open spec fn unsupported_with(r: PubgCommandResponse, message: Seq<char>) -> bool {
    &&& r.state@ == "unsupported"@
    &&& r.message@ == message
    &&& r.details@.len() == 0
    &&& !r.retryable
    &&& r.payload is None
    &&& r.diagnostics is None
    &&& r.backup_token is None
}

/// PUBG capture on a platform without PUBG support.
pub fn capture() -> (r: PubgCommandResponse)
    ensures
        unsupported_with(r, "PUBG settings are supported only in the Windows desktop application."@),
{
    PubgCommandResponse::unsupported("PUBG settings are supported only in the Windows desktop application.")
}

/// PUBG apply on a platform without PUBG support.
pub fn apply(_payload: PubgPayload) -> (r: PubgCommandResponse)
    ensures
        unsupported_with(r, "PUBG settings are supported only in the Windows desktop application."@),
{
    PubgCommandResponse::unsupported("PUBG settings are supported only in the Windows desktop application.")
}

/// PUBG preflight on a platform without PUBG support.
pub fn preflight() -> (r: PubgCommandResponse)
    ensures
        unsupported_with(r, "PUBG preflight is supported only in the Windows desktop application."@),
{
    PubgCommandResponse::unsupported("PUBG preflight is supported only in the Windows desktop application.")
}

/// PUBG restore on a platform without PUBG support.
pub fn restore(_backup_token: Option<String>) -> (r: PubgCommandResponse)
    ensures
        unsupported_with(r, "PUBG restore is supported only in the Windows desktop application."@),
{
    PubgCommandResponse::unsupported("PUBG restore is supported only in the Windows desktop application.")
}

/// PUBG diagnostics on a platform without PUBG support.
pub fn diagnostics() -> (r: PubgCommandResponse)
    ensures
        unsupported_with(r, "PUBG diagnostics are supported only in the Windows desktop application."@),
{
    PubgCommandResponse::unsupported("PUBG diagnostics are supported only in the Windows desktop application.")
}

/// `a` followed by the decimal text of `n`.
fn count_text(a: &str, n: usize) -> (r: String)
    ensures
        r@ == a@ + decimal(n as nat),
{
    let mut v = chars_of(a);
    extend_chars(&mut v, decimal_chars(n as u64).as_slice());
    string_of(v.as_slice())
}

/// `a` followed by `b` and `c`.
fn text3(a: &str, b: &str, c: &str) -> (r: String)
    ensures
        r@ == a@ + b@ + c@,
{
    let mut v = chars_of(a);
    push_str_chars(&mut v, b);
    push_str_chars(&mut v, c);
    string_of(v.as_slice())
}

/// The answer of a check that PUBG is closed: an error to retry while it runs.
pub fn preflight_response(running: bool, diagnostics: PubgDiagnostics) -> (r: PubgCommandResponse)
    ensures
        running ==> r.state@ == "error"@ && r.message@ == "Закройте PUBG перед сохранением или применением профиля."@
            && strings_view(r.details@) == seq!["После закрытия нажмите «Повторить проверку»."@] && r.retryable,
        !running ==> r.state@ == "success"@ && r.message@ == "PUBG is closed. Configuration files can be changed safely."@
            && r.details@.len() == 0 && !r.retryable,
        r.payload is None && r.backup_token is None && r.diagnostics == Some(diagnostics),
{
    if running {
        let mut details: Vec<String> = Vec::new();
        details.push(String::from_str("После закрытия нажмите «Повторить проверку»."));
        proof { assert(strings_view(details@) =~= seq!["После закрытия нажмите «Повторить проверку»."@]); }
        return PubgCommandResponse::error(
            String::from_str("Закройте PUBG перед сохранением или применением профиля."),
            details,
            true,
            Some(diagnostics),
        );
    }
    PubgCommandResponse {
        state: String::from_str("success"),
        message: String::from_str("PUBG is closed. Configuration files can be changed safely."),
        details: Vec::new(),
        retryable: false,
        payload: None,
        diagnostics: Some(diagnostics),
        backup_token: None,
    }
}

/// The answer of a diagnostics refresh.
pub fn diagnostics_response(diagnostics: PubgDiagnostics) -> (r: PubgCommandResponse)
    ensures
        r.state@ == "success"@ && r.message@ == "PUBG diagnostics refreshed."@,
        r.details@.len() == 0 && !r.retryable && r.payload is None && r.backup_token is None,
        r.diagnostics == Some(diagnostics),
{
    PubgCommandResponse {
        state: String::from_str("success"),
        message: String::from_str("PUBG diagnostics refreshed."),
        details: Vec::new(),
        retryable: false,
        payload: None,
        diagnostics: Some(diagnostics),
        backup_token: None,
    }
}

/// The answer of an apply whose files were all written and verified.
pub fn apply_succeeded(applied: usize, backup: String) -> (r: PubgCommandResponse)
    ensures
        r.state@ == "success"@,
        r.message@ == "PUBG gameplay, keybind, graphics and audio settings were applied and verified."@,
        strings_view(r.details@) == seq!["Configuration files applied: "@ + decimal(applied as nat), "Local backup: "@ + backup@],
        !r.retryable && r.payload is None && r.diagnostics is None,
        r.backup_token == Some(backup),
{
    let mut details: Vec<String> = Vec::new();
    details.push(count_text("Configuration files applied: ", applied));
    details.push(text3("Local backup: ", backup.as_str(), ""));
    proof {
        reveal_strlit("");
        assert(strings_view(details@) =~= seq!["Configuration files applied: "@ + decimal(applied as nat), "Local backup: "@ + backup@]);
    }
    PubgCommandResponse {
        state: String::from_str("success"),
        message: String::from_str("PUBG gameplay, keybind, graphics and audio settings were applied and verified."),
        details,
        retryable: false,
        payload: None,
        diagnostics: None,
        backup_token: Some(backup),
    }
}

/// The answer of an apply that failed on some files: their errors, then how the rollback went.
pub fn apply_failed(errors: Vec<String>, rollback: Result<usize, String>, backup: String) -> (r: PubgCommandResponse)
    ensures
        r.state@ == "error"@,
        r.message@ == "PUBG settings could not be applied completely; rollback was attempted."@,
        strings_view(r.details@) == strings_view(errors@) + seq![match rollback {
            Ok(_) => "Automatic PUBG rollback completed."@,
            Err(e) => "Automatic PUBG rollback failed: "@ + e@,
        }],
        r.retryable && r.payload is None && r.diagnostics is None,
        r.backup_token == Some(backup),
{
    let last = match &rollback {
        Ok(_) => String::from_str("Automatic PUBG rollback completed."),
        Err(e) => text3("Automatic PUBG rollback failed: ", e.as_str(), ""),
    };
    let mut details = errors;
    let ghost before = strings_view(details@);
    details.push(last);
    proof {
        reveal_strlit("");
        assert(strings_view(details@) =~= before + seq![match rollback {
            Ok(_) => "Automatic PUBG rollback completed."@,
            Err(e) => "Automatic PUBG rollback failed: "@ + e@,
        }]);
    }
    PubgCommandResponse {
        state: String::from_str("error"),
        message: String::from_str("PUBG settings could not be applied completely; rollback was attempted."),
        details,
        retryable: true,
        payload: None,
        diagnostics: None,
        backup_token: Some(backup),
    }
}

/// The answer of a restore that wrote `count` files back.
pub fn restored_response(count: usize, backup_used: &str) -> (r: PubgCommandResponse)
    ensures
        r.state@ == "success"@,
        r.message@ == "Restored pre-Game Passport PUBG configuration."@,
        strings_view(r.details@) == seq!["Files restored: "@ + decimal(count as nat), "Backup used: "@ + backup_used@],
        !r.retryable && r.payload is None && r.diagnostics is None && r.backup_token is None,
{
    let mut details: Vec<String> = Vec::new();
    details.push(count_text("Files restored: ", count));
    details.push(text3("Backup used: ", backup_used, ""));
    proof {
        reveal_strlit("");
        assert(strings_view(details@) =~= seq!["Files restored: "@ + decimal(count as nat), "Backup used: "@ + backup_used@]);
    }
    PubgCommandResponse {
        state: String::from_str("success"),
        message: String::from_str("Restored pre-Game Passport PUBG configuration."),
        details,
        retryable: false,
        payload: None,
        diagnostics: None,
        backup_token: None,
    }
}

/// One file of a local PUBG backup: whether it existed, and its bytes as Base64 with their
/// lower-case hex SHA-256.
#[derive(Debug, Clone)]
pub struct PubgBackupFile {
    pub relative_id: String,
    pub existed: bool,
    pub content_base64: String,
    pub sha256: String,
}

/// The backup record of a file's bytes.
pub open spec fn backup_record_of(f: PubgBackupFile, relative_id: Seq<char>, existed: bool, bytes: Seq<u8>) -> bool {
    &&& f.relative_id@ == relative_id
    &&& f.existed == existed
    &&& f.content_base64@ == spec_base64_encode(bytes)
    &&& spec_base64_decode(f.content_base64@) == Some(bytes)
    &&& f.sha256@ == hex_lower(spec_sha256(bytes))
}

/// Records a file's bytes for a backup.
pub fn backup_file(relative_id: &str, existed: bool, bytes: &[u8]) -> (f: PubgBackupFile)
    requires
        bytes@.len() <= usize::MAX / 4,
    ensures
        backup_record_of(f, relative_id@, existed, bytes@),
{
    PubgBackupFile {
        relative_id: String::from_str(relative_id),
        existed,
        content_base64: base64_encode(bytes),
        sha256: sha256_hex(bytes),
    }
}

/// Why a backup's frame is refused, if it is: the schema, the configuration folder and the number
/// of files must be those a backup is written with.
pub fn check_backup_header(schema_version: u32, config_flavor: &str, file_count: usize) -> (r: Result<(), String>)
    ensures
        r is Ok <==> schema_version == 1 && (config_flavor@ == "WindowsNoEditor"@ || config_flavor@ == "Windows"@) && file_count == 3,
        r matches Err(e) ==> e@ == "PUBG backup is corrupted or unsupported."@,
{
    if schema_version != 1 || !(str_eq(config_flavor, "WindowsNoEditor") || str_eq(config_flavor, "Windows")) || file_count != 3 {
        return Err(String::from_str("PUBG backup is corrupted or unsupported."));
    }
    Ok(())
}

/// The bytes a backup file holds, checked: a safe file id, valid Base64, and the saved SHA-256
/// (compared exactly).
pub open spec fn spec_backup_bytes(relative_id: Seq<char>, content_base64: Seq<char>, sha256: Seq<char>) -> Result<Seq<u8>, Seq<char>> {
    if !spec_safe_file_id(relative_id) {
        Err("PUBG backup contains an unsafe path."@)
    } else {
        match spec_base64_decode(content_base64) {
            None => Err("PUBG backup contains invalid data."@),
            Some(bytes) => if hex_lower(spec_sha256(bytes)) != sha256 {
                Err("PUBG backup integrity check failed."@)
            } else {
                Ok(bytes)
            },
        }
    }
}

/// Checks one file of a backup and gives back its bytes; see `spec_backup_bytes`.
pub fn check_backup_file(file: &PubgBackupFile) -> (r: Result<Vec<u8>, String>)
    ensures
        match spec_backup_bytes(file.relative_id@, file.content_base64@, file.sha256@) {
            Ok(b) => r matches Ok(v) && v@ == b,
            Err(m) => r matches Err(e) && e@ == m,
        },
{
    let id = chars_of(file.relative_id.as_str());
    if !safe_file_id(id.as_slice()) {
        return Err(String::from_str("PUBG backup contains an unsafe path."));
    }
    let bytes = match base64_decode(file.content_base64.as_str()) {
        Ok(b) => b,
        Err(_) => { return Err(String::from_str("PUBG backup contains invalid data.")); },
    };
    let hash = sha256_hex(bytes.as_slice());
    if !str_eq(hash.as_str(), file.sha256.as_str()) {
        return Err(String::from_str("PUBG backup integrity check failed."));
    }
    Ok(bytes)
}

/// A restore gives back what a backup saved: the record of a file's bytes, under a safe file id,
/// passes the restore check and yields exactly those bytes.
pub proof fn law_backup_file_restores(f: PubgBackupFile, relative_id: Seq<char>, existed: bool, bytes: Seq<u8>)
    requires
        backup_record_of(f, relative_id, existed, bytes),
        spec_safe_file_id(relative_id),
    ensures
        spec_backup_bytes(f.relative_id@, f.content_base64@, f.sha256@) == Ok::<Seq<u8>, Seq<char>>(bytes),
{
}

/// A captured file: its name, its entries and their hash.
pub open spec fn file_of(f: PubgConfigFile, name: Seq<char>, es: Seq<EntryView>) -> bool {
    &&& f.relative_id@ == name
    &&& entries_view(f.entries@) == es
    &&& f.sha256@ == spec_file_hash(es)
}

/// The warnings that parsing a file gives: values left out, then no portable value at all.
pub open spec fn parse_warnings(name: Seq<char>, es: Seq<EntryView>, excluded: nat) -> Seq<Seq<char>> {
    (if excluded > 0 {
        seq![name + ": excluded "@ + decimal(excluded) + " hardware-specific or sensitive setting(s)."@]
    } else {
        Seq::empty()
    }) + (if es.len() == 0 { seq![name + ": no portable settings were found."@] } else { Seq::empty() })
}

/// A file parsed and recorded by a capture.
pub open spec fn parsed_into(name: Seq<char>, es: Seq<EntryView>, excluded: nat, files0: Seq<PubgConfigFile>, files1: Seq<PubgConfigFile>, w0: Seq<Seq<char>>, w1: Seq<Seq<char>>) -> bool {
    &&& w1 == w0 + parse_warnings(name, es, excluded)
    &&& if es.len() == 0 {
        files1 == files0
    } else {
        files1.len() == files0.len() + 1 && files1.drop_last() == files0 && file_of(files1.last(), name, es)
    }
}

/// One file of a capture: `read` is `None` when the file is missing, else its text or the read
/// error. A missing GameUserSettings.ini and any read or parse error are errors, another missing
/// file a warning; a parsed file adds its warnings and, when it has entries, its record.
pub fn capture_file(name: &str, read: Option<Result<String, String>>, files: &mut Vec<PubgConfigFile>, warnings: &mut Vec<String>, parse_errors: &mut Vec<String>)
    ensures
        read is None && name@ == "GameUserSettings.ini"@ ==> final(files)@ == old(files)@ && final(warnings)@ == old(warnings)@
            && strings_view(final(parse_errors)@) == strings_view(old(parse_errors)@).push("Required file not found: "@ + name@),
        read is None && name@ != "GameUserSettings.ini"@ ==> final(files)@ == old(files)@ && final(parse_errors)@ == old(parse_errors)@
            && strings_view(final(warnings)@) == strings_view(old(warnings)@).push("Optional file not found: "@ + name@),
        read matches Some(Err(e)) ==> final(files)@ == old(files)@ && final(warnings)@ == old(warnings)@
            && strings_view(final(parse_errors)@) == strings_view(old(parse_errors)@).push(e@),
        read matches Some(Ok(t)) ==> match spec_parse_ini(name@, t@) {
            Err(e) => final(files)@ == old(files)@ && final(warnings)@ == old(warnings)@
                && strings_view(final(parse_errors)@) == strings_view(old(parse_errors)@).push(e),
            Ok((es, n)) => final(parse_errors)@ == old(parse_errors)@
                && parsed_into(name@, es, n, old(files)@, final(files)@, strings_view(old(warnings)@), strings_view(final(warnings)@)),
        },
{
    let ghost w0 = strings_view(warnings@);
    let ghost p0 = strings_view(parse_errors@);
    match read {
        None => {
            if str_eq(name, "GameUserSettings.ini") {
                parse_errors.push(text3("Required file not found: ", name, ""));
            } else {
                warnings.push(text3("Optional file not found: ", name, ""));
            }
            proof {
                reveal_strlit("");
                assert(strings_view(parse_errors@) =~= p0.push("Required file not found: "@ + name@) || strings_view(warnings@) =~= w0.push("Optional file not found: "@ + name@));
            }
        },
        Some(Err(e)) => {
            let ghost ev = e@;
            parse_errors.push(e);
            proof { assert(strings_view(parse_errors@) =~= p0.push(ev)); }
        },
        Some(Ok(text)) => {
            match parse_portable_ini(name, text.as_str()) {
                Err(e) => {
                    let ghost ev = e@;
                    parse_errors.push(e);
                    proof { assert(strings_view(parse_errors@) =~= p0.push(ev)); }
                },
                Ok((entries, excluded)) => {
                    let ghost es = entries_view(entries@);
                    if excluded > 0 {
                        let mut v = chars_of(name);
                        push_str_chars(&mut v, ": excluded ");
                        extend_chars(&mut v, decimal_chars(excluded as u64).as_slice());
                        push_str_chars(&mut v, " hardware-specific or sensitive setting(s).");
                        warnings.push(string_of(v.as_slice()));
                    }
                    let ghost w1 = strings_view(warnings@);
                    proof {
                        assert(w1 =~= w0 + (if excluded > 0 {
                            seq![name@ + ": excluded "@ + decimal(excluded as nat) + " hardware-specific or sensitive setting(s)."@]
                        } else {
                            Seq::empty()
                        }));
                    }
                    if entries.len() == 0 {
                        warnings.push(text3("", name, ": no portable settings were found."));
                        proof {
                            reveal_strlit("");
                            assert(strings_view(warnings@) =~= w0 + parse_warnings(name@, es, excluded as nat));
                        }
                    } else {
                        let sha256 = file_hash(entries.as_slice());
                        let ghost f0 = files@;
                        files.push(PubgConfigFile { relative_id: String::from_str(name), entries, sha256 });
                        proof {
                            assert(files@.drop_last() =~= f0);
                            assert(strings_view(warnings@) =~= w0 + parse_warnings(name@, es, excluded as nat));
                        }
                    }
                },
            }
        },
    }
}

/// The number of category names over all files, or `None` when it does not fit in a `usize`.
pub fn category_total(files: &[PubgConfigFile]) -> (r: Option<usize>)
    ensures
        r matches Some(n) ==> n == all_categories(files@).len(),
        r is None ==> all_categories(files@).len() > usize::MAX,
{
    let ghost total = all_categories(files@);
    let mut sum: usize = 0;
    let mut f: usize = 0;
    while f < files.len()
        invariant
            f <= files@.len(),
            total == all_categories(files@),
            sum == all_categories(files@.take(f as int)).len(),
        decreases files.len() - f,
    {
        let entries = &files[f].entries;
        let ghost before = all_categories(files@.take(f as int));
        proof {
            lemma_all_categories_prefix(files@, f as int);
            lemma_all_categories_prefix(files@, (f + 1) as int);
            assert(entries_view(entries@).take(0) =~= Seq::<EntryView>::empty());
            assert(entries_view(entries@.take(0)) =~= Seq::<EntryView>::empty());
        }
        let mut i: usize = 0;
        while i < entries.len()
            invariant
                i <= entries@.len(),
                total == all_categories(files@),
                before.len() + entry_categories(entries_view(entries@)).len() <= total.len(),
                sum == before.len() + entry_categories(entries_view(entries@.take(i as int))).len(),
            decreases entries.len() - i,
        {
            proof {
                lemma_entry_categories_prefix(entries_view(entries@), i as int);
                lemma_entry_categories_prefix(entries_view(entries@), (i + 1) as int);
                assert(entries_view(entries@.take(i + 1)) =~= entries_view(entries@).take(i + 1));
                assert(entries_view(entries@.take(i as int)) =~= entries_view(entries@).take(i as int));
                assert(entries_view(entries@)[i as int].categories == strings_view(entries@[i as int].categories@));
            }
            match sum.checked_add(entries[i].categories.len()) {
                None => {
                    proof {
                        let es = entries_view(entries@);
                        assert(strings_view(entries@[i as int].categories@).len() == entries@[i as int].categories@.len());
                        assert(sum + entries@[i as int].categories@.len() > usize::MAX);
                        assert(entry_categories(es.take(i + 1)) == entry_categories(es.take(i as int)) + es[i as int].categories);
                        assert(entry_categories(es.take(i + 1)).len() <= entry_categories(es).len());
                        assert(before.len() + entry_categories(es.take(i + 1)).len() > usize::MAX);
                    }
                    return None;
                },
                Some(s) => {
                    proof { assert(strings_view(entries@[i as int].categories@).len() == entries@[i as int].categories@.len()); }
                    sum = s;
                },
            }
            i = i + 1;
        }
        proof {
            assert(entries@.take(entries@.len() as int) =~= entries@);
        }
        f = f + 1;
    }
    proof { assert(files@.take(files@.len() as int) =~= files@); }
    Some(sum)
}

/// Some file of a capture is GameUserSettings.ini (exactly that name).
pub open spec fn has_game_user_settings(files: Seq<PubgConfigFile>) -> bool {
    exists|i: int| 0 <= i < files.len() && #[trigger] files[i].relative_id@ == "GameUserSettings.ini"@
}

/// The counts of a category summary are those of all category names of the files.
pub open spec fn summary_of(c: PubgCategorySummary, files: Seq<PubgConfigFile>) -> bool {
    &&& c.gameplay == count_of(all_categories(files), "gameplay"@)
    &&& c.keybinds == count_of(all_categories(files), "keybinds"@)
    &&& c.graphics == count_of(all_categories(files), "graphics"@)
    &&& c.audio == count_of(all_categories(files), "audio"@)
}

/// A warning for each category without values, in the order gameplay, keybinds, graphics, audio.
pub open spec fn empty_category_warnings(c: PubgCategorySummary) -> Seq<Seq<char>> {
    (if c.gameplay == 0 { seq!["No gameplay settings were confirmed in the current config."@] } else { Seq::empty() })
        + (if c.keybinds == 0 { seq!["No keybinds settings were confirmed in the current config."@] } else { Seq::empty() })
        + (if c.graphics == 0 { seq!["No graphics settings were confirmed in the current config."@] } else { Seq::empty() })
        + (if c.audio == 0 { seq!["No audio settings were confirmed in the current config."@] } else { Seq::empty() })
}

/// The warnings of a capture: those of the files, the empty categories, and a missing resolution.
pub open spec fn capture_warnings(warnings: Seq<Seq<char>>, c: PubgCategorySummary, files: Seq<PubgConfigFile>) -> Seq<Seq<char>> {
    warnings + empty_category_warnings(c) + (if spec_normalized(files).0 is None || spec_normalized(files).1 is None {
        seq!["Resolution was not found; Display Adapter capture will report Warning."@]
    } else {
        Seq::empty()
    })
}

/// What a profile leaves out on purpose.
pub open spec fn unsupported_category_lines() -> Seq<Seq<char>> {
    seq![
        "monitor/GPU/audio device identifiers"@,
        "refresh rate (handled as MAX_AVAILABLE by Display Adapter)"@,
        "Engine.ini and arbitrary console variables"@,
        "Steam/BattlEye/authentication data"@,
    ]
}

/// The payload of a capture of `files` with warnings `w`.
pub open spec fn capture_payload(p: PubgPayload, files: Seq<PubgConfigFile>, w: Seq<Seq<char>>, captured_at: String) -> bool {
    &&& p.schema_version == SCHEMA_VERSION
    &&& p.captured_at == captured_at
    &&& p.game@ == "pubg"@
    &&& p.files@ == files
    &&& (p.normalized.width, p.normalized.height, p.normalized.display_mode@) == spec_normalized(files)
    &&& summary_of(p.captured_categories, files)
    &&& strings_view(p.unsupported_categories@) == unsupported_category_lines()
    &&& strings_view(p.warnings@) == w
}

/// The detail lines of a capture summary `c` followed by `w`.
pub open spec fn summary_details(c: PubgCategorySummary, w: Seq<Seq<char>>) -> Seq<Seq<char>> {
    seq![
        category_line("Gameplay"@, "✓"@, c.gameplay),
        category_line("Keybinds"@, category_mark(c.keybinds), c.keybinds),
        category_line("Graphics"@, category_mark(c.graphics), c.graphics),
        category_line("Audio"@, category_mark(c.audio), c.audio),
    ] + w
}

fn push_text(v: &mut Vec<String>, t: &str)
    ensures
        strings_view(final(v)@) == strings_view(old(v)@).push(t@),
{
    let ghost before = strings_view(v@);
    v.push(String::from_str(t));
    proof { assert(strings_view(v@) =~= before.push(t@)); }
}

/// The answer of a capture once every file was read: an error (with the parse errors, retryable)
/// when a file failed or GameUserSettings.ini gave nothing; else the payload, with a warning for
/// each category without values and for a missing resolution, and "success" only without any
/// warning. The diagnostics are left to the caller.
pub fn capture_report(files: Vec<PubgConfigFile>, warnings: Vec<String>, parse_errors: Vec<String>, captured_at: String) -> (r: PubgCommandResponse)
    requires
        all_categories(files@).len() <= usize::MAX,
    ensures
        (parse_errors@.len() > 0 || !has_game_user_settings(files@)) ==> r.state@ == "error"@
            && r.message@ == "PUBG configuration could not be captured safely."@ && r.details == parse_errors
            && r.retryable && r.payload is None,
        !(parse_errors@.len() > 0 || !has_game_user_settings(files@)) ==> exists|c: PubgCategorySummary| {
            let w = capture_warnings(strings_view(warnings@), c, files@);
            &&& #[trigger] summary_of(c, files@)
            &&& r.state@ == (if w.len() == 0 { "success"@ } else { "warning"@ })
            &&& r.message@ == "PUBG profile captured from real Windows configuration files."@
            &&& strings_view(r.details@) == summary_details(c, w)
            &&& r.retryable == (w.len() > 0)
            &&& (r.payload matches Some(p) && capture_payload(p, files@, w, captured_at))
        },
        r.diagnostics is None && r.backup_token is None,
{
    let mut has_gus = false;
    let mut i: usize = 0;
    while i < files.len()
        invariant
            i <= files@.len(),
            has_gus <==> exists|k: int| 0 <= k < i && #[trigger] files@[k].relative_id@ == "GameUserSettings.ini"@,
        decreases files.len() - i,
    {
        if str_eq(files[i].relative_id.as_str(), "GameUserSettings.ini") {
            has_gus = true;
        }
        i = i + 1;
    }
    if parse_errors.len() > 0 || !has_gus {
        return PubgCommandResponse::error(String::from_str("PUBG configuration could not be captured safely."), parse_errors, true, None);
    }
    let categories = summarize(files.as_slice());
    let normal = normalized(files.as_slice());
    let mut w = warnings;
    let ghost w0 = strings_view(w@);
    if categories.gameplay == 0 { push_text(&mut w, "No gameplay settings were confirmed in the current config."); }
    if categories.keybinds == 0 { push_text(&mut w, "No keybinds settings were confirmed in the current config."); }
    if categories.graphics == 0 { push_text(&mut w, "No graphics settings were confirmed in the current config."); }
    if categories.audio == 0 { push_text(&mut w, "No audio settings were confirmed in the current config."); }
    if normal.width.is_none() || normal.height.is_none() {
        push_text(&mut w, "Resolution was not found; Display Adapter capture will report Warning.");
    }
    proof { assert(strings_view(w@) =~= capture_warnings(w0, categories, files@)); }
    let mut unsupported: Vec<String> = Vec::new();
    push_text(&mut unsupported, "monitor/GPU/audio device identifiers");
    push_text(&mut unsupported, "refresh rate (handled as MAX_AVAILABLE by Display Adapter)");
    push_text(&mut unsupported, "Engine.ini and arbitrary console variables");
    push_text(&mut unsupported, "Steam/BattlEye/authentication data");
    proof { assert(strings_view(unsupported@) =~= unsupported_category_lines()); }
    let details = category_details(&categories, w.as_slice());
    let empty = w.len() == 0;
    let ghost wv = strings_view(w@);
    let ghost fv = files@;
    let ghost captured_at_v = captured_at;
    let payload = PubgPayload {
        schema_version: SCHEMA_VERSION,
        captured_at,
        game: String::from_str("pubg"),
        files,
        normalized: normal,
        captured_categories: PubgCategorySummary {
            gameplay: categories.gameplay,
            keybinds: categories.keybinds,
            graphics: categories.graphics,
            audio: categories.audio,
        },
        unsupported_categories: unsupported,
        warnings: w,
    };
    let r = PubgCommandResponse {
        state: String::from_str(if empty { "success" } else { "warning" }),
        message: String::from_str("PUBG profile captured from real Windows configuration files."),
        details,
        retryable: !empty,
        payload: Some(payload),
        diagnostics: None,
        backup_token: None,
    };
    proof {
        let w = capture_warnings(w0, categories, fv);
        assert(wv == w);
        assert(wv.len() == 0 <==> empty);
        assert(strings_view(r.details@) == summary_details(categories, w));
        assert(capture_payload(r.payload->0, fv, w, captured_at_v));
        assert(summary_of(categories, fv));
    }
    r
}

/// Every saved entry occurs in `actual` at least as often as among the saved entries (section
/// and key compared without case).
pub open spec fn holds_saved(actual: Seq<EntryView>, expected: Seq<EntryView>) -> bool {
    forall|j: int| 0 <= j < expected.len() ==>
        shape_count(actual, entry_shape(#[trigger] expected[j])) >= shape_count(expected, entry_shape(expected[j]))
}

/// Checks a file written by an apply from the text read back: it must parse, and hold every
/// saved entry.
pub fn verify_applied(relative_id: &str, reread: Result<String, String>, saved: &[PubgIniEntry]) -> (r: Result<(), String>)
    ensures
        reread matches Err(e) ==> (r matches Err(m) && m@ == relative_id@ + " verification failed: "@ + e@),
        reread matches Ok(t) ==> match spec_parse_ini(relative_id@, t@) {
            Err(e) => r matches Err(m) && m@ == relative_id@ + " verification failed: "@ + e,
            Ok((es, _)) => if holds_saved(es, entries_view(saved@)) {
                r is Ok
            } else {
                r matches Err(m) && m@ == relative_id@ + " verification did not match the saved snapshot."@
            },
        },
{
    let text = match reread {
        Err(e) => { return Err(text3(relative_id, " verification failed: ", e.as_str())); },
        Ok(t) => t,
    };
    match parse_portable_ini(relative_id, text.as_str()) {
        Err(e) => Err(text3(relative_id, " verification failed: ", e.as_str())),
        Ok((entries, _)) => {
            if entries_multiset_contains(entries.as_slice(), saved) {
                Ok(())
            } else {
                proof { reveal_strlit(""); }
                Err(text3(relative_id, " verification did not match the saved snapshot.", ""))
            }
        },
    }
}

/// The record of a file's text, when it parses.
pub fn parsed_file(name: &str, text: &str) -> (r: Option<PubgConfigFile>)
    ensures
        match spec_parse_ini(name@, text@) {
            Ok((es, _)) => r matches Some(f) && file_of(f, name@, es),
            Err(_) => r is None,
        },
{
    match parse_portable_ini(name, text) {
        Err(_) => None,
        Ok((entries, _)) => {
            let sha256 = file_hash(entries.as_slice());
            Some(PubgConfigFile { relative_id: String::from_str(name), entries, sha256 })
        },
    }
}

/// The outcomes of the last PUBG operations of this session.
#[derive(Debug, Clone)]
pub struct PubgResults {
    pub capture: Option<String>,
    pub apply: Option<String>,
    pub backup: Option<String>,
    pub restore: Option<String>,
    pub parse_errors: Vec<String>,
    pub write_errors: Vec<String>,
}

/// What diagnostics never carry over.
pub open spec fn unsupported_setting_lines() -> Seq<Seq<char>> {
    seq!["Hardware device identifiers"@, "Exact refresh rate"@, "Engine.ini/custom cvars"@]
}

/// The diagnostics of PUBG on this computer: found when its configuration folder or its
/// installation is, the files found, the categories of the files that parse, and the outcomes of
/// the last operations.
pub fn diagnostics_of(config_directory: Option<String>, install_path: Option<String>, config_files_found: Vec<String>, parsed: &[PubgConfigFile], process_running: bool, results: PubgResults) -> (d: PubgDiagnostics)
    requires
        all_categories(parsed@).len() <= usize::MAX,
    ensures
        d.pubg_detected == (config_directory is Some || install_path is Some),
        d.install_path == install_path && d.config_directory == config_directory,
        d.config_files_found == config_files_found && d.process_running == process_running,
        d.capture_result == results.capture && d.apply_result == results.apply,
        d.backup_result == results.backup && d.restore_result == results.restore,
        summary_of(d.categories, parsed@),
        strings_view(d.unsupported_settings@) == unsupported_setting_lines(),
        d.parse_errors == results.parse_errors && d.write_errors == results.write_errors,
{
    let mut unsupported: Vec<String> = Vec::new();
    push_text(&mut unsupported, "Hardware device identifiers");
    push_text(&mut unsupported, "Exact refresh rate");
    push_text(&mut unsupported, "Engine.ini/custom cvars");
    proof { assert(strings_view(unsupported@) =~= unsupported_setting_lines()); }
    PubgDiagnostics {
        pubg_detected: config_directory.is_some() || install_path.is_some(),
        install_path,
        config_directory,
        config_files_found,
        process_running,
        capture_result: results.capture,
        apply_result: results.apply,
        backup_result: results.backup,
        restore_result: results.restore,
        categories: summarize(parsed),
        unsupported_settings: unsupported,
        parse_errors: results.parse_errors,
        write_errors: results.write_errors,
    }
}

} // verus!
