use vstd::prelude::*;

use crate::text::{chars_of, contains_any, contains_any_str, extend_chars, has_prefix, lower, lower_chars, parse_u32, parse_u32_chars, push_str_chars, string_of, trim, trim_chars, views};

verus! {

/// The version of the application.
pub const APP_VERSION: &'static str = "0.6.0";
/// The size at which the production log is rotated.
pub const MAX_LOG_BYTES: u64 = 1048576;
/// How many rotated production logs are kept.
pub const MAX_LOG_FILES: usize = 3;

/// A JSON value; numbers are kept as their JSON text.
#[derive(Debug)]
pub enum JsonValue {
    Null,
    Bool(bool),
    Number(String),
    Str(String),
    Array(Vec<JsonValue>),
    Object(Vec<(String, JsonValue)>),
}

/// The mathematical content of a JSON value.
pub enum JsonView {
    Null,
    Bool(bool),
    Number(Seq<char>),
    Str(Seq<char>),
    Array(Seq<JsonView>),
    Object(Seq<(Seq<char>, JsonView)>),
}

/// The view of a JSON value.
pub open spec fn json_view(v: JsonValue) -> JsonView
    decreases v, 0nat,
{
    match v {
        JsonValue::Null => JsonView::Null,
        JsonValue::Bool(b) => JsonView::Bool(b),
        JsonValue::Number(n) => JsonView::Number(n@),
        JsonValue::Str(s) => JsonView::Str(s@),
        JsonValue::Array(items) => JsonView::Array(json_views(items@)),
        JsonValue::Object(members) => JsonView::Object(member_views(members@)),
    }
}

/// The views of some JSON values.
pub open spec fn json_views(items: Seq<JsonValue>) -> Seq<JsonView>
    decreases items, items.len(),
{
    if items.len() == 0 {
        Seq::empty()
    } else {
        json_views(items.drop_last()).push(json_view(items.last()))
    }
}

/// The views of some object members.
pub open spec fn member_views(members: Seq<(String, JsonValue)>) -> Seq<(Seq<char>, JsonView)>
    decreases members, members.len(),
{
    if members.len() == 0 {
        Seq::empty()
    } else {
        member_views(members.drop_last()).push(member_view(members.last()))
    }
}

/// The view of one object member.
pub open spec fn member_view(m: (String, JsonValue)) -> (Seq<char>, JsonView)
    decreases m, 0nat,
{
    (m.0@, json_view(m.1))
}

/// Markers of secrets in free text.
pub open spec fn secret_markers() -> Seq<Seq<char>> {
    seq!["authorization:"@, "bearer "@, "access_token"@, "refresh_token"@, "password="@, "cookie:"@, "supabase_anon_key"@, "steamloginsecure"@]
}

fn secret_list() -> (r: [&'static str; 8])
    ensures
        views(r@) == secret_markers(),
{
    let r = ["authorization:", "bearer ", "access_token", "refresh_token", "password=", "cookie:", "supabase_anon_key", "steamloginsecure"];
    proof { assert(views(r@) =~= secret_markers()); }
    r
}

/// Markers of object keys that a diagnostic report leaves out (compared lower-cased).
pub open spec fn key_markers() -> Seq<Seq<char>> {
    seq!["password"@, "token"@, "secret"@, "cookie"@, "authorization"@, "email"@, "userid"@, "accesstoken"@, "refreshtoken"@]
}

fn key_list() -> (r: [&'static str; 9])
    ensures
        views(r@) == key_markers(),
{
    let r = ["password", "token", "secret", "cookie", "authorization", "email", "userid", "accesstoken", "refreshtoken"];
    proof { assert(views(r@) =~= key_markers()); }
    r
}

/// Text holds a secret marker, compared lower-cased.
pub open spec fn spec_contains_secret_marker(value: Seq<char>) -> bool {
    contains_any(lower(value), secret_markers())
}

fn secret_chars(value: &[char]) -> (r: bool)
    ensures
        r == spec_contains_secret_marker(value@),
{
    let l = lower_chars(value);
    let markers = secret_list();
    contains_any_str(l.as_slice(), &markers)
}

/// Whether text looks like it carries a credential.
pub fn contains_secret_marker(value: &str) -> (r: bool)
    ensures
        r == spec_contains_secret_marker(value@),
{
    let c = chars_of(value);
    secret_chars(c.as_slice())
}

/// `s` with every occurrence of `pat` replaced by `rep`, left to right and without overlap, as
/// `str::replace` does (an empty pattern matches around every character).
pub open spec fn replace_all(s: Seq<char>, pat: Seq<char>, rep: Seq<char>) -> Seq<char>
    decreases s.len(),
{
    if pat.len() == 0 {
        if s.len() == 0 { rep } else { rep + seq![s[0]] + replace_all(s.drop_first(), pat, rep) }
    } else if has_prefix(s, pat) {
        rep + replace_all(s.skip(pat.len() as int), pat, rep)
    } else if s.len() == 0 {
        Seq::empty()
    } else {
        seq![s[0]] + replace_all(s.drop_first(), pat, rep)
    }
}

/// `s` with every `pat` replaced by `rep`.
pub fn replace_chars(s: &[char], pat: &[char], rep: &[char]) -> (r: Vec<char>)
    ensures
        r@ == replace_all(s@, pat@, rep@),
{
    let mut out: Vec<char> = Vec::new();
    let mut i: usize = 0;
    proof { assert(s@.skip(0) =~= s@); }
    while i < s.len()
        invariant
            i <= s@.len(),
            out@ + replace_all(s@.skip(i as int), pat@, rep@) == replace_all(s@, pat@, rep@),
        decreases s.len() - i,
    {
        let ghost rest = s@.skip(i as int);
        let ghost before = out@;
        if pat.len() == 0 {
            extend_chars(&mut out, rep);
            out.push(s[i]);
            proof {
                assert(rest.drop_first() =~= s@.skip(i + 1));
                assert(out@ + replace_all(s@.skip(i + 1), pat@, rep@) =~= before + replace_all(rest, pat@, rep@));
            }
            i = i + 1;
        } else if pat.len() <= s.len() - i && crate::text::occurs_at_exec(s, pat, i) {
            extend_chars(&mut out, rep);
            proof {
                assert(rest.subrange(0, pat@.len() as int) =~= s@.subrange(i as int, i + pat@.len()));
                assert(has_prefix(rest, pat@));
                assert(rest.skip(pat@.len() as int) =~= s@.skip(i + pat@.len()));
                assert(out@ + replace_all(s@.skip(i + pat@.len()), pat@, rep@) =~= before + replace_all(rest, pat@, rep@));
            }
            i = i + pat.len();
        } else {
            out.push(s[i]);
            proof {
                if has_prefix(rest, pat@) {
                    assert(rest.subrange(0, pat@.len() as int) =~= s@.subrange(i as int, i + pat@.len()));
                }
                assert(rest.drop_first() =~= s@.skip(i + 1));
                assert(out@ + replace_all(s@.skip(i + 1), pat@, rep@) =~= before + replace_all(rest, pat@, rep@));
            }
            i = i + 1;
        }
    }
    if pat.len() == 0 {
        extend_chars(&mut out, rep);
    }
    proof {
        assert(s@.skip(i as int).len() == 0);
        if pat@.len() > 0 {
            assert(!has_prefix(s@.skip(i as int), pat@));
        }
        assert(out@ =~= replace_all(s@, pat@, rep@));
    }
    out
}

/// How many '.' characters `s` holds.
pub open spec fn dot_count(s: Seq<char>) -> nat
    decreases s.len(),
{
    if s.len() == 0 { 0 } else { dot_count(s.drop_last()) + (if s.last() == '.' { 1nat } else { 0nat }) }
}

/// A string that looks like a JSON web token: "eyJ" then exactly two dots.
pub open spec fn looks_like_token(t: Seq<char>) -> bool {
    has_prefix(t, "eyJ"@) && dot_count(t) == 2
}

/// A string of a diagnostic report: redacted when it looks secret, else with the user's home
/// folder written as %USERPROFILE%.
pub open spec fn clean_string(t: Seq<char>, home: Option<Seq<char>>) -> Seq<char> {
    if spec_contains_secret_marker(t) || looks_like_token(t) {
        "[REDACTED]"@
    } else {
        match home {
            Some(h) => replace_all(t, h, "%USERPROFILE%"@),
            None => t,
        }
    }
}

/// A key that a diagnostic report leaves out.
pub open spec fn dropped_key(k: Seq<char>) -> bool {
    contains_any(lower(k), key_markers())
}

/// A diagnostic report value with secret-looking keys removed and strings cleaned, everywhere.
pub open spec fn sanitize_view(v: JsonView, home: Option<Seq<char>>) -> JsonView
    decreases v, 0nat,
{
    match v {
        JsonView::Str(t) => JsonView::Str(clean_string(t, home)),
        JsonView::Array(items) => JsonView::Array(sanitize_items(items, home)),
        JsonView::Object(ms) => JsonView::Object(sanitize_members(ms, home)),
        _ => v,
    }
}

/// Some values, each sanitized.
pub open spec fn sanitize_items(items: Seq<JsonView>, home: Option<Seq<char>>) -> Seq<JsonView>
    decreases items, items.len(),
{
    if items.len() == 0 {
        Seq::empty()
    } else {
        sanitize_items(items.drop_last(), home).push(sanitize_view(items.last(), home))
    }
}

/// Object members without the dropped keys, their values sanitized.
pub open spec fn sanitize_members(ms: Seq<(Seq<char>, JsonView)>, home: Option<Seq<char>>) -> Seq<(Seq<char>, JsonView)>
    decreases ms, ms.len(),
{
    if ms.len() == 0 {
        Seq::empty()
    } else if dropped_key(ms.last().0) {
        sanitize_members(ms.drop_last(), home)
    } else {
        sanitize_members(ms.drop_last(), home).push((ms.last().0, sanitize_view(ms.last().1, home)))
    }
}

fn clean_string_chars(t: &[char], home: Option<&[char]>) -> (r: String)
    ensures
        r@ == clean_string(t@, match home { Some(h) => Some(h@), None => None }),
{
    let mut dots: usize = 0;
    let mut i: usize = 0;
    while i < t.len()
        invariant
            i <= t@.len(),
            dots <= i,
            dots == dot_count(t@.take(i as int)),
        decreases t.len() - i,
    {
        proof { assert(t@.take(i + 1).drop_last() =~= t@.take(i as int)); }
        if t[i] == '.' {
            dots = dots + 1;
        }
        i = i + 1;
    }
    proof { assert(t@.take(t@.len() as int) =~= t@); }
    if secret_chars(t) || (crate::text::starts_with_str(t, "eyJ") && dots == 2) {
        return String::from_str("[REDACTED]");
    }
    match home {
        Some(h) => {
            let marker = chars_of("%USERPROFILE%");
            let out = replace_chars(t, h, marker.as_slice());
            string_of(out.as_slice())
        },
        None => string_of(t),
    }
}

fn copy_string(s: &String) -> (r: String)
    ensures
        r@ == s@,
{
    let c = chars_of(s.as_str());
    string_of(c.as_slice())
}

fn sanitized(v: &JsonValue, home: Option<&[char]>) -> (r: JsonValue)
    ensures
        json_view(r) == sanitize_view(json_view(*v), match home { Some(h) => Some(h@), None => None }),
    decreases v,
{
    let ghost hv: Option<Seq<char>> = match home { Some(h) => Some(h@), None => None };
    match v {
        JsonValue::Null => JsonValue::Null,
        JsonValue::Bool(b) => JsonValue::Bool(*b),
        JsonValue::Number(n) => JsonValue::Number(copy_string(n)),
        JsonValue::Str(t) => {
            let c = chars_of(t.as_str());
            JsonValue::Str(clean_string_chars(c.as_slice(), home))
        },
        JsonValue::Array(items) => {
            let mut out: Vec<JsonValue> = Vec::new();
            let mut i: usize = 0;
            while i < items.len()
                invariant
                    i <= items@.len(),
                    hv == (match home { Some(h) => Some(h@), None => None::<Seq<char>> }),
                    *v == JsonValue::Array(*items),
                    json_views(out@) == sanitize_items(json_views(items@.take(i as int)), hv),
                decreases items.len() - i,
            {
                proof {
                    assert(decreases_to!(*v => (*v)->Array_0));
                    assert(decreases_to!(*items => items@));
                    assert(decreases_to!(items@ => items@[i as int]));
                }
                let x = sanitized(&items[i], home);
                let ghost prev = out@;
                let ghost xv = json_view(x);
                out.push(x);
                proof {
                    assert(out@.drop_last() =~= prev);
                    assert(json_views(out@) == json_views(prev).push(xv));
                    let t = items@.take(i + 1);
                    assert(t.drop_last() =~= items@.take(i as int));
                    assert(t.last() == items@[i as int]);
                    assert(json_views(t) == json_views(items@.take(i as int)).push(json_view(items@[i as int])));
                    assert(json_views(t).drop_last() =~= json_views(items@.take(i as int)));
                    assert(json_views(t).last() == json_view(items@[i as int]));
                }
                i = i + 1;
            }
            proof { assert(items@.take(items@.len() as int) =~= items@); }
            JsonValue::Array(out)
        },
        JsonValue::Object(members) => {
            let keys = key_list();
            let mut out: Vec<(String, JsonValue)> = Vec::new();
            let mut i: usize = 0;
            while i < members.len()
                invariant
                    i <= members@.len(),
                    views(keys@) == key_markers(),
                    hv == (match home { Some(h) => Some(h@), None => None::<Seq<char>> }),
                    *v == JsonValue::Object(*members),
                    member_views(out@) == sanitize_members(member_views(members@.take(i as int)), hv),
                decreases members.len() - i,
            {
                let k = chars_of(members[i].0.as_str());
                let lk = lower_chars(k.as_slice());
                proof {
                    assert(members@.take(i + 1).drop_last() =~= members@.take(i as int));
                    let t = members@.take(i + 1);
                    assert(t.drop_last() =~= members@.take(i as int));
                    assert(t.last() == members@[i as int]);
                    assert(member_views(t) == member_views(t.drop_last()).push(member_view(t.last())));
                    assert(member_views(t).drop_last() =~= member_views(members@.take(i as int)));
                    assert(member_views(t).last() == member_view(members@[i as int]));
                }
                if contains_any_str(lk.as_slice(), &keys) {
                    i = i + 1;
                    continue;
                }
                proof {
                    assert(decreases_to!(*v => (*v)->Object_0));
                    assert(decreases_to!(*members => members@));
                    assert(decreases_to!(members@ => members@[i as int]));
                    assert(decreases_to!(members@[i as int] => members@[i as int].1));
                }
                let x = sanitized(&members[i].1, home);
                let ghost prev = out@;
                let ghost xv = json_view(x);
                let key = copy_string(&members[i].0);
                let ghost kv = key@;
                out.push((key, x));
                proof {
                    assert(out@.drop_last() =~= prev);
                    assert(out@.last().0@ == kv);
                    assert(member_view(out@.last()) == (kv, xv));
                    assert(member_views(out@) == member_views(out@.drop_last()).push(member_view(out@.last())));
                    assert(member_views(out@) == member_views(prev).push((members@[i as int].0@, xv)));
                }
                i = i + 1;
            }
            proof { assert(members@.take(members@.len() as int) =~= members@); }
            JsonValue::Object(out)
        },
    }
}

/// Cleans a diagnostic report before it is saved: members whose key holds a secret marker are
/// removed and string values that look secret are redacted, at every depth; other strings get the
/// user's home folder (`home`) written as %USERPROFILE%.
pub fn sanitize_json(value: &mut JsonValue, home: Option<&str>)
    ensures
        json_view(*final(value)) == sanitize_view(json_view(*old(value)), match home { Some(h) => Some(h@), None => None }),
{
    let hc: Option<Vec<char>> = match home { Some(h) => Some(chars_of(h)), None => None };
    let r = match &hc {
        Some(h) => sanitized(value, Some(h.as_slice())),
        None => sanitized(value, None),
    };
    *value = r;
}

/// No object member, at any depth, has a key that the sanitizer drops.
pub open spec fn keys_clean(v: JsonView) -> bool
    decreases v, 0nat,
{
    match v {
        JsonView::Array(items) => items_clean(items),
        JsonView::Object(ms) => members_clean(ms),
        _ => true,
    }
}

/// `keys_clean` of each value.
pub open spec fn items_clean(items: Seq<JsonView>) -> bool
    decreases items, items.len(),
{
    if items.len() == 0 {
        true
    } else {
        items_clean(items.drop_last()) && keys_clean(items.last())
    }
}

/// No member key is dropped, and each value is `keys_clean`.
pub open spec fn members_clean(ms: Seq<(Seq<char>, JsonView)>) -> bool
    decreases ms, ms.len(),
{
    if ms.len() == 0 {
        true
    } else {
        members_clean(ms.drop_last()) && !dropped_key(ms.last().0) && keys_clean(ms.last().1)
    }
}

proof fn lemma_items_clean(items: Seq<JsonView>, home: Option<Seq<char>>)
    ensures
        items_clean(sanitize_items(items, home)),
    decreases items, items.len(),
{
    if items.len() > 0 {
        lemma_items_clean(items.drop_last(), home);
        law_sanitized_report_keys_clean(items.last(), home);
        let s = sanitize_items(items.drop_last(), home);
        assert(s.push(sanitize_view(items.last(), home)).drop_last() =~= s);
    }
}

proof fn lemma_members_clean(ms: Seq<(Seq<char>, JsonView)>, home: Option<Seq<char>>)
    ensures
        members_clean(sanitize_members(ms, home)),
    decreases ms, ms.len(),
{
    if ms.len() > 0 {
        lemma_members_clean(ms.drop_last(), home);
        law_sanitized_report_keys_clean(ms.last().1, home);
        let s = sanitize_members(ms.drop_last(), home);
        assert(s.push((ms.last().0, sanitize_view(ms.last().1, home))).drop_last() =~= s);
    }
}

/// A sanitized diagnostic report holds no member whose key looks secret, at any depth.
pub proof fn law_sanitized_report_keys_clean(v: JsonView, home: Option<Seq<char>>)
    ensures
        keys_clean(sanitize_view(v, home)),
    decreases v, 0nat,
{
    match v {
        JsonView::Array(items) => lemma_items_clean(items, home),
        JsonView::Object(ms) => lemma_members_clean(ms, home),
        _ => {},
    }
}

/// What the release preflight reports about this computer.
#[derive(Debug, Clone)]
pub struct ReleasePreflight {
    pub app_version: String,
    pub build: String,
    pub windows_version: String,
    pub windows_supported: bool,
    pub steam_installed: bool,
    pub steam_user_available: bool,
    pub steam_path: Option<String>,
    pub cs2_installed: bool,
    pub pubg_config_available: bool,
    pub log_directory: Option<String>,
    pub administrator_required: bool,
    pub update_channel: String,
}

/// One entry of the production log.
#[derive(Debug, Clone)]
pub struct ProductionLogEntry {
    pub timestamp: String,
    pub severity: String,
    pub adapter: String,
    pub operation: String,
    pub code: Option<String>,
    pub message: String,
    pub technical_details: Option<String>,
}

/// The answer of a command that writes a file.
#[derive(Debug, Clone)]
pub struct FileCommandResponse {
    pub state: String,
    pub message: String,
    pub path: Option<String>,
}

/// The build label: the one given at build time, else "local".
pub open spec fn build_label(build: Option<Seq<char>>) -> Seq<char> {
    match build { Some(b) => b, None => "local"@ }
}

/// The release preflight on a platform other than Windows: nothing is available; `build` is the
/// label given at build time and `os` names the platform.
pub fn preflight(build: Option<&str>, os: &str) -> (r: ReleasePreflight)
    ensures
        r.app_version@ == APP_VERSION@,
        r.build@ == build_label(match build { Some(b) => Some(b@), None => None }),
        r.windows_version@ == os@,
        !r.windows_supported && !r.steam_installed && !r.steam_user_available && r.steam_path is None,
        !r.cs2_installed && !r.pubg_config_available && r.log_directory is None && !r.administrator_required,
        r.update_channel@ == "Manual signed releases (updater not activated)"@,
{
    let b = match build { Some(b) => String::from_str(b), None => String::from_str("local") };
    ReleasePreflight {
        app_version: String::from_str(APP_VERSION),
        build: b,
        windows_version: String::from_str(os),
        windows_supported: false,
        steam_installed: false,
        steam_user_available: false,
        steam_path: None,
        cs2_installed: false,
        pubg_config_available: false,
        log_directory: None,
        administrator_required: false,
        update_channel: String::from_str("Manual signed releases (updater not activated)"),
    }
}

/// The release preflight on Windows, from what was found on this computer.
pub fn preflight_report(build: Option<&str>, windows_version: String, windows_supported: bool, steam_path: Option<String>, steam_user_available: bool, cs2_installed: bool, pubg_config_available: bool, log_directory: Option<String>) -> (r: ReleasePreflight)
    ensures
        r.app_version@ == APP_VERSION@,
        r.build@ == build_label(match build { Some(b) => Some(b@), None => None }),
        r.windows_version == windows_version,
        r.windows_supported == windows_supported,
        r.steam_installed == steam_path is Some,
        r.steam_path == steam_path,
        r.steam_user_available == steam_user_available,
        r.cs2_installed == cs2_installed,
        r.pubg_config_available == pubg_config_available,
        r.log_directory == log_directory,
        !r.administrator_required,
        r.update_channel@ == "Manual signed releases (updater not activated)"@,
{
    let b = match build { Some(b) => String::from_str(b), None => String::from_str("local") };
    let steam_installed = steam_path.is_some();
    ReleasePreflight {
        app_version: String::from_str(APP_VERSION),
        build: b,
        windows_version,
        windows_supported,
        steam_installed,
        steam_user_available,
        steam_path,
        cs2_installed,
        pubg_config_available,
        log_directory,
        administrator_required: false,
        update_channel: String::from_str("Manual signed releases (updater not activated)"),
    }
}

fn unsupported(message: &str) -> (r: FileCommandResponse)
    ensures
        r.state@ == "unsupported"@,
        r.message@ == message@,
        r.path is None,
{
    FileCommandResponse { state: String::from_str("unsupported"), message: String::from_str(message), path: None }
}

/// A failed file command with `message`.
pub fn failed(message: &str) -> (r: FileCommandResponse)
    ensures
        r.state@ == "error"@,
        r.message@ == message@,
        r.path is None,
{
    FileCommandResponse { state: String::from_str("error"), message: String::from_str(message), path: None }
}

/// Appending to the production log on a platform other than Windows.
pub fn append_log(_entry: ProductionLogEntry) -> (r: FileCommandResponse)
    ensures
        r.state@ == "unsupported"@,
        r.message@ == "Production file logging is available in the Windows desktop build."@,
        r.path is None,
{
    unsupported("Production file logging is available in the Windows desktop build.")
}

/// Saving a diagnostic report on a platform other than Windows.
pub fn save_report(_contents: String) -> (r: FileCommandResponse)
    ensures
        r.state@ == "unsupported"@,
        r.message@ == "Diagnostic report export is available in the Windows desktop build."@,
        r.path is None,
{
    unsupported("Diagnostic report export is available in the Windows desktop build.")
}

/// `s` with carriage returns made spaces and NUL characters removed.
pub open spec fn strip_controls(s: Seq<char>) -> Seq<char>
    decreases s.len(),
{
    if s.len() == 0 {
        Seq::empty()
    } else if s.last() == '\0' {
        strip_controls(s.drop_last())
    } else if s.last() == '\r' {
        strip_controls(s.drop_last()).push(' ')
    } else {
        strip_controls(s.drop_last()).push(s.last())
    }
}

/// A log field made safe: carriage returns made spaces, NULs removed, replaced whole when it
/// looks secret, the user's home folder written as %USERPROFILE%, and cut to `max` characters.
pub open spec fn spec_clean(value: Seq<char>, max: usize, home: Option<Seq<char>>) -> Seq<char> {
    let a = strip_controls(value);
    let b = if spec_contains_secret_marker(a) { "[REDACTED: sensitive-looking value]"@ } else { a };
    let c = match home { Some(h) => replace_all(b, h, "%USERPROFILE%"@), None => b };
    if c.len() <= max { c } else { c.take(max as int) }
}

/// Makes a log field safe; see `spec_clean`.
pub fn clean(value: &str, max: usize, home: Option<&str>) -> (r: String)
    ensures
        r@ == spec_clean(value@, max, match home { Some(h) => Some(h@), None => None }),
        r@.len() <= max,
{
    let v = chars_of(value);
    let mut a: Vec<char> = Vec::new();
    let mut i: usize = 0;
    while i < v.len()
        invariant
            i <= v@.len(),
            a@ == strip_controls(v@.take(i as int)),
        decreases v.len() - i,
    {
        proof { assert(v@.take(i + 1).drop_last() =~= v@.take(i as int)); }
        let c = v[i];
        if c == '\r' {
            a.push(' ');
        } else if c != '\0' {
            a.push(c);
        }
        i = i + 1;
    }
    proof { assert(v@.take(v@.len() as int) =~= v@); }
    let b = if secret_chars(a.as_slice()) { chars_of("[REDACTED: sensitive-looking value]") } else { a };
    let c = match home {
        Some(h) => {
            let hc = chars_of(h);
            let marker = chars_of("%USERPROFILE%");
            replace_chars(b.as_slice(), hc.as_slice(), marker.as_slice())
        },
        None => b,
    };
    if c.len() <= max {
        string_of(c.as_slice())
    } else {
        let t = crate::text::sub_chars(c.as_slice(), 0, max);
        proof { assert(t@ =~= c@.take(max as int)); }
        string_of(t.as_slice())
    }
}

/// The severities a log entry may have.
pub open spec fn valid_severity(s: Seq<char>) -> bool {
    s == "info"@ || s == "warning"@ || s == "error"@
}

/// A log entry checked and cleaned before it is written: an unknown severity is refused, and the
/// timestamp (64 characters), adapter, operation and code (80), message (1000) and technical
/// details (4000) are cleaned.
pub fn prepare_log_entry(entry: ProductionLogEntry, home: Option<&str>) -> (r: Result<ProductionLogEntry, FileCommandResponse>)
    ensures
        r is Err <==> !valid_severity(entry.severity@),
        r matches Err(f) ==> f.state@ == "error"@ && f.message@ == "Invalid production log severity."@ && f.path is None,
        r matches Ok(e) ==> {
            let h = match home { Some(h) => Some(h@), None => None };
            &&& e.severity@ == entry.severity@
            &&& e.timestamp@ == spec_clean(entry.timestamp@, 64, h)
            &&& e.adapter@ == spec_clean(entry.adapter@, 80, h)
            &&& e.operation@ == spec_clean(entry.operation@, 80, h)
            &&& (match entry.code { Some(c) => e.code matches Some(ec) && ec@ == spec_clean(c@, 80, h), None => e.code is None })
            &&& e.message@ == spec_clean(entry.message@, 1000, h)
            &&& (match entry.technical_details {
                Some(d) => e.technical_details matches Some(ed) && ed@ == spec_clean(d@, 4000, h),
                None => e.technical_details is None,
            })
        },
{
    let sev = entry.severity.as_str();
    if !(crate::text::str_eq(sev, "info") || crate::text::str_eq(sev, "warning") || crate::text::str_eq(sev, "error")) {
        return Err(failed("Invalid production log severity."));
    }
    let code = match &entry.code { Some(c) => Some(clean(c.as_str(), 80, home)), None => None };
    let technical_details = match &entry.technical_details { Some(d) => Some(clean(d.as_str(), 4000, home)), None => None };
    Ok(ProductionLogEntry {
        timestamp: clean(entry.timestamp.as_str(), 64, home),
        severity: String::from_str(sev),
        adapter: clean(entry.adapter.as_str(), 80, home),
        operation: clean(entry.operation.as_str(), 80, home),
        code,
        message: clean(entry.message.as_str(), 1000, home),
        technical_details,
    })
}

/// Windows 10 22H2 (build 19045) or later; a build that does not parse as a number is not.
pub open spec fn spec_supported_windows(build: Option<Seq<char>>) -> bool {
    match build {
        Some(b) => match parse_u32(b) { Some(n) => n >= 19045, None => false },
        None => false,
    }
}

/// Whether the Windows build number read from the registry is supported.
pub fn supported_windows(build: Option<&str>) -> (r: bool)
    ensures
        r == spec_supported_windows(match build { Some(b) => Some(b@), None => None }),
{
    match build {
        Some(b) => {
            let c = chars_of(b);
            match parse_u32_chars(c.as_slice()) {
                Some(n) => n >= 19045,
                None => false,
            }
        },
        None => false,
    }
}

/// The Windows version text: "<product> <display> (build <build>)" with each double space made
/// single, left to right.
pub open spec fn spec_windows_version(product: Seq<char>, display: Seq<char>, build: Seq<char>) -> Seq<char> {
    replace_all(product + " "@ + display + " (build "@ + build + ")"@, "  "@, " "@)
}

/// Formats the Windows version read from the registry; see `spec_windows_version`.
pub fn windows_version_text(product: &str, display: &str, build: &str) -> (r: String)
    ensures
        r@ == spec_windows_version(product@, display@, build@),
{
    let mut v = chars_of(product);
    push_str_chars(&mut v, " ");
    push_str_chars(&mut v, display);
    push_str_chars(&mut v, " (build ");
    push_str_chars(&mut v, build);
    push_str_chars(&mut v, ")");
    proof { assert(v@ =~= product@ + " "@ + display@ + " (build "@ + build@ + ")"@); }
    let two = chars_of("  ");
    let one = chars_of(" ");
    let out = replace_chars(v.as_slice(), two.as_slice(), one.as_slice());
    string_of(out.as_slice())
}

/// The library folder that a line of libraryfolders.vdf names: split at quotes, the second
/// piece (trimmed) is "path" and there are at least four pieces; doubled backslashes made single.
pub open spec fn spec_library_path(line: Seq<char>) -> Option<Seq<char>> {
    let parts = crate::cs2::split_at_char(line, '"');
    if parts.len() >= 4 && trim(parts[1]) == "path"@ {
        Some(replace_all(parts[3], "\\\\"@, "\\"@))
    } else {
        None
    }
}

/// The library folder named by a line of libraryfolders.vdf, if any.
pub fn library_path(line: &str) -> (r: Option<String>)
    ensures
        match spec_library_path(line@) {
            Some(p) => r matches Some(s) && s@ == p,
            None => r is None,
        },
{
    let c = chars_of(line);
    let parts = crate::cs2::split_char_pub(c.as_slice(), '"');
    proof { assert(crate::pubg::char_lines(parts@).len() == parts@.len()); }
    if parts.len() >= 4 {
        let t = trim_chars(parts[1].as_slice());
        proof { assert(crate::pubg::char_lines(parts@)[1] == parts@[1]@); }
        if crate::text::chars_eq_str(t.as_slice(), "path") {
            let two = chars_of("\\\\");
            let one = chars_of("\\");
            proof { assert(crate::pubg::char_lines(parts@)[3] == parts@[3]@); }
            let out = replace_chars(parts[3].as_slice(), two.as_slice(), one.as_slice());
            return Some(string_of(out.as_slice()));
        }
    }
    None
}

/// The production log file name with rotation index `n` (0 is the current log).
pub open spec fn log_name(n: nat) -> Seq<char> {
    if n == 0 { "game-passport.log"@ } else { "game-passport.log."@ + crate::text::decimal(n) }
}

fn log_name_string(n: usize) -> (r: String)
    ensures
        r@ == log_name(n as nat),
{
    if n == 0 {
        return String::from_str("game-passport.log");
    }
    let mut v = chars_of("game-passport.log.");
    let d = crate::text::decimal_chars(n as u64);
    extend_chars(&mut v, d.as_slice());
    string_of(v.as_slice())
}

/// A rotation step moves `from` to `to`, or removes it when `to` is `None`.
pub open spec fn step_is(step: (String, Option<String>), from: Seq<char>, to: Option<Seq<char>>) -> bool {
    &&& step.0@ == from
    &&& match step.1 {
        Some(a) => to == Some(a@),
        None => to is None,
    }
}

/// The steps of a log rotation, in order: the oldest log is removed (no destination), then each
/// log is renamed to the next index, the current log last.
pub fn rotation_steps() -> (r: Vec<(String, Option<String>)>)
    ensures
        r@.len() == MAX_LOG_FILES + 1,
        step_is(r@[0], log_name(MAX_LOG_FILES as nat), None),
        forall|k: int| 1 <= k <= MAX_LOG_FILES ==>
            step_is(#[trigger] r@[k], log_name((MAX_LOG_FILES - k) as nat), Some(log_name((MAX_LOG_FILES - k + 1) as nat))),
{
    let mut r: Vec<(String, Option<String>)> = Vec::new();
    r.push((log_name_string(MAX_LOG_FILES), None));
    let mut index: usize = MAX_LOG_FILES;
    while index > 0
        invariant
            index <= MAX_LOG_FILES,
            r@.len() == MAX_LOG_FILES - index + 1,
            step_is(r@[0], log_name(MAX_LOG_FILES as nat), None),
            forall|k: int| 1 <= k < r@.len() ==>
                step_is(#[trigger] r@[k], log_name((MAX_LOG_FILES - k) as nat), Some(log_name((MAX_LOG_FILES - k + 1) as nat))),
        decreases index,
    {
        let from = log_name_string(index - 1);
        let to = log_name_string(index);
        r.push((from, Some(to)));
        index = index - 1;
    }
    r
}

/// The size limit of a diagnostic report: at most 2 MB of UTF-8.
pub fn check_report_size(contents: &str) -> (r: Result<(), FileCommandResponse>)
    ensures
        r is Ok <==> crate::text::utf8_len(contents@) <= 2097152,
        r matches Err(f) ==> f.state@ == "error"@ && f.message@ == "Diagnostic report exceeds the safe 2 MB limit."@ && f.path is None,
{
    let c = chars_of(contents);
    if crate::text::utf8_len_capped(c.as_slice(), 2097152) > 2097152 {
        return Err(failed("Diagnostic report exceeds the safe 2 MB limit."));
    }
    Ok(())
}

/// The JSON value type of `serde_json`.
#[verifier::external_type_specification]
#[verifier::external_body]
pub struct ExSerdeJsonValue(serde_json::Value);

/// The error type of `serde_json`.
#[verifier::external_type_specification]
#[verifier::external_body]
pub struct ExSerdeJsonError(serde_json::Error);

/// What `serde_json` reads from a text as a JSON value, in the library's JSON model; `None` where
/// the text is not JSON.
pub uninterp spec fn spec_parse_json(text: Seq<char>) -> Option<JsonView>;

/// The pretty-printed JSON bytes that `serde_json` writes for a value of the library's JSON model;
/// `None` where it refuses the value.
pub uninterp spec fn spec_render_json(v: JsonView) -> Option<Seq<u8>>;

/// A `serde_json::Value` in the library's JSON model, variant for variant, numbers as their text.
#[verifier::external_body]
fn json_of_serde(v: &serde_json::Value) -> JsonValue {
    match v {
        serde_json::Value::Null => JsonValue::Null,
        serde_json::Value::Bool(b) => JsonValue::Bool(*b),
        serde_json::Value::Number(n) => JsonValue::Number(n.to_string()),
        serde_json::Value::String(s) => JsonValue::Str(s.clone()),
        serde_json::Value::Array(items) => JsonValue::Array(items.iter().map(json_of_serde).collect()),
        serde_json::Value::Object(map) => JsonValue::Object(map.iter().map(|(k, x)| (k.clone(), json_of_serde(x))).collect()),
    }
}

/// A value of the library's JSON model as a `serde_json::Value`, variant for variant; a number is
/// read back from its text by `serde_json`, whose error is passed on.
#[verifier::external_body]
fn serde_of_json(v: &JsonValue) -> Result<serde_json::Value, serde_json::Error> {
    match v {
        JsonValue::Null => Ok(serde_json::Value::Null),
        JsonValue::Bool(b) => Ok(serde_json::Value::Bool(*b)),
        JsonValue::Number(n) => serde_json::from_str::<serde_json::Number>(n).map(serde_json::Value::Number),
        JsonValue::Str(s) => Ok(serde_json::Value::String(s.clone())),
        JsonValue::Array(items) => items.iter().map(serde_of_json).collect::<Result<_, _>>().map(serde_json::Value::Array),
        JsonValue::Object(ms) => ms.iter().map(|(k, x)| serde_of_json(x).map(|y| (k.clone(), y))).collect::<Result<_, _>>().map(serde_json::Value::Object),
    }
}

/// `serde_json::from_str` into a `serde_json::Value`, converted to the library's JSON model: the
/// claim is that whether it succeeds, and the value it gives, depend on the text alone
/// (`spec_parse_json`).
#[verifier::external_body]
fn parse_json(text: &str) -> (r: Option<JsonValue>)
    ensures
        match r {
            Some(v) => spec_parse_json(text@) == Some(json_view(v)),
            None => spec_parse_json(text@) is None,
        },
{
    match serde_json::from_str::<serde_json::Value>(text) {
        Ok(v) => Some(json_of_serde(&v)),
        Err(_) => None,
    }
}

/// `serde_json::to_vec_pretty` on a value of the library's JSON model: the claim is that whether
/// it succeeds, and the bytes it gives, depend on the value alone (`spec_render_json`). The text of
/// its error is `serde_json`'s and is not stated.
#[verifier::external_body]
fn render_json(v: &JsonValue) -> (r: Result<Vec<u8>, String>)
    ensures
        match r {
            Ok(b) => spec_render_json(json_view(*v)) == Some(b@),
            Err(_) => spec_render_json(json_view(*v)) is None,
        },
{
    match serde_of_json(v).and_then(|value| serde_json::to_vec_pretty(&value)) {
        Ok(b) => Ok(b),
        Err(e) => Err(e.to_string()),
    }
}

/// The view of an optional text.
pub open spec fn opt_text(home: Option<&str>) -> Option<Seq<char>> {
    match home {
        Some(h) => Some(h@),
        None => None,
    }
}

/// The bytes that are written for a report whose sanitized value is `v`, or the error answer
/// when they cannot be made.
pub open spec fn report_written(r: Result<Vec<u8>, FileCommandResponse>, v: JsonView) -> bool {
    match spec_render_json(v) {
        Some(b) => r matches Ok(bytes) && bytes@ == b,
        None => r matches Err(f) && f.state@ == "error"@ && f.path is None
            && has_prefix(f.message@, "Could not save diagnostic report: "@),
    }
}

/// The bytes of a diagnostic report: the report sanitized and pretty-printed.
pub fn report_bytes(report: JsonValue, home: Option<&str>) -> (r: Result<Vec<u8>, FileCommandResponse>)
    ensures
        report_written(r, sanitize_view(json_view(report), opt_text(home))),
{
    let mut report = report;
    sanitize_json(&mut report, home);
    match render_json(&report) {
        Ok(b) => Ok(b),
        Err(e) => {
            let mut m = chars_of("Could not save diagnostic report: ");
            let ghost p = m@;
            let tail = chars_of(e.as_str());
            extend_chars(&mut m, tail.as_slice());
            let message = string_of(m.as_slice());
            proof { assert((p + tail@).take(p.len() as int) =~= p); }
            Err(FileCommandResponse { state: String::from_str("error"), message, path: None })
        },
    }
}

/// A diagnostic report made ready to be written: at most 2 MB, valid JSON, then sanitized and
/// pretty-printed.
pub fn prepare_report(contents: &str, home: Option<&str>) -> (r: Result<Vec<u8>, FileCommandResponse>)
    ensures
        crate::text::utf8_len(contents@) > 2097152 ==> (r matches Err(f) && f.state@ == "error"@
            && f.message@ == "Diagnostic report exceeds the safe 2 MB limit."@ && f.path is None),
        crate::text::utf8_len(contents@) <= 2097152 ==> match spec_parse_json(contents@) {
            None => r matches Err(f) && f.state@ == "error"@ && f.message@ == "Diagnostic report is not valid JSON."@
                && f.path is None,
            Some(p) => report_written(r, sanitize_view(p, opt_text(home))),
        },
{
    check_report_size(contents)?;
    match parse_json(contents) {
        None => Err(failed("Diagnostic report is not valid JSON.")),
        Some(report) => report_bytes(report, home),
    }
}

} // verus!
