use vstd::prelude::*;

use crate::codec::{base64_decode, base64_encode, hex_lower, lemma_hex_lower_is_lower, sha256_hex, spec_base64_decode, spec_base64_encode, spec_sha256, utf8_text};
use crate::pubg::char_lines;
use crate::text::{index_of, lemma_index_of, lemma_lines_append, lemma_lines_no_lf, lemma_lines_of_line, lemma_trim_drop_ws, no_lf, strip_cr, chars_eq, chars_eq_str, chars_of, contains_any, contains_any_str, extend_chars, has_suffix, ends_with_str, is_ws, char_is_ws, lines, lower, lower_chars, split_lines, str_eq, string_of, trim, trim_chars, utf8_len, utf8_len_capped, views};
use crate::pubg::strings_view;
use vstd::utf8::{decode_utf8, encode_utf8, valid_utf8};

verus! {

pub const SCHEMA_VERSION: u32 = 1;
pub const MAX_FILE_BYTES: u64 = 524288;
pub const MAX_TOTAL_BYTES: u64 = 2097152;
pub const MAX_FILES: usize = 32;

/// One captured CS2 configuration file, its content in Base64.
#[derive(Debug, Clone)]
pub struct Cs2ConfigFile {
    pub scope: String,
    pub relative_path: String,
    pub content_base64: String,
    pub sha256: String,
    pub size: u64,
}

/// A saved CS2 profile.
#[derive(Debug, Clone)]
pub struct Cs2Payload {
    pub schema_version: u32,
    pub captured_at: String,
    pub files: Vec<Cs2ConfigFile>,
    pub total_bytes: u64,
    pub core_files_found: Vec<String>,
    pub optional_files_missing: Vec<String>,
}

/// The answer of a CS2 command.
#[derive(Debug)]
pub struct Cs2CommandResponse {
    pub state: String,
    pub message: String,
    pub details: Vec<String>,
    pub retryable: bool,
    pub payload: Option<Cs2Payload>,
}

/// A failure explained to the user: a message, details, and whether retrying may help.
#[derive(Debug)]
pub struct Cs2Error {
    pub message: String,
    pub details: Vec<String>,
    pub retryable: bool,
}

/// `e` carries `message` and no details.
pub open spec fn error_is(e: Cs2Error, message: Seq<char>, retryable: bool) -> bool {
    &&& e.message@ == message
    &&& e.details@.len() == 0
    &&& e.retryable == retryable
}

impl Cs2Error {
    /// An error with `message` and no details.
    pub fn new(message: String, retryable: bool) -> (r: Self)
        ensures
            r.message == message,
            r.details@.len() == 0,
            r.retryable == retryable,
    {
        Cs2Error { message, details: Vec::new(), retryable }
    }

    /// The same error with one more detail line.
    pub fn detail(self, detail: String) -> (r: Self)
        ensures
            r.message == self.message,
            r.details@ == self.details@.push(detail),
            r.retryable == self.retryable,
    {
        let mut details = self.details;
        details.push(detail);
        Cs2Error { message: self.message, details, retryable: self.retryable }
    }

    /// The error as a command answer.
    pub fn response(self) -> (r: Cs2CommandResponse)
        ensures
            r.state@ == "error"@,
            r.message == self.message,
            r.details == self.details,
            r.retryable == self.retryable,
            r.payload is None,
    {
        Cs2CommandResponse {
            state: String::from_str("error"),
            message: self.message,
            details: self.details,
            retryable: self.retryable,
            payload: None,
        }
    }
}

fn fail(message: &str, retryable: bool) -> (r: Cs2Error)
    ensures
        error_is(r, message@, retryable),
{
    Cs2Error::new(String::from_str(message), retryable)
}

impl Cs2CommandResponse {
    /// An "unsupported" answer carrying `message`.
    pub fn unsupported(message: &str) -> (r: Self)
        ensures
            r.state@ == "unsupported"@,
            r.message@ == message@,
            r.details@.len() == 0,
            !r.retryable,
            r.payload is None,
    {
        Cs2CommandResponse {
            state: String::from_str("unsupported"),
            message: String::from_str(message),
            details: Vec::new(),
            retryable: false,
            payload: None,
        }
    }
}

/// The tokenizer state after some characters of a line.
pub ghost struct TokenState {
    pub tokens: Seq<Seq<char>>,
    pub current: Seq<char>,
    pub quoted: bool,
    pub escaped: bool,
}

/// One character fed to the tokenizer: inside quotes a backslash keeps the next character, a
/// closing quote ends a token, and characters outside quotes are skipped.
pub open spec fn token_step(st: TokenState, c: char) -> TokenState {
    if st.escaped {
        TokenState { tokens: st.tokens, current: st.current.push(c), quoted: st.quoted, escaped: false }
    } else if c == '\\' && st.quoted {
        TokenState { tokens: st.tokens, current: st.current.push(c), quoted: st.quoted, escaped: true }
    } else if c == '"' {
        if st.quoted {
            TokenState { tokens: st.tokens.push(st.current), current: Seq::empty(), quoted: false, escaped: false }
        } else {
            TokenState { tokens: st.tokens, current: st.current, quoted: true, escaped: false }
        }
    } else if st.quoted {
        TokenState { tokens: st.tokens, current: st.current.push(c), quoted: st.quoted, escaped: st.escaped }
    } else {
        st
    }
}

/// The tokenizer state after all of `s`.
pub open spec fn token_run(s: Seq<char>) -> TokenState
    decreases s.len(),
{
    if s.len() == 0 {
        TokenState { tokens: Seq::empty(), current: Seq::empty(), quoted: false, escaped: false }
    } else {
        token_step(token_run(s.drop_last()), s.last())
    }
}

/// The double-quoted tokens of a VDF line, escapes kept as written; an unclosed token is dropped.
pub fn quoted_tokens(line: &str) -> (r: Vec<String>)
    ensures
        strings_view(r@) == token_run(line@).tokens,
{
    let cs = chars_of(line);
    let mut result: Vec<String> = Vec::new();
    let mut current: Vec<char> = Vec::new();
    let mut quoted = false;
    let mut escaped = false;
    let mut i: usize = 0;
    proof {
        assert(cs@.take(0) =~= Seq::<char>::empty());
        assert(strings_view(result@) =~= Seq::<Seq<char>>::empty());
        assert(current@ =~= Seq::<char>::empty());
    }
    while i < cs.len()
        invariant
            i <= cs@.len(),
            cs@ == line@,
            token_run(cs@.take(i as int)) == (TokenState { tokens: strings_view(result@), current: current@, quoted: quoted, escaped: escaped }),
        decreases cs.len() - i,
    {
        let c = cs[i];
        let ghost before = TokenState { tokens: strings_view(result@), current: current@, quoted: quoted, escaped: escaped };
        proof {
            assert(cs@.take(i + 1).drop_last() =~= cs@.take(i as int));
            assert(cs@.take(i + 1).last() == c);
        }
        if escaped {
            current.push(c);
            escaped = false;
        } else if c == '\\' && quoted {
            current.push(c);
            escaped = true;
        } else if c == '"' {
            if quoted {
                let ghost prev = strings_view(result@);
                result.push(string_of(current.as_slice()));
                proof { assert(strings_view(result@) =~= prev.push(current@)); }
                current = Vec::new();
            }
            quoted = !quoted;
        } else if quoted {
            current.push(c);
        }
        proof {
            let after = TokenState { tokens: strings_view(result@), current: current@, quoted: quoted, escaped: escaped };
            let expect = token_step(before, c);
            assert(after.tokens =~= expect.tokens);
            assert(after.current =~= expect.current);
            assert(token_run(cs@.take(i + 1)) == expect);
        }
        i = i + 1;
    }
    proof { assert(cs@.take(cs@.len() as int) =~= cs@); }
    result
}

/// The value that a VDF line gives `key`: its second quoted token when its first is `key`.
pub open spec fn spec_vdf_value(line: Seq<char>, key: Seq<char>) -> Option<Seq<char>> {
    let t = token_run(line).tokens;
    if t.len() >= 2 && t[0] == key { Some(t[1]) } else { None }
}

/// The value that a VDF line gives `key` (such as "installdir" in an app manifest).
pub fn vdf_value(line: &str, key: &str) -> (r: Option<String>)
    ensures
        match spec_vdf_value(line@, key@) {
            Some(v) => r matches Some(s) && s@ == v,
            None => r is None,
        },
{
    let t = quoted_tokens(line);
    proof { assert(strings_view(t@).len() == t@.len()); }
    if t.len() >= 2 && str_eq(t[0].as_str(), key) {
        proof {
            assert(strings_view(t@)[0] == t@[0]@);
            assert(strings_view(t@)[1] == t@[1]@);
        }
        let c = chars_of(t[1].as_str());
        return Some(string_of(c.as_slice()));
    }
    proof {
        if t@.len() >= 2 { assert(strings_view(t@)[0] == t@[0]@); }
    }
    None
}

/// The library folder that a line of libraryfolders.vdf names: the value of "path", with each
/// doubled backslash made single.
pub fn vdf_library_folder(line: &str) -> (r: Option<String>)
    ensures
        match spec_vdf_value(line@, "path"@) {
            Some(v) => r matches Some(s) && s@ == crate::release::replace_all(v, "\\\\"@, "\\"@),
            None => r is None,
        },
{
    match vdf_value(line, "path") {
        None => None,
        Some(v) => {
            let c = chars_of(v.as_str());
            let two = chars_of("\\\\");
            let one = chars_of("\\");
            let out = crate::release::replace_chars(c.as_slice(), two.as_slice(), one.as_slice());
            Some(string_of(out.as_slice()))
        },
    }
}

/// Markers of lines that may carry credentials or connect somewhere.
pub open spec fn sensitive_markers() -> Seq<Seq<char>> {
    seq!["password"@, "token"@, "cookie"@, "authorization"@, "connect "@, "connect\t"@, "setinfo"@]
}

fn sensitive_list() -> (r: [&'static str; 7])
    ensures
        views(r@) == sensitive_markers(),
{
    let r = ["password", "token", "cookie", "authorization", "connect ", "connect\t", "setinfo"];
    proof { assert(views(r@) =~= sensitive_markers()); }
    r
}

/// Markers of hardware-specific values in machine and video configuration.
pub open spec fn hardware_markers() -> Seq<Seq<char>> {
    seq!["sound_device_override"@, "audio_device"@, "vendorid"@, "deviceid"@, "monitor_index"@, "refreshrate_numerator"@, "refreshrate_denominator"@]
}

fn hardware_list() -> (r: [&'static str; 7])
    ensures
        views(r@) == hardware_markers(),
{
    let r = ["sound_device_override", "audio_device", "vendorid", "deviceid", "monitor_index", "refreshrate_numerator", "refreshrate_denominator"];
    proof { assert(views(r@) =~= hardware_markers()); }
    r
}

/// A cfg line is sensitive when, trimmed and lower-cased, it holds a sensitive marker.
pub open spec fn spec_sensitive_line(line: Seq<char>) -> bool {
    contains_any(lower(trim(line)), sensitive_markers())
}

/// A machine-config line is hardware-specific when, lower-cased, it holds a hardware marker.
pub open spec fn hardware_line(line: Seq<char>) -> bool {
    contains_any(lower(line), hardware_markers())
}

fn sensitive_chars(line: &[char]) -> (r: bool)
    ensures
        r == spec_sensitive_line(line@),
{
    let t = trim_chars(line);
    let l = lower_chars(t.as_slice());
    let markers = sensitive_list();
    contains_any_str(l.as_slice(), &markers)
}

fn hardware_chars(line: &[char]) -> (r: bool)
    ensures
        r == hardware_line(line@),
{
    let l = lower_chars(line);
    let markers = hardware_list();
    contains_any_str(l.as_slice(), &markers)
}

/// Whether a cfg line may carry credentials or a connect command.
pub fn sensitive_line(line: &str) -> (r: bool)
    ensures
        r == spec_sensitive_line(line@),
{
    let cs = chars_of(line);
    sensitive_chars(cs.as_slice())
}

/// Bytes are sensitive when they are not UTF-8 or some line of them is sensitive.
pub open spec fn spec_contains_sensitive(bytes: Seq<u8>) -> bool {
    !valid_utf8(bytes) || exists|i: int| 0 <= i < lines(decode_utf8(bytes)).len() && spec_sensitive_line(#[trigger] lines(decode_utf8(bytes))[i])
}

/// Whether some bytes are not UTF-8 or hold a sensitive line.
pub fn contains_sensitive_data(bytes: &[u8]) -> (r: bool)
    ensures
        r == spec_contains_sensitive(bytes@),
{
    match utf8_text(bytes) {
        None => true,
        Some(text) => {
            let cs = chars_of(text);
            let ls = split_lines(cs.as_slice());
            let mut i: usize = 0;
            while i < ls.len()
                invariant
                    i <= ls@.len(),
                    cs@ == decode_utf8(bytes@),
                    ls@.len() == lines(cs@).len(),
                    forall|q: int| 0 <= q < ls@.len() ==> #[trigger] ls@[q]@ == lines(cs@)[q],
                    forall|q: int| 0 <= q < i ==> !spec_sensitive_line(#[trigger] lines(cs@)[q]),
                decreases ls.len() - i,
            {
                if sensitive_chars(ls[i].as_slice()) {
                    proof { assert(ls@[i as int]@ == lines(cs@)[i as int]); }
                    return true;
                }
                proof { assert(ls@[i as int]@ == lines(cs@)[i as int]); }
                i = i + 1;
            }
            false
        },
    }
}

/// A line of a file is left out by a sanitizer: hardware-specific for machine configuration,
/// sensitive for custom cfg files.
pub open spec fn blocked(hardware: bool, line: Seq<char>) -> bool {
    if hardware { hardware_line(line) } else { spec_sensitive_line(line) }
}

/// The lines that a sanitizer keeps, each followed by a line feed.
pub open spec fn kept_text(ls: Seq<Seq<char>>, hardware: bool) -> Seq<char>
    decreases ls.len(),
{
    if ls.len() == 0 {
        Seq::empty()
    } else if blocked(hardware, ls.last()) {
        kept_text(ls.drop_last(), hardware)
    } else {
        kept_text(ls.drop_last(), hardware) + ls.last() + seq!['\n']
    }
}

/// How many lines a sanitizer leaves out.
pub open spec fn removed_count(ls: Seq<Seq<char>>, hardware: bool) -> nat
    decreases ls.len(),
{
    if ls.len() == 0 {
        0
    } else {
        removed_count(ls.drop_last(), hardware) + (if blocked(hardware, ls.last()) { 1nat } else { 0nat })
    }
}

/// The result of sanitizing some bytes: the kept lines as UTF-8 and the number left out, or the
/// error `message` when the bytes are not UTF-8.
pub open spec fn sanitized(bytes: Seq<u8>, hardware: bool, r: Result<(Vec<u8>, usize), Cs2Error>, message: Seq<char>) -> bool {
    &&& r is Err <==> !valid_utf8(bytes)
    &&& r matches Err(e) ==> error_is(e, message, false)
    &&& r matches Ok((out, n)) ==> out@ == encode_utf8(kept_text(lines(decode_utf8(bytes)), hardware))
        && n == removed_count(lines(decode_utf8(bytes)), hardware)
}

fn sanitize_lines(bytes: &[u8], hardware: bool, message: &str) -> (r: Result<(Vec<u8>, usize), Cs2Error>)
    ensures
        sanitized(bytes@, hardware, r, message@),
{
    let text = match utf8_text(bytes) {
        None => { return Err(fail(message, false)); },
        Some(t) => t,
    };
    let cs = chars_of(text);
    let ls = split_lines(cs.as_slice());
    let ghost gl = lines(cs@);
    let mut out: Vec<char> = Vec::new();
    let mut removed: usize = 0;
    let mut i: usize = 0;
    while i < ls.len()
        invariant
            i <= ls@.len(),
            gl == lines(cs@),
            ls@.len() == gl.len(),
            forall|q: int| 0 <= q < ls@.len() ==> #[trigger] ls@[q]@ == gl[q],
            removed <= i,
            out@ == kept_text(gl.take(i as int), hardware),
            removed == removed_count(gl.take(i as int), hardware),
        decreases ls.len() - i,
    {
        let line = &ls[i];
        proof {
            assert(gl.take(i + 1).drop_last() =~= gl.take(i as int));
            assert(gl.take(i + 1).last() == line@);
        }
        let drop = if hardware { hardware_chars(line.as_slice()) } else { sensitive_chars(line.as_slice()) };
        if drop {
            removed = removed + 1;
        } else {
            extend_chars(&mut out, line.as_slice());
            out.push('\n');
        }
        i = i + 1;
    }
    proof { assert(gl.take(ls@.len() as int) =~= gl); }
    let s = string_of(out.as_slice());
    let v = s.as_str().as_bytes_vec();
    Ok((v, removed))
}

/// Reading back a sanitizer's output gives kept lines only (each without a final carriage
/// return), and the output is empty or ends with a line feed.
proof fn lemma_kept_lines(ls: Seq<Seq<char>>, hardware: bool)
    requires
        forall|i: int| 0 <= i < ls.len() ==> no_lf(#[trigger] ls[i]),
    ensures
        kept_text(ls, hardware).len() == 0 || kept_text(ls, hardware).last() == '\n',
        forall|j: int| #![trigger lines(kept_text(ls, hardware))[j]] 0 <= j < lines(kept_text(ls, hardware)).len() ==> exists|i: int|
            #![trigger ls[i]]
            0 <= i < ls.len() && !blocked(hardware, ls[i]) && lines(kept_text(ls, hardware))[j] == strip_cr(ls[i]),
    decreases ls.len(),
{
    if ls.len() > 0 {
        let d = ls.drop_last();
        assert forall|i: int| 0 <= i < d.len() implies no_lf(#[trigger] d[i]) by {
            assert(d[i] == ls[i]);
        }
        lemma_kept_lines(d, hardware);
        let a = kept_text(d, hardware);
        if !blocked(hardware, ls.last()) {
            let b = ls.last() + seq!['\n'];
            lemma_lines_append(a, b);
            lemma_lines_of_line(ls.last());
            assert(kept_text(ls, hardware) =~= a + b);
            let n = lines(a).len();
            assert forall|j: int| #![trigger lines(kept_text(ls, hardware))[j]] 0 <= j < lines(kept_text(ls, hardware)).len() implies exists|i: int|
                #![trigger ls[i]]
                0 <= i < ls.len() && !blocked(hardware, ls[i]) && lines(kept_text(ls, hardware))[j] == strip_cr(ls[i]) by {
                if j < n {
                    let i = choose|i: int| #![trigger d[i]] 0 <= i < d.len() && !blocked(hardware, d[i]) && lines(a)[j] == strip_cr(d[i]);
                    assert(d[i] == ls[i]);
                } else {
                    assert(ls[ls.len() - 1] == ls.last());
                }
            }
        } else {
            assert(kept_text(ls, hardware) == a);
            assert forall|j: int| #![trigger lines(kept_text(ls, hardware))[j]] 0 <= j < lines(kept_text(ls, hardware)).len() implies exists|i: int|
                #![trigger ls[i]]
                0 <= i < ls.len() && !blocked(hardware, ls[i]) && lines(kept_text(ls, hardware))[j] == strip_cr(ls[i]) by {
                let i = choose|i: int| #![trigger d[i]] 0 <= i < d.len() && !blocked(hardware, d[i]) && lines(a)[j] == strip_cr(d[i]);
                assert(d[i] == ls[i]);
            }
        }
    }
}

/// What a custom cfg sanitizer keeps passes the check that apply makes for sensitive data: its
/// output is UTF-8 and, read back line by line, no line of it is sensitive.
pub proof fn law_sanitized_cfg_is_not_sensitive(bytes: Seq<u8>)
    requires
        valid_utf8(bytes),
    ensures
        !spec_contains_sensitive(encode_utf8(kept_text(lines(decode_utf8(bytes)), false))),
{
    let ls = lines(decode_utf8(bytes));
    lemma_lines_no_lf(decode_utf8(bytes));
    lemma_kept_lines(ls, false);
    let t = kept_text(ls, false);
    vstd::utf8::encode_utf8_valid_utf8(t);
    vstd::utf8::encode_utf8_decode_utf8(t);
    assert forall|j: int| 0 <= j < lines(t).len() implies !spec_sensitive_line(#[trigger] lines(t)[j]) by {
        let i = choose|i: int| #![trigger ls[i]] 0 <= i < ls.len() && !blocked(false, ls[i]) && lines(t)[j] == strip_cr(ls[i]);
        if ls[i].len() > 0 && ls[i].last() == '\r' {
            lemma_trim_drop_ws(ls[i]);
        }
    }
}

/// Drops from a custom cfg file every line that may carry credentials or a connect command.
pub fn sanitize_custom_cfg(bytes: &[u8]) -> (r: Result<(Vec<u8>, usize), Cs2Error>)
    ensures
        sanitized(bytes@, false, r, "A custom CS2 cfg file is not valid UTF-8 and was not captured."@),
{
    sanitize_lines(bytes, false, "A custom CS2 cfg file is not valid UTF-8 and was not captured.")
}

/// Drops from a machine configuration file every line with a hardware-specific value.
pub fn sanitize_hardware_config(bytes: &[u8]) -> (r: Result<(Vec<u8>, usize), Cs2Error>)
    ensures
        sanitized(bytes@, true, r, "A CS2 machine configuration file is not valid UTF-8."@),
{
    sanitize_lines(bytes, true, "A CS2 machine configuration file is not valid UTF-8.")
}

/// Where the first `//` at or after `i` starts, or the length of `l` when there is none.
pub open spec fn comment_start(l: Seq<char>, i: int) -> int
    decreases l.len() - i,
{
    if i < 0 || i + 1 >= l.len() {
        l.len() as int
    } else if l[i] == '/' && l[i + 1] == '/' {
        i
    } else {
        comment_start(l, i + 1)
    }
}

/// The pieces of `s` between occurrences of `c`, as `str::split` yields them.
pub open spec fn split_at_char(s: Seq<char>, c: char) -> Seq<Seq<char>>
    decreases s.len(),
{
    match index_of(s, c) {
        Some(k) => if 0 <= k < s.len() {
            seq![s.take(k)] + split_at_char(s.skip(k + 1), c)
        } else {
            seq![s]
        },
        None => seq![s],
    }
}

/// The first index at or after `i` that is not white space (or the length).
pub open spec fn skip_ws(s: Seq<char>, i: int) -> int
    decreases s.len() - i,
{
    if i < 0 || i >= s.len() || !is_ws(s[i]) {
        i
    } else {
        skip_ws(s, i + 1)
    }
}

/// The first index at or after `i` that is white space (or the length).
pub open spec fn skip_word(s: Seq<char>, i: int) -> int
    decreases s.len() - i,
{
    if i < 0 || i >= s.len() || is_ws(s[i]) {
        i
    } else {
        skip_word(s, i + 1)
    }
}

/// The next white-space separated word from `i` on and the index after it.
pub open spec fn word_at(s: Seq<char>, i: int) -> Option<(Seq<char>, int)> {
    let a = skip_ws(s, i);
    if a >= s.len() {
        None
    } else {
        let b = skip_word(s, a);
        Some((s.subrange(a, b), b))
    }
}

/// A quotation mark that is trimmed off a referenced file name.
pub open spec fn is_quote_mark(c: char) -> bool {
    c == '"' || c == '\''
}

/// `s` without leading quotation marks.
pub open spec fn trim_marks_start(s: Seq<char>) -> Seq<char>
    decreases s.len(),
{
    if s.len() > 0 && is_quote_mark(s[0]) {
        trim_marks_start(s.drop_first())
    } else {
        s
    }
}

/// `s` without trailing quotation marks.
pub open spec fn trim_marks_end(s: Seq<char>) -> Seq<char>
    decreases s.len(),
{
    if s.len() > 0 && is_quote_mark(s.last()) {
        trim_marks_end(s.drop_last())
    } else {
        s
    }
}

/// `s` with every backslash replaced by a forward slash.
pub open spec fn forward_slashes(s: Seq<char>) -> Seq<char> {
    Seq::new(s.len(), |i: int| if s[i] == '\\' { '/' } else { s[i] })
}

/// `s` with every forward slash replaced by a backslash.
pub open spec fn back_slashes(s: Seq<char>) -> Seq<char> {
    Seq::new(s.len(), |i: int| if s[i] == '/' { '\\' } else { s[i] })
}

/// The file that an `exec` argument names: quotation marks trimmed, slashes made forward, and
/// ".cfg" appended unless it already ends so (in any case).
pub open spec fn cfg_name(raw: Seq<char>) -> Seq<char> {
    let v = forward_slashes(trim_marks_end(trim_marks_start(raw)));
    if has_suffix(lower(v), ".cfg"@) { v } else { v + ".cfg"@ }
}

/// The file that a command executes, when it is `exec` or `execifexists` (any case) with an
/// argument.
pub open spec fn command_ref(cmd: Seq<char>) -> Option<Seq<char>> {
    match word_at(cmd, 0) {
        None => None,
        Some((keyword, after)) => if lower(keyword) == "exec"@ || lower(keyword) == "execifexists"@ {
            match word_at(cmd, after) {
                None => None,
                Some((raw, _)) => Some(cfg_name(raw)),
            }
        } else {
            None
        },
    }
}

/// The files referenced by some commands, in order.
pub open spec fn refs_of_commands(cs: Seq<Seq<char>>) -> Seq<Seq<char>>
    decreases cs.len(),
{
    if cs.len() == 0 {
        Seq::empty()
    } else {
        refs_of_commands(cs.drop_last()) + match command_ref(cs.last()) {
            Some(v) => seq![v],
            None => Seq::empty(),
        }
    }
}

/// The files referenced by a line: its commands before any `//` comment, split at `;`.
pub open spec fn line_refs(l: Seq<char>) -> Seq<Seq<char>> {
    refs_of_commands(split_at_char(l.take(comment_start(l, 0)), ';'))
}

/// The files referenced by some lines, in order.
pub open spec fn refs_of_lines(ls: Seq<Seq<char>>) -> Seq<Seq<char>>
    decreases ls.len(),
{
    if ls.len() == 0 {
        Seq::empty()
    } else {
        refs_of_lines(ls.drop_last()) + line_refs(ls.last())
    }
}

/// The cfg files that a file executes; none when it is not UTF-8.
pub open spec fn spec_referenced(bytes: Seq<u8>) -> Seq<Seq<char>> {
    if valid_utf8(bytes) { refs_of_lines(lines(decode_utf8(bytes))) } else { Seq::empty() }
}

proof fn lemma_comment_start(l: Seq<char>, i: int)
    requires
        0 <= i,
    ensures
        i <= comment_start(l, i) <= l.len() || (i > l.len() && comment_start(l, i) == l.len()),
        comment_start(l, i) <= l.len(),
    decreases l.len() - i,
{
    if i + 1 < l.len() && !(l[i] == '/' && l[i + 1] == '/') {
        lemma_comment_start(l, i + 1);
    }
}

fn comment_cut(l: &[char]) -> (r: usize)
    ensures
        r == comment_start(l@, 0),
        r <= l@.len(),
{
    let mut i: usize = 0;
    proof { lemma_comment_start(l@, 0); }
    while i < l.len() && i + 1 < l.len()
        invariant
            i <= l@.len(),
            comment_start(l@, 0) == comment_start(l@, i as int),
        decreases l.len() - i,
    {
        if l[i] == '/' && l[i + 1] == '/' {
            return i;
        }
        i = i + 1;
    }
    l.len()
}

/// The pieces of `s` between occurrences of `c`.
fn split_char(s: &[char], c: char) -> (r: Vec<Vec<char>>)
    ensures
        char_lines(r@) == split_at_char(s@, c),
{
    let mut r: Vec<Vec<char>> = Vec::new();
    let mut start: usize = 0;
    let mut i: usize = 0;
    proof { assert(s@.skip(0) =~= s@); }
    while i < s.len()
        invariant
            start <= i <= s@.len(),
            forall|j: int| start <= j < i ==> s@[j] != c,
            split_at_char(s@, c) == char_lines(r@) + split_at_char(s@.skip(start as int), c),
        decreases s.len() - i,
    {
        if s[i] == c {
            let piece = sub_chars_local(s, start, i);
            proof {
                let t = s@.skip(start as int);
                lemma_index_of(t, c, (i - start) as int);
                assert(t.take((i - start) as int) =~= s@.subrange(start as int, i as int));
                assert(t.skip((i - start) + 1) =~= s@.skip(i + 1));
                assert(split_at_char(t, c) == seq![piece@] + split_at_char(s@.skip(i + 1), c));
            }
            let ghost prev = char_lines(r@);
            r.push(piece);
            proof {
                assert(char_lines(r@) =~= prev.push(piece@));
                assert(prev + (seq![piece@] + split_at_char(s@.skip(i + 1), c)) =~= char_lines(r@) + split_at_char(s@.skip(i + 1), c));
            }
            start = i + 1;
        }
        i = i + 1;
    }
    let last = sub_chars_local(s, start, s.len());
    proof {
        let t = s@.skip(start as int);
        lemma_index_of(t, c, t.len() as int);
        assert(last@ =~= t);
    }
    let ghost prev = char_lines(r@);
    r.push(last);
    proof { assert(char_lines(r@) =~= prev + seq![last@]); }
    r
}

fn sub_chars_local(s: &[char], a: usize, b: usize) -> (r: Vec<char>)
    requires
        a <= b <= s@.len(),
    ensures
        r@ == s@.subrange(a as int, b as int),
{
    crate::text::sub_chars(s, a, b)
}

/// The next white-space separated word of `s` from `i` on and the index after it.
fn next_word(s: &[char], i: usize) -> (r: Option<(Vec<char>, usize)>)
    requires
        i <= s@.len(),
    ensures
        match r {
            None => word_at(s@, i as int) is None,
            Some((w, e)) => word_at(s@, i as int) == Some((w@, e as int)) && e <= s@.len(),
        },
{
    let mut a: usize = i;
    while a < s.len() && char_is_ws(s[a])
        invariant
            i <= a <= s@.len(),
            skip_ws(s@, i as int) == skip_ws(s@, a as int),
        decreases s.len() - a,
    {
        a = a + 1;
    }
    if a >= s.len() {
        return None;
    }
    let mut b: usize = a;
    while b < s.len() && !char_is_ws(s[b])
        invariant
            a <= b <= s@.len(),
            skip_word(s@, a as int) == skip_word(s@, b as int),
        decreases s.len() - b,
    {
        b = b + 1;
    }
    Some((sub_chars_local(s, a, b), b))
}

fn cfg_name_chars(raw: &[char]) -> (r: Vec<char>)
    ensures
        r@ == cfg_name(raw@),
{
    let mut a: usize = 0;
    proof { assert(raw@.skip(0) =~= raw@); }
    while a < raw.len() && (raw[a] == '"' || raw[a] == '\'')
        invariant
            a <= raw@.len(),
            trim_marks_start(raw@) == trim_marks_start(raw@.skip(a as int)),
        decreases raw.len() - a,
    {
        proof { assert(raw@.skip(a as int).drop_first() =~= raw@.skip(a + 1)); }
        a = a + 1;
    }
    let mut b: usize = raw.len();
    proof { assert(raw@.subrange(a as int, b as int) =~= raw@.skip(a as int)); }
    while b > a && (raw[b - 1] == '"' || raw[b - 1] == '\'')
        invariant
            a <= b <= raw@.len(),
            trim_marks_end(trim_marks_start(raw@)) == trim_marks_end(raw@.subrange(a as int, b as int)),
        decreases b - a,
    {
        proof { assert(raw@.subrange(a as int, b as int).drop_last() =~= raw@.subrange(a as int, b - 1)); }
        b = b - 1;
    }
    let mut v: Vec<char> = Vec::new();
    let mut k: usize = a;
    while k < b
        invariant
            a <= k <= b <= raw@.len(),
            v@ == forward_slashes(raw@.subrange(a as int, k as int)),
        decreases b - k,
    {
        let ch = raw[k];
        v.push(if ch == '\\' { '/' } else { ch });
        k = k + 1;
        proof { assert(v@ =~= forward_slashes(raw@.subrange(a as int, k as int))); }
    }
    proof { assert(forward_slashes(trim_marks_end(trim_marks_start(raw@))) == v@); }
    let l = lower_chars(v.as_slice());
    if !ends_with_str(l.as_slice(), ".cfg") {
        crate::text::push_str_chars(&mut v, ".cfg");
    }
    v
}

fn command_ref_chars(cmd: &[char]) -> (r: Option<Vec<char>>)
    ensures
        match r {
            None => command_ref(cmd@) is None,
            Some(v) => command_ref(cmd@) == Some(v@),
        },
{
    match next_word(cmd, 0) {
        None => None,
        Some((keyword, after)) => {
            let k = lower_chars(keyword.as_slice());
            if chars_eq_str(k.as_slice(), "exec") || chars_eq_str(k.as_slice(), "execifexists") {
                match next_word(cmd, after) {
                    None => None,
                    Some((raw, _)) => Some(cfg_name_chars(raw.as_slice())),
                }
            } else {
                None
            }
        },
    }
}

/// The cfg files that a file executes, in order: the argument of each `exec` or `execifexists`
/// command outside `//` comments, with ".cfg" added where it is missing; none for text that is
/// not UTF-8.
pub fn referenced_cfgs(bytes: &[u8]) -> (r: Vec<String>)
    ensures
        strings_view(r@) == spec_referenced(bytes@),
{
    let text = match utf8_text(bytes) {
        None => { return Vec::new(); },
        Some(t) => t,
    };
    let cs = chars_of(text);
    let ls = split_lines(cs.as_slice());
    let ghost gl = lines(cs@);
    let mut result: Vec<String> = Vec::new();
    let mut i: usize = 0;
    while i < ls.len()
        invariant
            i <= ls@.len(),
            gl == lines(cs@),
            ls@.len() == gl.len(),
            forall|q: int| 0 <= q < ls@.len() ==> #[trigger] ls@[q]@ == gl[q],
            strings_view(result@) == refs_of_lines(gl.take(i as int)),
        decreases ls.len() - i,
    {
        let line = &ls[i];
        let cut = comment_cut(line.as_slice());
        let part = sub_chars_local(line.as_slice(), 0, cut);
        let commands = split_char(part.as_slice(), ';');
        let ghost base = strings_view(result@);
        let ghost cv = char_lines(commands@);
        let mut j: usize = 0;
        while j < commands.len()
            invariant
                j <= commands@.len(),
                cv == char_lines(commands@),
                strings_view(result@) == base + refs_of_commands(cv.take(j as int)),
            decreases commands.len() - j,
        {
            let ghost prev = strings_view(result@);
            proof {
                assert(cv.take(j + 1).drop_last() =~= cv.take(j as int));
                assert(cv.take(j + 1).last() == commands@[j as int]@);
            }
            match command_ref_chars(commands[j].as_slice()) {
                Some(v) => {
                    result.push(string_of(v.as_slice()));
                    proof { assert(strings_view(result@) =~= prev + seq![v@]); }
                },
                None => {
                    proof { assert(prev + Seq::<Seq<char>>::empty() =~= prev); }
                },
            }
            j = j + 1;
        }
        proof {
            assert(cv.take(commands@.len() as int) =~= cv);
            assert(part@ =~= line@.take(comment_start(line@, 0)));
            assert(gl.take(i + 1).drop_last() =~= gl.take(i as int));
            assert(gl.take(i + 1).last() == line@);
        }
        i = i + 1;
    }
    proof { assert(gl.take(ls@.len() as int) =~= gl); }
    result
}

/// The names of the core files: the two required ones, then the two optional ones.
pub open spec fn core_names() -> Seq<Seq<char>> {
    seq!["cs2_user_convars_0_slot0.vcfg"@, "cs2_user_keys_0_slot0.vcfg"@, "cs2_machine_convars.vcfg"@, "cs2_video.txt"@]
}

/// The core configuration files of CS2: the two required ones, then the two optional ones.
pub fn core_list() -> (r: [&'static str; 4])
    ensures
        views(r@) == core_names(),
{
    let r = ["cs2_user_convars_0_slot0.vcfg", "cs2_user_keys_0_slot0.vcfg", "cs2_machine_convars.vcfg", "cs2_video.txt"];
    proof { assert(views(r@) =~= core_names()); }
    r
}

/// The non-empty pieces of a path other than `.`: its normal components when the path is safe.
pub open spec fn normal_parts(ps: Seq<Seq<char>>) -> Seq<Seq<char>>
    decreases ps.len(),
{
    if ps.len() == 0 {
        Seq::empty()
    } else if ps.last().len() == 0 || ps.last() == "."@ {
        normal_parts(ps.drop_last())
    } else {
        normal_parts(ps.drop_last()).push(ps.last())
    }
}

/// An ASCII letter.
pub open spec fn is_ascii_letter(c: char) -> bool {
    ('a' <= c && c <= 'z') || ('A' <= c && c <= 'Z')
}

/// A Windows path text (separators made backslashes) has normal components only: no drive
/// prefix, no leading separator (root or UNC prefix), no leading `.` and no `..` anywhere.
pub open spec fn only_normal(p: Seq<char>) -> bool {
    &&& !(p.len() > 0 && p[0] == '\\')
    &&& !(p.len() >= 2 && is_ascii_letter(p[0]) && p[1] == ':')
    &&& split_at_char(p, '\\')[0] != "."@
    &&& forall|i: int| 0 <= i < split_at_char(p, '\\').len() ==> #[trigger] split_at_char(p, '\\')[i] != ".."@
}

/// The number of components of a path with normal components only.
pub open spec fn component_count(p: Seq<char>) -> nat {
    normal_parts(split_at_char(p, '\\')).len()
}

/// A file name of a profile is checked as a relative Windows path: 1 to 160 bytes, separators
/// made backslashes, normal components only, and one to four of them.
pub open spec fn spec_safe_relative_path(v: Seq<char>) -> Result<Seq<char>, Seq<char>> {
    if v.len() == 0 || utf8_len(v) > 160 {
        Err("The CS2 profile contains an invalid file name."@)
    } else {
        let p = back_slashes(v);
        if !only_normal(p) || component_count(p) == 0 || component_count(p) > 4 {
            Err("The CS2 profile contains an unsafe relative path."@)
        } else {
            Ok(p)
        }
    }
}

fn back_slashes_chars(v: &[char]) -> (r: Vec<char>)
    ensures
        r@ == back_slashes(v@),
{
    let mut r: Vec<char> = Vec::new();
    let mut k: usize = 0;
    while k < v.len()
        invariant
            k <= v@.len(),
            r@ == back_slashes(v@.take(k as int)),
        decreases v.len() - k,
    {
        let ch = v[k];
        r.push(if ch == '/' { '\\' } else { ch });
        k = k + 1;
        proof { assert(r@ =~= back_slashes(v@.take(k as int))); }
    }
    proof { assert(v@.take(v@.len() as int) =~= v@); }
    r
}

fn normal_count(ps: &Vec<Vec<char>>) -> (r: usize)
    ensures
        r == normal_parts(char_lines(ps@)).len(),
        r <= ps@.len(),
{
    let ghost cl = char_lines(ps@);
    let mut n: usize = 0;
    let mut i: usize = 0;
    while i < ps.len()
        invariant
            i <= ps@.len(),
            cl == char_lines(ps@),
            n <= i,
            n == normal_parts(cl.take(i as int)).len(),
        decreases ps.len() - i,
    {
        proof {
            assert(cl.take(i + 1).drop_last() =~= cl.take(i as int));
            assert(cl.take(i + 1).last() == ps@[i as int]@);
        }
        if !(ps[i].len() == 0 || chars_eq_str(ps[i].as_slice(), ".")) {
            n = n + 1;
        }
        i = i + 1;
    }
    proof { assert(cl.take(ps@.len() as int) =~= cl); }
    n
}

/// Whether a Windows path text, its separators made backslashes, has normal components only.
pub fn only_normal_components(p: &[char]) -> (r: bool)
    ensures
        r == only_normal(p@),
{
    if p.len() > 0 && p[0] == '\\' {
        return false;
    }
    if p.len() >= 2 && (('a' <= p[0] && p[0] <= 'z') || ('A' <= p[0] && p[0] <= 'Z')) && p[1] == ':' {
        return false;
    }
    let pieces = split_char(p, '\\');
    let ghost cl = char_lines(pieces@);
    proof {
        assert(cl.len() > 0) by {
            reveal_with_fuel(split_at_char, 2);
        }
    }
    if chars_eq_str(pieces[0].as_slice(), ".") {
        return false;
    }
    let mut i: usize = 0;
    while i < pieces.len()
        invariant
            i <= pieces@.len(),
            cl == char_lines(pieces@),
            cl == split_at_char(p@, '\\'),
            forall|q: int| 0 <= q < i ==> #[trigger] cl[q] != ".."@,
        decreases pieces.len() - i,
    {
        proof { assert(cl[i as int] == pieces@[i as int]@); }
        if chars_eq_str(pieces[i].as_slice(), "..") {
            return false;
        }
        i = i + 1;
    }
    true
}

/// Checks a file name of a profile and gives its Windows form (separators made backslashes).
pub fn safe_relative_path(value: &str) -> (r: Result<String, Cs2Error>)
    ensures
        match spec_safe_relative_path(value@) {
            Ok(p) => r matches Ok(s) && s@ == p,
            Err(m) => r matches Err(e) && error_is(e, m, false),
        },
{
    let v = chars_of(value);
    if v.len() == 0 || utf8_len_capped(v.as_slice(), 160) > 160 {
        return Err(fail("The CS2 profile contains an invalid file name.", false));
    }
    let p = back_slashes_chars(v.as_slice());
    let pieces = split_char(p.as_slice(), '\\');
    let n = normal_count(&pieces);
    if !only_normal_components(p.as_slice()) || n == 0 || n > 4 {
        return Err(fail("The CS2 profile contains an unsafe relative path.", false));
    }
    Ok(string_of(p.as_slice()))
}

/// Which files may be written where: in the Steam user folder a core file or a cfg file at its
/// top level, in the installation folder any cfg file; names compared in lower case with forward
/// slashes.
pub open spec fn name_allowed(scope: Seq<char>, relative: Seq<char>) -> bool {
    let value = lower(forward_slashes(relative));
    let core = exists|i: int| 0 <= i < 4 && value == #[trigger] core_names()[i];
    let cfg = has_suffix(value, ".cfg"@);
    if scope == "userdata"@ {
        core || (cfg && component_count(back_slashes(relative)) == 1)
    } else if scope == "install"@ {
        cfg
    } else {
        false
    }
}

/// A file name that capture takes from the userdata cfg folder: it ends in ".cfg" (any ASCII case).
pub fn is_cfg_file_name(name: &str) -> (r: bool)
    ensures
        r == has_suffix(lower(name@), ".cfg"@),
{
    let l = lower_chars(chars_of(name).as_slice());
    ends_with_str(l.as_slice(), ".cfg")
}

/// Refuses a file that may not be written in `scope`; a path that is not made of normal components
/// alone (rooted, with a drive, or with "." or "..") is refused as unsafe.
pub fn validate_file_name(scope: &str, relative: &str) -> (r: Result<(), Cs2Error>)
    ensures
        r is Ok <==> only_normal(back_slashes(relative@)) && name_allowed(scope@, relative@),
        r matches Err(e) ==> if only_normal(back_slashes(relative@)) {
            error_is(e, "The CS2 profile contains a file type that Game Passport will not write."@, false)
        } else {
            error_is(e, "The CS2 profile contains an unsafe relative path."@, false)
        },
{
    let rel = chars_of(relative);
    if !only_normal_components(back_slashes_chars(rel.as_slice()).as_slice()) {
        return Err(fail("The CS2 profile contains an unsafe relative path.", false));
    }
    let f = lower_chars(forward_slashes_chars(rel.as_slice()).as_slice());
    let names = core_list();
    let mut core = false;
    let mut i: usize = 0;
    while i < 4
        invariant
            i <= 4,
            views(names@) == core_names(),
            core == exists|q: int| 0 <= q < i && f@ == #[trigger] core_names()[q],
        decreases 4 - i,
    {
        if chars_eq_str(f.as_slice(), names[i]) {
            core = true;
        }
        proof { assert(views(names@)[i as int] == names@[i as int]@); }
        i = i + 1;
    }
    let cfg = ends_with_str(f.as_slice(), ".cfg");
    let allowed = if str_eq(scope, "userdata") {
        let b = back_slashes_chars(rel.as_slice());
        let pieces = split_char(b.as_slice(), '\\');
        core || (cfg && normal_count(&pieces) == 1)
    } else if str_eq(scope, "install") {
        cfg
    } else {
        false
    };
    if allowed {
        Ok(())
    } else {
        Err(fail("The CS2 profile contains a file type that Game Passport will not write.", false))
    }
}

fn forward_slashes_chars(v: &[char]) -> (r: Vec<char>)
    ensures
        r@ == forward_slashes(v@),
{
    let mut r: Vec<char> = Vec::new();
    let mut k: usize = 0;
    while k < v.len()
        invariant
            k <= v@.len(),
            r@ == forward_slashes(v@.take(k as int)),
        decreases v.len() - k,
    {
        let ch = v[k];
        r.push(if ch == '\\' { '/' } else { ch });
        k = k + 1;
        proof { assert(r@ =~= forward_slashes(v@.take(k as int))); }
    }
    proof { assert(v@.take(v@.len() as int) =~= v@); }
    r
}

/// Checks the frame of a saved profile: schema 1, one to 32 files, and both required core files
/// present in the Steam user folder.
pub open spec fn payload_problem(p: Cs2Payload) -> Option<Seq<char>> {
    if p.schema_version != SCHEMA_VERSION {
        Some("This CS2 profile format is not supported by this app version."@)
    } else if p.files@.len() == 0 || p.files@.len() > MAX_FILES {
        Some("The saved CS2 profile has an invalid file count."@)
    } else if !has_core(p.files@, core_names()[0]) {
        Some("The saved CS2 profile is missing "@ + core_names()[0] + "."@)
    } else if !has_core(p.files@, core_names()[1]) {
        Some("The saved CS2 profile is missing "@ + core_names()[1] + "."@)
    } else {
        None
    }
}

/// Some file of the Steam user folder has the name `name`.
pub open spec fn has_core(files: Seq<Cs2ConfigFile>, name: Seq<char>) -> bool {
    exists|i: int| 0 <= i < files.len() && files[i].scope@ == "userdata"@ && #[trigger] files[i].relative_path@ == name
}

fn find_core(files: &Vec<Cs2ConfigFile>, name: &str) -> (r: bool)
    ensures
        r == has_core(files@, name@),
{
    let mut i: usize = 0;
    while i < files.len()
        invariant
            i <= files@.len(),
            forall|q: int| 0 <= q < i ==> !(files@[q].scope@ == "userdata"@ && #[trigger] files@[q].relative_path@ == name@),
        decreases files.len() - i,
    {
        if str_eq(files[i].scope.as_str(), "userdata") && str_eq(files[i].relative_path.as_str(), name) {
            return true;
        }
        i = i + 1;
    }
    false
}

fn missing_message(name: &str) -> (r: String)
    ensures
        r@ == "The saved CS2 profile is missing "@ + name@ + "."@,
{
    let mut v = chars_of("The saved CS2 profile is missing ");
    crate::text::push_str_chars(&mut v, name);
    crate::text::push_str_chars(&mut v, ".");
    proof { assert(v@ =~= "The saved CS2 profile is missing "@ + name@ + "."@); }
    string_of(v.as_slice())
}

/// Refuses a profile whose frame is wrong; see `payload_problem`.
pub fn validate_payload(payload: &Cs2Payload) -> (r: Result<(), Cs2Error>)
    ensures
        r is Ok <==> payload_problem(*payload) is None,
        r matches Err(e) ==> payload_problem(*payload) == Some(e.message@) && e.details@.len() == 0 && !e.retryable,
{
    if payload.schema_version != SCHEMA_VERSION {
        return Err(fail("This CS2 profile format is not supported by this app version.", false));
    }
    if payload.files.len() == 0 || payload.files.len() > MAX_FILES {
        return Err(fail("The saved CS2 profile has an invalid file count.", false));
    }
    let names = core_list();
    proof { assert(views(names@)[0] == names@[0]@ && views(names@)[1] == names@[1]@); }
    if !find_core(&payload.files, names[0]) {
        return Err(Cs2Error::new(missing_message(names[0]), false));
    }
    if !find_core(&payload.files, names[1]) {
        return Err(Cs2Error::new(missing_message(names[1]), false));
    }
    Ok(())
}

/// The text of `base` joined with a relative path `p`, as `PathBuf::join` writes it on Windows.
pub open spec fn join_path(base: Seq<char>, p: Seq<char>) -> Seq<char> {
    if base.len() == 0 || base.last() == '\\' || base.last() == '/'
        || (base.len() == 2 && is_ascii_letter(base[0]) && base[1] == ':') {
        base + p
    } else {
        base + seq!['\\'] + p
    }
}

/// A decoded file ready to be written.
#[derive(Debug)]
pub struct DecodedFile {
    pub scope: String,
    pub relative_path: String,
    pub target: String,
    pub content: Vec<u8>,
}

/// The folder that a scope writes to, if it is known.
pub open spec fn base_of(scope: Seq<char>, userdata: Seq<char>, install: Option<Seq<char>>) -> Option<Seq<char>> {
    if scope == "userdata"@ { Some(userdata) } else { install }
}

/// A decoded file: the scope, the name as saved, the target text, and the content.
pub ghost struct DecodedView {
    pub scope: Seq<char>,
    pub relative_path: Seq<char>,
    pub target: Seq<char>,
    pub content: Seq<u8>,
}

/// Two targets are the same file when they are in the same folder with the same components.
pub open spec fn target_key(d: DecodedView, userdata: Seq<char>, install: Option<Seq<char>>) -> (Option<Seq<char>>, Seq<Seq<char>>) {
    (base_of(d.scope, userdata, install), normal_parts(split_at_char(back_slashes(d.relative_path), '\\')))
}

/// One file of a profile decoded and checked: a safe name allowed in its scope, valid Base64 of
/// the saved size (at most 512 KB), a matching SHA-256 (hex compared without case), no sensitive
/// line, and a known folder for its scope. The error carries its message and whether a retry may
/// help.
pub open spec fn decode_one(f: Cs2ConfigFile, userdata: Seq<char>, install: Option<Seq<char>>) -> Result<DecodedView, (Seq<char>, bool)> {
    match spec_safe_relative_path(f.relative_path@) {
        Err(m) => Err((m, false)),
        Ok(p) => if !name_allowed(f.scope@, p) {
            Err(("The CS2 profile contains a file type that Game Passport will not write."@, false))
        } else {
            match spec_base64_decode(f.content_base64@) {
                None => Err(("The saved CS2 profile contains invalid encoded data."@, false)),
                Some(content) => if content.len() != f.size || f.size > MAX_FILE_BYTES {
                    Err(("The saved CS2 profile failed its size validation."@, false))
                } else if hex_lower(spec_sha256(content)) != lower(f.sha256@) {
                    Err(("The saved CS2 profile failed its integrity check. Nothing was changed."@, false))
                } else if spec_contains_sensitive(content) {
                    Err(("The saved CS2 profile contains a blocked sensitive command. Nothing was changed."@, false))
                } else if f.scope@ == "install"@ && install is None {
                    Err(("CS2 installation folder is unavailable."@, true))
                } else if f.scope@ != "userdata"@ && f.scope@ != "install"@ {
                    Err(("The saved CS2 profile contains an unknown file scope."@, false))
                } else {
                    Ok(DecodedView {
                        scope: f.scope@,
                        relative_path: f.relative_path@,
                        target: join_path(base_of(f.scope@, userdata, install)->0, p),
                        content: content,
                    })
                }
            }
        },
    }
}

/// The first `n` files decoded in order, or the first error; a file whose target another file
/// already has is an error.
pub open spec fn decode_prefix(files: Seq<Cs2ConfigFile>, n: int, userdata: Seq<char>, install: Option<Seq<char>>) -> Result<Seq<DecodedView>, (Seq<char>, bool)>
    decreases n,
{
    if n <= 0 {
        Ok(Seq::empty())
    } else {
        match decode_prefix(files, n - 1, userdata, install) {
            Err(e) => Err(e),
            Ok(ds) => match decode_one(files[n - 1], userdata, install) {
                Err(e) => Err(e),
                Ok(d) => if exists|j: int| 0 <= j < ds.len() && target_key(#[trigger] ds[j], userdata, install) == target_key(d, userdata, install) {
                    Err(("The saved CS2 profile contains duplicate files."@, false))
                } else {
                    Ok(ds.push(d))
                },
            },
        }
    }
}

/// The sum of the saved sizes of the first `n` files.
pub open spec fn size_sum(files: Seq<Cs2ConfigFile>, n: int) -> nat
    decreases n,
{
    if n <= 0 { 0 } else { size_sum(files, n - 1) + (files[n - 1].size as nat) }
}

/// All files of a profile decoded, or the first error; then the saved total must match and be
/// at most 2 MB.
pub open spec fn spec_decode(p: Cs2Payload, userdata: Seq<char>, install: Option<Seq<char>>) -> Result<Seq<DecodedView>, (Seq<char>, bool)> {
    match decode_prefix(p.files@, p.files@.len() as int, userdata, install) {
        Err(e) => Err(e),
        Ok(ds) => if size_sum(p.files@, p.files@.len() as int) != p.total_bytes || size_sum(p.files@, p.files@.len() as int) > MAX_TOTAL_BYTES {
            Err(("The saved CS2 profile failed its total-size validation."@, false))
        } else {
            Ok(ds)
        },
    }
}

/// The view of decoded files.
pub open spec fn decoded_view(v: Seq<DecodedFile>) -> Seq<DecodedView> {
    v.map_values(|d: DecodedFile| DecodedView { scope: d.scope@, relative_path: d.relative_path@, target: d.target@, content: d.content@ })
}

fn join_path_chars(base: &[char], p: &[char]) -> (r: Vec<char>)
    ensures
        r@ == join_path(base@, p@),
{
    let n = base.len();
    let mut v = sub_chars_local(base, 0, n);
    if !(n == 0 || base[n - 1] == '\\' || base[n - 1] == '/'
        || (n == 2 && (('a' <= base[0] && base[0] <= 'z') || ('A' <= base[0] && base[0] <= 'Z')) && base[1] == ':')) {
        v.push('\\');
    }
    extend_chars(&mut v, p);
    proof { assert(v@ =~= join_path(base@, p@)); }
    v
}

fn normal_part_list(ps: &Vec<Vec<char>>) -> (r: Vec<Vec<char>>)
    ensures
        char_lines(r@) == normal_parts(char_lines(ps@)),
{
    let ghost cl = char_lines(ps@);
    let mut r: Vec<Vec<char>> = Vec::new();
    let mut i: usize = 0;
    while i < ps.len()
        invariant
            i <= ps@.len(),
            cl == char_lines(ps@),
            char_lines(r@) == normal_parts(cl.take(i as int)),
        decreases ps.len() - i,
    {
        proof {
            assert(cl.take(i + 1).drop_last() =~= cl.take(i as int));
            assert(cl.take(i + 1).last() == ps@[i as int]@);
        }
        if !(ps[i].len() == 0 || chars_eq_str(ps[i].as_slice(), ".")) {
            let ghost prev = char_lines(r@);
            let c = sub_chars_local(ps[i].as_slice(), 0, ps[i].len());
            proof { assert(c@ =~= ps@[i as int]@); }
            r.push(c);
            proof { assert(char_lines(r@) =~= prev.push(ps@[i as int]@)); }
        }
        i = i + 1;
    }
    proof { assert(cl.take(ps@.len() as int) =~= cl); }
    r
}

fn lines_eq(a: &Vec<Vec<char>>, b: &Vec<Vec<char>>) -> (r: bool)
    ensures
        r == (char_lines(a@) == char_lines(b@)),
{
    if a.len() != b.len() {
        proof { assert(char_lines(a@).len() != char_lines(b@).len()); }
        return false;
    }
    let mut i: usize = 0;
    while i < a.len()
        invariant
            i <= a@.len(),
            a@.len() == b@.len(),
            forall|q: int| 0 <= q < i ==> a@[q]@ == b@[q]@,
        decreases a.len() - i,
    {
        if !chars_eq(a[i].as_slice(), b[i].as_slice()) {
            proof { assert(char_lines(a@)[i as int] != char_lines(b@)[i as int]); }
            return false;
        }
        i = i + 1;
    }
    proof { assert(char_lines(a@) =~= char_lines(b@)); }
    true
}

/// Decodes and checks every file of a profile and resolves its target; see `spec_decode`.
pub fn decode_and_resolve(payload: &Cs2Payload, userdata_cfg: &str, install_cfg: Option<&str>) -> (r: Result<Vec<DecodedFile>, Cs2Error>)
    ensures
        match spec_decode(*payload, userdata_cfg@, match install_cfg { Some(s) => Some(s@), None => None }) {
            Ok(ds) => r matches Ok(v) && decoded_view(v@) == ds,
            Err((m, retry)) => r matches Err(e) && error_is(e, m, retry),
        },
{
    let ghost install: Option<Seq<char>> = match install_cfg { Some(s) => Some(s@), None => None };
    let ghost ud = userdata_cfg@;
    proof {
        reveal_strlit("userdata");
        reveal_strlit("install");
        assert("userdata"@.len() == 8);
        assert("install"@.len() == 7);
        assert("userdata"@ != "install"@);
    }
    let files = &payload.files;
    let mut result: Vec<DecodedFile> = Vec::new();
    let mut kbase: Vec<Vec<char>> = Vec::new();
    let mut kparts: Vec<Vec<Vec<char>>> = Vec::new();
    let mut total: u64 = 0;
    let mut over = false;
    let mut i: usize = 0;
    proof { assert(decoded_view(result@) =~= Seq::<DecodedView>::empty()); }
    while i < files.len()
        invariant
            i <= files@.len(),
            files@ == payload.files@,
            install == (match install_cfg { Some(s) => Some(s@), None => None::<Seq<char>> }),
            ud == userdata_cfg@,
            "userdata"@ != "install"@,
            decode_prefix(files@, i as int, ud, install) == Ok::<Seq<DecodedView>, (Seq<char>, bool)>(decoded_view(result@)),
            !over ==> total == size_sum(files@, i as int) && total <= MAX_TOTAL_BYTES,
            over ==> size_sum(files@, i as int) > MAX_TOTAL_BYTES,
            kbase@.len() == result@.len(),
            kparts@.len() == result@.len(),
            forall|j: int| 0 <= j < result@.len() ==>
                target_key(#[trigger] decoded_view(result@)[j], ud, install) == (Some(kbase@[j]@), char_lines(kparts@[j]@)),
        decreases files.len() - i,
    {
        let f = &files[i];
        let ghost ds = decoded_view(result@);
        proof { assert(files@[i as int] == *f); }
        let p = match safe_relative_path(f.relative_path.as_str()) {
            Ok(p) => p,
            Err(e) => {
                proof { lemma_decode_error_stays(files@, i + 1, files@.len() as int, ud, install); }
                proof { lemma_decode_total(*payload, ud, install); }
                return Err(e);
            },
        };
        let pc = chars_of(p.as_str());
        proof {
            assert(back_slashes(pc@) =~= pc@);
        }
        if validate_file_name(f.scope.as_str(), p.as_str()).is_err() {
            proof { lemma_decode_error_stays(files@, i + 1, files@.len() as int, ud, install); lemma_decode_total(*payload, ud, install); }
            return Err(fail("The CS2 profile contains a file type that Game Passport will not write.", false));
        }
        let content = match base64_decode(f.content_base64.as_str()) {
            Ok(c) => c,
            Err(_) => {
                proof { lemma_decode_error_stays(files@, i + 1, files@.len() as int, ud, install); lemma_decode_total(*payload, ud, install); }
                return Err(fail("The saved CS2 profile contains invalid encoded data.", false));
            },
        };
        if content.len() as u64 != f.size || f.size > MAX_FILE_BYTES {
            proof { lemma_decode_error_stays(files@, i + 1, files@.len() as int, ud, install); lemma_decode_total(*payload, ud, install); }
            return Err(fail("The saved CS2 profile failed its size validation.", false));
        }
        let digest = sha256_hex(content.as_slice());
        let given = lower_chars(chars_of(f.sha256.as_str()).as_slice());
        let dc = chars_of(digest.as_str());
        if !chars_eq(dc.as_slice(), given.as_slice()) {
            proof { lemma_decode_error_stays(files@, i + 1, files@.len() as int, ud, install); lemma_decode_total(*payload, ud, install); }
            return Err(fail("The saved CS2 profile failed its integrity check. Nothing was changed.", false));
        }
        if contains_sensitive_data(content.as_slice()) {
            proof { lemma_decode_error_stays(files@, i + 1, files@.len() as int, ud, install); lemma_decode_total(*payload, ud, install); }
            return Err(fail("The saved CS2 profile contains a blocked sensitive command. Nothing was changed.", false));
        }
        if !over {
            if total + f.size > MAX_TOTAL_BYTES {
                over = true;
            } else {
                total = total + f.size;
            }
        }
        let base: Vec<char> = if str_eq(f.scope.as_str(), "userdata") {
            chars_of(userdata_cfg)
        } else if str_eq(f.scope.as_str(), "install") {
            match install_cfg {
                Some(b) => chars_of(b),
                None => {
                    proof { lemma_decode_error_stays(files@, i + 1, files@.len() as int, ud, install); lemma_decode_total(*payload, ud, install); }
                    return Err(fail("CS2 installation folder is unavailable.", true));
                },
            }
        } else {
            proof { lemma_decode_error_stays(files@, i + 1, files@.len() as int, ud, install); lemma_decode_total(*payload, ud, install); }
            return Err(fail("The saved CS2 profile contains an unknown file scope.", false));
        };
        let pieces = split_char(pc.as_slice(), '\\');
        let parts = normal_part_list(&pieces);
        let target = join_path_chars(base.as_slice(), pc.as_slice());
        let ghost d = DecodedView { scope: f.scope@, relative_path: f.relative_path@, target: target@, content: content@ };
        proof {
            assert(spec_safe_relative_path(f.relative_path@) == Ok::<Seq<char>, Seq<char>>(pc@));
            assert(name_allowed(f.scope@, pc@));
            assert(spec_base64_decode(f.content_base64@) == Some(content@));
            assert(content@.len() == f.size);
            assert(hex_lower(spec_sha256(content@)) == lower(f.sha256@));
            assert(!spec_contains_sensitive(content@));
            assert(base_of(f.scope@, ud, install) == Some(base@));
            assert(!(f.scope@ == "install"@ && install is None));
            assert(f.scope@ == "userdata"@ || f.scope@ == "install"@);
            assert(d.target == join_path(base_of(f.scope@, ud, install)->0, pc@));
            assert(decode_one(*f, ud, install) == Ok::<DecodedView, (Seq<char>, bool)>(d));
            assert(target_key(d, ud, install) == (Some(base@), char_lines(parts@)));
        }
        let mut j: usize = 0;
        while j < result.len()
            invariant
                j <= result@.len(),
                kbase@.len() == result@.len(),
                kparts@.len() == result@.len(),
                ds == decoded_view(result@),
                forall|q: int| 0 <= q < result@.len() ==>
                    target_key(#[trigger] ds[q], ud, install) == (Some(kbase@[q]@), char_lines(kparts@[q]@)),
                target_key(d, ud, install) == (Some(base@), char_lines(parts@)),
                forall|q: int| 0 <= q < j ==> target_key(#[trigger] ds[q], ud, install) != target_key(d, ud, install),
                i < files@.len(),
                files@ == payload.files@,
                install == (match install_cfg { Some(s) => Some(s@), None => None::<Seq<char>> }),
                ud == userdata_cfg@,
                decode_prefix(files@, i as int, ud, install) == Ok::<Seq<DecodedView>, (Seq<char>, bool)>(ds),
                decode_one(files@[i as int], ud, install) == Ok::<DecodedView, (Seq<char>, bool)>(d),
            decreases result.len() - j,
        {
            proof { assert(target_key(ds[j as int], ud, install) == (Some(kbase@[j as int]@), char_lines(kparts@[j as int]@))); }
            if chars_eq(kbase[j].as_slice(), base.as_slice()) && lines_eq(&kparts[j], &parts) {
                proof {
                    assert(target_key(ds[j as int], ud, install) == target_key(d, ud, install));
                    lemma_decode_error_stays(files@, i + 1, files@.len() as int, ud, install);
                    lemma_decode_total(*payload, ud, install);
                }
                return Err(fail("The saved CS2 profile contains duplicate files.", false));
            }
            j = j + 1;
        }
        let ghost prev = decoded_view(result@);
        result.push(DecodedFile {
            scope: f.scope.clone(),
            relative_path: f.relative_path.clone(),
            target: string_of(target.as_slice()),
            content,
        });
        kbase.push(base);
        kparts.push(parts);
        proof {
            assert(decoded_view(result@) =~= prev.push(d));
            assert(decode_prefix(files@, i + 1, ud, install) == Ok::<Seq<DecodedView>, (Seq<char>, bool)>(prev.push(d)));
            assert forall|q: int| 0 <= q < result@.len() implies
                target_key(#[trigger] decoded_view(result@)[q], ud, install) == (Some(kbase@[q]@), char_lines(kparts@[q]@)) by {
                if q < prev.len() {
                    assert(decoded_view(result@)[q] == prev[q]);
                }
            }
            assert(size_sum(files@, i + 1) == size_sum(files@, i as int) + f.size);
        }
        i = i + 1;
    }
    if over || total != payload.total_bytes || total > MAX_TOTAL_BYTES {
        return Err(fail("The saved CS2 profile failed its total-size validation.", false));
    }
    Ok(result)
}

proof fn lemma_decode_error_stays(files: Seq<Cs2ConfigFile>, m: int, n: int, ud: Seq<char>, install: Option<Seq<char>>)
    requires
        0 <= m <= n,
        decode_prefix(files, m, ud, install) is Err,
    ensures
        decode_prefix(files, n, ud, install) == decode_prefix(files, m, ud, install),
    decreases n - m,
{
    if n > m {
        lemma_decode_error_stays(files, m, n - 1, ud, install);
    }
}

proof fn lemma_decode_total(p: Cs2Payload, ud: Seq<char>, install: Option<Seq<char>>)
    ensures
        decode_prefix(p.files@, p.files@.len() as int, ud, install) is Err ==>
            spec_decode(p, ud, install) == decode_prefix(p.files@, p.files@.len() as int, ud, install),
{
}

/// A captured file record holds `bytes` of `relative` in `scope`: its Base64 text (which decodes
/// back to them), lower-case hex SHA-256 and size.
pub open spec fn record_of(f: Cs2ConfigFile, scope: Seq<char>, relative: Seq<char>, bytes: Seq<u8>) -> bool {
    &&& f.scope@ == scope
    &&& f.relative_path@ == relative
    &&& f.content_base64@ == spec_base64_encode(bytes)
    &&& spec_base64_decode(f.content_base64@) == Some(bytes)
    &&& f.sha256@ == hex_lower(spec_sha256(bytes))
    &&& f.size == bytes.len()
}

/// What apply reads back from a captured file is what capture saved: a file recorded from `bytes`
/// under a safe name that its scope allows, within the per-file limit, with no sensitive line,
/// and whose scope has a known folder, decodes to exactly `bytes`, written to that folder.
pub proof fn law_captured_file_decodes(f: Cs2ConfigFile, scope: Seq<char>, relative: Seq<char>, bytes: Seq<u8>, userdata: Seq<char>, install: Option<Seq<char>>)
    requires
        record_of(f, scope, relative, bytes),
        spec_safe_relative_path(relative) is Ok,
        name_allowed(scope, spec_safe_relative_path(relative)->Ok_0),
        bytes.len() <= MAX_FILE_BYTES,
        !spec_contains_sensitive(bytes),
        scope == "userdata"@ || (scope == "install"@ && install is Some),
    ensures
        decode_one(f, userdata, install) == Ok::<DecodedView, (Seq<char>, bool)>(DecodedView {
            scope,
            relative_path: relative,
            target: join_path(base_of(scope, userdata, install)->0, spec_safe_relative_path(relative)->Ok_0),
            content: bytes,
        }),
{
    lemma_hex_lower_is_lower(spec_sha256(bytes));
    reveal_strlit("userdata");
    reveal_strlit("install");
    assert("userdata"@ != "install"@) by {
        assert("userdata"@[0] != "install"@[0]);
    }
    assert(lower(f.sha256@) == hex_lower(spec_sha256(bytes)));
    assert(f.scope@ == "userdata"@ || f.scope@ == "install"@);
}

fn text_then(a: &[char], b: &str) -> (r: String)
    ensures
        r@ == a@ + b@,
{
    let mut v = sub_chars_local(a, 0, a.len());
    crate::text::push_str_chars(&mut v, b);
    proof { assert(v@ =~= a@ + b@); }
    string_of(v.as_slice())
}

/// Records captured bytes, refusing more than 512 KB.
pub fn add_bytes(files: &mut Vec<Cs2ConfigFile>, scope: &str, relative: &str, bytes: Vec<u8>) -> (r: Result<(), Cs2Error>)
    ensures
        r is Err <==> bytes@.len() > MAX_FILE_BYTES,
        r matches Err(e) ==> error_is(e, relative@ + " exceeds the safe 512 KB per-file limit."@, false),
        r is Err ==> final(files)@ == old(files)@,
        r is Ok ==> final(files)@.len() == old(files)@.len() + 1
            && final(files)@.take(old(files)@.len() as int) == old(files)@
            && record_of(final(files)@.last(), scope@, relative@, bytes@),
{
    if bytes.len() as u64 > MAX_FILE_BYTES {
        let rel = chars_of(relative);
        return Err(Cs2Error::new(text_then(rel.as_slice(), " exceeds the safe 512 KB per-file limit."), false));
    }
    let sha256 = sha256_hex(bytes.as_slice());
    let content_base64 = base64_encode(bytes.as_slice());
    let size = bytes.len() as u64;
    files.push(Cs2ConfigFile {
        scope: String::from_str(scope),
        relative_path: String::from_str(relative),
        content_base64,
        sha256,
        size,
    });
    proof { assert(final(files)@.take(old(files)@.len() as int) =~= old(files)@); }
    Ok(())
}

/// A file of `scope` named `relative` is already among the captured files.
pub open spec fn spec_already_captured(files: Seq<Cs2ConfigFile>, scope: Seq<char>, relative: Seq<char>) -> bool {
    exists|i: int| 0 <= i < files.len() && files[i].scope@ == scope && #[trigger] files[i].relative_path@ == relative
}

/// Whether a file was captured already (capture then skips it without reading it).
pub fn already_captured(files: &Vec<Cs2ConfigFile>, scope: &str, relative: &str) -> (r: bool)
    ensures
        r == spec_already_captured(files@, scope@, relative@),
{
    let mut i: usize = 0;
    while i < files.len()
        invariant
            i <= files@.len(),
            forall|q: int| 0 <= q < i ==> !(files@[q].scope@ == scope@ && #[trigger] files@[q].relative_path@ == relative@),
        decreases files.len() - i,
    {
        if str_eq(files[i].scope.as_str(), scope) && str_eq(files[i].relative_path.as_str(), relative) {
            return true;
        }
        i = i + 1;
    }
    false
}

/// The machine and video configuration files, whose hardware-specific values are dropped.
pub open spec fn is_hardware_file(relative: Seq<char>) -> bool {
    relative == "cs2_machine_convars.vcfg"@ || relative == "cs2_video.txt"@
}

/// What capture makes of a file that was read: the detail line it adds (if any) and the bytes it
/// keeps or the error message.
pub ghost struct KeepOutcome {
    pub detail: Option<Seq<char>>,
    pub result: Result<Seq<u8>, Seq<char>>,
}

/// The bytes kept after a sanitizer, refused above 512 KB.
pub open spec fn limited(relative: Seq<char>, out: Seq<u8>) -> Result<Seq<u8>, Seq<char>> {
    if out.len() > MAX_FILE_BYTES { Err(relative + " exceeds the safe 512 KB per-file limit."@) } else { Ok(out) }
}

/// A file read during capture: refused above 512 KB; machine and video configuration lose their
/// hardware-specific lines, custom cfg files (when `sanitize`) their sensitive lines, each with a
/// detail line when some were dropped; any other file with a sensitive line stops the capture.
pub open spec fn keep_outcome(relative: Seq<char>, bytes: Seq<u8>, sanitize: bool) -> KeepOutcome {
    if bytes.len() > MAX_FILE_BYTES {
        KeepOutcome { detail: None, result: Err(relative + " exceeds the safe 512 KB per-file limit."@) }
    } else if is_hardware_file(relative) || sanitize {
        let hw = is_hardware_file(relative);
        if !valid_utf8(bytes) {
            KeepOutcome {
                detail: None,
                result: Err(if hw { "A CS2 machine configuration file is not valid UTF-8."@ } else { "A custom CS2 cfg file is not valid UTF-8 and was not captured."@ }),
            }
        } else {
            let ls = lines(decode_utf8(bytes));
            let n = removed_count(ls, hw);
            KeepOutcome {
                detail: if n > 0 {
                    if hw {
                        Some("Excluded "@ + crate::text::decimal(n) + " hardware-specific value(s) from "@ + relative + "."@)
                    } else {
                        Some("Removed "@ + crate::text::decimal(n) + " potentially sensitive line(s) from "@ + relative + "."@)
                    }
                } else {
                    None
                },
                result: limited(relative, encode_utf8(kept_text(ls, hw))),
            }
        }
    } else if spec_contains_sensitive(bytes) {
        KeepOutcome { detail: None, result: Err(relative + " contains data that may be sensitive, so capture was stopped."@) }
    } else {
        KeepOutcome { detail: None, result: Ok(bytes) }
    }
}

fn removed_detail(prefix: &str, n: usize, middle: &str, relative: &str) -> (r: String)
    ensures
        r@ == prefix@ + crate::text::decimal(n as nat) + middle@ + relative@ + "."@,
{
    let mut v = chars_of(prefix);
    let d = crate::text::decimal_chars(n as u64);
    extend_chars(&mut v, d.as_slice());
    crate::text::push_str_chars(&mut v, middle);
    crate::text::push_str_chars(&mut v, relative);
    crate::text::push_str_chars(&mut v, ".");
    proof { assert(v@ =~= prefix@ + crate::text::decimal(n as nat) + middle@ + relative@ + "."@); }
    string_of(v.as_slice())
}

/// Records a file that capture has read; see `keep_outcome`.
pub fn add_file_bytes(files: &mut Vec<Cs2ConfigFile>, scope: &str, relative: &str, bytes: Vec<u8>, sanitize: bool, details: &mut Vec<String>) -> (r: Result<(), Cs2Error>)
    ensures
        strings_view(final(details)@) == strings_view(old(details)@) + match keep_outcome(relative@, bytes@, sanitize).detail {
            Some(d) => seq![d],
            None => Seq::empty(),
        },
        r is Ok <==> keep_outcome(relative@, bytes@, sanitize).result is Ok,
        r matches Err(e) ==> error_is(e, keep_outcome(relative@, bytes@, sanitize).result->Err_0, false) && final(files)@ == old(files)@,
        r is Ok ==> final(files)@.len() == old(files)@.len() + 1
            && final(files)@.take(old(files)@.len() as int) == old(files)@
            && record_of(final(files)@.last(), scope@, relative@, keep_outcome(relative@, bytes@, sanitize).result->Ok_0),
{
    proof {
        reveal_strlit("cs2_machine_convars.vcfg");
        reveal_strlit("cs2_video.txt");
    }
    if bytes.len() as u64 > MAX_FILE_BYTES {
        let rel = chars_of(relative);
        proof { assert(strings_view(details@) =~= strings_view(details@) + Seq::<Seq<char>>::empty()); }
        return Err(Cs2Error::new(text_then(rel.as_slice(), " exceeds the safe 512 KB per-file limit."), false));
    }
    let hw = str_eq(relative, "cs2_machine_convars.vcfg") || str_eq(relative, "cs2_video.txt");
    if hw || sanitize {
        let res = if hw { sanitize_hardware_config(bytes.as_slice()) } else { sanitize_custom_cfg(bytes.as_slice()) };
        match res {
            Err(e) => {
                proof { assert(strings_view(details@) =~= strings_view(details@) + Seq::<Seq<char>>::empty()); }
                Err(e)
            },
            Ok((out, removed)) => {
                let ghost before = strings_view(details@);
                if removed > 0 {
                    let d = if hw {
                        removed_detail("Excluded ", removed, " hardware-specific value(s) from ", relative)
                    } else {
                        removed_detail("Removed ", removed, " potentially sensitive line(s) from ", relative)
                    };
                    details.push(d);
                    proof { assert(strings_view(details@) =~= before.push(d@)); }
                } else {
                    proof { assert(strings_view(details@) =~= before + Seq::<Seq<char>>::empty()); }
                }
                add_bytes(files, scope, relative, out)
            },
        }
    } else {
        proof { assert(strings_view(details@) =~= strings_view(details@) + Seq::<Seq<char>>::empty()); }
        if contains_sensitive_data(bytes.as_slice()) {
            let rel = chars_of(relative);
            return Err(Cs2Error::new(text_then(rel.as_slice(), " contains data that may be sensitive, so capture was stopped."), false));
        }
        add_bytes(files, scope, relative, bytes)
    }
}

/// The state of a capture: "success" with nothing missing and nothing to explain, else "warning".
pub open spec fn capture_state(details: Seq<String>, missing: Seq<String>) -> Seq<char> {
    if missing.len() == 0 && details.len() == 0 { "success"@ } else { "warning"@ }
}

/// The lines that open the details of a capture.
pub open spec fn capture_summary(video: bool, custom: nat) -> Seq<Seq<char>> {
    seq!["Сохранены чувствительность, игровые параметры и звук из cs2_user_convars_0_slot0.vcfg."@,
        "Сохранены привязки клавиш из cs2_user_keys_0_slot0.vcfg."@]
    + (if video { seq!["Сохранены переносимые параметры видео и разрешения из cs2_video.txt."@] } else { Seq::empty() })
    + (if custom > 0 { seq!["Сохранено дополнительных CFG-файлов: "@ + crate::text::decimal(custom) + "."@] } else { Seq::empty() })
    + seq!["Не сохраняются идентификаторы монитора, видеокарты и аудиоустройства; точная герцовка выбирается заново на целевом ПК."@]
}

/// One line per optional file that was not found.
pub open spec fn missing_lines(missing: Seq<Seq<char>>) -> Seq<Seq<char>> {
    missing.map_values(|name: Seq<char>| "Необязательный файл не найден: "@ + name)
}

fn count_message(prefix: &str, n: usize, suffix: &str) -> (r: String)
    ensures
        r@ == prefix@ + crate::text::decimal(n as nat) + suffix@,
{
    let mut v = chars_of(prefix);
    let d = crate::text::decimal_chars(n as u64);
    extend_chars(&mut v, d.as_slice());
    crate::text::push_str_chars(&mut v, suffix);
    proof { assert(v@ =~= prefix@ + crate::text::decimal(n as nat) + suffix@); }
    string_of(v.as_slice())
}

fn has_name(names: &Vec<String>, name: &str) -> (r: bool)
    ensures
        r == strings_view(names@).contains(name@),
{
    let mut i: usize = 0;
    while i < names.len()
        invariant
            i <= names@.len(),
            forall|q: int| 0 <= q < i ==> names@[q]@ != name@,
        decreases names.len() - i,
    {
        if str_eq(names[i].as_str(), name) {
            proof { assert(strings_view(names@)[i as int] == name@); }
            return true;
        }
        i = i + 1;
    }
    proof {
        if strings_view(names@).contains(name@) {
            let q = choose|q: int| 0 <= q < strings_view(names@).len() && strings_view(names@)[q] == name@;
            assert(names@[q]@ == name@);
        }
    }
    false
}

fn push_all(out: &mut Vec<String>, more: Vec<String>)
    ensures
        strings_view(final(out)@) == strings_view(old(out)@) + strings_view(more@),
{
    let mut i: usize = 0;
    let ghost start = strings_view(out@);
    while i < more.len()
        invariant
            i <= more@.len(),
            strings_view(out@) == start + strings_view(more@).take(i as int),
        decreases more.len() - i,
    {
        let ghost prev = strings_view(out@);
        out.push(more[i].clone());
        proof {
            assert(strings_view(out@) =~= prev.push(more@[i as int]@));
            assert(strings_view(more@).take(i + 1) =~= strings_view(more@).take(i as int).push(more@[i as int]@));
        }
        i = i + 1;
    }
    proof { assert(strings_view(more@).take(more@.len() as int) =~= strings_view(more@)); }
}

/// The answer of a capture once every file was read: at most 32 files and 2 MB in all; the
/// details start with what was saved, then the notes of capture, then the optional files that
/// were missing. `captured_at` stamps the profile.
pub fn capture_report(files: Vec<Cs2ConfigFile>, details: Vec<String>, core_files_found: Vec<String>, optional_files_missing: Vec<String>, captured_at: String) -> (r: Result<Cs2CommandResponse, Cs2Error>)
    requires
        size_sum(files@, files@.len() as int) <= u64::MAX,
    ensures
        files@.len() > MAX_FILES ==> (r matches Err(e) && error_is(e, "Too many CS2 configuration files were found. Nothing was saved."@, false)),
        files@.len() <= MAX_FILES && size_sum(files@, files@.len() as int) > MAX_TOTAL_BYTES ==>
            (r matches Err(e) && error_is(e, "CS2 configuration is larger than the safe 2 MB limit. Nothing was saved."@, false)),
        files@.len() <= MAX_FILES && size_sum(files@, files@.len() as int) <= MAX_TOTAL_BYTES ==> (r matches Ok(resp) && {
            let success = capture_state(details@, optional_files_missing@) == "success"@;
            let custom: nat = if files@.len() >= core_files_found@.len() { (files@.len() - core_files_found@.len()) as nat } else { 0 };
            &&& resp.state@ == capture_state(details@, optional_files_missing@)
            &&& resp.message@ == (if success {
                    "Сохранено файлов настроек CS2: "@ + crate::text::decimal(files@.len()) + "."@
                } else {
                    "Сохранено файлов настроек CS2: "@ + crate::text::decimal(files@.len()) + " (есть пояснения)."@
                })
            &&& strings_view(resp.details@) == capture_summary(strings_view(core_files_found@).contains("cs2_video.txt"@), custom)
                + strings_view(details@) + missing_lines(strings_view(optional_files_missing@))
            &&& resp.retryable == (optional_files_missing@.len() > 0)
            &&& resp.payload matches Some(p) && p.schema_version == SCHEMA_VERSION && p.captured_at == captured_at
                && p.files@ == files@ && p.total_bytes == size_sum(files@, files@.len() as int)
                && p.core_files_found@ == core_files_found@ && p.optional_files_missing@ == optional_files_missing@
        }),
{
    if files.len() > MAX_FILES {
        return Err(fail("Too many CS2 configuration files were found. Nothing was saved.", false));
    }
    let mut total: u64 = 0;
    let mut i: usize = 0;
    while i < files.len()
        invariant
            i <= files@.len(),
            size_sum(files@, files@.len() as int) <= u64::MAX,
            total == size_sum(files@, i as int),
        decreases files.len() - i,
    {
        proof { lemma_size_sum_monotone(files@, i + 1, files@.len() as int); }
        total = total + files[i].size;
        i = i + 1;
    }
    if total > MAX_TOTAL_BYTES {
        return Err(fail("CS2 configuration is larger than the safe 2 MB limit. Nothing was saved.", false));
    }
    let success = optional_files_missing.len() == 0 && details.len() == 0;
    proof {
        reveal_strlit("success");
        reveal_strlit("warning");
        assert("success"@[0] != "warning"@[0]);
    }
    let state = if success { String::from_str("success") } else { String::from_str("warning") };
    let message = if success {
        count_message("Сохранено файлов настроек CS2: ", files.len(), ".")
    } else {
        count_message("Сохранено файлов настроек CS2: ", files.len(), " (есть пояснения).")
    };
    let custom_count: usize = if files.len() >= core_files_found.len() { files.len() - core_files_found.len() } else { 0 };
    let video_captured = has_name(&core_files_found, "cs2_video.txt");
    let retryable = optional_files_missing.len() > 0;
    let mut summary: Vec<String> = Vec::new();
    summary.push(String::from_str("Сохранены чувствительность, игровые параметры и звук из cs2_user_convars_0_slot0.vcfg."));
    summary.push(String::from_str("Сохранены привязки клавиш из cs2_user_keys_0_slot0.vcfg."));
    if video_captured {
        summary.push(String::from_str("Сохранены переносимые параметры видео и разрешения из cs2_video.txt."));
    }
    if custom_count > 0 {
        summary.push(count_message("Сохранено дополнительных CFG-файлов: ", custom_count, "."));
    }
    summary.push(String::from_str("Не сохраняются идентификаторы монитора, видеокарты и аудиоустройства; точная герцовка выбирается заново на целевом ПК."));
    proof {
        assert(strings_view(summary@) =~= capture_summary(video_captured, custom_count as nat));
    }
    let ghost head = strings_view(summary@);
    push_all(&mut summary, details);
    let ghost mid = strings_view(summary@);
    let mut k: usize = 0;
    while k < optional_files_missing.len()
        invariant
            k <= optional_files_missing@.len(),
            strings_view(summary@) == mid + missing_lines(strings_view(optional_files_missing@)).take(k as int),
        decreases optional_files_missing.len() - k,
    {
        let ghost prev = strings_view(summary@);
        let name = chars_of(optional_files_missing[k].as_str());
        let mut v = chars_of("Необязательный файл не найден: ");
        extend_chars(&mut v, name.as_slice());
        summary.push(string_of(v.as_slice()));
        proof {
            assert(strings_view(summary@) =~= prev.push(v@));
            assert(missing_lines(strings_view(optional_files_missing@)).take(k + 1)
                =~= missing_lines(strings_view(optional_files_missing@)).take(k as int).push(v@));
        }
        k = k + 1;
    }
    proof {
        assert(missing_lines(strings_view(optional_files_missing@)).take(optional_files_missing@.len() as int)
            =~= missing_lines(strings_view(optional_files_missing@)));
    }
    let payload = Cs2Payload {
        schema_version: SCHEMA_VERSION,
        captured_at,
        files,
        total_bytes: total,
        core_files_found,
        optional_files_missing,
    };
    proof {
        assert(strings_view(summary@) == capture_summary(video_captured, custom_count as nat) + strings_view(details@) + missing_lines(strings_view(payload.optional_files_missing@)));
        assert(video_captured == strings_view(payload.core_files_found@).contains("cs2_video.txt"@));
        assert(state@ == capture_state(details@, payload.optional_files_missing@));
    }
    Ok(Cs2CommandResponse { state, message, details: summary, retryable, payload: Some(payload) })
}

proof fn lemma_size_sum_monotone(files: Seq<Cs2ConfigFile>, m: int, n: int)
    requires
        0 <= m <= n,
    ensures
        size_sum(files, m) <= size_sum(files, n),
    decreases n - m,
{
    if n > m {
        lemma_size_sum_monotone(files, m, n - 1);
    }
}

/// Some file of the profile is machine or video configuration.
pub open spec fn has_hardware_file(files: Seq<Cs2ConfigFile>) -> bool {
    exists|i: int| 0 <= i < files.len() && is_hardware_file(#[trigger] files[i].relative_path@)
}

/// The answer after every file was written and read back: "warning" when machine or video
/// configuration was written (the game may still replace unsupported values), else "success".
pub fn apply_report(files: &[Cs2ConfigFile], written: usize, backup_root: &str) -> (r: Cs2CommandResponse)
    ensures
        r.state@ == (if has_hardware_file(files@) { "warning"@ } else { "success"@ }),
        r.message@ == "Настройки CS2 применены и проверены: "@ + crate::text::decimal(written as nat)
            + " файлов. Запустите CS2 и проверьте итоговые значения в игре."@,
        strings_view(r.details@) == seq![
            "Локальная резервная копия: "@ + backup_root@,
            "Записано и проверено файлов: "@ + crate::text::decimal(written as nat) + "."@,
        ] + (if has_hardware_file(files@) {
            seq!["Разрешение и переносимые параметры видео записаны. После запуска CS2 может заменить значения, которые не поддерживаются этим компьютером."@]
        } else {
            Seq::empty()
        }),
        !r.retryable,
        r.payload is None,
{
    proof {
        reveal_strlit("cs2_machine_convars.vcfg");
        reveal_strlit("cs2_video.txt");
    }
    let mut hardware = false;
    let mut i: usize = 0;
    while i < files.len()
        invariant
            i <= files@.len(),
            hardware == exists|q: int| 0 <= q < i && is_hardware_file(#[trigger] files@[q].relative_path@),
        decreases files.len() - i,
    {
        if str_eq(files[i].relative_path.as_str(), "cs2_machine_convars.vcfg") || str_eq(files[i].relative_path.as_str(), "cs2_video.txt") {
            hardware = true;
        }
        i = i + 1;
    }
    let mut details: Vec<String> = Vec::new();
    let root = chars_of(backup_root);
    let mut first = chars_of("Локальная резервная копия: ");
    extend_chars(&mut first, root.as_slice());
    details.push(string_of(first.as_slice()));
    details.push(count_message("Записано и проверено файлов: ", written, "."));
    if hardware {
        details.push(String::from_str("Разрешение и переносимые параметры видео записаны. После запуска CS2 может заменить значения, которые не поддерживаются этим компьютером."));
    }
    proof {
        assert(strings_view(details@) =~= seq![
            "Локальная резервная копия: "@ + backup_root@,
            "Записано и проверено файлов: "@ + crate::text::decimal(written as nat) + "."@,
        ] + (if hardware {
            seq!["Разрешение и переносимые параметры видео записаны. После запуска CS2 может заменить значения, которые не поддерживаются этим компьютером."@]
        } else {
            Seq::<Seq<char>>::empty()
        }));
    }
    Cs2CommandResponse {
        state: if hardware { String::from_str("warning") } else { String::from_str("success") },
        message: count_message("Настройки CS2 применены и проверены: ", written, " файлов. Запустите CS2 и проверьте итоговые значения в игре."),
        details,
        retryable: false,
        payload: None,
    }
}

/// The answer after a restore: an error when nothing was restored, else a warning that files
/// created by a later apply are kept.
pub fn restore_report(restored: usize, details: Vec<String>) -> (r: Result<Cs2CommandResponse, Cs2Error>)
    ensures
        restored == 0 ==> (r matches Err(e) && error_is(e, "The latest CS2 backup did not contain restorable files."@, false)),
        restored > 0 ==> (r matches Ok(resp)
            && resp.state@ == "warning"@
            && resp.message@ == "Restored "@ + crate::text::decimal(restored as nat) + " CS2 configuration files."@
            && strings_view(resp.details@) == strings_view(details@).push("Files created by a previous apply but absent from the backup are not deleted automatically."@)
            && !resp.retryable
            && resp.payload is None),
{
    if restored == 0 {
        return Err(fail("The latest CS2 backup did not contain restorable files.", false));
    }
    let mut details = details;
    let ghost before = strings_view(details@);
    details.push(String::from_str("Files created by a previous apply but absent from the backup are not deleted automatically."));
    proof { assert(strings_view(details@) =~= before.push("Files created by a previous apply but absent from the backup are not deleted automatically."@)); }
    Ok(Cs2CommandResponse {
        state: String::from_str("warning"),
        message: count_message("Restored ", restored, " CS2 configuration files."),
        details,
        retryable: false,
        payload: None,
    })
}

/// Refuses to go on while the game runs.
pub fn ensure_game_closed(running: bool) -> (r: Result<(), Cs2Error>)
    ensures
        r is Ok <==> !running,
        r matches Err(e) ==> error_is(e, "Закройте Counter-Strike 2 перед сохранением или применением настроек, затем нажмите «Повторить проверку»."@, true),
{
    if running {
        Err(fail("Закройте Counter-Strike 2 перед сохранением или применением настроек, затем нажмите «Повторить проверку».", true))
    } else {
        Ok(())
    }
}

/// The preflight answer: an error asking to close the game while it runs, else success.
pub fn preflight_response(running: bool) -> (r: Cs2CommandResponse)
    ensures
        running ==> r.state@ == "error"@
            && r.message@ == "Закройте Counter-Strike 2 перед настройкой компьютера."@
            && strings_view(r.details@) == seq!["После закрытия нажмите «Повторить проверку»."@]
            && r.retryable,
        !running ==> r.state@ == "success"@
            && r.message@ == "Counter-Strike 2 is closed. System settings can be changed safely."@
            && r.details@.len() == 0
            && !r.retryable,
        r.payload is None,
{
    if running {
        let mut details: Vec<String> = Vec::new();
        details.push(String::from_str("После закрытия нажмите «Повторить проверку»."));
        proof { assert(strings_view(details@) =~= seq!["После закрытия нажмите «Повторить проверку»."@]); }
        Cs2CommandResponse {
            state: String::from_str("error"),
            message: String::from_str("Закройте Counter-Strike 2 перед настройкой компьютера."),
            details,
            retryable: true,
            payload: None,
        }
    } else {
        Cs2CommandResponse {
            state: String::from_str("success"),
            message: String::from_str("Counter-Strike 2 is closed. System settings can be changed safely."),
            details: Vec::new(),
            retryable: false,
            payload: None,
        }
    }
}

/// Some file of the profile belongs in the installation folder.
pub open spec fn needs_install(files: Seq<Cs2ConfigFile>) -> bool {
    exists|i: int| 0 <= i < files.len() && #[trigger] files[i].scope@ == "install"@
}

/// Refuses a profile with installation files when the installation was not found.
pub fn check_install(payload: &Cs2Payload, install_found: bool) -> (r: Result<(), Cs2Error>)
    ensures
        r is Err <==> needs_install(payload.files@) && !install_found,
        r matches Err(e) ==> error_is(e, "CS2 is not installed in a Steam Library on this computer."@, true),
{
    let mut needs = false;
    let mut i: usize = 0;
    while i < payload.files.len()
        invariant
            i <= payload.files@.len(),
            needs == exists|q: int| 0 <= q < i && #[trigger] payload.files@[q].scope@ == "install"@,
        decreases payload.files.len() - i,
    {
        if str_eq(payload.files[i].scope.as_str(), "install") {
            needs = true;
        }
        i = i + 1;
    }
    if needs && !install_found {
        return Err(fail("CS2 is not installed in a Steam Library on this computer.", true));
    }
    Ok(())
}

/// A core file that was not found: the required ones stop the capture with the file named in a
/// detail; an optional one is reported as missing.
pub fn core_file_missing(name: &str) -> (r: Result<String, Cs2Error>)
    ensures
        (name@ == core_names()[0] || name@ == core_names()[1]) ==> (r matches Err(e)
            && e.message@ == "CS2 configuration is incomplete. Launch CS2 once, save your settings, close the game, and retry."@
            && strings_view(e.details@) == seq!["Required file was not found: "@ + name@]
            && e.retryable),
        !(name@ == core_names()[0] || name@ == core_names()[1]) ==> (r matches Ok(s) && s@ == name@),
{
    let names = core_list();
    proof { assert(views(names@)[0] == names@[0]@ && views(names@)[1] == names@[1]@); }
    if str_eq(name, names[0]) || str_eq(name, names[1]) {
        let n = chars_of(name);
        let mut v = chars_of("Required file was not found: ");
        extend_chars(&mut v, n.as_slice());
        let e = fail("CS2 configuration is incomplete. Launch CS2 once, save your settings, close the game, and retry.", true);
        let e = e.detail(string_of(v.as_slice()));
        proof { assert(strings_view(e.details@) =~= seq!["Required file was not found: "@ + name@]); }
        return Err(e);
    }
    Ok(String::from_str(name))
}

/// CS2 capture on a platform without CS2 support.
pub fn capture() -> (r: Cs2CommandResponse)
    ensures
        r.state@ == "unsupported"@,
        r.message@ == "CS2 settings are supported only in the Windows desktop application."@,
        r.details@.len() == 0 && !r.retryable && r.payload is None,
{
    Cs2CommandResponse::unsupported("CS2 settings are supported only in the Windows desktop application.")
}

/// CS2 apply on a platform without CS2 support.
pub fn apply(_payload: Cs2Payload) -> (r: Cs2CommandResponse)
    ensures
        r.state@ == "unsupported"@,
        r.message@ == "CS2 settings are supported only in the Windows desktop application."@,
        r.details@.len() == 0 && !r.retryable && r.payload is None,
{
    Cs2CommandResponse::unsupported("CS2 settings are supported only in the Windows desktop application.")
}

/// CS2 preflight on a platform without CS2 support.
pub fn preflight() -> (r: Cs2CommandResponse)
    ensures
        r.state@ == "unsupported"@,
        r.message@ == "CS2 preflight is supported only in the Windows desktop application."@,
        r.details@.len() == 0 && !r.retryable && r.payload is None,
{
    Cs2CommandResponse::unsupported("CS2 preflight is supported only in the Windows desktop application.")
}

/// CS2 restore on a platform without CS2 support.
pub fn restore() -> (r: Cs2CommandResponse)
    ensures
        r.state@ == "unsupported"@,
        r.message@ == "CS2 restore is supported only in the Windows desktop application."@,
        r.details@.len() == 0 && !r.retryable && r.payload is None,
{
    Cs2CommandResponse::unsupported("CS2 restore is supported only in the Windows desktop application.")
}

/// The components of a relative path text, either separator accepted.
pub open spec fn path_key(x: Seq<char>) -> Seq<Seq<char>> {
    normal_parts(split_at_char(back_slashes(x), '\\'))
}

/// The references that are safe relative paths, in order.
pub open spec fn safe_refs(refs: Seq<Seq<char>>) -> Seq<Seq<char>>
    decreases refs.len(),
{
    if refs.len() == 0 {
        Seq::empty()
    } else if spec_safe_relative_path(refs.last()) is Ok {
        safe_refs(refs.drop_last()).push(refs.last())
    } else {
        safe_refs(refs.drop_last())
    }
}

/// One step of the walk over the files that autoexec.cfg executes.
pub enum WalkStep {
    /// Nothing is left to read.
    Done,
    /// Sixteen files were visited: the walk stops here.
    Limit,
    /// The next file was visited already.
    Skip,
    /// The next file to read, relative to the cfg folder.
    Visit(String),
}

/// The walk over the cfg files that autoexec.cfg executes, breadth first: the files still to
/// read and those visited.
pub struct AutoexecWalk {
    pub queue: Vec<String>,
    pub visited: Vec<String>,
}

impl AutoexecWalk {
    /// A walk that starts at autoexec.cfg.
    pub fn new() -> (r: Self)
        ensures
            strings_view(r.queue@) == seq!["autoexec.cfg"@],
            r.visited@.len() == 0,
    {
        let mut queue: Vec<String> = Vec::new();
        queue.push(String::from_str("autoexec.cfg"));
        proof { assert(strings_view(queue@) =~= seq!["autoexec.cfg"@]); }
        AutoexecWalk { queue, visited: Vec::new() }
    }

    /// Takes the next file of the queue: `Done` when it is empty, `Limit` once sixteen files were
    /// visited, `Skip` for a file visited already (paths compared by components), else marks it
    /// visited and gives it.
    pub fn next(&mut self) -> (r: WalkStep)
        ensures
            old(self).queue@.len() == 0 ==> r is Done && final(self).queue@ == old(self).queue@ && final(self).visited@ == old(self).visited@,
            old(self).queue@.len() > 0 ==> {
                let x = old(self).queue@[0]@;
                &&& strings_view(final(self).queue@) == strings_view(old(self).queue@).drop_first()
                &&& old(self).visited@.len() >= 16 ==> r is Limit && final(self).visited@ == old(self).visited@
                &&& old(self).visited@.len() < 16 && (exists|j: int| 0 <= j < old(self).visited@.len() && path_key(#[trigger] old(self).visited@[j]@) == path_key(x))
                    ==> r is Skip && final(self).visited@ == old(self).visited@
                &&& old(self).visited@.len() < 16 && !(exists|j: int| 0 <= j < old(self).visited@.len() && path_key(#[trigger] old(self).visited@[j]@) == path_key(x))
                    ==> (r matches WalkStep::Visit(v) && v@ == x) && strings_view(final(self).visited@) == strings_view(old(self).visited@).push(x)
            },
    {
        if self.queue.len() == 0 {
            return WalkStep::Done;
        }
        let ghost q0 = strings_view(self.queue@);
        proof { assert(q0[0] == self.queue@[0]@); }
        let x = self.queue.remove(0);
        proof { assert(strings_view(self.queue@) =~= q0.drop_first()); }
        if self.visited.len() >= 16 {
            return WalkStep::Limit;
        }
        let xc = chars_of(x.as_str());
        let xb = back_slashes_chars(xc.as_slice());
        let xk = normal_part_list(&split_char(xb.as_slice(), '\\'));
        let mut j: usize = 0;
        while j < self.visited.len()
            invariant
                j <= self.visited@.len(),
                old(self).queue@.len() > 0,
                x@ == old(self).queue@[0]@,
                self.visited@ == old(self).visited@,
                self.visited@.len() < 16,
                strings_view(self.queue@) == strings_view(old(self).queue@).drop_first(),
                char_lines(xk@) == path_key(x@),
                forall|q: int| 0 <= q < j ==> path_key(#[trigger] self.visited@[q]@) != path_key(x@),
            decreases self.visited.len() - j,
        {
            let vc = chars_of(self.visited[j].as_str());
            let vb = back_slashes_chars(vc.as_slice());
            let vk = normal_part_list(&split_char(vb.as_slice(), '\\'));
            if lines_eq(&vk, &xk) {
                proof { assert(path_key(self.visited@[j as int]@) == path_key(x@)); }
                return WalkStep::Skip;
            }
            j = j + 1;
        }
        let ghost v0 = strings_view(self.visited@);
        self.visited.push(x.clone());
        proof { assert(strings_view(self.visited@) =~= v0.push(x@)); }
        WalkStep::Visit(x)
    }

    /// Queues the safe relative paths that a file read during the walk executes.
    pub fn follow(&mut self, sanitized: &[u8])
        ensures
            strings_view(final(self).queue@) == strings_view(old(self).queue@) + safe_refs(spec_referenced(sanitized@)),
            final(self).visited@ == old(self).visited@,
    {
        let refs = referenced_cfgs(sanitized);
        let ghost rv = strings_view(refs@);
        let ghost start = strings_view(self.queue@);
        let mut i: usize = 0;
        while i < refs.len()
            invariant
                i <= refs@.len(),
                rv == strings_view(refs@),
                self.visited@ == old(self).visited@,
                strings_view(self.queue@) == start + safe_refs(rv.take(i as int)),
            decreases refs.len() - i,
        {
            proof {
                assert(rv.take(i + 1).drop_last() =~= rv.take(i as int));
                assert(rv.take(i + 1).last() == refs@[i as int]@);
            }
            if safe_relative_path(refs[i].as_str()).is_ok() {
                let ghost prev = strings_view(self.queue@);
                self.queue.push(refs[i].clone());
                proof { assert(strings_view(self.queue@) =~= prev.push(refs@[i as int]@)); }
            }
            i = i + 1;
        }
        proof { assert(rv.take(refs@.len() as int) =~= rv); }
    }
}

/// The pieces of `s` between occurrences of `c`.
pub fn split_char_pub(s: &[char], c: char) -> (r: Vec<Vec<char>>)
    ensures
        char_lines(r@) == split_at_char(s@, c),
{
    split_char(s, c)
}

} // verus!
