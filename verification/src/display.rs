use vstd::prelude::*;

use crate::text::{chars_of, decimal, decimal_chars, extend_chars, push_str_chars, signed_decimal, signed_decimal_chars, str_eq, string_of};
use crate::pubg::strings_view;
use crate::codec::{utf16_decode_lossy, utf16_lossy};

verus! {

/// One display mode as Windows reports it.
#[derive(Debug, Clone, Copy, PartialEq, Eq, Structural)]
pub struct DisplayMode {
    pub width: u32,
    pub height: u32,
    pub refresh_hz: u32,
    pub bits_per_pixel: u32,
    pub interlaced: bool,
}

/// The portable display policy stored in a profile.
#[derive(Debug, Clone)]
pub struct DisplayPayload {
    pub schema_version: u32,
    pub captured_at: String,
    pub width: u32,
    pub height: u32,
    pub aspect_ratio: String,
    pub display_mode: String,
    pub scaling_preference: String,
    pub refresh_rate_policy: String,
}

/// What the user asks to capture.
#[derive(Debug, Clone)]
pub struct DisplayCaptureRequest {
    pub width: u32,
    pub height: u32,
    pub display_mode: String,
}

/// What was learnt about the displays of this computer.
#[derive(Debug, Clone)]
pub struct DisplayDiagnostics {
    pub monitor_detected: bool,
    pub primary_monitor: Option<String>,
    pub primary_device: Option<String>,
    pub monitor_count: usize,
    pub current_mode: Option<DisplayMode>,
    pub supported_modes: Vec<DisplayMode>,
    pub selected_mode: Option<DisplayMode>,
    pub last_change_result: Option<String>,
}

/// The answer of a display command.
#[derive(Debug)]
pub struct DisplayCommandResponse {
    pub state: String,
    pub message: String,
    pub details: Vec<String>,
    pub retryable: bool,
    pub payload: Option<DisplayPayload>,
    pub diagnostics: Option<DisplayDiagnostics>,
    pub backup_token: Option<String>,
}

/// A display attached to the desktop.
#[derive(Debug, Clone)]
pub struct Monitor {
    pub device_name: String,
    pub friendly_name: String,
    pub primary: bool,
}

impl DisplayCommandResponse {
    /// The answer on a platform without display support.
    pub fn unsupported() -> (r: Self)
        ensures
            r.state@ == "unsupported"@,
            r.message@ == "Display settings are unsupported on this platform."@,
            r.details@.len() == 0,
            !r.retryable,
            r.payload is None,
            r.diagnostics is None,
            r.backup_token is None,
    {
        DisplayCommandResponse {
            state: String::from_str("unsupported"),
            message: String::from_str("Display settings are unsupported on this platform."),
            details: Vec::new(),
            retryable: false,
            payload: None,
            diagnostics: None,
            backup_token: None,
        }
    }
}

/// An error answer carrying `message`.
pub fn error_response(message: String, retryable: bool) -> (r: DisplayCommandResponse)
    ensures
        r.state@ == "error"@,
        r.message == message,
        r.details@.len() == 0,
        r.retryable == retryable,
        r.payload is None,
        r.diagnostics is None,
        r.backup_token is None,
{
    DisplayCommandResponse {
        state: String::from_str("error"),
        message,
        details: Vec::new(),
        retryable,
        payload: None,
        diagnostics: None,
        backup_token: None,
    }
}

/// Greatest common divisor, by Euclid's algorithm.
pub open spec fn gcd(a: nat, b: nat) -> nat
    decreases b,
{
    if b == 0 {
        a
    } else {
        gcd(b, a % b)
    }
}

/// The text of a width:height ratio in lowest terms, or "unknown" for a zero side.
pub open spec fn spec_aspect_ratio(width: nat, height: nat) -> Seq<char> {
    if width == 0 || height == 0 {
        "unknown"@
    } else {
        let g = gcd(width, height);
        decimal(width / g) + seq![':'] + decimal(height / g)
    }
}

/// The greatest common divisor of two positive numbers is positive and divides both.
pub proof fn lemma_gcd_divides(a: nat, b: nat)
    requires
        a > 0 || b > 0,
    ensures
        gcd(a, b) > 0,
        a % gcd(a, b) == 0,
        b % gcd(a, b) == 0,
    decreases b,
{
    if b > 0 {
        lemma_gcd_divides(b, a % b);
        let g = gcd(b, a % b);
        assert(a % g == 0) by {
            vstd::arithmetic::div_mod::lemma_fundamental_div_mod(a as int, b as int);
            let q = a / b;
            let r = a % b;
            assert(a == b * q + r);
            vstd::arithmetic::div_mod::lemma_fundamental_div_mod(b as int, g as int);
            vstd::arithmetic::div_mod::lemma_fundamental_div_mod(r as int, g as int);
            let qb = b / g;
            let qr = r / g;
            assert(b == g * qb);
            assert(r == g * qr);
            assert(a == g * (qb * q + qr)) by (nonlinear_arith)
                requires
                    a == b * q + r,
                    b == g * qb,
                    r == g * qr,
            ;
            vstd::arithmetic::div_mod::lemma_mod_multiples_basic((qb * q + qr) as int, g as int);
            assert((qb * q + qr) * g == g * (qb * q + qr)) by (nonlinear_arith);
        }
        assert(gcd(a, b) == g);
    } else {
        assert(gcd(a, b) == a);
        vstd::arithmetic::div_mod::lemma_mod_self_0(a as int);
        vstd::arithmetic::div_mod::lemma_small_mod(0, a);
    }
}

/// A common divisor of `a` and `b` divides `a % b`.
proof fn lemma_common_divisor_mod(a: nat, b: nat, d: nat)
    requires
        b > 0,
        d > 0,
        a % d == 0,
        b % d == 0,
    ensures
        (a % b) % d == 0,
{
    vstd::arithmetic::div_mod::lemma_fundamental_div_mod(a as int, b as int);
    vstd::arithmetic::div_mod::lemma_fundamental_div_mod(a as int, d as int);
    vstd::arithmetic::div_mod::lemma_fundamental_div_mod(b as int, d as int);
    let q = a / b;
    let r = a % b;
    let x = a / d;
    let y = b / d;
    assert(r == d * (x - y * q)) by (nonlinear_arith)
        requires
            a == b * q + r,
            a == d * x,
            b == d * y,
    ;
    vstd::arithmetic::div_mod::lemma_mod_multiples_basic(x - y * q, d as int);
    assert((x - y * q) * d == d * (x - y * q)) by (nonlinear_arith);
}

/// Law: `gcd` is the greatest common divisor. It divides both numbers, and every common divisor
/// of the two divides it.
pub proof fn law_gcd_is_greatest(a: nat, b: nat, d: nat)
    requires
        a > 0 || b > 0,
    ensures
        gcd(a, b) > 0,
        a % gcd(a, b) == 0,
        b % gcd(a, b) == 0,
        d > 0 && a % d == 0 && b % d == 0 ==> gcd(a, b) % d == 0,
    decreases b,
{
    lemma_gcd_divides(a, b);
    if b > 0 {
        if d > 0 && a % d == 0 && b % d == 0 {
            lemma_common_divisor_mod(a, b, d);
            law_gcd_is_greatest(b, a % b, d);
        }
    }
}

/// Law: an aspect ratio is printed in lowest terms. For positive sides it is `w:h` where `w` and
/// `h` are the sides divided by their greatest common divisor (a common divisor that every common
/// divisor divides), so no number greater than 1 divides both `w` and `h`.
pub proof fn law_aspect_ratio_lowest_terms(width: nat, height: nat, d: nat)
    requires
        width > 0,
        height > 0,
    ensures
        gcd(width, height) > 0 && width % gcd(width, height) == 0 && height % gcd(width, height) == 0,
        spec_aspect_ratio(width, height) == decimal(width / gcd(width, height)) + seq![':'] + decimal(height / gcd(width, height)),
        d > 0 && width % d == 0 && height % d == 0 ==> gcd(width, height) % d == 0,
        d > 1 ==> !((width / gcd(width, height)) % d == 0 && (height / gcd(width, height)) % d == 0),
{
    law_gcd_is_greatest(width, height, d);
    let g = gcd(width, height);
    if d > 1 && (width / g) % d == 0 && (height / g) % d == 0 {
        let dg = d * g;
        vstd::arithmetic::div_mod::lemma_fundamental_div_mod(width as int, g as int);
        vstd::arithmetic::div_mod::lemma_fundamental_div_mod(height as int, g as int);
        vstd::arithmetic::div_mod::lemma_fundamental_div_mod((width / g) as int, d as int);
        vstd::arithmetic::div_mod::lemma_fundamental_div_mod((height / g) as int, d as int);
        let wq = (width / g) / d;
        let hq = (height / g) / d;
        assert(width == dg * wq) by (nonlinear_arith)
            requires width == g * (width / g), width / g == d * wq, dg == d * g;
        assert(height == dg * hq) by (nonlinear_arith)
            requires height == g * (height / g), height / g == d * hq, dg == d * g;
        assert(dg > 0) by (nonlinear_arith) requires d > 1, g > 0, dg == d * g;
        vstd::arithmetic::div_mod::lemma_mod_multiples_basic(wq as int, dg as int);
        vstd::arithmetic::div_mod::lemma_mod_multiples_basic(hq as int, dg as int);
        assert(wq * dg == dg * wq) by (nonlinear_arith);
        assert(hq * dg == dg * hq) by (nonlinear_arith);
        law_gcd_is_greatest(width, height, dg);
        assert(g % dg == 0);
        vstd::arithmetic::div_mod::lemma_fundamental_div_mod(g as int, dg as int);
        let k = g / dg;
        assert(g == dg * k);
        assert(false) by (nonlinear_arith)
            requires g == dg * k, dg == d * g, d > 1, g > 0;
    }
}

fn gcd_u32(a: u32, b: u32) -> (g: u32)
    ensures
        g == gcd(a as nat, b as nat),
    decreases b,
{
    if b == 0 {
        a
    } else {
        gcd_u32(b, a % b)
    }
}

/// The ratio `width:height` reduced to lowest terms ("unknown" when a side is zero).
pub fn aspect_ratio(width: u32, height: u32) -> (s: String)
    ensures
        s@ == spec_aspect_ratio(width as nat, height as nat),
{
    if width == 0 || height == 0 {
        return String::from_str("unknown");
    }
    let divisor = gcd_u32(width, height);
    proof { lemma_gcd_divides(width as nat, height as nat); }
    let mut v = decimal_chars((width / divisor) as u64);
    v.push(':');
    let h = decimal_chars((height / divisor) as u64);
    extend_chars(&mut v, h.as_slice());
    proof {
        assert(v@ =~= decimal((width / divisor) as nat) + seq![':'] + decimal(
            (height / divisor) as nat,
        ));
    }
    string_of(v.as_slice())
}

/// The mode has exactly the requested size and at least 32 bits per pixel.
pub open spec fn exact_mode(m: DisplayMode, width: u32, height: u32) -> bool {
    m.width == width && m.height == height && m.bits_per_pixel >= 32
}

/// Some exact mode is progressive.
pub open spec fn progressive_available(modes: Seq<DisplayMode>, width: u32, height: u32) -> bool {
    exists|i: int| 0 <= i < modes.len() && exact_mode(modes[i], width, height) && !modes[i].interlaced
}

/// The mode at `i` may be chosen: it is exact, and progressive when a progressive exact mode exists.
pub open spec fn eligible_mode(modes: Seq<DisplayMode>, i: int, width: u32, height: u32) -> bool {
    &&& exact_mode(modes[i], width, height)
    &&& (!progressive_available(modes, width, height) || !modes[i].interlaced)
}

/// `a` ranks no higher than `b` by (refresh rate, bits per pixel).
pub open spec fn mode_rank_le(a: DisplayMode, b: DisplayMode) -> bool {
    a.refresh_hz < b.refresh_hz || (a.refresh_hz == b.refresh_hz && a.bits_per_pixel <= b.bits_per_pixel)
}

/// The mode at `i` is the last eligible mode of highest rank.
pub open spec fn is_best_mode(modes: Seq<DisplayMode>, i: int, width: u32, height: u32) -> bool {
    &&& 0 <= i < modes.len()
    &&& eligible_mode(modes, i, width, height)
    &&& forall|j: int| 0 <= j < modes.len() && eligible_mode(modes, j, width, height) ==> mode_rank_le(modes[j], modes[i])
    &&& forall|j: int| i < j < modes.len() && eligible_mode(modes, j, width, height) ==> !mode_rank_le(modes[i], modes[j])
}

/// A listed mode that can be offered: a real size, a refresh rate above 1 Hz and at least 32 bpp.
pub open spec fn usable_mode(m: DisplayMode) -> bool {
    m.width != 0 && m.height != 0 && m.refresh_hz > 1 && m.bits_per_pixel >= 32
}

/// The usable modes of a listing in their order, each kept the first time it occurs.
pub open spec fn distinct_usable(s: Seq<DisplayMode>) -> Seq<DisplayMode>
    decreases s.len(),
{
    if s.len() == 0 {
        Seq::empty()
    } else {
        let p = distinct_usable(s.drop_last());
        if usable_mode(s.last()) && !p.contains(s.last()) { p.push(s.last()) } else { p }
    }
}

/// `a` sorts strictly before `b` by (width, height, refresh rate, bits per pixel).
pub open spec fn mode_key_lt(a: DisplayMode, b: DisplayMode) -> bool {
    ||| a.width < b.width
    ||| a.width == b.width && a.height < b.height
    ||| a.width == b.width && a.height == b.height && a.refresh_hz < b.refresh_hz
    ||| a.width == b.width && a.height == b.height && a.refresh_hz == b.refresh_hz && a.bits_per_pixel < b.bits_per_pixel
}

/// `m` placed into `s` after every mode that does not sort after it.
pub open spec fn insert_mode(s: Seq<DisplayMode>, m: DisplayMode) -> Seq<DisplayMode>
    decreases s.len(),
{
    if s.len() > 0 && mode_key_lt(m, s.last()) {
        insert_mode(s.drop_last(), m).push(s.last())
    } else {
        s.push(m)
    }
}

/// The modes sorted by `mode_key_lt`, modes of equal key left in their order.
pub open spec fn sort_modes(s: Seq<DisplayMode>) -> Seq<DisplayMode>
    decreases s.len(),
{
    if s.len() == 0 {
        Seq::empty()
    } else {
        insert_mode(sort_modes(s.drop_last()), s.last())
    }
}

fn key_lt(a: &DisplayMode, b: &DisplayMode) -> (r: bool)
    ensures
        r == mode_key_lt(*a, *b),
{
    a.width < b.width
        || (a.width == b.width && a.height < b.height)
        || (a.width == b.width && a.height == b.height && a.refresh_hz < b.refresh_hz)
        || (a.width == b.width && a.height == b.height && a.refresh_hz == b.refresh_hz && a.bits_per_pixel < b.bits_per_pixel)
}

proof fn lemma_insert_at(s: Seq<DisplayMode>, m: DisplayMode, j: int)
    requires
        0 <= j <= s.len(),
        forall|k: int| j <= k < s.len() ==> mode_key_lt(m, #[trigger] s[k]),
        j == 0 || !mode_key_lt(m, s[j - 1]),
    ensures
        insert_mode(s, m) == s.insert(j, m),
    decreases s.len(),
{
    if j == s.len() {
        assert(s.insert(j, m) =~= s.push(m));
    } else {
        let d = s.drop_last();
        assert(mode_key_lt(m, s[s.len() - 1]));
        assert forall|k: int| j <= k < d.len() implies mode_key_lt(m, #[trigger] d[k]) by {
            assert(d[k] == s[k]);
        }
        if j > 0 {
            assert(d[j - 1] == s[j - 1]);
        }
        lemma_insert_at(d, m, j);
        assert(d.insert(j, m).push(s.last()) =~= s.insert(j, m));
    }
}

/// The modes a display offers, from what Windows lists: unusable modes left out, each mode kept
/// once, sorted by width, height, refresh rate and colour depth (equal ones in listed order).
pub fn normalize_modes(raw: &[DisplayMode]) -> (r: Vec<DisplayMode>)
    ensures
        r@ == sort_modes(distinct_usable(raw@)),
{
    let mut distinct: Vec<DisplayMode> = Vec::new();
    let mut i: usize = 0;
    while i < raw.len()
        invariant
            i <= raw@.len(),
            distinct@ == distinct_usable(raw@.take(i as int)),
        decreases raw.len() - i,
    {
        proof { assert(raw@.take(i + 1).drop_last() =~= raw@.take(i as int)); }
        let m = raw[i];
        if m.width != 0 && m.height != 0 && m.refresh_hz > 1 && m.bits_per_pixel >= 32 {
            let mut seen = false;
            let mut k: usize = 0;
            while k < distinct.len()
                invariant
                    k <= distinct@.len(),
                    seen <==> exists|q: int| 0 <= q < k && distinct@[q] == m,
                decreases distinct.len() - k,
            {
                if distinct[k] == m {
                    seen = true;
                }
                k = k + 1;
            }
            if !seen {
                distinct.push(m);
            }
        }
        i = i + 1;
    }
    proof { assert(raw@.take(raw@.len() as int) =~= raw@); }
    let mut out: Vec<DisplayMode> = Vec::new();
    let mut i: usize = 0;
    while i < distinct.len()
        invariant
            i <= distinct@.len(),
            out@ == sort_modes(distinct@.take(i as int)),
        decreases distinct.len() - i,
    {
        let m = distinct[i];
        let mut j: usize = out.len();
        while j > 0 && key_lt(&m, &out[j - 1])
            invariant
                j <= out@.len(),
                forall|k: int| j <= k < out@.len() ==> mode_key_lt(m, #[trigger] out@[k]),
            decreases j,
        {
            j = j - 1;
        }
        proof {
            lemma_insert_at(out@, m, j as int);
            assert(distinct@.take(i + 1).drop_last() =~= distinct@.take(i as int));
        }
        out.insert(j, m);
        i = i + 1;
    }
    proof { assert(distinct@.take(distinct@.len() as int) =~= distinct@); }
    out
}

/// No mode sorts strictly before an earlier one.
pub open spec fn modes_ordered(s: Seq<DisplayMode>) -> bool {
    forall|i: int, j: int| 0 <= i < j < s.len() ==> !mode_key_lt(#[trigger] s[j], #[trigger] s[i])
}

proof fn lemma_insert_mode(s: Seq<DisplayMode>, m: DisplayMode)
    requires
        modes_ordered(s),
    ensures
        modes_ordered(insert_mode(s, m)),
        insert_mode(s, m).to_multiset() == s.to_multiset().insert(m),
    decreases s.len(),
{
    broadcast use vstd::seq_lib::group_to_multiset_ensures;
    if s.len() > 0 && mode_key_lt(m, s.last()) {
        let d = s.drop_last();
        assert(modes_ordered(d)) by {
            assert forall|i: int, j: int| 0 <= i < j < d.len() implies !mode_key_lt(#[trigger] d[j], #[trigger] d[i]) by {
                assert(d[i] == s[i] && d[j] == s[j]);
            }
        }
        lemma_insert_mode(d, m);
        let t = insert_mode(d, m);
        assert(d.push(s.last()) =~= s);
        assert forall|i: int| 0 <= i < t.len() implies !mode_key_lt(s.last(), #[trigger] t[i]) by {
            assert(t.to_multiset().count(t[i]) > 0);
            assert(t.contains(t[i]));
            if t[i] != m {
                assert(d.to_multiset().count(t[i]) > 0);
                assert(d.contains(t[i]));
                let k = choose|k: int| 0 <= k < d.len() && d[k] == t[i];
                assert(s[k] == d[k]);
                assert(!mode_key_lt(s[s.len() - 1], s[k]));
            }
        }
        assert forall|i: int, j: int| 0 <= i < j < t.push(s.last()).len() implies
            !mode_key_lt(#[trigger] t.push(s.last())[j], #[trigger] t.push(s.last())[i]) by {
            if j < t.len() {
                assert(t.push(s.last())[j] == t[j] && t.push(s.last())[i] == t[i]);
            } else {
                assert(t.push(s.last())[i] == t[i]);
            }
        }
    } else {
        assert forall|i: int, j: int| 0 <= i < j < s.push(m).len() implies
            !mode_key_lt(#[trigger] s.push(m)[j], #[trigger] s.push(m)[i]) by {
            if j < s.len() {
                assert(s.push(m)[j] == s[j] && s.push(m)[i] == s[i]);
            } else {
                assert(s.push(m)[i] == s[i]);
                assert(!mode_key_lt(s[s.len() - 1], s[i]) || i == s.len() - 1);
            }
        }
    }
}

/// Sorting modes orders them and keeps each one: the result is ordered by `mode_key_lt` and holds
/// the same modes, as many times each.
pub proof fn law_sorted_modes_are_ordered(s: Seq<DisplayMode>)
    ensures
        modes_ordered(sort_modes(s)),
        sort_modes(s).to_multiset() == s.to_multiset(),
    decreases s.len(),
{
    broadcast use vstd::seq_lib::group_to_multiset_ensures;
    if s.len() > 0 {
        law_sorted_modes_are_ordered(s.drop_last());
        lemma_insert_mode(sort_modes(s.drop_last()), s.last());
        assert(s.drop_last().push(s.last()) =~= s);
    }
}

/// Picks the mode of exactly `width`x`height` with the highest refresh rate (then colour depth),
/// preferring progressive modes; `None` when the size is not offered, with no fallback.
pub fn choose_best_mode(modes: &[DisplayMode], width: u32, height: u32) -> (r: Option<DisplayMode>)
    ensures
        r is None <==> !(exists|i: int| 0 <= i < modes@.len() && eligible_mode(modes@, i, width, height)),
        r matches Some(m) ==> exists|i: int| is_best_mode(modes@, i, width, height) && modes@[i] == m,
{
    let mut progressive = false;
    let mut i: usize = 0;
    while i < modes.len()
        invariant
            i <= modes.len(),
            progressive <==> exists|k: int| 0 <= k < i && exact_mode(modes@[k], width, height) && !modes@[k].interlaced,
        decreases modes.len() - i,
    {
        let m = modes[i];
        if m.width == width && m.height == height && m.bits_per_pixel >= 32 && !m.interlaced {
            progressive = true;
        }
        i = i + 1;
    }
    let mut best: Option<usize> = None;
    let mut j: usize = 0;
    while j < modes.len()
        invariant
            j <= modes.len(),
            progressive == progressive_available(modes@, width, height),
            best is None <==> !(exists|k: int| 0 <= k < j && eligible_mode(modes@, k, width, height)),
            best matches Some(b) ==> {
                &&& b < j
                &&& eligible_mode(modes@, b as int, width, height)
                &&& forall|k: int| 0 <= k < j && eligible_mode(modes@, k, width, height) ==> mode_rank_le(modes@[k], modes@[b as int])
                &&& forall|k: int| b < k < j && eligible_mode(modes@, k, width, height) ==> !mode_rank_le(modes@[b as int], modes@[k])
            },
        decreases modes.len() - j,
    {
        let m = modes[j];
        let ok = m.width == width && m.height == height && m.bits_per_pixel >= 32 && (!progressive || !m.interlaced);
        proof { assert(ok == eligible_mode(modes@, j as int, width, height)); }
        if ok {
            match best {
                None => {
                    best = Some(j);
                },
                Some(b) => {
                    let cur = modes[b];
                    if m.refresh_hz > cur.refresh_hz || (m.refresh_hz == cur.refresh_hz && m.bits_per_pixel >= cur.bits_per_pixel) {
                        best = Some(j);
                    }
                },
            }
        }
        j = j + 1;
    }
    match best {
        None => None,
        Some(b) => {
            proof { assert(is_best_mode(modes@, b as int, width, height)); }
            Some(modes[b])
        },
    }
}

/// The index of the first display flagged primary, else the first display, else none.
pub fn choose_primary_index(primary_flags: &[bool]) -> (r: Option<usize>)
    ensures
        primary_flags@.len() == 0 ==> r is None,
        r matches Some(i) ==> i < primary_flags@.len(),
        r matches Some(i) ==> forall|k: int| 0 <= k < i ==> !primary_flags@[k],
        r matches Some(i) ==> (primary_flags@[i as int] || (i == 0 && forall|k: int| 0 <= k < primary_flags@.len() ==> !primary_flags@[k])),
        primary_flags@.len() > 0 ==> r is Some,
{
    let mut i: usize = 0;
    while i < primary_flags.len()
        invariant
            i <= primary_flags.len(),
            forall|k: int| 0 <= k < i ==> !primary_flags@[k],
        decreases primary_flags.len() - i,
    {
        if primary_flags[i] {
            return Some(i);
        }
        i = i + 1;
    }
    if primary_flags.len() == 0 {
        None
    } else {
        Some(0)
    }
}

/// Accepted window-mode names.
pub open spec fn valid_display_mode(m: Seq<char>) -> bool {
    m == "fullscreen"@ || m == "borderless"@ || m == "windowed"@ || m == "unknown"@
}

/// The reason a display snapshot is refused, checked in order; `None` when it is acceptable.
pub open spec fn payload_problem(p: DisplayPayload) -> Option<Seq<char>> {
    if p.schema_version != 1 {
        Some("Unsupported or corrupted display snapshot schema."@)
    } else if !(320 <= p.width <= 16384) || !(200 <= p.height <= 16384) {
        Some("Display snapshot contains an invalid resolution."@)
    } else if p.refresh_rate_policy@ != "MAX_AVAILABLE"@ {
        Some("Only RefreshRatePolicy = MAX_AVAILABLE is accepted."@)
    } else if !valid_display_mode(p.display_mode@) {
        Some("Display snapshot contains an invalid window mode."@)
    } else {
        None
    }
}

/// Checks a display snapshot before it is applied.
pub fn validate_payload(payload: &DisplayPayload) -> (r: Result<(), String>)
    ensures
        r is Ok <==> payload_problem(*payload) is None,
        r matches Err(e) ==> payload_problem(*payload) == Some(e@),
{
    if payload.schema_version != 1 {
        return Err(String::from_str("Unsupported or corrupted display snapshot schema."));
    }
    if !(320 <= payload.width && payload.width <= 16384) || !(200 <= payload.height && payload.height <= 16384) {
        return Err(String::from_str("Display snapshot contains an invalid resolution."));
    }
    if !str_eq(payload.refresh_rate_policy.as_str(), "MAX_AVAILABLE") {
        return Err(String::from_str("Only RefreshRatePolicy = MAX_AVAILABLE is accepted."));
    }
    let m = payload.display_mode.as_str();
    if !(str_eq(m, "fullscreen") || str_eq(m, "borderless") || str_eq(m, "windowed") || str_eq(m, "unknown")) {
        return Err(String::from_str("Display snapshot contains an invalid window mode."));
    }
    Ok(())
}

/// The answer on a platform without display support.
pub open spec fn unsupported_response(r: DisplayCommandResponse) -> bool {
    &&& r.state@ == "unsupported"@
    &&& r.message@ == "Display settings are unsupported on this platform."@
    &&& r.details@.len() == 0
    &&& !r.retryable
    &&& r.payload is None
    &&& r.diagnostics is None
    &&& r.backup_token is None
}

/// Display capture on a platform without display support.
pub fn capture(_request: DisplayCaptureRequest) -> (r: DisplayCommandResponse)
    ensures
        unsupported_response(r),
{
    DisplayCommandResponse::unsupported()
}

/// Display apply on a platform without display support.
pub fn apply(_payload: DisplayPayload) -> (r: DisplayCommandResponse)
    ensures
        unsupported_response(r),
{
    DisplayCommandResponse::unsupported()
}

/// Display diagnostics on a platform without display support.
pub fn diagnostics() -> (r: DisplayCommandResponse)
    ensures
        unsupported_response(r),
{
    DisplayCommandResponse::unsupported()
}

/// Display restore on a platform without display support.
pub fn restore(_backup_token: Option<String>) -> (r: DisplayCommandResponse)
    ensures
        unsupported_response(r),
{
    DisplayCommandResponse::unsupported()
}

/// The modes offer the size: some mode is eligible for it.
pub open spec fn exists_best_mode(modes: Seq<DisplayMode>, width: u32, height: u32) -> bool {
    exists|i: int| 0 <= i < modes.len() && eligible_mode(modes, i, width, height)
}

/// "<width>x<height>".
pub open spec fn size_text(width: u32, height: u32) -> Seq<char> {
    decimal(width as nat) + "x"@ + decimal(height as nat)
}

fn size_chars(width: u32, height: u32) -> (r: Vec<char>)
    ensures
        r@ == size_text(width, height),
{
    let mut v = decimal_chars(width as u64);
    push_str_chars(&mut v, "x");
    extend_chars(&mut v, decimal_chars(height as u64).as_slice());
    v
}

fn text_around(prefix: &str, middle: &[char], suffix: &str) -> (r: String)
    ensures
        r@ == prefix@ + middle@ + suffix@,
{
    let mut v = chars_of(prefix);
    extend_chars(&mut v, middle);
    push_str_chars(&mut v, suffix);
    proof { assert(v@ =~= prefix@ + middle@ + suffix@); }
    string_of(v.as_slice())
}

/// The answer of a capture: the requested policy is saved either way; a warning when the primary
/// display does not offer the resolution.
pub fn capture_response(request: DisplayCaptureRequest, diagnostics: DisplayDiagnostics, captured_at: String) -> (r: DisplayCommandResponse)
    ensures
        ({
            let found = exists_best_mode(diagnostics.supported_modes@, request.width, request.height);
            &&& r.state@ == (if found { "success"@ } else { "warning"@ })
            &&& r.message@ == (if found {
                    "Saved display policy "@ + size_text(request.width, request.height) + " at maximum available refresh rate."@
                } else {
                    "Saved the requested display policy, but it is unavailable on this monitor."@
                })
            &&& strings_view(r.details@) == seq!["Primary gaming display: "@ + match diagnostics.primary_monitor {
                    Some(m) => m@,
                    None => "Unknown monitor"@,
                }] + (if found { Seq::empty() } else {
                    seq![size_text(request.width, request.height) + " is not currently exposed by Windows for this display connection."@]
                })
            &&& r.retryable == !found
        }),
        r.payload matches Some(p) && p.schema_version == 1 && p.captured_at == captured_at
            && p.width == request.width && p.height == request.height
            && p.aspect_ratio@ == spec_aspect_ratio(request.width as nat, request.height as nat)
            && p.display_mode == request.display_mode
            && p.scaling_preference@ == "driver_managed"@ && p.refresh_rate_policy@ == "MAX_AVAILABLE"@,
        r.diagnostics == Some(diagnostics),
        r.backup_token is None,
{
    let exact = choose_best_mode(diagnostics.supported_modes.as_slice(), request.width, request.height);
    let found = exact.is_some();
    let monitor: Vec<char> = match &diagnostics.primary_monitor {
        Some(m) => chars_of(m.as_str()),
        None => chars_of("Unknown monitor"),
    };
    let mut details: Vec<String> = Vec::new();
    details.push(text_around("Primary gaming display: ", monitor.as_slice(), ""));
    let size = size_chars(request.width, request.height);
    if !found {
        details.push(text_around("", size.as_slice(), " is not currently exposed by Windows for this display connection."));
    }
    proof {
        reveal_strlit("");
        assert(strings_view(details@) =~= seq!["Primary gaming display: "@ + match diagnostics.primary_monitor {
                Some(m) => m@,
                None => "Unknown monitor"@,
            }] + (if found { Seq::<Seq<char>>::empty() } else {
                seq![size_text(request.width, request.height) + " is not currently exposed by Windows for this display connection."@]
            }));
    }
    let message = if found {
        text_around("Saved display policy ", size.as_slice(), " at maximum available refresh rate.")
    } else {
        String::from_str("Saved the requested display policy, but it is unavailable on this monitor.")
    };
    let payload = DisplayPayload {
        schema_version: 1,
        captured_at,
        width: request.width,
        height: request.height,
        aspect_ratio: aspect_ratio(request.width, request.height),
        display_mode: request.display_mode,
        scaling_preference: String::from_str("driver_managed"),
        refresh_rate_policy: String::from_str("MAX_AVAILABLE"),
    };
    DisplayCommandResponse {
        state: if found { String::from_str("success") } else { String::from_str("warning") },
        message,
        details,
        retryable: !found,
        payload: Some(payload),
        diagnostics: Some(diagnostics),
        backup_token: None,
    }
}

/// The answer when the primary display lacks the saved resolution: nothing is changed.
pub fn apply_unavailable(width: u32, height: u32, diagnostics: DisplayDiagnostics) -> (r: DisplayCommandResponse)
    ensures
        r.state@ == "warning"@,
        r.message@ == "Resolution "@ + size_text(width, height) + " is not supported on the primary display. Display mode was not changed."@,
        strings_view(r.details@) == seq!["Other supported adapters may continue. No fallback resolution was selected."@],
        !r.retryable && r.payload is None && r.backup_token is None,
        r.diagnostics == Some(diagnostics),
{
    let size = size_chars(width, height);
    let mut details: Vec<String> = Vec::new();
    details.push(String::from_str("Other supported adapters may continue. No fallback resolution was selected."));
    proof { assert(strings_view(details@) =~= seq!["Other supported adapters may continue. No fallback resolution was selected."@]); }
    DisplayCommandResponse {
        state: String::from_str("warning"),
        message: text_around("Resolution ", size.as_slice(), " is not supported on the primary display. Display mode was not changed."),
        details,
        retryable: false,
        payload: None,
        diagnostics: Some(diagnostics),
        backup_token: None,
    }
}

/// Windows accepted the mode in its test: only `DISP_CHANGE_SUCCESSFUL` (0) passes.
pub fn test_outcome(code: i32) -> (r: Result<(), String>)
    ensures
        r is Ok <==> code == 0,
        r matches Err(e) ==> e@ == "CDS_TEST returned "@ + signed_decimal(code as int) + "."@,
{
    if code == 0 {
        return Ok(());
    }
    let d = signed_decimal_chars(code);
    Err(text_around("CDS_TEST returned ", d.as_slice(), "."))
}

/// The result of a mode change: "applied" (0), "restart_required" (1), else the error.
pub fn change_outcome(code: i32) -> (r: Result<String, String>)
    ensures
        code == 0 ==> (r matches Ok(s) && s@ == "applied"@),
        code == 1 ==> (r matches Ok(s) && s@ == "restart_required"@),
        code != 0 && code != 1 ==> (r matches Err(e) && e@ == "ChangeDisplaySettingsExW returned "@ + signed_decimal(code as int) + "."@),
{
    if code == 0 {
        return Ok(String::from_str("applied"));
    }
    if code == 1 {
        return Ok(String::from_str("restart_required"));
    }
    let d = signed_decimal_chars(code);
    Err(text_around("ChangeDisplaySettingsExW returned ", d.as_slice(), "."))
}

/// The answer after Windows took the new mode: a warning (retryable) when a restart is needed.
pub fn applied_response(diagnostics: DisplayDiagnostics, selected: DisplayMode, result: String, backup_token: String) -> (r: DisplayCommandResponse)
    ensures
        r.state@ == (if result@ == "restart_required"@ { "warning"@ } else { "success"@ }),
        r.message@ == "Applied "@ + size_text(selected.width, selected.height) + " at "@ + decimal(selected.refresh_hz as nat) + " Hz on the primary display."@,
        strings_view(r.details@) == seq!["RefreshRatePolicy = MAX_AVAILABLE"@, "Display backup: "@ + backup_token@],
        r.retryable == (result@ == "restart_required"@),
        r.payload is None,
        r.diagnostics matches Some(d) && d.last_change_result == Some(result) && d.supported_modes == diagnostics.supported_modes
            && d.current_mode == diagnostics.current_mode && d.selected_mode == diagnostics.selected_mode,
        r.backup_token matches Some(t) && t@ == backup_token@,
{
    let restart = str_eq(result.as_str(), "restart_required");
    let mut diagnostics = diagnostics;
    let mut v = chars_of("Applied ");
    extend_chars(&mut v, size_chars(selected.width, selected.height).as_slice());
    push_str_chars(&mut v, " at ");
    extend_chars(&mut v, decimal_chars(selected.refresh_hz as u64).as_slice());
    push_str_chars(&mut v, " Hz on the primary display.");
    proof { assert(v@ =~= "Applied "@ + size_text(selected.width, selected.height) + " at "@ + decimal(selected.refresh_hz as nat) + " Hz on the primary display."@); }
    let token_chars = chars_of(backup_token.as_str());
    let mut details: Vec<String> = Vec::new();
    details.push(String::from_str("RefreshRatePolicy = MAX_AVAILABLE"));
    details.push(text_around("Display backup: ", token_chars.as_slice(), ""));
    proof {
        reveal_strlit("");
        assert(strings_view(details@) =~= seq!["RefreshRatePolicy = MAX_AVAILABLE"@, "Display backup: "@ + backup_token@]);
    }
    diagnostics.last_change_result = Some(result);
    DisplayCommandResponse {
        state: if restart { String::from_str("warning") } else { String::from_str("success") },
        message: string_of(v.as_slice()),
        details,
        retryable: restart,
        payload: None,
        diagnostics: Some(diagnostics),
        backup_token: Some(backup_token),
    }
}

/// The answer after Windows refused the new mode, with the outcome of putting the previous mode
/// back.
pub fn rejected_response(diagnostics: DisplayDiagnostics, message: String, rollback: Result<String, String>, backup_token: String) -> (r: DisplayCommandResponse)
    ensures
        r.state@ == "error"@,
        r.message@ == "Windows rejected the requested display mode."@,
        strings_view(r.details@) == seq![message@, match rollback {
            Ok(_) => "Previous display mode was restored."@,
            Err(e) => "Display rollback also failed: "@ + e@,
        }],
        r.retryable && r.payload is None,
        r.diagnostics matches Some(d) && opt_text(d.last_change_result, "failed"@),
        r.backup_token matches Some(t) && t@ == backup_token@,
{
    let mut diagnostics = diagnostics;
    diagnostics.last_change_result = Some(String::from_str("failed"));
    let second = match &rollback {
        Ok(_) => String::from_str("Previous display mode was restored."),
        Err(e) => {
            let c = chars_of(e.as_str());
            text_around("Display rollback also failed: ", c.as_slice(), "")
        },
    };
    let mut details: Vec<String> = Vec::new();
    let ghost mv = message@;
    details.push(message);
    details.push(second);
    proof {
        reveal_strlit("");
        assert(strings_view(details@) =~= seq![mv, match rollback {
            Ok(_) => "Previous display mode was restored."@,
            Err(e) => "Display rollback also failed: "@ + e@,
        }]);
    }
    DisplayCommandResponse {
        state: String::from_str("error"),
        message: String::from_str("Windows rejected the requested display mode."),
        details,
        retryable: true,
        payload: None,
        diagnostics: Some(diagnostics),
        backup_token: Some(backup_token),
    }
}

/// An optional text equal to `t`.
pub open spec fn opt_text(o: Option<String>, t: Seq<char>) -> bool {
    o matches Some(s) && s@ == t
}

/// What a display backup holds: the primary display and the mode it had before a change.
#[derive(Debug, Clone)]
pub struct DisplayBackup {
    pub schema_version: u32,
    pub captured_at: String,
    pub device_name: String,
    pub mode: DisplayMode,
}

/// A backup that records `mode` of the display `device_name` in the current schema.
pub open spec fn records_mode(b: DisplayBackup, device_name: Seq<char>, mode: DisplayMode) -> bool {
    &&& b.schema_version == 1
    &&& b.device_name@ == device_name
    &&& b.mode == mode
}

/// The backup written before the display's mode is changed: the current mode of the display.
pub fn backup_before_change(device_name: String, current: DisplayMode, captured_at: String) -> (r: DisplayBackup)
    ensures
        records_mode(r, device_name@, current),
        r.captured_at@ == captured_at@,
{
    DisplayBackup { schema_version: 1, captured_at, device_name, mode: current }
}

/// The display and the mode that restoring a backup sets, or why the backup is refused.
pub open spec fn spec_restore_target(b: DisplayBackup) -> Result<(Seq<char>, DisplayMode), Seq<char>> {
    if b.schema_version != 1 {
        Err("Display backup schema is unsupported."@)
    } else {
        Ok((b.device_name@, b.mode))
    }
}

/// Checks a display backup read back for a restore, and gives the display and the mode to set.
pub fn restore_target(backup: &DisplayBackup) -> (r: Result<(String, DisplayMode), String>)
    ensures
        match spec_restore_target(*backup) {
            Ok(t) => r matches Ok(v) && v.0@ == t.0 && v.1 == t.1,
            Err(m) => r matches Err(e) && e@ == m,
        },
{
    if backup.schema_version != 1 {
        return Err(String::from_str("Display backup schema is unsupported."));
    }
    Ok((backup.device_name.clone(), backup.mode))
}

/// Law: restoring the backup written before a mode change sets the display it was written for
/// back to the mode it had then.
pub proof fn law_backup_restores_mode(b: DisplayBackup, device_name: Seq<char>, mode: DisplayMode)
    requires
        records_mode(b, device_name, mode),
    ensures
        spec_restore_target(b) == Ok::<(Seq<char>, DisplayMode), Seq<char>>((device_name, mode)),
{
}

/// The answer after a backup was restored.
pub fn restored_response(mode: DisplayMode, backup_used: &str, diagnostics: Option<DisplayDiagnostics>) -> (r: DisplayCommandResponse)
    ensures
        r.state@ == "success"@,
        r.message@ == "Restored display mode "@ + size_text(mode.width, mode.height) + " at "@ + decimal(mode.refresh_hz as nat) + " Hz."@,
        strings_view(r.details@) == seq!["Backup used: "@ + backup_used@],
        !r.retryable && r.payload is None && r.backup_token is None,
        r.diagnostics == diagnostics,
{
    let mut v = chars_of("Restored display mode ");
    extend_chars(&mut v, size_chars(mode.width, mode.height).as_slice());
    push_str_chars(&mut v, " at ");
    extend_chars(&mut v, decimal_chars(mode.refresh_hz as u64).as_slice());
    push_str_chars(&mut v, " Hz.");
    proof { assert(v@ =~= "Restored display mode "@ + size_text(mode.width, mode.height) + " at "@ + decimal(mode.refresh_hz as nat) + " Hz."@); }
    let used = chars_of(backup_used);
    let mut details: Vec<String> = Vec::new();
    details.push(text_around("Backup used: ", used.as_slice(), ""));
    proof {
        reveal_strlit("");
        assert(strings_view(details@) =~= seq!["Backup used: "@ + backup_used@]);
    }
    DisplayCommandResponse {
        state: String::from_str("success"),
        message: string_of(v.as_slice()),
        details,
        retryable: false,
        payload: None,
        diagnostics,
        backup_token: None,
    }
}

/// The answer of a diagnostics refresh.
pub fn diagnostics_response(diagnostics: DisplayDiagnostics) -> (r: DisplayCommandResponse)
    ensures
        r.state@ == "success"@,
        r.message@ == "Display modes enumerated through Windows API."@,
        r.details@.len() == 0 && !r.retryable && r.payload is None && r.backup_token is None,
        r.diagnostics == Some(diagnostics),
{
    DisplayCommandResponse {
        state: String::from_str("success"),
        message: String::from_str("Display modes enumerated through Windows API."),
        details: Vec::new(),
        retryable: false,
        payload: None,
        diagnostics: Some(diagnostics),
        backup_token: None,
    }
}

/// The position of the first zero code unit, or the length.
pub open spec fn nul_position(units: Seq<u16>) -> int
    decreases units.len(),
{
    if units.len() == 0 {
        0
    } else if units[0] == 0 {
        0
    } else {
        1 + nul_position(units.drop_first())
    }
}

/// The text of a NUL-terminated UTF-16 array, decoded lossily.
pub fn wide_array_to_string(value: &[u16]) -> (r: String)
    ensures
        r@ == utf16_decode_lossy(value@.take(nul_position(value@))),
{
    let mut end: usize = 0;
    proof { assert(value@.skip(0) =~= value@); }
    while end < value.len() && value[end] != 0
        invariant
            end <= value@.len(),
            nul_position(value@) == end + nul_position(value@.skip(end as int)),
        decreases value.len() - end,
    {
        proof { assert(value@.skip(end as int).drop_first() =~= value@.skip(end + 1)); }
        end = end + 1;
    }
    let mut units: Vec<u16> = Vec::new();
    let mut i: usize = 0;
    while i < end
        invariant
            i <= end <= value@.len(),
            units@ == value@.take(i as int),
        decreases end - i,
    {
        units.push(value[i]);
        i = i + 1;
        proof { assert(units@ =~= value@.take(i as int)); }
    }
    utf16_lossy(units.as_slice())
}

} // verus!
