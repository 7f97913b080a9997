use vstd::prelude::*;

use crate::text::{chars_of, contains_str, contains_sub, decimal, decimal_chars, extend_chars, hex_chars, hex_digits, lower, lower_chars, push_str_chars, signed_decimal, signed_decimal_chars, str_eq, string_of};
use crate::pubg::strings_view;
use crate::codec::{hex_lower, hex_lower_string, sha256, spec_sha256};
use crate::text::{occurs_at, occurs_at_exec, sub_chars};

verus! {

pub const MIN_SAFE_DPI: u32 = 50;
pub const MAX_SAFE_DPI: u32 = 100_000;
pub const MIN_SAFE_POLLING: u32 = 125;
pub const MAX_SAFE_POLLING: u32 = 8_000;

/// The Razer product ids whose protocol is implemented.
pub open spec fn razer_implemented_pid(pid: u16) -> bool {
    pid == 0x00A5 || pid == 0x00A6 || pid == 0x00B2 || pid == 0x00B6 || pid == 0x00B7 || pid == 0x00C0 || pid == 0x00C1
}

/// Which transport may drive a mouse.
#[derive(Debug, Clone, Copy, PartialEq, Eq, Structural)]
pub enum MouseAdapterKind {
    LogitechProbe,
    Razer,
    LamzuDetectionOnly,
    Unsupported,
}

/// The adapter family a USB vendor/product pair belongs to.
pub open spec fn spec_classify(vendor_id: u16, product_id: u16) -> MouseAdapterKind {
    if vendor_id == 0x046D {
        MouseAdapterKind::LogitechProbe
    } else if vendor_id == 0x1532 && razer_implemented_pid(product_id) {
        MouseAdapterKind::Razer
    } else if vendor_id == 0x373E {
        MouseAdapterKind::LamzuDetectionOnly
    } else {
        MouseAdapterKind::Unsupported
    }
}

/// Classifies a device by VID/PID: Logitech is probed, only implemented Razer PIDs are driven,
/// Lamzu is detection-only, everything else is unsupported.
pub fn classify_vid_pid(vendor_id: u16, product_id: u16) -> (k: MouseAdapterKind)
    ensures
        k == spec_classify(vendor_id, product_id),
{
    if vendor_id == 0x046D {
        MouseAdapterKind::LogitechProbe
    } else if vendor_id == 0x1532 && (product_id == 0x00A5 || product_id == 0x00A6 || product_id == 0x00B2
        || product_id == 0x00B6 || product_id == 0x00B7 || product_id == 0x00C0 || product_id == 0x00C1) {
        MouseAdapterKind::Razer
    } else if vendor_id == 0x373E {
        MouseAdapterKind::LamzuDetectionOnly
    } else {
        MouseAdapterKind::Unsupported
    }
}

/// The state reported after an apply: success only when DPI was verified, nothing was normalized,
/// and a requested polling rate was verified.
pub fn apply_outcome_state(
    dpi_verified: bool,
    polling_requested: bool,
    polling_verified: bool,
    normalized: bool,
) -> (s: &'static str)
    ensures
        s@ == (if dpi_verified && !normalized && (!polling_requested || polling_verified) {
            "success"@
        } else {
            "warning"@
        }),
{
    if !dpi_verified {
        "warning"
    } else if normalized || (polling_requested && !polling_verified) {
        "warning"
    } else {
        "success"
    }
}

/// The values of a mouse backup are within the safe ranges and of the known schema.
pub open spec fn backup_values_ok(schema_version: u32, dpi: u32, polling: Option<u32>) -> bool {
    &&& schema_version == 1
    &&& MIN_SAFE_DPI <= dpi <= MAX_SAFE_DPI
    &&& (polling matches Some(rate) ==> MIN_SAFE_POLLING <= rate <= MAX_SAFE_POLLING)
}

/// Checks the values read back from a local mouse backup.
pub fn validate_backup_values(schema_version: u32, dpi: u32, polling: Option<u32>) -> (ok: bool)
    ensures
        ok == backup_values_ok(schema_version, dpi, polling),
{
    schema_version == 1 && MIN_SAFE_DPI <= dpi && dpi <= MAX_SAFE_DPI && match polling {
        Some(rate) => MIN_SAFE_POLLING <= rate && rate <= MAX_SAFE_POLLING,
        None => true,
    }
}

/// The portable mouse settings stored in a profile.
#[derive(Debug, Clone, PartialEq, Eq)]
pub struct MousePayload {
    pub schema_version: u32,
    pub captured_at: String,
    pub dpi: u32,
    pub polling_rate_hz: Option<u32>,
}

/// The DPI values a mouse accepts: a list, or a range with a step.
#[derive(Debug, Clone, PartialEq, Eq)]
pub struct DpiCapabilities {
    pub minimum: u32,
    pub maximum: u32,
    pub step: u32,
    pub values: Vec<u32>,
}

/// The reason a mouse snapshot is refused; `None` when it is acceptable.
pub open spec fn payload_problem(p: MousePayload) -> Option<Seq<char>> {
    if p.schema_version != 1 {
        Some("Unsupported or corrupted Mouse snapshot."@)
    } else if !(MIN_SAFE_DPI <= p.dpi <= MAX_SAFE_DPI) {
        Some("Mouse snapshot contains an unsafe DPI value."@)
    } else if (p.polling_rate_hz matches Some(rate) && !(MIN_SAFE_POLLING <= rate <= MAX_SAFE_POLLING)) {
        Some("Mouse snapshot contains an unsafe polling-rate value."@)
    } else {
        None
    }
}

/// Checks a mouse snapshot before it is applied.
pub fn validate_payload(payload: &MousePayload) -> (r: Result<(), String>)
    ensures
        r is Ok <==> payload_problem(*payload) is None,
        r matches Err(e) ==> payload_problem(*payload) == Some(e@),
{
    if payload.schema_version != 1 {
        return Err(String::from_str("Unsupported or corrupted Mouse snapshot."));
    }
    if !(MIN_SAFE_DPI <= payload.dpi && payload.dpi <= MAX_SAFE_DPI) {
        return Err(String::from_str("Mouse snapshot contains an unsafe DPI value."));
    }
    if let Some(rate) = payload.polling_rate_hz {
        if !(MIN_SAFE_POLLING <= rate && rate <= MAX_SAFE_POLLING) {
            return Err(String::from_str("Mouse snapshot contains an unsafe polling-rate value."));
        }
    }
    Ok(())
}

/// Distance between two values.
pub open spec fn dist(a: int, b: int) -> int {
    if a >= b {
        a - b
    } else {
        b - a
    }
}

/// `a` is at least as close to `d` as `b`, with ties going to the smaller value.
pub open spec fn closer_or_equal(a: u32, b: u32, d: u32) -> bool {
    dist(a as int, d as int) < dist(b as int, d as int) || (dist(a as int, d as int) == dist(b as int, d as int) && a <= b)
}

/// `desired` clamped into `[lo, hi]`.
pub open spec fn clamp(desired: int, lo: int, hi: int) -> int {
    if desired < lo {
        lo
    } else if desired > hi {
        hi
    } else {
        desired
    }
}

/// The DPI chosen from a stepped range: the step multiple nearest to the clamped request, ties to the lower one.
pub open spec fn stepped_dpi(desired: u32, min: u32, max: u32, step: u32) -> int {
    let c = clamp(desired as int, min as int, max as int);
    let lower = min + ((c - min) / (step as int)) * step;
    let up = if lower + step > u32::MAX { u32::MAX as int } else { lower + step };
    let upper = if up < max { up } else { max as int };
    if dist(lower, c) <= dist(upper, c) {
        lower
    } else {
        upper
    }
}

/// Maps a requested DPI onto what the mouse supports: the nearest listed value (ties go lower), or
/// else the nearest step of the range after clamping; `None` for an unusable range.
pub fn normalize_desired_dpi(desired: u32, capabilities: &DpiCapabilities) -> (r: Option<u32>)
    ensures
        capabilities.values@.len() > 0 ==> (r matches Some(v) && {
            &&& capabilities.values@.contains(v)
            &&& forall|k: int| 0 <= k < capabilities.values@.len() ==> closer_or_equal(v, capabilities.values@[k], desired)
        }),
        capabilities.values@.len() == 0 ==> (r is None <==> (capabilities.minimum > capabilities.maximum || capabilities.step == 0)),
        capabilities.values@.len() == 0 ==> (r matches Some(v) ==> v == stepped_dpi(desired, capabilities.minimum, capabilities.maximum, capabilities.step)),
{
    let values = &capabilities.values;
    if values.len() > 0 {
        let mut best: u32 = values[0];
        let mut i: usize = 1;
        proof { assert(values@.take(1)[0] == best); }
        while i < values.len()
            invariant
                1 <= i <= values.len(),
                values@.take(i as int).contains(best),
                forall|k: int| 0 <= k < i ==> closer_or_equal(best, values@[k], desired),
            decreases values.len() - i,
        {
            let c = values[i];
            let dc = if c >= desired { c - desired } else { desired - c };
            let db = if best >= desired { best - desired } else { desired - best };
            if dc < db || (dc == db && c < best) {
                best = c;
                proof { assert(values@.take(i + 1)[i as int] == c); }
            } else {
                proof {
                    let j = choose|j: int| 0 <= j < i && values@.take(i as int)[j] == best;
                    assert(values@.take(i + 1)[j] == best);
                }
            }
            i = i + 1;
        }
        proof {
            assert(values@.take(values@.len() as int) =~= values@);
        }
        return Some(best);
    }
    let min = capabilities.minimum;
    let max = capabilities.maximum;
    let step = capabilities.step;
    if min > max || step == 0 {
        return None;
    }
    let clamped = if desired < min { min } else if desired > max { max } else { desired };
    let offset = clamped - min;
    let q = offset / step;
    proof {
        vstd::arithmetic::div_mod::lemma_fundamental_div_mod(offset as int, step as int);
        assert(q * step <= offset) by (nonlinear_arith)
            requires
                offset == step * q + offset % step,
                offset % step >= 0,
        ;
    }
    let lower = min + q * step;
    let up = lower.saturating_add(step);
    let upper = if up < max { up } else { max };
    let dl = if lower >= clamped { lower - clamped } else { clamped - lower };
    let du = if upper >= clamped { upper - clamped } else { clamped - upper };
    Some(if dl <= du { lower } else { upper })
}

/// The supported rate chosen for a request: the highest positive rate not above it, else the
/// lowest positive rate.
pub open spec fn is_chosen_rate(r: u32, desired: u32, supported: Seq<u32>) -> bool {
    &&& supported.contains(r)
    &&& r > 0
    &&& if exists|k: int| 0 <= k < supported.len() && 0 < #[trigger] supported[k] <= desired {
        &&& r <= desired
        &&& forall|k: int| 0 <= k < supported.len() && 0 < supported[k] <= desired ==> supported[k] <= r
    } else {
        forall|k: int| 0 <= k < supported.len() && 0 < supported[k] ==> r <= supported[k]
    }
}

/// Chooses the polling rate to write: the exact rate or the highest supported rate below it; if the
/// request is below every supported rate, the lowest one; `None` when no positive rate is supported.
pub fn normalize_polling_rate(desired: u32, supported: &[u32]) -> (r: Option<u32>)
    ensures
        r is None <==> forall|k: int| 0 <= k < supported@.len() ==> supported@[k] == 0,
        r matches Some(v) ==> is_chosen_rate(v, desired, supported@),
{
    let mut below: Option<u32> = None;
    let mut lowest: Option<u32> = None;
    let mut i: usize = 0;
    while i < supported.len()
        invariant
            i <= supported.len(),
            lowest is None <==> forall|k: int| 0 <= k < i ==> supported@[k] == 0,
            lowest matches Some(l) ==> l > 0 && supported@.contains(l) && forall|k: int| 0 <= k < i && 0 < supported@[k] ==> l <= supported@[k],
            below is None <==> forall|k: int| 0 <= k < i ==> !(0 < #[trigger] supported@[k] <= desired),
            below matches Some(b) ==> 0 < b <= desired && supported@.contains(b) && forall|k: int| 0 <= k < i && 0 < supported@[k] <= desired ==> supported@[k] <= b,
        decreases supported.len() - i,
    {
        let rate = supported[i];
        proof { assert(supported@.contains(rate)) by { assert(supported@[i as int] == rate); } }
        if rate > 0 {
            match lowest {
                None => { lowest = Some(rate); },
                Some(l) => { if rate < l { lowest = Some(rate); } },
            }
            if rate <= desired {
                match below {
                    None => { below = Some(rate); },
                    Some(b) => { if rate > b { below = Some(rate); } },
                }
            }
        }
        i = i + 1;
    }
    match below {
        Some(b) => Some(b),
        None => lowest,
    }
}

/// A detected device as the selection sees it.
#[derive(Debug, Clone, PartialEq, Eq)]
pub struct SelectionFixture {
    pub instance_id: String,
    pub controllable: bool,
}

/// The device at `i` is the first controllable one.
pub open spec fn first_controllable(devices: Seq<SelectionFixture>, i: int) -> bool {
    &&& 0 <= i < devices.len()
    &&& devices[i].controllable
    &&& forall|k: int| 0 <= k < i ==> !devices[k].controllable
}

/// Two controllable devices with different physical identities are present.
pub open spec fn ambiguous_selection(devices: Seq<SelectionFixture>) -> bool {
    exists|a: int, b: int|
        0 <= a < devices.len() && 0 <= b < devices.len() && devices[a].controllable && devices[b].controllable
            && devices[a].instance_id@ != devices[b].instance_id@
}

/// Selects the one controllable physical mouse: interfaces of one device (same instance id) count
/// once; none gives `Ok(None)`; two different devices are refused.
pub fn select_unique_controllable(devices: &[SelectionFixture]) -> (r: Result<Option<usize>, String>)
    ensures
        r matches Ok(None) <==> forall|k: int| 0 <= k < devices@.len() ==> !devices@[k].controllable,
        r matches Ok(Some(i)) ==> first_controllable(devices@, i as int),
        r is Err <==> ambiguous_selection(devices@),
        r matches Err(e) ==> e@ == "Multiple controllable gaming mice were detected."@,
{
    let mut first: Option<usize> = None;
    let mut i: usize = 0;
    while i < devices.len()
        invariant
            i <= devices.len(),
            first is None <==> forall|k: int| 0 <= k < i ==> !devices@[k].controllable,
            first matches Some(f) ==> first_controllable(devices@, f as int) && f < i,
            first matches Some(f) ==> forall|k: int| 0 <= k < i && devices@[k].controllable ==> devices@[k].instance_id@ == devices@[f as int].instance_id@,
        decreases devices.len() - i,
    {
        if devices[i].controllable {
            match first {
                None => {
                    first = Some(i);
                },
                Some(f) => {
                    if !str_eq(devices[i].instance_id.as_str(), devices[f].instance_id.as_str()) {
                        proof {
                            assert(ambiguous_selection(devices@)) by {
                                assert(devices@[i as int].controllable && devices@[f as int].controllable);
                            }
                        }
                        return Err(String::from_str("Multiple controllable gaming mice were detected."));
                    }
                },
            }
        }
        i = i + 1;
    }
    proof {
        if ambiguous_selection(devices@) {
            let (a, b) = choose|a: int, b: int|
                0 <= a < devices@.len() && 0 <= b < devices@.len() && devices@[a].controllable && devices@[b].controllable
                    && devices@[a].instance_id@ != devices@[b].instance_id@;
            assert(first is Some);
        }
    }
    Ok(first)
}

/// The smallest gap between neighbouring values of a sorted list.
pub open spec fn min_gap(values: Seq<u32>, n: int) -> int
    decreases n,
{
    if n <= 1 {
        0
    } else if n == 2 {
        values[1] - values[0]
    } else {
        let rest = min_gap(values, n - 1);
        let last = values[n - 1] - values[n - 2];
        if last < rest {
            last
        } else {
            rest
        }
    }
}

/// Summarises a sorted DPI list as (first, last, smallest gap of at least 1), with 100 for an empty list.
pub fn summarize_dpi_values(values: &[u32]) -> (r: (u32, u32, u32))
    requires
        forall|i: int, j: int| 0 <= i <= j < values@.len() ==> values@[i] <= values@[j],
    ensures
        r.0 == (if values@.len() > 0 { values@[0] } else { 100 }),
        r.1 == (if values@.len() > 0 { values@.last() } else { r.0 }),
        r.2 == (if min_gap(values@, values@.len() as int) >= 1 { min_gap(values@, values@.len() as int) } else { 1 }),
{
    let minimum = if values.len() > 0 { values[0] } else { 100 };
    let maximum = if values.len() > 0 { values[values.len() - 1] } else { minimum };
    if values.len() < 2 {
        return (minimum, maximum, 1);
    }
    let mut gap: u32 = values[1] - values[0];
    let mut i: usize = 2;
    while i < values.len()
        invariant
            2 <= i <= values.len(),
            gap == min_gap(values@, i as int),
            forall|a: int, b: int| 0 <= a <= b < values@.len() ==> values@[a] <= values@[b],
        decreases values.len() - i,
    {
        let d = values[i] - values[i - 1];
        if d < gap {
            gap = d;
        }
        i = i + 1;
    }
    (minimum, maximum, if gap >= 1 { gap } else { 1 })
}

/// What the library can do with a mouse.
#[derive(Debug, Clone, PartialEq, Eq)]
pub struct MouseCapabilities {
    pub can_read_dpi: bool,
    pub can_apply_dpi: bool,
    pub can_read_polling_rate: bool,
    pub can_apply_polling_rate: bool,
    pub can_verify: bool,
    pub dpi: Option<DpiCapabilities>,
    pub polling_rates_hz: Vec<u32>,
    pub reason: Option<String>,
}

impl MouseCapabilities {
    /// Nothing can be done, for `reason`.
    pub fn unsupported(reason: &str) -> (r: Self)
        ensures
            !r.can_read_dpi && !r.can_apply_dpi && !r.can_read_polling_rate && !r.can_apply_polling_rate && !r.can_verify,
            r.dpi is None,
            r.polling_rates_hz@.len() == 0,
            r.reason matches Some(s) && s@ == reason@,
    {
        MouseCapabilities {
            can_read_dpi: false,
            can_apply_dpi: false,
            can_read_polling_rate: false,
            can_apply_polling_rate: false,
            can_verify: false,
            dpi: None,
            polling_rates_hz: Vec::new(),
            reason: Some(String::from_str(reason)),
        }
    }
}

/// What was found about one physical mouse.
#[derive(Debug, Clone, PartialEq, Eq)]
pub struct MouseDeviceDiagnostics {
    pub instance_id: String,
    pub vendor_id: String,
    pub product_id: String,
    pub manufacturer: String,
    pub model: String,
    pub connection: String,
    pub hid_usage: String,
    pub selected_adapter: String,
    pub selected: bool,
    pub capabilities: MouseCapabilities,
}

/// What was found about the mice of this computer and the last operation.
#[derive(Debug, Clone)]
pub struct MouseDiagnostics {
    pub devices: Vec<MouseDeviceDiagnostics>,
    pub probe_errors: Vec<String>,
    pub selected_instance_id: Option<String>,
    pub selection_ambiguous: bool,
    pub current_dpi: Option<u32>,
    pub requested_dpi: Option<u32>,
    pub applied_dpi: Option<u32>,
    pub current_polling_rate_hz: Option<u32>,
    pub requested_polling_rate_hz: Option<u32>,
    pub applied_polling_rate_hz: Option<u32>,
    pub verification_result: Option<String>,
    pub backup_result: Option<String>,
    pub restore_result: Option<String>,
}

impl Default for MouseDiagnostics {
    fn default() -> (r: Self)
        ensures
            r.devices@.len() == 0 && r.probe_errors@.len() == 0,
            r.selected_instance_id is None && !r.selection_ambiguous,
            r.current_dpi is None && r.requested_dpi is None && r.applied_dpi is None,
            r.current_polling_rate_hz is None && r.requested_polling_rate_hz is None && r.applied_polling_rate_hz is None,
            r.verification_result is None && r.backup_result is None && r.restore_result is None,
    {
        MouseDiagnostics {
            devices: Vec::new(),
            probe_errors: Vec::new(),
            selected_instance_id: None,
            selection_ambiguous: false,
            current_dpi: None,
            requested_dpi: None,
            applied_dpi: None,
            current_polling_rate_hz: None,
            requested_polling_rate_hz: None,
            applied_polling_rate_hz: None,
            verification_result: None,
            backup_result: None,
            restore_result: None,
        }
    }
}

/// The answer of a mouse command.
#[derive(Debug)]
pub struct MouseCommandResponse {
    pub state: String,
    pub message: String,
    pub details: Vec<String>,
    pub retryable: bool,
    pub payload: Option<MousePayload>,
    pub diagnostics: Option<MouseDiagnostics>,
    pub backup_token: Option<String>,
}

impl MouseCommandResponse {
    /// The answer on a platform without mouse support.
    pub fn unsupported() -> (r: Self)
        ensures
            unsupported_response(r),
    {
        MouseCommandResponse {
            state: String::from_str("unsupported"),
            message: String::from_str("Mouse hardware functions are unsupported on this platform."),
            details: Vec::new(),
            retryable: false,
            payload: None,
            diagnostics: None,
            backup_token: None,
        }
    }
}

/// The answer on a platform without mouse support.
pub open spec fn unsupported_response(r: MouseCommandResponse) -> bool {
    &&& r.state@ == "unsupported"@
    &&& r.message@ == "Mouse hardware functions are unsupported on this platform."@
    &&& r.details@.len() == 0
    &&& !r.retryable
    &&& r.payload is None
    &&& r.diagnostics is None
    &&& r.backup_token is None
}

/// Mouse capture on a platform without mouse support.
pub fn capture() -> (r: MouseCommandResponse)
    ensures
        unsupported_response(r),
{
    MouseCommandResponse::unsupported()
}

/// Mouse apply on a platform without mouse support.
pub fn apply(_payload: MousePayload) -> (r: MouseCommandResponse)
    ensures
        unsupported_response(r),
{
    MouseCommandResponse::unsupported()
}

/// Mouse diagnostics on a platform without mouse support.
pub fn diagnostics() -> (r: MouseCommandResponse)
    ensures
        unsupported_response(r),
{
    MouseCommandResponse::unsupported()
}

/// Mouse restore on a platform without mouse support.
pub fn restore(_backup_token: Option<String>) -> (r: MouseCommandResponse)
    ensures
        unsupported_response(r),
{
    MouseCommandResponse::unsupported()
}

/// A response may be retried exactly when it is a warning or an error.
pub open spec fn retryable_state(state: Seq<char>) -> bool {
    state == "warning"@ || state == "error"@
}

/// A mouse answer; it may be retried when it is a warning or an error.
pub fn response(state: &str, message: &str, details: Vec<String>, diagnostics: Option<MouseDiagnostics>, payload: Option<MousePayload>, backup_token: Option<String>) -> (r: MouseCommandResponse)
    ensures
        r.state@ == state@,
        r.message@ == message@,
        r.details == details,
        r.retryable == retryable_state(state@),
        r.payload == payload,
        r.diagnostics == diagnostics,
        r.backup_token == backup_token,
{
    let retryable = str_eq(state, "warning") || str_eq(state, "error");
    MouseCommandResponse {
        state: String::from_str(state),
        message: String::from_str(message),
        details,
        retryable,
        payload,
        diagnostics,
        backup_token,
    }
}

fn copy_string(s: &String) -> (r: String)
    ensures
        r@ == s@,
{
    let c = chars_of(s.as_str());
    string_of(c.as_slice())
}

fn copy_opt(s: &Option<String>) -> (r: Option<String>)
    ensures
        match s { Some(a) => r matches Some(b) && b@ == a@, None => r is None },
{
    match s {
        Some(a) => Some(copy_string(a)),
        None => None,
    }
}

/// Two optional strings are equal by content.
pub open spec fn same_opt(a: Option<String>, b: Option<String>) -> bool {
    match (a, b) {
        (Some(x), Some(y)) => x@ == y@,
        (None, None) => true,
        _ => false,
    }
}

fn opt_eq(a: &Option<String>, b: &Option<String>) -> (r: bool)
    ensures
        r == same_opt(*a, *b),
{
    match (a, b) {
        (Some(x), Some(y)) => str_eq(x.as_str(), y.as_str()),
        (None, None) => true,
        _ => false,
    }
}

/// The diagnostics of the same selected mouse keep what the last operation recorded: requested
/// and applied values and the verification, backup and restore results.
pub fn merge_last(current: &mut MouseDiagnostics, last: Option<&MouseDiagnostics>)
    ensures
        match last {
            Some(l) if same_opt(l.selected_instance_id, old(current).selected_instance_id) => {
                &&& final(current).requested_dpi == l.requested_dpi
                &&& final(current).applied_dpi == l.applied_dpi
                &&& final(current).requested_polling_rate_hz == l.requested_polling_rate_hz
                &&& final(current).applied_polling_rate_hz == l.applied_polling_rate_hz
                &&& same_opt(final(current).verification_result, l.verification_result)
                &&& same_opt(final(current).backup_result, l.backup_result)
                &&& same_opt(final(current).restore_result, l.restore_result)
                &&& final(current).devices == old(current).devices
                &&& final(current).probe_errors == old(current).probe_errors
                &&& final(current).selected_instance_id == old(current).selected_instance_id
                &&& final(current).selection_ambiguous == old(current).selection_ambiguous
                &&& final(current).current_dpi == old(current).current_dpi
                &&& final(current).current_polling_rate_hz == old(current).current_polling_rate_hz
            },
            _ => *final(current) == *old(current),
        },
{
    if let Some(l) = last {
        if opt_eq(&l.selected_instance_id, &current.selected_instance_id) {
            current.requested_dpi = l.requested_dpi;
            current.applied_dpi = l.applied_dpi;
            current.requested_polling_rate_hz = l.requested_polling_rate_hz;
            current.applied_polling_rate_hz = l.applied_polling_rate_hz;
            current.verification_result = copy_opt(&l.verification_result);
            current.backup_result = copy_opt(&l.backup_result);
            current.restore_result = copy_opt(&l.restore_result);
        }
    }
}

/// The instruction for setting the mouse by hand: "<dpi> DPI", then " / <rate> Hz" when a rate
/// is saved.
pub open spec fn manual_instruction(p: MousePayload) -> Seq<char> {
    "Если автоматическое применение не сработало, выставьте в G HUB: "@ + decimal(p.dpi as nat) + " DPI"@
        + match p.polling_rate_hz {
            Some(rate) => " / "@ + decimal(rate as nat) + " Hz"@,
            None => Seq::empty(),
        }
}

/// Some detected device is a Logitech one.
pub open spec fn has_logitech(devices: Seq<MouseDeviceDiagnostics>) -> bool {
    exists|i: int| 0 <= i < devices.len() && #[trigger] devices[i].vendor_id@ == "046D"@
}

/// The note about G HUB shown when a Logitech mouse is present.
pub open spec fn ghub_note() -> Seq<char> {
    "Logitech G HUB управляет настройками мыши, но не гарантирует доступ к ним для другого приложения. Проверьте выбранный профиль/режим встроенной памяти G HUB."@
}

/// The answer when the settings could not be applied automatically: a warning whose details hold
/// the manual instruction (when a payload is given), the reason, a G HUB note when a Logitech
/// mouse is present, and the probe errors. The diagnostics record the reason, and a reason that
/// mentions "Multiple" marks the selection ambiguous.
pub fn manual_response(diagnostic: MouseDiagnostics, payload: Option<&MousePayload>, reason: &str) -> (r: MouseCommandResponse)
    ensures
        r.state@ == "warning"@,
        r.message@ == "Настройки мыши не применены автоматически."@,
        r.retryable,
        r.payload is None && r.backup_token is None,
        strings_view(r.details@) == (match payload { Some(p) => seq![manual_instruction(*p)], None => Seq::empty() })
            + seq![reason@]
            + (if has_logitech(diagnostic.devices@) { seq![ghub_note()] } else { Seq::empty() })
            + strings_view(diagnostic.probe_errors@),
        r.diagnostics matches Some(d) && {
            &&& d.selection_ambiguous == (diagnostic.selection_ambiguous || contains_sub(reason@, "Multiple"@))
            &&& d.verification_result matches Some(v) && v@ == reason@
            &&& d.devices == diagnostic.devices && d.probe_errors == diagnostic.probe_errors
            &&& d.selected_instance_id == diagnostic.selected_instance_id
            &&& d.current_dpi == diagnostic.current_dpi && d.requested_dpi == diagnostic.requested_dpi
            &&& d.applied_dpi == diagnostic.applied_dpi
            &&& d.current_polling_rate_hz == diagnostic.current_polling_rate_hz
            &&& d.requested_polling_rate_hz == diagnostic.requested_polling_rate_hz
            &&& d.applied_polling_rate_hz == diagnostic.applied_polling_rate_hz
            &&& d.backup_result == diagnostic.backup_result && d.restore_result == diagnostic.restore_result
        },
{
    let mut diagnostic = diagnostic;
    let rc = chars_of(reason);
    let multiple = contains_str(rc.as_slice(), "Multiple");
    diagnostic.selection_ambiguous = diagnostic.selection_ambiguous || multiple;
    diagnostic.verification_result = Some(String::from_str(reason));
    let mut details: Vec<String> = Vec::new();
    match payload {
        Some(p) => {
            let mut v = chars_of("Если автоматическое применение не сработало, выставьте в G HUB: ");
            let d = decimal_chars(p.dpi as u64);
            extend_chars(&mut v, d.as_slice());
            push_str_chars(&mut v, " DPI");
            match p.polling_rate_hz {
                Some(rate) => {
                    push_str_chars(&mut v, " / ");
                    let rd = decimal_chars(rate as u64);
                    extend_chars(&mut v, rd.as_slice());
                    push_str_chars(&mut v, " Hz");
                },
                None => {},
            }
            proof { assert(v@ =~= manual_instruction(*p)); }
            details.push(string_of(v.as_slice()));
        },
        None => {},
    }
    details.push(String::from_str(reason));
    let mut logitech = false;
    let mut i: usize = 0;
    while i < diagnostic.devices.len()
        invariant
            i <= diagnostic.devices@.len(),
            logitech == exists|q: int| 0 <= q < i && #[trigger] diagnostic.devices@[q].vendor_id@ == "046D"@,
        decreases diagnostic.devices.len() - i,
    {
        if str_eq(diagnostic.devices[i].vendor_id.as_str(), "046D") {
            logitech = true;
        }
        i = i + 1;
    }
    if logitech {
        details.push(String::from_str("Logitech G HUB управляет настройками мыши, но не гарантирует доступ к ним для другого приложения. Проверьте выбранный профиль/режим встроенной памяти G HUB."));
    }
    let ghost head = strings_view(details@);
    let mut k: usize = 0;
    while k < diagnostic.probe_errors.len()
        invariant
            k <= diagnostic.probe_errors@.len(),
            strings_view(details@) == head + strings_view(diagnostic.probe_errors@).take(k as int),
        decreases diagnostic.probe_errors.len() - k,
    {
        let ghost prev = strings_view(details@);
        details.push(copy_string(&diagnostic.probe_errors[k]));
        proof {
            assert(strings_view(details@) =~= prev.push(diagnostic.probe_errors@[k as int]@));
            assert(strings_view(diagnostic.probe_errors@).take(k + 1) =~= strings_view(diagnostic.probe_errors@).take(k as int).push(diagnostic.probe_errors@[k as int]@));
        }
        k = k + 1;
    }
    proof {
        assert(strings_view(diagnostic.probe_errors@).take(diagnostic.probe_errors@.len() as int) =~= strings_view(diagnostic.probe_errors@));
        assert(strings_view(details@) =~= (match payload { Some(p) => seq![manual_instruction(*p)], None => Seq::<Seq<char>>::empty() })
            + seq![reason@]
            + (if logitech { seq![ghub_note()] } else { Seq::<Seq<char>>::empty() })
            + strings_view(diagnostic.probe_errors@));
    }
    response("warning", "Настройки мыши не применены автоматически.", details, Some(diagnostic), None, None)
}

/// A text made of a literal prefix, the decimal digits of `n` and a literal suffix.
fn with_number(prefix: &str, n: u64, suffix: &str) -> (r: String)
    ensures
        r@ == prefix@ + decimal(n as nat) + suffix@,
{
    let mut v = chars_of(prefix);
    let d = decimal_chars(n);
    extend_chars(&mut v, d.as_slice());
    push_str_chars(&mut v, suffix);
    proof { assert(v@ =~= prefix@ + decimal(n as nat) + suffix@); }
    string_of(v.as_slice())
}

/// A text made of a literal prefix, "0x" and `n` upper-case hex digits of `v`, and a suffix.
fn with_hex(prefix: &str, v: u64, n: usize, suffix: &str) -> (r: String)
    ensures
        r@ == prefix@ + "0x"@ + hex_digits(v as nat, n as nat) + suffix@,
{
    let mut t = chars_of(prefix);
    push_str_chars(&mut t, "0x");
    let d = hex_chars(v, n);
    extend_chars(&mut t, d.as_slice());
    push_str_chars(&mut t, suffix);
    proof { assert(t@ =~= prefix@ + "0x"@ + hex_digits(v as nat, n as nat) + suffix@); }
    string_of(t.as_slice())
}

/// The HID++ report interval (in milliseconds) of a polling rate.
pub open spec fn spec_rate_interval(rate: u32) -> Option<u8> {
    if rate == 1000 { Some(1u8) } else if rate == 500 { Some(2u8) } else if rate == 250 { Some(4u8) } else if rate == 125 { Some(8u8) } else { None }
}

/// The HID++ report interval of a polling rate, or the error for a rate HID++ cannot express.
pub fn rate_to_interval(rate: u32) -> (r: Result<u8, String>)
    ensures
        match spec_rate_interval(rate) {
            Some(i) => r == Ok::<u8, String>(i),
            None => r matches Err(e) && e@ == decimal(rate as nat) + " Hz is not represented by HID++ 0x8060."@,
        },
{
    match rate {
        1000 => Ok(1),
        500 => Ok(2),
        250 => Ok(4),
        125 => Ok(8),
        _ => {
            let mut v = decimal_chars(rate as u64);
            push_str_chars(&mut v, " Hz is not represented by HID++ 0x8060.");
            Err(string_of(v.as_slice()))
        },
    }
}

/// The polling rate of a HID++ report interval.
pub open spec fn spec_interval_rate(interval: u8) -> Option<u32> {
    if interval == 1 { Some(1000u32) } else if interval == 2 { Some(500u32) } else if interval == 4 { Some(250u32) } else if interval == 8 { Some(125u32) } else { None }
}

/// The polling rate of a HID++ report interval, or the error for an unknown interval.
pub fn interval_to_rate(interval: u8) -> (r: Result<u32, String>)
    ensures
        match spec_interval_rate(interval) {
            Some(rate) => r == Ok::<u32, String>(rate),
            None => r matches Err(e) && e@ == "Unknown HID++ report interval "@ + decimal(interval as nat) + "."@,
        },
{
    match interval {
        1 => Ok(1000),
        2 => Ok(500),
        4 => Ok(250),
        8 => Ok(125),
        _ => Err(with_number("Unknown HID++ report interval ", interval as u64, ".")),
    }
}

/// The Razer polling code of a rate: the modern protocol knows 125 to 8000 Hz, the legacy one
/// 125, 500 and 1000 Hz.
pub open spec fn spec_razer_code(rate: u32, modern: bool) -> Option<u8> {
    if modern {
        if rate == 8000 { Some(1u8) } else if rate == 4000 { Some(2u8) } else if rate == 2000 { Some(4u8) }
        else if rate == 1000 { Some(8u8) } else if rate == 500 { Some(0x10u8) } else if rate == 250 { Some(0x20u8) }
        else if rate == 125 { Some(0x40u8) } else { None }
    } else {
        if rate == 1000 { Some(1u8) } else if rate == 500 { Some(2u8) } else if rate == 125 { Some(8u8) } else { None }
    }
}

/// The Razer polling code of a rate, or the error for a rate the protocol lacks.
pub fn razer_polling_code(rate: u32, modern: bool) -> (r: Result<u8, String>)
    ensures
        match spec_razer_code(rate, modern) {
            Some(c) => r == Ok::<u8, String>(c),
            None => r matches Err(e) && e@ == (if modern { "Unsupported Razer polling rate "@ } else { "Unsupported legacy Razer polling rate "@ })
                + decimal(rate as nat) + "."@,
        },
{
    if modern {
        match rate {
            8000 => Ok(1),
            4000 => Ok(2),
            2000 => Ok(4),
            1000 => Ok(8),
            500 => Ok(0x10),
            250 => Ok(0x20),
            125 => Ok(0x40),
            _ => Err(with_number("Unsupported Razer polling rate ", rate as u64, ".")),
        }
    } else {
        match rate {
            1000 => Ok(1),
            500 => Ok(2),
            125 => Ok(8),
            _ => Err(with_number("Unsupported legacy Razer polling rate ", rate as u64, ".")),
        }
    }
}

/// The polling rate of a Razer polling code.
pub open spec fn spec_razer_rate(code: u8, modern: bool) -> Option<u32> {
    if modern {
        if code == 1 { Some(8000u32) } else if code == 2 { Some(4000u32) } else if code == 4 { Some(2000u32) }
        else if code == 8 { Some(1000u32) } else if code == 0x10 { Some(500u32) } else if code == 0x20 { Some(250u32) }
        else if code == 0x40 { Some(125u32) } else { None }
    } else {
        if code == 1 { Some(1000u32) } else if code == 2 { Some(500u32) } else if code == 8 { Some(125u32) } else { None }
    }
}

/// The polling rate of a Razer polling code, or the error for an unknown code.
pub fn razer_polling_from_code(code: u8, modern: bool) -> (r: Result<u32, String>)
    ensures
        match spec_razer_rate(code, modern) {
            Some(rate) => r == Ok::<u32, String>(rate),
            None => r matches Err(e) && e@ == (if modern { "Unknown Razer polling code "@ } else { "Unknown legacy Razer polling code "@ })
                + "0x"@ + hex_digits(code as nat, 2) + "."@,
        },
{
    if modern {
        match code {
            1 => Ok(8000),
            2 => Ok(4000),
            4 => Ok(2000),
            8 => Ok(1000),
            0x10 => Ok(500),
            0x20 => Ok(250),
            0x40 => Ok(125),
            _ => Err(with_hex("Unknown Razer polling code ", code as u64, 2, ".")),
        }
    } else {
        match code {
            1 => Ok(1000),
            2 => Ok(500),
            8 => Ok(125),
            _ => Err(with_hex("Unknown legacy Razer polling code ", code as u64, 2, ".")),
        }
    }
}

/// The bytes of a HID++ long request: report 0x11, the device index, the feature, the function
/// in the high nibble with software id 0x0A, then up to 16 parameter bytes; 20 bytes in all.
pub open spec fn hidpp_report_ok(r: Seq<u8>, device_index: u8, feature: u8, function: u8, params: Seq<u8>) -> bool {
    let count = if params.len() < 16 { params.len() } else { 16 };
    &&& r.len() == 20
    &&& r[0] == 0x11u8 && r[1] == device_index && r[2] == feature
    &&& r[3] == (function % 16) * 16 + 10
    &&& forall|k: int| 4 <= k < 20 ==> #[trigger] r[k] == (if k - 4 < count { params[k - 4] } else { 0u8 })
}

/// The request report of a HID++ call.
pub fn hidpp_report(device_index: u8, feature: u8, function: u8, params: &[u8]) -> (r: Vec<u8>)
    ensures
        hidpp_report_ok(r@, device_index, feature, function, params@),
{
    let mut r: Vec<u8> = Vec::new();
    r.push(0x11);
    r.push(device_index);
    r.push(feature);
    let f: u8 = (function << 4) | 0x0A;
    proof {
        assert((function << 4) | 0x0Au8 == (function % 16) * 16 + 10) by (bit_vector);
    }
    r.push(f);
    let count: usize = if params.len() < 16 { params.len() } else { 16 };
    let mut k: usize = 4;
    while k < 20
        invariant
            4 <= k <= 20,
            r@.len() == k,
            count == (if params@.len() < 16 { params@.len() } else { 16 }),
            r@[0] == 0x11u8 && r@[1] == device_index && r@[2] == feature,
            r@[3] == (function % 16) * 16 + 10,
            forall|j: int| 4 <= j < k ==> #[trigger] r@[j] == (if j - 4 < count { params@[j - 4] } else { 0u8 }),
        decreases 20 - k,
    {
        if k - 4 < count {
            r.push(params[k - 4]);
        } else {
            r.push(0);
        }
        k = k + 1;
    }
    r
}

/// How one HID++ answer is taken: skipped, a device error, or the reply.
pub enum HidppAnswer {
    /// Nothing to use; wait for the next answer.
    Skip,
    /// The device reported an error.
    DeviceError(String),
    /// The reply to the request.
    Reply(Vec<u8>),
}

/// Classifies `count` bytes of an answer to a request whose function byte was `function_byte`:
/// an empty read is skipped; report 0x8F or 0xFF is a device error with the code at byte 4 (0
/// when missing); a reply for the same device, feature and function is taken whole; anything else
/// is skipped.
pub fn hidpp_answer(device_index: u8, feature: u8, function_byte: u8, answer: &[u8], count: usize) -> (r: HidppAnswer)
    requires
        count <= answer@.len(),
    ensures
        count == 0 ==> r is Skip,
        count > 0 && (answer@[0] == 0x8Fu8 || answer@[0] == 0xFFu8) ==> (r matches HidppAnswer::DeviceError(e)
            && e@ == "HID++ device error "@ + "0x"@ + hex_digits((if answer@.len() > 4 { answer@[4] } else { 0u8 }) as nat, 2) + "."@),
        count > 0 && !(answer@[0] == 0x8Fu8 || answer@[0] == 0xFFu8) && count >= 4
            && answer@[1] == device_index && answer@[2] == feature && answer@[3] == function_byte
            ==> (r matches HidppAnswer::Reply(v) && v@ == answer@.take(count as int)),
        count > 0 && !(answer@[0] == 0x8Fu8 || answer@[0] == 0xFFu8) && !(count >= 4
            && answer@[1] == device_index && answer@[2] == feature && answer@[3] == function_byte)
            ==> r is Skip,
{
    if count == 0 {
        return HidppAnswer::Skip;
    }
    if answer[0] == 0x8F || answer[0] == 0xFF {
        let code: u8 = if answer.len() > 4 { answer[4] } else { 0 };
        return HidppAnswer::DeviceError(with_hex("HID++ device error ", code as u64, 2, "."));
    }
    if count >= 4 && answer[1] == device_index && answer[2] == feature && answer[3] == function_byte {
        let mut v: Vec<u8> = Vec::new();
        let mut i: usize = 0;
        while i < count
            invariant
                i <= count <= answer@.len(),
                v@ == answer@.take(i as int),
            decreases count - i,
        {
            v.push(answer[i]);
            i = i + 1;
            proof { assert(v@ =~= answer@.take(i as int)); }
        }
        return HidppAnswer::Reply(v);
    }
    HidppAnswer::Skip
}

/// The feature index in a HID++ root reply (byte 4), or the error when it is missing or zero.
pub fn hidpp_feature_index(feature_id: u16, response: &[u8]) -> (r: Result<u8, String>)
    ensures
        response@.len() > 4 && response@[4] != 0 ==> r == Ok::<u8, String>(response@[4]),
        !(response@.len() > 4 && response@[4] != 0) ==> (r matches Err(e)
            && e@ == "HID++ feature "@ + "0x"@ + hex_digits(feature_id as nat, 4) + " is unavailable."@),
{
    if response.len() > 4 && response[4] != 0 {
        Ok(response[4])
    } else {
        Err(with_hex("HID++ feature ", feature_id as u64, 4, " is unavailable."))
    }
}

/// The DPI in a HID++ get-DPI reply (bytes 5 and 6, big-endian).
pub fn hidpp_dpi_from(response: &[u8]) -> (r: Result<u32, String>)
    ensures
        response@.len() < 7 ==> (r matches Err(e) && e@ == "HID++ DPI response was truncated."@),
        response@.len() >= 7 ==> r == Ok::<u32, String>((response@[5] * 256 + response@[6]) as u32),
{
    if response.len() < 7 {
        return Err(String::from_str("HID++ DPI response was truncated."));
    }
    Ok((response[5] as u32) * 256 + response[6] as u32)
}

/// The parameters of a HID++ set-DPI call: sensor 0 and the DPI big-endian; DPI above 65535 is
/// refused.
pub fn hidpp_dpi_params(dpi: u32) -> (r: Result<Vec<u8>, String>)
    ensures
        dpi > 0xFFFF ==> (r matches Err(e) && e@ == "DPI exceeds HID++ range."@),
        dpi <= 0xFFFF ==> (r matches Ok(v) && v@ == seq![0u8, (dpi / 256) as u8, (dpi % 256) as u8]),
{
    if dpi > 0xFFFF {
        return Err(String::from_str("DPI exceeds HID++ range."));
    }
    let mut v: Vec<u8> = Vec::new();
    v.push(0);
    v.push((dpi / 256) as u8);
    v.push((dpi % 256) as u8);
    proof { assert(v@ =~= seq![0u8, (dpi / 256) as u8, (dpi % 256) as u8]); }
    Ok(v)
}

/// A HID++ set-DPI reply must echo the DPI in bytes 5 and 6.
pub fn hidpp_dpi_echoed(response: &[u8], dpi: u32) -> (r: Result<(), String>)
    requires
        dpi <= 0xFFFF,
    ensures
        r is Ok <==> response@.len() >= 7 && response@[5] == dpi / 256 && response@[6] == dpi % 256,
        r matches Err(e) ==> e@ == "HID++ did not echo the requested DPI."@,
{
    if response.len() < 7 || response[5] as u32 != dpi / 256 || response[6] as u32 != dpi % 256 {
        return Err(String::from_str("HID++ did not echo the requested DPI."));
    }
    Ok(())
}

/// The polling rates that the flags byte of a HID++ report-rate reply lists, fastest first.
pub open spec fn rates_of_flags(flags: u8) -> Seq<u32> {
    (if flags & 1 != 0 { seq![1000u32] } else { Seq::empty() })
    + (if flags & 2 != 0 { seq![500u32] } else { Seq::empty() })
    + (if flags & 4 != 0 { seq![250u32] } else { Seq::empty() })
    + (if flags & 8 != 0 { seq![125u32] } else { Seq::empty() })
}

/// The supported polling rates in a HID++ report-rate reply (byte 4 holds the flags).
pub fn hidpp_rates_from(response: &[u8]) -> (r: Result<Vec<u32>, String>)
    ensures
        response@.len() <= 4 ==> (r matches Err(e) && e@ == "HID++ report-rate response was truncated."@),
        response@.len() > 4 ==> (r matches Ok(v) && v@ == rates_of_flags(response@[4])),
{
    if response.len() <= 4 {
        return Err(String::from_str("HID++ report-rate response was truncated."));
    }
    let flags = response[4];
    let mut v: Vec<u32> = Vec::new();
    if flags & 1 != 0 { v.push(1000); }
    if flags & 2 != 0 { v.push(500); }
    if flags & 4 != 0 { v.push(250); }
    if flags & 8 != 0 { v.push(125); }
    proof { assert(v@ =~= rates_of_flags(flags)); }
    Ok(v)
}

/// The polling rate in a HID++ get-rate reply (byte 4 holds the interval).
pub fn hidpp_rate_from(response: &[u8]) -> (r: Result<u32, String>)
    ensures
        response@.len() <= 4 ==> (r matches Err(e) && e@ == "HID++ polling response was truncated."@),
        response@.len() > 4 ==> match spec_interval_rate(response@[4]) {
            Some(rate) => r == Ok::<u32, String>(rate),
            None => r matches Err(e) && e@ == "Unknown HID++ report interval "@ + decimal(response@[4] as nat) + "."@,
        },
{
    if response.len() <= 4 {
        return Err(String::from_str("HID++ polling response was truncated."));
    }
    interval_to_rate(response[4])
}

/// A HID++ set-rate reply must echo the interval in byte 4.
pub fn hidpp_interval_echoed(response: &[u8], interval: u8) -> (r: Result<(), String>)
    ensures
        r is Ok <==> response@.len() > 4 && response@[4] == interval,
        r matches Err(e) ==> e@ == "HID++ did not echo the requested report interval."@,
{
    if response.len() > 4 && response[4] == interval {
        Ok(())
    } else {
        Err(String::from_str("HID++ did not echo the requested report interval."))
    }
}

/// The XOR of some bytes.
pub open spec fn xor_fold(s: Seq<u8>) -> u8
    decreases s.len(),
{
    if s.len() == 0 { 0 } else { xor_fold(s.drop_last()) ^ s.last() }
}

fn xor_range(v: &[u8], a: usize, b: usize) -> (r: u8)
    requires
        a <= b <= v@.len(),
    ensures
        r == xor_fold(v@.subrange(a as int, b as int)),
{
    let mut x: u8 = 0;
    let mut i: usize = a;
    while i < b
        invariant
            a <= i <= b <= v@.len(),
            x == xor_fold(v@.subrange(a as int, i as int)),
        decreases b - i,
    {
        proof { assert(v@.subrange(a as int, i + 1).drop_last() =~= v@.subrange(a as int, i as int)); }
        x = x ^ v[i];
        i = i + 1;
    }
    x
}

/// The bytes of a Razer feature report: 90 bytes, transaction id 0x1F at byte 1, the argument
/// count (at most 80) at byte 5, class and command at bytes 6 and 7, the arguments from byte 8, and
/// at byte 88 the XOR of bytes 2 to 87.
pub open spec fn razer_report_ok(r: Seq<u8>, class: u8, command: u8, args: Seq<u8>) -> bool {
    let n = if args.len() < 80 { args.len() } else { 80 };
    &&& r.len() == 90
    &&& r[0] == 0u8 && r[1] == 0x1Fu8 && r[2] == 0u8 && r[3] == 0u8 && r[4] == 0u8
    &&& r[5] == n && r[6] == class && r[7] == command
    &&& forall|k: int| 8 <= k < 88 ==> #[trigger] r[k] == (if k - 8 < n { args[k - 8] } else { 0u8 })
    &&& r[88] == xor_fold(r.subrange(2, 88))
    &&& r[89] == 0u8
}

/// The request report of a Razer feature call.
pub fn razer_report(class: u8, command: u8, args: &[u8]) -> (r: Vec<u8>)
    ensures
        razer_report_ok(r@, class, command, args@),
{
    let n: usize = if args.len() < 80 { args.len() } else { 80 };
    let mut r: Vec<u8> = Vec::new();
    r.push(0);
    r.push(0x1F);
    r.push(0);
    r.push(0);
    r.push(0);
    r.push(n as u8);
    r.push(class);
    r.push(command);
    let mut k: usize = 8;
    while k < 88
        invariant
            8 <= k <= 88,
            r@.len() == k,
            n == (if args@.len() < 80 { args@.len() } else { 80 }),
            r@[0] == 0u8 && r@[1] == 0x1Fu8 && r@[2] == 0u8 && r@[3] == 0u8 && r@[4] == 0u8,
            r@[5] == n && r@[6] == class && r@[7] == command,
            forall|j: int| 8 <= j < k ==> #[trigger] r@[j] == (if j - 8 < n { args@[j - 8] } else { 0u8 }),
        decreases 88 - k,
    {
        if k - 8 < n {
            r.push(args[k - 8]);
        } else {
            r.push(0);
        }
        k = k + 1;
    }
    let crc = xor_range(r.as_slice(), 2, 88);
    let ghost before = r@;
    r.push(crc);
    r.push(0);
    proof {
        assert(r@.subrange(2, 88) =~= before.subrange(2, 88));
        assert forall|j: int| 8 <= j < 88 implies #[trigger] r@[j] == (if j - 8 < n { args@[j - 8] } else { 0u8 }) by {
            assert(r@[j] == before[j]);
        }
    }
    r
}

/// A Razer reply is taken when it is complete (89 bytes read), its checksum matches, its status
/// is 0x02 and it answers the same class and command.
pub fn razer_check(response: &[u8], count: usize, class: u8, command: u8) -> (r: Result<(), String>)
    requires
        response@.len() == 90,
    ensures
        count < 89 ==> (r matches Err(e) && e@ == "Razer feature response was truncated."@),
        count >= 89 && xor_fold(response@.subrange(2, 88)) != response@[88]
            ==> (r matches Err(e) && e@ == "Razer feature response failed CRC validation."@),
        count >= 89 && xor_fold(response@.subrange(2, 88)) == response@[88] && response@[0] != 2
            ==> (r matches Err(e) && e@ == "Razer device returned status "@ + "0x"@ + hex_digits(response@[0] as nat, 2) + "."@),
        count >= 89 && xor_fold(response@.subrange(2, 88)) == response@[88] && response@[0] == 2
            && (response@[6] != class || response@[7] != command)
            ==> (r matches Err(e) && e@ == "Razer response command mismatch."@),
        r is Ok <==> count >= 89 && xor_fold(response@.subrange(2, 88)) == response@[88] && response@[0] == 2
            && response@[6] == class && response@[7] == command,
{
    if count < 89 {
        return Err(String::from_str("Razer feature response was truncated."));
    }
    let crc = xor_range(response, 2, 88);
    if crc != response[88] {
        return Err(String::from_str("Razer feature response failed CRC validation."));
    }
    if response[0] != 0x02 {
        return Err(with_hex("Razer device returned status ", response[0] as u64, 2, "."));
    }
    if response[6] != class || response[7] != command {
        return Err(String::from_str("Razer response command mismatch."));
    }
    Ok(())
}

/// The DPI in a Razer get-DPI reply (bytes 9 and 10, big-endian).
pub fn razer_dpi_from(response: &[u8]) -> (r: u32)
    requires
        response@.len() == 90,
    ensures
        r == response@[9] * 256 + response@[10],
{
    (response[9] as u32) * 256 + response[10] as u32
}

/// The arguments of a Razer set-DPI call: profile 1, then the DPI for both axes big-endian; DPI
/// above 65535 is refused.
pub fn razer_dpi_args(dpi: u32) -> (r: Result<Vec<u8>, String>)
    ensures
        dpi > 0xFFFF ==> (r matches Err(e) && e@ == "DPI exceeds Razer protocol range."@),
        dpi <= 0xFFFF ==> (r matches Ok(v) && v@ == seq![1u8, (dpi / 256) as u8, (dpi % 256) as u8, (dpi / 256) as u8, (dpi % 256) as u8, 0u8, 0u8]),
{
    if dpi > 0xFFFF {
        return Err(String::from_str("DPI exceeds Razer protocol range."));
    }
    let high = (dpi / 256) as u8;
    let low = (dpi % 256) as u8;
    let mut v: Vec<u8> = Vec::new();
    v.push(1);
    v.push(high);
    v.push(low);
    v.push(high);
    v.push(low);
    v.push(0);
    v.push(0);
    proof { assert(v@ =~= seq![1u8, (dpi / 256) as u8, (dpi % 256) as u8, (dpi / 256) as u8, (dpi % 256) as u8, 0u8, 0u8]); }
    Ok(v)
}

/// The polling rate in a Razer get-polling reply: byte 9 for the modern protocol, 8 for the
/// legacy one.
pub fn razer_polling_from(response: &[u8], modern: bool) -> (r: Result<u32, String>)
    requires
        response@.len() == 90,
    ensures
        match spec_razer_rate(if modern { response@[9] } else { response@[8] }, modern) {
            Some(rate) => r == Ok::<u32, String>(rate),
            None => r is Err,
        },
{
    let code = if modern { response[9] } else { response[8] };
    razer_polling_from_code(code, modern)
}

/// The 16-bit big-endian words of a reply from byte `i` on, up to the first zero word; a last
/// odd byte is ignored.
pub open spec fn dpi_words(r: Seq<u8>, i: int) -> Seq<u16>
    decreases r.len() - i,
{
    if i < 0 || i + 1 >= r.len() {
        Seq::empty()
    } else if r[i] as int * 256 + r[i + 1] as int == 0 {
        Seq::empty()
    } else {
        seq![(r[i] as int * 256 + r[i + 1] as int) as u16] + dpi_words(r, i + 2)
    }
}

/// The listed DPI values (words up to 0xE000), in order.
pub open spec fn listed_dpis(raw: Seq<u16>) -> Seq<u32>
    decreases raw.len(),
{
    if raw.len() == 0 {
        Seq::empty()
    } else if raw.last() > 0xE000 {
        listed_dpis(raw.drop_last())
    } else {
        listed_dpis(raw.drop_last()).push(raw.last() as u32)
    }
}

/// The DPI step that the last word above 0xE000 gives, if any.
pub open spec fn dpi_step(raw: Seq<u16>) -> Option<u32>
    decreases raw.len(),
{
    if raw.len() == 0 {
        None
    } else if raw.last() > 0xE000 {
        Some((raw.last() - 0xE000) as u32)
    } else {
        dpi_step(raw.drop_last())
    }
}

/// A DPI value a HID++ mouse accepts: with a step and listed values, every value from the first
/// listed one up to the last in steps; else the listed values.
pub open spec fn dpi_member(raw: Seq<u16>, x: u32) -> bool {
    let vs = listed_dpis(raw);
    if dpi_step(raw) is Some && vs.len() > 0 {
        vs[0] <= x <= vs.last() && (x - vs[0]) % (dpi_step(raw)->0 as int) == 0
    } else {
        vs.contains(x)
    }
}

/// Strictly increasing.
pub open spec fn increasing(v: Seq<u32>) -> bool {
    forall|a: int, b: int| 0 <= a < b < v.len() ==> #[trigger] v[a] < #[trigger] v[b]
}

proof fn lemma_same_residue(a: int, b: int, s: int)
    requires
        s > 0,
        a <= b < a + s,
        a % s == 0,
        b % s == 0,
    ensures
        a == b,
{
    vstd::arithmetic::div_mod::lemma_fundamental_div_mod(a, s);
    vstd::arithmetic::div_mod::lemma_fundamental_div_mod(b, s);
    let qa = a / s;
    let qb = b / s;
    assert(s * qa <= s * qb) by (nonlinear_arith)
        requires a == s * qa, b == s * qb, a <= b;
    assert(s * qb < s * (qa + 1)) by (nonlinear_arith)
        requires a == s * qa, b == s * qb, b < a + s;
    assert(qa <= qb) by (nonlinear_arith)
        requires s > 0, s * qa <= s * qb;
    assert(qb < qa + 1) by (nonlinear_arith)
        requires s > 0, s * qb < s * (qa + 1);
}

fn sorted_insert(v: &mut Vec<u32>, x: u32)
    requires
        increasing(old(v)@),
    ensures
        increasing(final(v)@),
        forall|y: u32| #[trigger] final(v)@.contains(y) <==> (old(v)@.contains(y) || y == x),
{
    let mut p: usize = 0;
    while p < v.len() && v[p] < x
        invariant
            p <= v@.len(),
            v@ == old(v)@,
            increasing(v@),
            forall|a: int| 0 <= a < p ==> #[trigger] v@[a] < x,
        decreases v.len() - p,
    {
        p = p + 1;
    }
    if p < v.len() && v[p] == x {
        return;
    }
    let ghost old_v = v@;
    v.insert(p, x);
    proof {
        assert forall|a: int, b: int| 0 <= a < b < v@.len() implies #[trigger] v@[a] < #[trigger] v@[b] by {
            if b < p {
            } else if a < p && b == p {
            } else if a < p && b > p {
                assert(v@[b] == old_v[b - 1]);
            } else if a == p {
                assert(v@[b] == old_v[b - 1]);
                assert(x < old_v[p as int]);
                if b - 1 > p {
                    assert(old_v[p as int] < old_v[b - 1]);
                }
            } else {
                assert(v@[a] == old_v[a - 1]);
                assert(v@[b] == old_v[b - 1]);
            }
        }
        assert forall|y: u32| #[trigger] v@.contains(y) <==> (old_v.contains(y) || y == x) by {
            if v@.contains(y) {
                let a = choose|a: int| 0 <= a < v@.len() && v@[a] == y;
                if a < p {
                    assert(old_v[a] == y);
                } else if a > p {
                    assert(old_v[a - 1] == y);
                }
            }
            if old_v.contains(y) {
                let a = choose|a: int| 0 <= a < old_v.len() && old_v[a] == y;
                if a < p {
                    assert(v@[a] == y);
                } else {
                    assert(v@[a + 1] == y);
                }
            }
            if y == x {
                assert(v@[p as int] == x);
            }
        }
    }
}

/// The DPI values in a HID++ DPI-list reply, ascending and without repeats; see `dpi_member`.
pub fn hidpp_dpi_values_from(response: &[u8]) -> (r: Result<Vec<u32>, String>)
    ensures
        dpi_words(response@, 4).len() == 0 ==> (r matches Err(e) && e@ == "HID++ returned an empty DPI capability list."@),
        dpi_words(response@, 4).len() > 0 ==> (r matches Ok(v) && increasing(v@)
            && forall|x: u32| v@.contains(x) <==> dpi_member(dpi_words(response@, 4), x)),
{
    let mut raw: Vec<u16> = Vec::new();
    let mut i: usize = 4;
    proof { assert(raw@ + dpi_words(response@, 4) =~= dpi_words(response@, 4)); }
    while i < response.len() && i + 1 < response.len() && !((response[i] as u32) * 256 + response[i + 1] as u32 == 0)
        invariant
            4 <= i,
            raw@ + dpi_words(response@, i as int) == dpi_words(response@, 4),
        decreases response.len() - i,
    {
        let w: u16 = ((response[i] as u32) * 256 + response[i + 1] as u32) as u16;
        let ghost before = raw@;
        raw.push(w);
        proof {
            assert(dpi_words(response@, i as int) == seq![w] + dpi_words(response@, i + 2));
            assert(raw@ + dpi_words(response@, i + 2) =~= before + dpi_words(response@, i as int));
        }
        i = i + 2;
    }
    proof {
        assert(dpi_words(response@, i as int).len() == 0);
        assert(raw@ =~= dpi_words(response@, 4));
    }
    if raw.len() == 0 {
        return Err(String::from_str("HID++ returned an empty DPI capability list."));
    }
    let ghost rv = raw@;
    let mut values: Vec<u32> = Vec::new();
    let mut step: Option<u32> = None;
    let mut k: usize = 0;
    while k < raw.len()
        invariant
            k <= raw@.len(),
            rv == raw@,
            values@ == listed_dpis(rv.take(k as int)),
            step == dpi_step(rv.take(k as int)),
            forall|q: int| 0 <= q < values@.len() ==> #[trigger] values@[q] <= 0xE000,
            step matches Some(st) ==> 1 <= st <= 0x1FFF,
        decreases raw.len() - k,
    {
        proof {
            assert(rv.take(k + 1).drop_last() =~= rv.take(k as int));
            assert(rv.take(k + 1).last() == raw@[k as int]);
        }
        let w = raw[k];
        if w > 0xE000 {
            step = Some((w - 0xE000) as u32);
        } else {
            values.push(w as u32);
        }
        k = k + 1;
    }
    proof { assert(rv.take(raw@.len() as int) =~= rv); }
    let mut out: Vec<u32> = Vec::new();
    match step {
        Some(st) if values.len() > 0 => {
            let first = values[0];
            let last = values[values.len() - 1];
            let mut x: u32 = first;
            proof {
                assert(0int % (st as int) == 0) by { vstd::arithmetic::div_mod::lemma_small_mod(0nat, st as nat); }
            }
            while x <= last
                invariant
                    1 <= st <= 0x1FFF,
                    first <= x,
                    last <= 0xE000,
                    x == first || x <= last + st,
                    (x - first) % (st as int) == 0,
                    increasing(out@),
                    forall|q: int| 0 <= q < out@.len() ==> #[trigger] out@[q] < x,
                    forall|y: u32| out@.contains(y) <==> (first <= y < x && (y - first) % (st as int) == 0),
                decreases (last + st) as int - x as int,
            {
                let ghost prev = out@;
                out.push(x);
                proof {
                    assert forall|y: u32| out@.contains(y) <==> (first <= y < x + st && (y - first) % (st as int) == 0) by {
                        if out@.contains(y) {
                            let a = choose|a: int| 0 <= a < out@.len() && out@[a] == y;
                            if a < prev.len() {
                                assert(prev.contains(y));
                            }
                        }
                        if first <= y < x + st && (y - first) % (st as int) == 0 {
                            if y < x {
                                assert(prev.contains(y));
                                let a = choose|a: int| 0 <= a < prev.len() && prev[a] == y;
                                assert(out@[a] == y);
                            } else {
                                lemma_same_residue(x - first, y - first, st as int);
                                assert(out@[prev.len() as int] == y);
                            }
                        }
                    }
                    vstd::arithmetic::div_mod::lemma_mod_add_multiples_vanish((x - first) as int, st as int);
                }
                x = x + st;
            }
            proof {
                assert(listed_dpis(rv) == values@);
                assert(dpi_step(rv) == Some(st));
                assert forall|y: u32| #[trigger] out@.contains(y) <==> dpi_member(rv, y) by {
                    if out@.contains(y) && y > last {
                        lemma_same_residue(y - first, x - first, st as int);
                    }
                }
            }
        },
        _ => {
            let mut q: usize = 0;
            while q < values.len()
                invariant
                    q <= values@.len(),
                    increasing(out@),
                    forall|y: u32| out@.contains(y) <==> values@.take(q as int).contains(y),
                decreases values.len() - q,
            {
                let ghost before = out@;
                sorted_insert(&mut out, values[q]);
                proof {
                    assert forall|y: u32| values@.take(q + 1).contains(y) <==> (values@.take(q as int).contains(y) || y == values@[q as int]) by {
                        if values@.take(q + 1).contains(y) {
                            let a = choose|a: int| 0 <= a < q + 1 && #[trigger] values@.take(q + 1)[a] == y;
                            if a < q {
                                assert(values@.take(q as int)[a] == y);
                            }
                        }
                        if values@.take(q as int).contains(y) {
                            let a = choose|a: int| 0 <= a < q && #[trigger] values@.take(q as int)[a] == y;
                            assert(values@.take(q + 1)[a] == y);
                        }
                        if y == values@[q as int] {
                            assert(values@.take(q + 1)[q as int] == y);
                        }
                    }
                    assert forall|y: u32| #[trigger] out@.contains(y) <==> values@.take(q + 1).contains(y) by {
                        assert(out@.contains(y) <==> (before.contains(y) || y == values@[q as int]));
                        assert(before.contains(y) <==> values@.take(q as int).contains(y));
                    }
                }
                q = q + 1;
            }
            proof { assert(values@.take(values@.len() as int) =~= values@); }
        },
    }
    Ok(out)
}

/// A HID interface as the system lists it.
#[derive(Debug, Clone)]
pub struct Endpoint {
    pub path: String,
    pub vendor_id: u16,
    pub product_id: u16,
    pub manufacturer: String,
    pub product: String,
    pub usage_page: u16,
    pub usage: u16,
    pub interface_number: i32,
    pub instance_id: String,
    pub physical_key: String,
}

/// The first index at or after `i` where `m` occurs in `s`.
pub open spec fn first_occurrence(s: Seq<char>, m: Seq<char>, i: int) -> Option<int>
    decreases s.len() + 1 - i,
{
    if i < 0 || i + m.len() > s.len() {
        None
    } else if occurs_at(s, m, i) {
        Some(i)
    } else {
        first_occurrence(s, m, i + 1)
    }
}

/// `s` with each occurrence of `m` removed together with the two characters after it, first
/// occurrence first, until none is left.
pub open spec fn remove_marker(s: Seq<char>, m: Seq<char>) -> Seq<char>
    decreases s.len(),
{
    if m.len() == 0 {
        s
    } else {
        match first_occurrence(s, m, 0) {
            None => s,
            Some(i) => if 0 <= i && i + m.len() <= s.len() {
                let end = if i + m.len() + 2 <= s.len() { i + m.len() + 2 } else { s.len() as int };
                remove_marker(s.take(i) + s.skip(end), m)
            } else {
                s
            },
        }
    }
}

/// The key of a physical device from an interface path: lower-cased, cut at the interface class
/// GUID ("#{"), and without the collection ("&col") and interface ("&mi_") parts.
pub open spec fn spec_physical_key(path: Seq<char>) -> Seq<char> {
    let l = lower(path);
    let cut = match first_occurrence(l, "#{"@, 0) { Some(i) => l.take(i), None => l };
    remove_marker(remove_marker(cut, "&col"@), "&mi_"@)
}

proof fn lemma_first_occurrence(s: Seq<char>, m: Seq<char>, i: int)
    requires
        0 <= i,
    ensures
        first_occurrence(s, m, i) matches Some(k) ==> i <= k && k + m.len() <= s.len() && occurs_at(s, m, k),
    decreases s.len() + 1 - i,
{
    if i + m.len() <= s.len() && !occurs_at(s, m, i) {
        lemma_first_occurrence(s, m, i + 1);
    }
}

fn find_sub(s: &[char], m: &[char]) -> (r: Option<usize>)
    ensures
        match first_occurrence(s@, m@, 0) {
            Some(k) => r is Some && r->0 as int == k,
            None => r is None,
        },
{
    if m.len() == 0 {
        proof { assert(s@.subrange(0, 0) =~= m@); }
        return Some(0);
    }
    let mut i: usize = 0;
    while i <= s.len() && m.len() <= s.len() - i
        invariant
            m@.len() > 0,
            first_occurrence(s@, m@, 0) == first_occurrence(s@, m@, i as int),
        decreases s.len() + 1 - i,
    {
        if occurs_at_exec(s, m, i) {
            return Some(i);
        }
        i = i + 1;
    }
    None
}

fn remove_marker_chars(s: Vec<char>, m: &[char]) -> (r: Vec<char>)
    ensures
        r@ == remove_marker(s@, m@),
    decreases s@.len(),
{
    if m.len() == 0 {
        return s;
    }
    match find_sub(s.as_slice(), m) {
        None => s,
        Some(i) => {
            proof { lemma_first_occurrence(s@, m@, 0); }
            let end: usize = if s.len() - i >= 2 && m.len() <= s.len() - i - 2 { i + m.len() + 2 } else { s.len() };
            let mut t = sub_chars(s.as_slice(), 0, i);
            let rest = sub_chars(s.as_slice(), end, s.len());
            extend_chars(&mut t, rest.as_slice());
            proof { assert(t@ =~= s@.take(i as int) + s@.skip(end as int)); }
            remove_marker_chars(t, m)
        },
    }
}

/// The key of a physical device from an interface path; see `spec_physical_key`.
pub fn physical_key(path: &str) -> (r: String)
    ensures
        r@ == spec_physical_key(path@),
{
    let p = chars_of(path);
    let l = lower_chars(p.as_slice());
    let g = chars_of("#{");
    let cut = match find_sub(l.as_slice(), g.as_slice()) {
        Some(i) => {
            proof { lemma_first_occurrence(l@, g@, 0); }
            let c = sub_chars(l.as_slice(), 0, i);
            proof {
                assert(l@ == lower(path@));
                assert(g@ == "#{"@);
                assert(first_occurrence(lower(path@), "#{"@, 0) == Some(i as int));
                assert(c@ =~= lower(path@).take(i as int));
            }
            c
        },
        None => l,
    };
    let col = chars_of("&col");
    let mi = chars_of("&mi_");
    let a = remove_marker_chars(cut, col.as_slice());
    let b = remove_marker_chars(a, mi.as_slice());
    string_of(b.as_slice())
}

/// The anonymous id of a device: the first 8 bytes of the SHA-256 of its key, in lower-case hex.
pub open spec fn spec_short_hash(value: Seq<char>) -> Seq<char> {
    hex_lower(spec_sha256(vstd::utf8::encode_utf8(value)).take(8))
}

/// The anonymous id of a device key; see `spec_short_hash`.
pub fn short_hash(value: &str) -> (r: String)
    ensures
        r@ == spec_short_hash(value@),
{
    let bytes = value.as_bytes();
    let d = sha256(bytes);
    let mut first: Vec<u8> = Vec::new();
    let mut i: usize = 0;
    while i < 8
        invariant
            i <= 8,
            d@.len() == 32,
            first@ == d@.take(i as int),
        decreases 8 - i,
    {
        first.push(d[i]);
        i = i + 1;
        proof { assert(first@ =~= d@.take(i as int)); }
    }
    hex_lower_string(first.as_slice())
}

/// The vendors whose mice the library knows: Logitech, Razer and Lamzu.
pub open spec fn known_vendor(vendor_id: u16) -> bool {
    vendor_id == 0x046D || vendor_id == 0x1532 || vendor_id == 0x373E
}

/// An interface of a known vendor or a generic mouse (usage page 1, usage 2).
pub fn is_mouse_like(endpoint: &Endpoint) -> (r: bool)
    ensures
        r == (known_vendor(endpoint.vendor_id) || (endpoint.usage_page == 1 && endpoint.usage == 2)),
{
    endpoint.vendor_id == 0x046D || endpoint.vendor_id == 0x1532 || endpoint.vendor_id == 0x373E
        || (endpoint.usage_page == 1 && endpoint.usage == 2)
}

/// The adapter named for a device that cannot be controlled, and why.
pub open spec fn unsupported_adapter(vendor_id: u16) -> (Seq<char>, Seq<char>) {
    if vendor_id == 0x046D {
        ("LogitechMouseAdapter"@, "This endpoint did not expose the required HID++ Adjustable DPI feature."@)
    } else if vendor_id == 0x1532 {
        ("RazerMouseAdapter"@, "This Razer VID/PID is not in the implemented protocol matrix."@)
    } else if vendor_id == 0x373E {
        ("LamzuMouseAdapter"@, "Detection is available, but Lamzu has no public, independently verifiable DPI/polling protocol."@)
    } else {
        ("UnsupportedMouseAdapter"@, "No safe DPI/polling transport is implemented for this VID/PID."@)
    }
}

/// The connection a product name suggests.
pub open spec fn connection_of(product: Seq<char>) -> Seq<char> {
    if contains_sub(lower(product), "receiver"@) || contains_sub(lower(product), "wireless"@) { "wireless receiver"@ } else { "USB/HID"@ }
}

/// The diagnostics of a mouse interface that cannot be controlled.
pub fn unsupported_diagnostic(endpoint: &Endpoint) -> (r: MouseDeviceDiagnostics)
    ensures
        r.instance_id@ == endpoint.instance_id@,
        r.vendor_id@ == hex_digits(endpoint.vendor_id as nat, 4),
        r.product_id@ == hex_digits(endpoint.product_id as nat, 4),
        r.manufacturer@ == endpoint.manufacturer@,
        r.model@ == endpoint.product@,
        r.connection@ == connection_of(endpoint.product@),
        r.hid_usage@ == "usage "@ + hex_digits(endpoint.usage_page as nat, 4) + ":"@ + hex_digits(endpoint.usage as nat, 4)
            + ", interface "@ + signed_decimal(endpoint.interface_number as int),
        r.selected_adapter@ == unsupported_adapter(endpoint.vendor_id).0,
        !r.selected,
        !r.capabilities.can_read_dpi && !r.capabilities.can_apply_dpi && !r.capabilities.can_read_polling_rate
            && !r.capabilities.can_apply_polling_rate && !r.capabilities.can_verify,
        r.capabilities.dpi is None && r.capabilities.polling_rates_hz@.len() == 0,
        r.capabilities.reason matches Some(s) && s@ == unsupported_adapter(endpoint.vendor_id).1,
{
    let (adapter, reason) = if endpoint.vendor_id == 0x046D {
        ("LogitechMouseAdapter", "This endpoint did not expose the required HID++ Adjustable DPI feature.")
    } else if endpoint.vendor_id == 0x1532 {
        ("RazerMouseAdapter", "This Razer VID/PID is not in the implemented protocol matrix.")
    } else if endpoint.vendor_id == 0x373E {
        ("LamzuMouseAdapter", "Detection is available, but Lamzu has no public, independently verifiable DPI/polling protocol.")
    } else {
        ("UnsupportedMouseAdapter", "No safe DPI/polling transport is implemented for this VID/PID.")
    };
    let product = chars_of(endpoint.product.as_str());
    let lp = lower_chars(product.as_slice());
    let wireless = contains_str(lp.as_slice(), "receiver") || contains_str(lp.as_slice(), "wireless");
    let mut usage = chars_of("usage ");
    let up = hex_chars(endpoint.usage_page as u64, 4);
    extend_chars(&mut usage, up.as_slice());
    push_str_chars(&mut usage, ":");
    let u = hex_chars(endpoint.usage as u64, 4);
    extend_chars(&mut usage, u.as_slice());
    push_str_chars(&mut usage, ", interface ");
    let n = signed_decimal_chars(endpoint.interface_number);
    extend_chars(&mut usage, n.as_slice());
    proof {
        assert(usage@ =~= "usage "@ + hex_digits(endpoint.usage_page as nat, 4) + ":"@ + hex_digits(endpoint.usage as nat, 4)
            + ", interface "@ + signed_decimal(endpoint.interface_number as int));
    }
    let vid = hex_chars(endpoint.vendor_id as u64, 4);
    let pid = hex_chars(endpoint.product_id as u64, 4);
    MouseDeviceDiagnostics {
        instance_id: copy_string(&endpoint.instance_id),
        vendor_id: string_of(vid.as_slice()),
        product_id: string_of(pid.as_slice()),
        manufacturer: copy_string(&endpoint.manufacturer),
        model: copy_string(&endpoint.product),
        connection: if wireless { String::from_str("wireless receiver") } else { String::from_str("USB/HID") },
        hid_usage: string_of(usage.as_slice()),
        selected_adapter: String::from_str(adapter),
        selected: false,
        capabilities: MouseCapabilities::unsupported(reason),
    }
}

/// The text of an optional number as Rust's debug format writes it: "Some(n)" or "None".
pub open spec fn debug_option(v: Option<u32>) -> Seq<char> {
    match v { Some(n) => "Some("@ + decimal(n as nat) + ")"@, None => "None"@ }
}

/// A readback confirms the expected DPI, and the expected polling rate when one is expected.
pub fn verify_readback(dpi: u32, polling: Option<u32>, actual_dpi: u32, actual_polling: Option<u32>) -> (r: Result<(), String>)
    ensures
        actual_dpi != dpi ==> (r matches Err(e) && e@ == "DPI readback mismatch: expected "@ + decimal(dpi as nat) + ", got "@ + decimal(actual_dpi as nat) + "."@),
        actual_dpi == dpi && polling is Some && actual_polling != polling ==> (r matches Err(e)
            && e@ == "Polling readback mismatch: expected "@ + decimal(polling->0 as nat) + ", got "@ + debug_option(actual_polling) + "."@),
        r is Ok <==> actual_dpi == dpi && (polling is None || actual_polling == polling),
{
    if actual_dpi != dpi {
        let mut v = chars_of("DPI readback mismatch: expected ");
        extend_chars(&mut v, decimal_chars(dpi as u64).as_slice());
        push_str_chars(&mut v, ", got ");
        extend_chars(&mut v, decimal_chars(actual_dpi as u64).as_slice());
        push_str_chars(&mut v, ".");
        proof { assert(v@ =~= "DPI readback mismatch: expected "@ + decimal(dpi as nat) + ", got "@ + decimal(actual_dpi as nat) + "."@); }
        return Err(string_of(v.as_slice()));
    }
    if let Some(expected) = polling {
        if actual_polling != Some(expected) {
            let mut v = chars_of("Polling readback mismatch: expected ");
            extend_chars(&mut v, decimal_chars(expected as u64).as_slice());
            push_str_chars(&mut v, ", got ");
            match actual_polling {
                Some(n) => {
                    push_str_chars(&mut v, "Some(");
                    extend_chars(&mut v, decimal_chars(n as u64).as_slice());
                    push_str_chars(&mut v, ")");
                },
                None => push_str_chars(&mut v, "None"),
            }
            push_str_chars(&mut v, ".");
            proof { assert(v@ =~= "Polling readback mismatch: expected "@ + decimal(expected as nat) + ", got "@ + debug_option(actual_polling) + "."@); }
            return Err(string_of(v.as_slice()));
        }
    }
    Ok(())
}

/// An optional text is present and equal to `t`.
pub open spec fn opt_text_is(o: Option<String>, t: Seq<char>) -> bool {
    o matches Some(s) && s@ == t
}

/// The state and message of a diagnostics refresh: a warning when the selection is ambiguous or no
/// mouse is selected, else success.
pub open spec fn diagnostics_outcome(d: MouseDiagnostics) -> (Seq<char>, Seq<char>) {
    if d.selection_ambiguous {
        ("warning"@, "Обнаружено несколько управляемых мышей — безопасный выбор не выполнен."@)
    } else if d.selected_instance_id is Some {
        ("success"@, "Мышь обнаружена, текущие параметры считаны."@)
    } else {
        ("warning"@, "Совместимая мышь не найдена. Откройте сведения ниже."@)
    }
}

/// The answer of a diagnostics refresh; see `diagnostics_outcome`.
pub fn diagnostics_response(diagnostic: MouseDiagnostics) -> (r: MouseCommandResponse)
    ensures
        r.state@ == diagnostics_outcome(diagnostic).0,
        r.message@ == diagnostics_outcome(diagnostic).1,
        r.details@.len() == 0,
        r.retryable == retryable_state(diagnostics_outcome(diagnostic).0),
        r.diagnostics == Some(diagnostic),
        r.payload is None && r.backup_token is None,
{
    let (state, message) = if diagnostic.selection_ambiguous {
        ("warning", "Обнаружено несколько управляемых мышей — безопасный выбор не выполнен.")
    } else if diagnostic.selected_instance_id.is_some() {
        ("success", "Мышь обнаружена, текущие параметры считаны.")
    } else {
        ("warning", "Совместимая мышь не найдена. Откройте сведения ниже.")
    };
    response(state, message, Vec::new(), Some(diagnostic), None, None)
}

fn number_line(prefix: &str, n: u32, suffix: &str) -> (r: String)
    ensures
        r@ == prefix@ + decimal(n as nat) + suffix@,
{
    let mut v = chars_of(prefix);
    extend_chars(&mut v, decimal_chars(n as u64).as_slice());
    push_str_chars(&mut v, suffix);
    proof { assert(v@ =~= prefix@ + decimal(n as nat) + suffix@); }
    string_of(v.as_slice())
}

/// The answer of a capture after the settings were read: the payload holds them; a warning when
/// the polling rate could not be read.
pub fn capture_response(diagnostic: MouseDiagnostics, dpi: u32, polling: Option<u32>, captured_at: String) -> (r: MouseCommandResponse)
    ensures
        r.state@ == (if polling is Some { "success"@ } else { "warning"@ }),
        r.message@ == (if polling is Some { "Текущие DPI и частота опроса мыши сохранены."@ } else { "DPI мыши сохранён; частоту опроса считать не удалось."@ }),
        strings_view(r.details@) == seq!["DPI: "@ + decimal(dpi as nat), match polling {
            Some(rate) => "Polling rate: "@ + decimal(rate as nat) + " Hz"@,
            None => "Частота опроса: недоступна"@,
        }],
        r.retryable == (polling is None),
        r.payload matches Some(p) && p.schema_version == 1 && p.captured_at == captured_at && p.dpi == dpi && p.polling_rate_hz == polling,
        r.diagnostics matches Some(d) && d.current_dpi == Some(dpi) && d.current_polling_rate_hz == polling
            && opt_text_is(d.verification_result, "Current hardware settings were read from the selected mouse."@),
        r.backup_token is None,
{
    proof {
        reveal_strlit("success");
        reveal_strlit("warning");
        assert("success"@[0] != "warning"@[0]);
        reveal_strlit("error");
    }
    let mut diagnostic = diagnostic;
    diagnostic.current_dpi = Some(dpi);
    diagnostic.current_polling_rate_hz = polling;
    diagnostic.verification_result = Some(String::from_str("Current hardware settings were read from the selected mouse."));
    let payload = MousePayload { schema_version: 1, captured_at, dpi, polling_rate_hz: polling };
    let mut details: Vec<String> = Vec::new();
    details.push(number_line("DPI: ", dpi, ""));
    match polling {
        Some(rate) => details.push(number_line("Polling rate: ", rate, " Hz")),
        None => details.push(String::from_str("Частота опроса: недоступна")),
    }
    proof {
        reveal_strlit("DPI: ");
        reveal_strlit("");
        assert(strings_view(details@) =~= seq!["DPI: "@ + decimal(dpi as nat), match polling {
            Some(rate) => "Polling rate: "@ + decimal(rate as nat) + " Hz"@,
            None => "Частота опроса: недоступна"@,
        }]);
    }
    if polling.is_some() {
        response("success", "Текущие DPI и частота опроса мыши сохранены.", details, Some(diagnostic), Some(payload), None)
    } else {
        response("warning", "DPI мыши сохранён; частоту опроса считать не удалось.", details, Some(diagnostic), Some(payload), None)
    }
}

/// What an apply will write: the DPI and polling rate the mouse supports nearest to the saved
/// ones, and the warnings about what differs.
pub struct ApplyPlan {
    pub dpi: u32,
    pub polling: Option<u32>,
    pub warnings: Vec<String>,
}

/// The warnings of an apply plan: a changed DPI, then a changed or unsupported polling rate.
pub open spec fn plan_warnings(requested_dpi: u32, dpi: u32, requested_rate: Option<u32>, rate: Option<u32>) -> Seq<Seq<char>> {
    (if dpi != requested_dpi {
        seq!["Requested: "@ + decimal(requested_dpi as nat) + " DPI; applied nearest supported value: "@ + decimal(dpi as nat) + " DPI."@]
    } else {
        Seq::empty()
    }) + match requested_rate {
        Some(req) => match rate {
            Some(applied) => if applied != req {
                seq!["Requested: "@ + decimal(req as nat) + " Hz; maximum/nearest supported: "@ + decimal(applied as nat) + " Hz."@]
            } else {
                Seq::empty()
            },
            None => seq!["Polling rate is unsupported; set it manually to "@ + decimal(req as nat) + " Hz."@],
        },
        None => Seq::empty(),
    }
}

/// Plans an apply on a mouse with `capabilities`; `None` when its DPI cannot be set.
pub fn plan_apply(payload: &MousePayload, capabilities: &MouseCapabilities) -> (r: Option<ApplyPlan>)
    ensures
        capabilities.dpi is None ==> r is None,
        capabilities.dpi matches Some(caps) ==> {
            &&& (caps.values@.len() == 0 && (caps.minimum > caps.maximum || caps.step == 0)) <==> r is None
            &&& r matches Some(plan) ==> {
                &&& (caps.values@.len() > 0 ==> caps.values@.contains(plan.dpi)
                    && forall|k: int| 0 <= k < caps.values@.len() ==> closer_or_equal(plan.dpi, caps.values@[k], payload.dpi))
                &&& (caps.values@.len() == 0 ==> plan.dpi == stepped_dpi(payload.dpi, caps.minimum, caps.maximum, caps.step))
                &&& match payload.polling_rate_hz {
                    None => plan.polling is None,
                    Some(req) => (plan.polling is None <==> forall|k: int| 0 <= k < capabilities.polling_rates_hz@.len() ==> capabilities.polling_rates_hz@[k] == 0)
                        && (plan.polling matches Some(v) ==> is_chosen_rate(v, req, capabilities.polling_rates_hz@)),
                }
                &&& strings_view(plan.warnings@) == plan_warnings(payload.dpi, plan.dpi, payload.polling_rate_hz, plan.polling)
            }
        },
{
    let caps = match &capabilities.dpi {
        Some(c) => c,
        None => { return None; },
    };
    let dpi = match normalize_desired_dpi(payload.dpi, caps) {
        Some(v) => v,
        None => { return None; },
    };
    let polling = match payload.polling_rate_hz {
        Some(rate) => normalize_polling_rate(rate, capabilities.polling_rates_hz.as_slice()),
        None => None,
    };
    let mut warnings: Vec<String> = Vec::new();
    if dpi != payload.dpi {
        let mut v = chars_of("Requested: ");
        extend_chars(&mut v, decimal_chars(payload.dpi as u64).as_slice());
        push_str_chars(&mut v, " DPI; applied nearest supported value: ");
        extend_chars(&mut v, decimal_chars(dpi as u64).as_slice());
        push_str_chars(&mut v, " DPI.");
        proof { assert(v@ =~= "Requested: "@ + decimal(payload.dpi as nat) + " DPI; applied nearest supported value: "@ + decimal(dpi as nat) + " DPI."@); }
        warnings.push(string_of(v.as_slice()));
    }
    let ghost first = strings_view(warnings@);
    match payload.polling_rate_hz {
        Some(req) => match polling {
            Some(applied) => {
                if applied != req {
                    let mut v = chars_of("Requested: ");
                    extend_chars(&mut v, decimal_chars(req as u64).as_slice());
                    push_str_chars(&mut v, " Hz; maximum/nearest supported: ");
                    extend_chars(&mut v, decimal_chars(applied as u64).as_slice());
                    push_str_chars(&mut v, " Hz.");
                    proof { assert(v@ =~= "Requested: "@ + decimal(req as nat) + " Hz; maximum/nearest supported: "@ + decimal(applied as nat) + " Hz."@); }
                    warnings.push(string_of(v.as_slice()));
                }
            },
            None => {
                warnings.push(number_line("Polling rate is unsupported; set it manually to ", req, " Hz."));
            },
        },
        None => {},
    }
    proof {
        assert(strings_view(warnings@) =~= plan_warnings(payload.dpi, dpi, payload.polling_rate_hz, polling));
    }
    Some(ApplyPlan { dpi, polling, warnings })
}

/// The answer of an apply after the writes, from the final readback: a DPI other than planned
/// falls back to manual settings ("DPI verification failed."); otherwise the DPI counts as applied, the polling rate when the
/// readback confirms it (else a warning), and the state follows `apply_outcome_state`.
pub fn apply_readback(payload: &MousePayload, diagnostic: MouseDiagnostics, plan: ApplyPlan, verified_dpi: u32, verified_rate: Option<u32>, backup_token: Option<String>) -> (r: MouseCommandResponse)
    ensures
        verified_dpi != plan.dpi ==> (r.state@ == "warning"@ && r.message@ == "Настройки мыши не применены автоматически."@
            && (r.diagnostics matches Some(d) && opt_text_is(d.verification_result, "DPI verification failed."@))),
        verified_dpi == plan.dpi ==> {
            let confirmed = plan.polling is Some && verified_rate == plan.polling;
            let warnings = strings_view(plan.warnings@) + (if plan.polling is Some && !confirmed {
                seq!["Polling-rate readback did not confirm "@ + decimal(plan.polling->0 as nat) + " Hz."@]
            } else {
                Seq::empty()
            });
            &&& r.state@ == (if warnings.len() == 0 && (payload.polling_rate_hz is None || confirmed) { "success"@ } else { "warning"@ })
            &&& r.message@ == (if warnings.len() == 0 { "Mouse settings were applied and verified."@ } else { "Mouse DPI was applied, with limitations."@ })
            &&& strings_view(r.details@) == seq!["Requested DPI: "@ + decimal(payload.dpi as nat), "Applied and verified DPI: "@ + decimal(verified_dpi as nat)] + warnings
            &&& r.backup_token == backup_token
            &&& (r.diagnostics matches Some(d) && d.current_dpi == Some(verified_dpi) && d.current_polling_rate_hz == verified_rate
                && d.applied_dpi == Some(verified_dpi)
                && d.applied_polling_rate_hz == (if confirmed { verified_rate } else { diagnostic.applied_polling_rate_hz })
                && opt_text_is(d.verification_result, "DPI hardware readback confirmed; polling is reported separately."@))
        },
        r.payload is None,
{
    let mut diagnostic = diagnostic;
    diagnostic.current_dpi = Some(verified_dpi);
    diagnostic.current_polling_rate_hz = verified_rate;
    if verified_dpi != plan.dpi {
        return manual_response(diagnostic, Some(payload), "DPI verification failed.");
    }
    diagnostic.applied_dpi = Some(verified_dpi);
    let mut warnings = plan.warnings;
    let ghost w0 = strings_view(warnings@);
    let mut confirmed = false;
    if let Some(expected) = plan.polling {
        if verified_rate == Some(expected) {
            diagnostic.applied_polling_rate_hz = verified_rate;
            confirmed = true;
        } else {
            warnings.push(number_line("Polling-rate readback did not confirm ", expected, " Hz."));
        }
    }
    proof {
        assert(strings_view(warnings@) =~= w0 + (if plan.polling is Some && !confirmed {
            seq!["Polling-rate readback did not confirm "@ + decimal(plan.polling->0 as nat) + " Hz."@]
        } else {
            Seq::<Seq<char>>::empty()
        }));
    }
    diagnostic.verification_result = Some(String::from_str("DPI hardware readback confirmed; polling is reported separately."));
    let state = apply_outcome_state(true, payload.polling_rate_hz.is_some(), payload.polling_rate_hz.is_none() || confirmed, warnings.len() > 0);
    let mut details: Vec<String> = Vec::new();
    details.push(number_line("Requested DPI: ", payload.dpi, ""));
    details.push(number_line("Applied and verified DPI: ", verified_dpi, ""));
    let ghost head = strings_view(details@);
    let empty = warnings.len() == 0;
    let mut k: usize = 0;
    while k < warnings.len()
        invariant
            k <= warnings@.len(),
            strings_view(details@) == head + strings_view(warnings@).take(k as int),
        decreases warnings.len() - k,
    {
        let ghost prev = strings_view(details@);
        details.push(copy_string(&warnings[k]));
        proof {
            assert(strings_view(details@) =~= prev.push(warnings@[k as int]@));
            assert(strings_view(warnings@).take(k + 1) =~= strings_view(warnings@).take(k as int).push(warnings@[k as int]@));
        }
        k = k + 1;
    }
    proof {
        reveal_strlit("");
        assert(strings_view(warnings@).take(warnings@.len() as int) =~= strings_view(warnings@));
        assert(head =~= seq!["Requested DPI: "@ + decimal(payload.dpi as nat), "Applied and verified DPI: "@ + decimal(verified_dpi as nat)]);
    }
    let message = if empty { "Mouse settings were applied and verified." } else { "Mouse DPI was applied, with limitations." };
    response(state, message, details, Some(diagnostic), None, backup_token)
}

/// The answer of a restore from the readback after the writes: success when the DPI and any
/// saved polling rate match the backup, else manual settings with the values read.
pub fn restore_readback(diagnostic: MouseDiagnostics, backup_dpi: u32, backup_polling: Option<u32>, dpi: u32, polling: Option<u32>) -> (r: MouseCommandResponse)
    ensures
        (dpi == backup_dpi && (backup_polling is None || polling == backup_polling)) ==> {
            &&& r.state@ == "success"@
            &&& r.message@ == "Pre-Game Passport mouse settings were restored and verified."@
            &&& strings_view(r.details@) == seq!["DPI: "@ + decimal(dpi as nat), match polling {
                Some(v) => "Polling rate: "@ + decimal(v as nat) + " Hz"@,
                None => "Polling rate was not present in the backup."@,
            }]
            &&& (r.diagnostics matches Some(d) && d.current_dpi == Some(dpi) && d.current_polling_rate_hz == polling
                && opt_text_is(d.restore_result, "Original settings restored and verified."@)
                && opt_text_is(d.verification_result, "Original settings restored and verified."@))
        },
        !(dpi == backup_dpi && (backup_polling is None || polling == backup_polling)) ==> (r.state@ == "warning"@
            && r.message@ == "Настройки мыши не применены автоматически."@
            && (r.diagnostics matches Some(d) && opt_text_is(d.verification_result,
                "Restore readback mismatch (DPI "@ + decimal(dpi as nat) + ", polling "@ + debug_option(polling) + ")."@))),
        r.payload is None && r.backup_token is None,
{
    if dpi == backup_dpi && (backup_polling.is_none() || polling == backup_polling) {
        let mut diagnostic = diagnostic;
        diagnostic.current_dpi = Some(dpi);
        diagnostic.current_polling_rate_hz = polling;
        diagnostic.restore_result = Some(String::from_str("Original settings restored and verified."));
        diagnostic.verification_result = Some(String::from_str("Original settings restored and verified."));
        let mut details: Vec<String> = Vec::new();
        details.push(number_line("DPI: ", dpi, ""));
        match polling {
            Some(v) => details.push(number_line("Polling rate: ", v, " Hz")),
            None => details.push(String::from_str("Polling rate was not present in the backup.")),
        }
        proof {
            reveal_strlit("");
            assert(strings_view(details@) =~= seq!["DPI: "@ + decimal(dpi as nat), match polling {
                Some(v) => "Polling rate: "@ + decimal(v as nat) + " Hz"@,
                None => "Polling rate was not present in the backup."@,
            }]);
        }
        return response("success", "Pre-Game Passport mouse settings were restored and verified.", details, Some(diagnostic), None, None);
    }
    let mut v = chars_of("Restore readback mismatch (DPI ");
    extend_chars(&mut v, decimal_chars(dpi as u64).as_slice());
    push_str_chars(&mut v, ", polling ");
    match polling {
        Some(n) => {
            push_str_chars(&mut v, "Some(");
            extend_chars(&mut v, decimal_chars(n as u64).as_slice());
            push_str_chars(&mut v, ")");
        },
        None => push_str_chars(&mut v, "None"),
    }
    push_str_chars(&mut v, ").");
    proof { assert(v@ =~= "Restore readback mismatch (DPI "@ + decimal(dpi as nat) + ", polling "@ + debug_option(polling) + ")."@); }
    let reason = string_of(v.as_slice());
    manual_response(diagnostic, None, reason.as_str())
}

/// A backup token names a file "mouse-….json" directly in the backup folder.
pub open spec fn spec_valid_backup_token(t: Seq<char>) -> bool {
    crate::text::has_prefix(t, "mouse-"@) && crate::text::has_suffix(t, ".json"@)
        && !contains_sub(t, "/"@) && !contains_sub(t, "\\"@)
}

/// Whether a backup token may be used as a file name.
pub fn valid_backup_token(token: &str) -> (r: bool)
    ensures
        r == spec_valid_backup_token(token@),
{
    let t = chars_of(token);
    crate::text::starts_with_str(t.as_slice(), "mouse-") && crate::text::ends_with_str(t.as_slice(), ".json")
        && !contains_str(t.as_slice(), "/") && !contains_str(t.as_slice(), "\\")
}

/// A DPI the mouse lists is kept exactly: among listed values the requested one is the only one
/// at least as close to itself as every other.
pub proof fn law_listed_dpi_is_kept(values: Seq<u32>, desired: u32, chosen: u32)
    requires
        values.contains(desired),
        values.contains(chosen),
        forall|k: int| 0 <= k < values.len() ==> closer_or_equal(chosen, values[k], desired),
    ensures
        chosen == desired,
{
    let k = choose|k: int| 0 <= k < values.len() && values[k] == desired;
    assert(closer_or_equal(chosen, values[k], desired));
}

/// A DPI that lies on a step of the range is kept exactly.
pub proof fn law_stepped_dpi_is_kept(desired: u32, min: u32, max: u32, step: u32)
    requires
        step > 0,
        min <= desired <= max,
        (desired - min) % (step as int) == 0,
    ensures
        stepped_dpi(desired, min, max, step) == desired,
{
    let c = desired as int;
    let q = (c - min) / (step as int);
    vstd::arithmetic::div_mod::lemma_fundamental_div_mod(c - min, step as int);
    assert(min + q * step == c);
}

/// A stepped DPI stays within the range of the mouse.
pub proof fn law_stepped_dpi_in_range(desired: u32, min: u32, max: u32, step: u32)
    requires
        step > 0,
        min <= max,
    ensures
        min <= stepped_dpi(desired, min, max, step) <= max,
{
    let c = clamp(desired as int, min as int, max as int);
    let q = (c - min) / (step as int);
    vstd::arithmetic::div_mod::lemma_fundamental_div_mod(c - min, step as int);
    vstd::arithmetic::div_mod::lemma_mod_bound(c - min, step as int);
    assert(0 <= q) by {
        vstd::arithmetic::div_mod::lemma_div_pos_is_pos(c - min, step as int);
    }
    assert(q * step >= 0) by (nonlinear_arith)
        requires q >= 0, step > 0;
}

/// A requested polling rate that the mouse supports is kept exactly.
pub proof fn law_supported_rate_is_kept(r: u32, desired: u32, supported: Seq<u32>)
    requires
        desired > 0,
        supported.contains(desired),
        is_chosen_rate(r, desired, supported),
    ensures
        r == desired,
{
    let k = choose|k: int| 0 <= k < supported.len() && supported[k] == desired;
    assert(0 < supported[k] <= desired);
}

/// HID++ report intervals and polling rates translate back and forth.
pub proof fn law_hidpp_interval_round_trip(rate: u32)
    ensures
        spec_rate_interval(rate) matches Some(i) ==> spec_interval_rate(i) == Some(rate),
{
}

/// Razer polling codes and polling rates translate back and forth, in both protocols.
pub proof fn law_razer_code_round_trip(rate: u32, modern: bool)
    ensures
        spec_razer_code(rate, modern) matches Some(c) ==> spec_razer_rate(c, modern) == Some(rate),
{
}

/// The DPI bytes written to a device read back as the same DPI: for a DPI the protocols accept,
/// the high and low bytes of the HID++ parameters and of the Razer arguments, read as a report
/// gives them back, make that DPI again.
pub proof fn law_dpi_bytes_round_trip(dpi: u32, report: Seq<u8>)
    requires
        dpi <= 0xFFFF,
    ensures
        report.len() >= 7 && report[5] == (dpi / 256) as u8 && report[6] == (dpi % 256) as u8
            ==> (report[5] * 256 + report[6]) as u32 == dpi,
        report.len() == 90 && report[9] == (dpi / 256) as u8 && report[10] == (dpi % 256) as u8
            ==> report[9] * 256 + report[10] == dpi,
{
}

/// A Razer mouse whose protocol is implemented.
#[derive(Debug, Clone)]
pub struct RazerModel {
    pub product_id: u16,
    pub name: &'static str,
    pub connection: &'static str,
    pub maximum_dpi: u32,
    pub polling2: bool,
    pub polling_rates: Vec<u32>,
}

/// The implemented Razer model of a product id: (name, connection, maximum DPI, modern polling
/// protocol, polling rates).
pub open spec fn spec_razer_model(product_id: u16) -> Option<(Seq<char>, Seq<char>, u32, bool, Seq<u32>)> {
    if product_id == 0x00A5 {
        Some(("Viper V2 Pro (wired)"@, "USB cable"@, 30000u32, false, seq![125u32, 500, 1000]))
    } else if product_id == 0x00A6 {
        Some(("Viper V2 Pro"@, "wireless receiver"@, 30000u32, false, seq![125u32, 500, 1000]))
    } else if product_id == 0x00B2 {
        Some(("DeathAdder V3 (wired)"@, "USB cable"@, 30000u32, true, seq![125u32, 250, 500, 1000, 2000, 4000, 8000]))
    } else if product_id == 0x00B6 {
        Some(("DeathAdder V3 Pro (wired)"@, "USB cable"@, 30000u32, true, seq![125u32, 250, 500, 1000, 2000, 4000]))
    } else if product_id == 0x00B7 {
        Some(("DeathAdder V3 Pro"@, "wireless receiver"@, 30000u32, true, seq![125u32, 250, 500, 1000, 2000, 4000]))
    } else if product_id == 0x00C0 {
        Some(("Viper V3 Pro (wired)"@, "USB cable"@, 35000u32, true, seq![125u32, 250, 500, 1000, 2000, 4000, 8000]))
    } else if product_id == 0x00C1 {
        Some(("Viper V3 Pro"@, "wireless receiver"@, 35000u32, true, seq![125u32, 250, 500, 1000, 2000, 4000, 8000]))
    } else {
        None
    }
}

fn rates_of(rates: &[u32]) -> (r: Vec<u32>)
    ensures
        r@ == rates@,
{
    let mut r: Vec<u32> = Vec::new();
    let mut i: usize = 0;
    while i < rates.len()
        invariant
            i <= rates@.len(),
            r@ == rates@.take(i as int),
        decreases rates.len() - i,
    {
        r.push(rates[i]);
        proof { assert(r@ =~= rates@.take(i + 1)); }
        i = i + 1;
    }
    proof { assert(rates@.take(rates@.len() as int) =~= rates@); }
    r
}

fn razer_entry(product_id: u16, name: &'static str, connection: &'static str, maximum_dpi: u32, polling2: bool, rates: &[u32]) -> (m: RazerModel)
    ensures
        m.product_id == product_id && m.name@ == name@ && m.connection@ == connection@,
        m.maximum_dpi == maximum_dpi && m.polling2 == polling2 && m.polling_rates@ == rates@,
{
    RazerModel { product_id, name, connection, maximum_dpi, polling2, polling_rates: rates_of(rates) }
}

/// The implemented Razer model with this product id, if there is one.
pub fn razer_model(product_id: u16) -> (r: Option<RazerModel>)
    ensures
        match spec_razer_model(product_id) {
            None => r is None,
            Some(v) => r matches Some(m) && m.product_id == product_id
                && (m.name@, m.connection@, m.maximum_dpi, m.polling2, m.polling_rates@) == v,
        },
{
    let old3: [u32; 3] = [125, 500, 1000];
    let six: [u32; 6] = [125, 250, 500, 1000, 2000, 4000];
    let seven: [u32; 7] = [125, 250, 500, 1000, 2000, 4000, 8000];
    proof {
        assert(old3@ == seq![125u32, 500, 1000]);
        assert(six@ == seq![125u32, 250, 500, 1000, 2000, 4000]);
        assert(seven@ == seq![125u32, 250, 500, 1000, 2000, 4000, 8000]);
    }
    if product_id == 0x00A5 {
        Some(razer_entry(product_id, "Viper V2 Pro (wired)", "USB cable", 30000, false, &old3))
    } else if product_id == 0x00A6 {
        Some(razer_entry(product_id, "Viper V2 Pro", "wireless receiver", 30000, false, &old3))
    } else if product_id == 0x00B2 {
        Some(razer_entry(product_id, "DeathAdder V3 (wired)", "USB cable", 30000, true, &seven))
    } else if product_id == 0x00B6 {
        Some(razer_entry(product_id, "DeathAdder V3 Pro (wired)", "USB cable", 30000, true, &six))
    } else if product_id == 0x00B7 {
        Some(razer_entry(product_id, "DeathAdder V3 Pro", "wireless receiver", 30000, true, &six))
    } else if product_id == 0x00C0 {
        Some(razer_entry(product_id, "Viper V3 Pro (wired)", "USB cable", 35000, true, &seven))
    } else if product_id == 0x00C1 {
        Some(razer_entry(product_id, "Viper V3 Pro", "wireless receiver", 35000, true, &seven))
    } else {
        None
    }
}

/// The diagnostics of a Logitech mouse that answered HID++ at `device_index`: its sorted DPI list
/// summarised, and polling control when the report-rate feature gave rates.
pub fn logitech_device(endpoint: &Endpoint, device_index: u8, dpi_values: Vec<u32>, rates: Vec<u32>, rate_feature: bool) -> (r: MouseDeviceDiagnostics)
    requires
        forall|i: int, j: int| 0 <= i <= j < dpi_values@.len() ==> dpi_values@[i] <= dpi_values@[j],
    ensures
        r.instance_id@ == endpoint.instance_id@,
        r.vendor_id@ == hex_digits(endpoint.vendor_id as nat, 4),
        r.product_id@ == hex_digits(endpoint.product_id as nat, 4),
        r.manufacturer@ == (if endpoint.manufacturer@ == "Unknown"@ { "Logitech"@ } else { endpoint.manufacturer@ }),
        r.model@ == endpoint.product@,
        r.connection@ == (if device_index == 0xFF { "USB cable"@ } else { "Logitech receiver"@ }),
        r.hid_usage@ == "HID++ device index 0x"@ + hex_digits(device_index as nat, 2),
        r.selected_adapter@ == "LogitechMouseAdapter (HID++ 2.0)"@,
        !r.selected,
        r.capabilities.can_read_dpi && r.capabilities.can_apply_dpi && r.capabilities.can_verify,
        r.capabilities.can_read_polling_rate == (rate_feature && rates@.len() > 0),
        r.capabilities.can_apply_polling_rate == (rate_feature && rates@.len() > 0),
        r.capabilities.dpi matches Some(caps) && caps.values@ == dpi_values@
            && caps.minimum == (if dpi_values@.len() > 0 { dpi_values@[0] } else { 100 })
            && caps.maximum == (if dpi_values@.len() > 0 { dpi_values@.last() } else { caps.minimum })
            && caps.step == (if min_gap(dpi_values@, dpi_values@.len() as int) >= 1 { min_gap(dpi_values@, dpi_values@.len() as int) } else { 1 }),
        r.capabilities.polling_rates_hz@ == rates@,
        r.capabilities.reason is None,
{
    let (minimum, maximum, step) = summarize_dpi_values(dpi_values.as_slice());
    let polling = rate_feature && rates.len() > 0;
    let mut usage = chars_of("HID++ device index 0x");
    extend_chars(&mut usage, hex_chars(device_index as u64, 2).as_slice());
    let vid = hex_chars(endpoint.vendor_id as u64, 4);
    let pid = hex_chars(endpoint.product_id as u64, 4);
    let manufacturer = if str_eq(endpoint.manufacturer.as_str(), "Unknown") {
        String::from_str("Logitech")
    } else {
        copy_string(&endpoint.manufacturer)
    };
    MouseDeviceDiagnostics {
        instance_id: copy_string(&endpoint.instance_id),
        vendor_id: string_of(vid.as_slice()),
        product_id: string_of(pid.as_slice()),
        manufacturer,
        model: copy_string(&endpoint.product),
        connection: String::from_str(if device_index == 0xFF { "USB cable" } else { "Logitech receiver" }),
        hid_usage: string_of(usage.as_slice()),
        selected_adapter: String::from_str("LogitechMouseAdapter (HID++ 2.0)"),
        selected: false,
        capabilities: MouseCapabilities {
            can_read_dpi: true,
            can_apply_dpi: true,
            can_read_polling_rate: polling,
            can_apply_polling_rate: polling,
            can_verify: true,
            dpi: Some(DpiCapabilities { minimum, maximum, step, values: dpi_values }),
            polling_rates_hz: rates,
            reason: None,
        },
    }
}

/// The diagnostics of a Razer mouse of an implemented model that answered a DPI read.
pub fn razer_device(endpoint: &Endpoint, model: &RazerModel) -> (r: MouseDeviceDiagnostics)
    ensures
        r.instance_id@ == endpoint.instance_id@,
        r.vendor_id@ == hex_digits(endpoint.vendor_id as nat, 4),
        r.product_id@ == hex_digits(endpoint.product_id as nat, 4),
        r.manufacturer@ == "Razer"@,
        r.model@ == model.name@,
        r.connection@ == model.connection@,
        r.hid_usage@ == "feature-report interface "@ + signed_decimal(endpoint.interface_number as int),
        r.selected_adapter@ == "RazerMouseAdapter (HID feature reports)"@,
        !r.selected,
        r.capabilities.can_read_dpi && r.capabilities.can_apply_dpi && r.capabilities.can_verify,
        r.capabilities.can_read_polling_rate && r.capabilities.can_apply_polling_rate,
        r.capabilities.dpi matches Some(caps) && caps.minimum == 100 && caps.maximum == model.maximum_dpi
            && caps.step == 50 && caps.values@.len() == 0,
        r.capabilities.polling_rates_hz@ == model.polling_rates@,
        r.capabilities.reason is None,
{
    let mut usage = chars_of("feature-report interface ");
    extend_chars(&mut usage, signed_decimal_chars(endpoint.interface_number).as_slice());
    let vid = hex_chars(endpoint.vendor_id as u64, 4);
    let pid = hex_chars(endpoint.product_id as u64, 4);
    MouseDeviceDiagnostics {
        instance_id: copy_string(&endpoint.instance_id),
        vendor_id: string_of(vid.as_slice()),
        product_id: string_of(pid.as_slice()),
        manufacturer: String::from_str("Razer"),
        model: String::from_str(model.name),
        connection: String::from_str(model.connection),
        hid_usage: string_of(usage.as_slice()),
        selected_adapter: String::from_str("RazerMouseAdapter (HID feature reports)"),
        selected: false,
        capabilities: MouseCapabilities {
            can_read_dpi: true,
            can_apply_dpi: true,
            can_read_polling_rate: true,
            can_apply_polling_rate: true,
            can_verify: true,
            dpi: Some(DpiCapabilities { minimum: 100, maximum: model.maximum_dpi, step: 50, values: Vec::new() }),
            polling_rates_hz: rates_of(model.polling_rates.as_slice()),
            reason: None,
        },
    }
}

/// The probe error of a Logitech interface that no HID++ device index answered.
pub fn logitech_probe_error(endpoint: &Endpoint, last_error: Option<String>) -> (r: String)
    ensures
        r@ == "Logitech "@ + endpoint.product@ + " (VID "@ + hex_digits(endpoint.vendor_id as nat, 4) + ", PID "@
            + hex_digits(endpoint.product_id as nat, 4) + ", interface "@ + signed_decimal(endpoint.interface_number as int) + "): "@
            + match last_error { Some(e) => e@, None => "HID++ Adjustable DPI недоступен"@ },
{
    let mut v = chars_of("Logitech ");
    push_str_chars(&mut v, endpoint.product.as_str());
    push_str_chars(&mut v, " (VID ");
    extend_chars(&mut v, hex_chars(endpoint.vendor_id as u64, 4).as_slice());
    push_str_chars(&mut v, ", PID ");
    extend_chars(&mut v, hex_chars(endpoint.product_id as u64, 4).as_slice());
    push_str_chars(&mut v, ", interface ");
    extend_chars(&mut v, signed_decimal_chars(endpoint.interface_number).as_slice());
    push_str_chars(&mut v, "): ");
    match &last_error {
        Some(e) => push_str_chars(&mut v, e.as_str()),
        None => push_str_chars(&mut v, "HID++ Adjustable DPI недоступен"),
    }
    string_of(v.as_slice())
}

/// The probe error of a Razer interface of an implemented model that did not answer.
pub fn razer_probe_error(endpoint: &Endpoint, error: &str) -> (r: String)
    ensures
        r@ == "Razer "@ + endpoint.product@ + " (PID "@ + hex_digits(endpoint.product_id as nat, 4) + "): "@ + error@,
{
    let mut v = chars_of("Razer ");
    push_str_chars(&mut v, endpoint.product.as_str());
    push_str_chars(&mut v, " (PID ");
    extend_chars(&mut v, hex_chars(endpoint.product_id as u64, 4).as_slice());
    push_str_chars(&mut v, "): ");
    push_str_chars(&mut v, error);
    string_of(v.as_slice())
}

/// The text of an optional string.
pub open spec fn opt_chars(o: Option<String>) -> Option<Seq<char>> {
    match o {
        Some(s) => Some(s@),
        None => None,
    }
}

/// Two controllable devices with different instance ids are among the targets.
pub open spec fn distinct_targets(targets: Seq<String>) -> bool {
    exists|a: int, b: int| 0 <= a < targets.len() && 0 <= b < targets.len() && #[trigger] targets[a]@ != #[trigger] targets[b]@
}

/// A device of an inspection as given, its selection mark set when `selected` is the instance
/// chosen.
pub open spec fn marked(d: MouseDeviceDiagnostics, given: MouseDeviceDiagnostics, selected: Option<Seq<char>>) -> bool {
    &&& d.instance_id == given.instance_id && d.vendor_id == given.vendor_id && d.product_id == given.product_id
    &&& d.manufacturer == given.manufacturer && d.model == given.model && d.connection == given.connection
    &&& d.hid_usage == given.hid_usage && d.selected_adapter == given.selected_adapter
    &&& d.capabilities == given.capabilities
    &&& d.selected == (match selected { Some(s) => given.instance_id@ == s, None => given.selected })
}

/// The diagnostics of an inspection and its selection, from the devices found, the probe errors
/// and the instance ids of the controllable devices (`targets`): none selects nothing, two
/// different instances make the selection ambiguous (an error), else the first target is selected
/// and marked among the devices.
pub fn inspection(devices: Vec<MouseDeviceDiagnostics>, probe_errors: Vec<String>, targets: &[String]) -> (r: (MouseDiagnostics, Result<Option<usize>, String>))
    ensures
        targets@.len() == 0 ==> r.1 == Ok::<Option<usize>, String>(None) && r.0.selected_instance_id is None,
        distinct_targets(targets@) ==> (r.1 matches Err(e) && e@ == "Multiple controllable gaming mice were detected."@)
            && r.0.selected_instance_id is None,
        targets@.len() > 0 && !distinct_targets(targets@) ==> r.1 == Ok::<Option<usize>, String>(Some(0usize))
            && (r.0.selected_instance_id matches Some(s) && s@ == targets@[0]@),
        r.0.selection_ambiguous == distinct_targets(targets@),
        r.0.probe_errors == probe_errors,
        r.0.devices@.len() == devices@.len(),
        forall|i: int| 0 <= i < devices@.len() ==> marked(#[trigger] r.0.devices@[i], devices@[i],
            if targets@.len() > 0 && !distinct_targets(targets@) { Some(targets@[0]@) } else { None }),
        r.0.current_dpi is None && r.0.requested_dpi is None && r.0.applied_dpi is None,
        r.0.current_polling_rate_hz is None && r.0.requested_polling_rate_hz is None && r.0.applied_polling_rate_hz is None,
        r.0.verification_result is None && r.0.backup_result is None && r.0.restore_result is None,
{
    let mut fixtures: Vec<SelectionFixture> = Vec::new();
    let mut i: usize = 0;
    while i < targets.len()
        invariant
            i <= targets@.len(),
            fixtures@.len() == i,
            forall|q: int| 0 <= q < i ==> (#[trigger] fixtures@[q]).controllable && fixtures@[q].instance_id@ == targets@[q]@,
        decreases targets.len() - i,
    {
        fixtures.push(SelectionFixture { instance_id: copy_string(&targets[i]), controllable: true });
        i = i + 1;
    }
    let selection = select_unique_controllable(fixtures.as_slice());
    proof {
        if targets@.len() > 0 {
            assert(fixtures@[0].controllable);
        }
        if distinct_targets(targets@) {
            let (a, b) = choose|a: int, b: int| 0 <= a < targets@.len() && 0 <= b < targets@.len() && #[trigger] targets@[a]@ != #[trigger] targets@[b]@;
            assert(fixtures@[a].instance_id@ != fixtures@[b].instance_id@);
            assert(ambiguous_selection(fixtures@));
        }
        if ambiguous_selection(fixtures@) {
            let (a, b) = choose|a: int, b: int| 0 <= a < fixtures@.len() && 0 <= b < fixtures@.len() && fixtures@[a].controllable
                && fixtures@[b].controllable && fixtures@[a].instance_id@ != fixtures@[b].instance_id@;
            assert(targets@[a]@ != targets@[b]@);
        }
    }
    let selected: Option<String> = match &selection {
        Ok(Some(k)) => Some(copy_string(&targets[*k])),
        _ => None,
    };
    let ghost sel: Option<Seq<char>> = opt_chars(selected);
    proof {
        if targets@.len() > 0 && !distinct_targets(targets@) {
            assert(sel == Some(targets@[0]@));
        }
    }
    let ghost given = devices@;
    let mut rest = devices;
    let mut out: Vec<MouseDeviceDiagnostics> = Vec::new();
    while rest.len() > 0
        invariant
            out@.len() + rest@.len() == given.len(),
            rest@ == given.skip(out@.len() as int),
            sel == opt_chars(selected),
            forall|q: int| 0 <= q < out@.len() ==> marked(#[trigger] out@[q], given[q], sel),
        decreases rest.len(),
    {
        let ghost n = out@.len();
        let mut d = rest.remove(0);
        proof { assert(d == given[n as int]); }
        match &selected {
            Some(s) => { d.selected = str_eq(d.instance_id.as_str(), s.as_str()); },
            None => {},
        }
        let ghost prev = out@;
        out.push(d);
        proof {
            assert(rest@ =~= given.skip(out@.len() as int));
            assert forall|q: int| 0 <= q < out@.len() implies marked(#[trigger] out@[q], given[q], sel) by {
                if q < n { assert(out@[q] == prev[q]); }
            }
        }
    }
    let ambiguous = selection.is_err();
    let diagnostics = MouseDiagnostics {
        devices: out,
        probe_errors,
        selected_instance_id: selected,
        selection_ambiguous: ambiguous,
        current_dpi: None,
        requested_dpi: None,
        applied_dpi: None,
        current_polling_rate_hz: None,
        requested_polling_rate_hz: None,
        applied_polling_rate_hz: None,
        verification_result: None,
        backup_result: None,
        restore_result: None,
    };
    (diagnostics, selection)
}

/// The identity of a physical device behind an interface: its vendor and product id (lower-case
/// hex) with its serial number when it has a non-blank one, else the key of its path.
pub open spec fn spec_endpoint_key(vendor_id: u16, product_id: u16, serial: Option<Seq<char>>, path: Seq<char>) -> Seq<char> {
    match serial {
        Some(s) => if crate::text::trim(s).len() > 0 {
            hex_lower(seq![(vendor_id / 256) as u8, (vendor_id % 256) as u8]) + ":"@
                + hex_lower(seq![(product_id / 256) as u8, (product_id % 256) as u8]) + ":serial:"@ + s
        } else {
            spec_physical_key(path)
        },
        None => spec_physical_key(path),
    }
}

/// The physical identity of an interface; see `spec_endpoint_key`.
pub fn endpoint_key(vendor_id: u16, product_id: u16, serial: Option<&str>, path: &str) -> (r: String)
    ensures
        r@ == spec_endpoint_key(vendor_id, product_id, match serial { Some(s) => Some(s@), None => None }, path@),
{
    match serial {
        Some(s) => {
            let sc = chars_of(s);
            if crate::text::trim_chars(sc.as_slice()).len() > 0 {
                let v = [(vendor_id / 256) as u8, (vendor_id % 256) as u8];
                let p = [(product_id / 256) as u8, (product_id % 256) as u8];
                proof {
                    assert(v@ == seq![(vendor_id / 256) as u8, (vendor_id % 256) as u8]);
                    assert(p@ == seq![(product_id / 256) as u8, (product_id % 256) as u8]);
                }
                let vh = hex_lower_string(&v);
                let ph = hex_lower_string(&p);
                let mut out = chars_of(vh.as_str());
                push_str_chars(&mut out, ":");
                push_str_chars(&mut out, ph.as_str());
                push_str_chars(&mut out, ":serial:");
                extend_chars(&mut out, sc.as_slice());
                string_of(out.as_slice())
            } else {
                physical_key(path)
            }
        },
        None => physical_key(path),
    }
}

/// How many probe errors a scan keeps.
pub const MAX_PROBE_ERRORS: usize = 12;

/// The HID++ device indices a Logitech endpoint is probed at, in order: the receiver-less index
/// 0xFF first, then the receiver slots 1 to 6, then 0.
pub fn logitech_probe_indices() -> (r: Vec<u8>)
    ensures
        r@ == seq![0xFFu8, 1u8, 2u8, 3u8, 4u8, 5u8, 6u8, 0u8],
{
    let r: Vec<u8> = vec![0xFFu8, 1u8, 2u8, 3u8, 4u8, 5u8, 6u8, 0u8];
    proof { assert(r@ =~= seq![0xFFu8, 1u8, 2u8, 3u8, 4u8, 5u8, 6u8, 0u8]); }
    r
}

/// The key that tells a Logitech target apart: its physical device and the index it answered at.
pub fn logitech_target_key(physical_key: &str, index: u8) -> (r: String)
    ensures
        r@ == physical_key@ + ":"@ + decimal(index as nat),
{
    let mut v = chars_of(physical_key);
    push_str_chars(&mut v, ":");
    extend_chars(&mut v, decimal_chars(index as u64).as_slice());
    string_of(v.as_slice())
}

/// What a scan of the HID devices has kept so far: the keys of the targets found, each once, and
/// the probe errors, at most `MAX_PROBE_ERRORS` of them.
pub struct ProbeLog {
    pub target_keys: Vec<String>,
    pub probe_errors: Vec<String>,
}

impl ProbeLog {
    /// The keys are distinct and the errors within their cap.
    pub open spec fn wf(&self) -> bool {
        &&& forall|i: int, j: int| 0 <= i < j < self.target_keys@.len() ==> self.target_keys@[i]@ != self.target_keys@[j]@
        &&& self.probe_errors@.len() <= MAX_PROBE_ERRORS
    }

    /// A scan that has found nothing yet.
    pub fn new() -> (r: Self)
        ensures
            r.wf(),
            r.target_keys@.len() == 0,
            r.probe_errors@.len() == 0,
    {
        ProbeLog { target_keys: Vec::new(), probe_errors: Vec::new() }
    }

    /// Records a target under `key`; `true` when no target with that key was kept before, in
    /// which case the target is to be kept.
    pub fn keep_target(&mut self, key: String) -> (r: bool)
        requires
            old(self).wf(),
        ensures
            final(self).wf(),
            r == !strings_view(old(self).target_keys@).contains(key@),
            strings_view(final(self).target_keys@) == if r {
                strings_view(old(self).target_keys@).push(key@)
            } else {
                strings_view(old(self).target_keys@)
            },
            final(self).probe_errors@ == old(self).probe_errors@,
    {
        let mut i: usize = 0;
        while i < self.target_keys.len()
            invariant
                self.target_keys@ == old(self).target_keys@,
                self.probe_errors@ == old(self).probe_errors@,
                old(self).wf(),
                i <= self.target_keys@.len(),
                forall|j: int| 0 <= j < i ==> self.target_keys@[j]@ != key@,
            decreases self.target_keys.len() - i,
        {
            if str_eq(self.target_keys[i].as_str(), key.as_str()) {
                proof { assert(strings_view(self.target_keys@)[i as int] == key@); }
                return false;
            }
            i = i + 1;
        }
        proof {
            assert forall|j: int| 0 <= j < strings_view(self.target_keys@).len() implies strings_view(self.target_keys@)[j] != key@ by {
                assert(self.target_keys@[j]@ != key@);
            }
        }
        let ghost before = self.target_keys@;
        self.target_keys.push(key);
        proof { assert(strings_view(self.target_keys@) =~= strings_view(before).push(key@)); }
        true
    }

    /// Records a probe error while fewer than `MAX_PROBE_ERRORS` are kept.
    pub fn record_error(&mut self, error: String)
        requires
            old(self).wf(),
        ensures
            final(self).wf(),
            final(self).target_keys@ == old(self).target_keys@,
            final(self).probe_errors@ == if old(self).probe_errors@.len() < MAX_PROBE_ERRORS {
                old(self).probe_errors@.push(error)
            } else {
                old(self).probe_errors@
            },
    {
        if self.probe_errors.len() < MAX_PROBE_ERRORS {
            self.probe_errors.push(error);
        }
    }
}

fn prefixed(prefix: &str, rest: &str) -> (r: String)
    ensures
        r@ == prefix@ + rest@,
{
    let mut v = chars_of(prefix);
    extend_chars(&mut v, chars_of(rest).as_slice());
    string_of(v.as_slice())
}

/// What the backup written before an apply gives: the token, and the line that reports it. No
/// attempt (`None`) reports nothing.
pub fn backup_outcome(written: Option<Result<String, String>>) -> (r: (Option<String>, Option<String>))
    ensures
        match written {
            None => r.0 is None && r.1 is None,
            Some(Ok(t)) => (r.0 matches Some(u) && u@ == t@) && (r.1 matches Some(m) && m@ == "Local pre-Game Passport backup saved."@),
            Some(Err(e)) => r.0 is None && (r.1 matches Some(m) && m@ == "Backup failed: "@ + e@),
        },
{
    match written {
        None => (None, None),
        Some(Ok(t)) => (Some(t), Some(String::from_str("Local pre-Game Passport backup saved."))),
        Some(Err(e)) => (None, Some(prefixed("Backup failed: ", e.as_str()))),
    }
}

/// What the hardware answered at a step of an apply.
pub enum ApplyEvent {
    DpiWritten(Result<(), String>),
    PollingWritten(Result<(), String>),
    Confirmed(Result<(u32, Option<u32>), String>),
    Verified(Result<(u32, Option<u32>), String>),
}

/// What an apply does next.
pub enum ApplyAction {
    WritePolling(u32),
    ReadToConfirm,
    ReadToVerify,
    Manual(String),
    Finish(u32, Option<u32>),
}

/// An apply after the DPI write: the polling rate is written when the plan has one, a failed
/// polling write only adds a warning, the DPI is confirmed by a readback and the settings are read
/// once more to report them; a refused DPI write or a failed readback ends in manual mode.
pub fn apply_step(plan: &mut ApplyPlan, event: ApplyEvent) -> (r: ApplyAction)
    ensures
        final(plan).dpi == old(plan).dpi,
        final(plan).polling == old(plan).polling,
        match event {
            ApplyEvent::PollingWritten(Err(m)) => strings_view(final(plan).warnings@)
                == strings_view(old(plan).warnings@).push("Polling-rate write failed: "@ + m@),
            _ => final(plan).warnings@ == old(plan).warnings@,
        },
        match event {
            ApplyEvent::DpiWritten(Err(_)) => r matches ApplyAction::Manual(m) && m@ == "The mouse rejected the DPI change."@,
            ApplyEvent::DpiWritten(Ok(())) => match old(plan).polling {
                Some(rate) => r == ApplyAction::WritePolling(rate),
                None => r == ApplyAction::ReadToConfirm,
            },
            ApplyEvent::PollingWritten(_) => r == ApplyAction::ReadToConfirm,
            ApplyEvent::Confirmed(read) => if read matches Ok(v) && v.0 == old(plan).dpi {
                r == ApplyAction::ReadToVerify
            } else {
                r matches ApplyAction::Manual(m) && m@ == "The DPI change could not be verified by hardware readback."@
            },
            ApplyEvent::Verified(Ok(v)) => r == ApplyAction::Finish(v.0, v.1),
            ApplyEvent::Verified(Err(_)) => r matches ApplyAction::Manual(m) && m@ == "The mouse change could not be verified."@,
        },
{
    match event {
        ApplyEvent::DpiWritten(Err(_)) => ApplyAction::Manual(String::from_str("The mouse rejected the DPI change.")),
        ApplyEvent::DpiWritten(Ok(())) => match plan.polling {
            Some(rate) => ApplyAction::WritePolling(rate),
            None => ApplyAction::ReadToConfirm,
        },
        ApplyEvent::PollingWritten(Ok(())) => ApplyAction::ReadToConfirm,
        ApplyEvent::PollingWritten(Err(m)) => {
            let ghost before = plan.warnings@;
            plan.warnings.push(prefixed("Polling-rate write failed: ", m.as_str()));
            proof { assert(strings_view(plan.warnings@) =~= strings_view(before).push("Polling-rate write failed: "@ + m@)); }
            ApplyAction::ReadToConfirm
        },
        ApplyEvent::Confirmed(read) => {
            let confirmed = match read {
                Ok((dpi, polling)) => verify_readback(plan.dpi, None, dpi, polling).is_ok(),
                Err(_) => false,
            };
            if confirmed {
                ApplyAction::ReadToVerify
            } else {
                ApplyAction::Manual(String::from_str("The DPI change could not be verified by hardware readback."))
            }
        },
        ApplyEvent::Verified(Ok((dpi, polling))) => ApplyAction::Finish(dpi, polling),
        ApplyEvent::Verified(Err(_)) => ApplyAction::Manual(String::from_str("The mouse change could not be verified.")),
    }
}

/// What the system answered at a step of a restore.
pub enum RestoreEvent {
    Selected(Result<Option<String>, String>),
    DpiWritten(Result<(), String>),
    PollingWritten(Result<(), String>),
    ReadBack(Result<(u32, Option<u32>), String>),
}

/// What a restore does next.
pub enum RestoreAction {
    WriteDpi(u32),
    WritePolling(u32),
    ReadSettings,
    Manual(String),
    Finish(u32, Option<u32>),
}

/// A restore of the backup of the mouse `instance_id` (`dpi`, and `polling` when it was saved):
/// it goes on only when that very mouse is the one selected, writes the DPI, then the polling rate
/// when there is one, and reads the settings back; any failure ends in manual mode with its reason.
pub fn restore_step(instance_id: &str, dpi: u32, polling: Option<u32>, event: RestoreEvent) -> (r: RestoreAction)
    ensures
        match event {
            RestoreEvent::Selected(Ok(Some(id))) => if id@ == instance_id@ {
                r == RestoreAction::WriteDpi(dpi)
            } else {
                r matches RestoreAction::Manual(m)
                    && m@ == "The backed-up physical mouse is not currently selected; restore was not attempted."@
            },
            RestoreEvent::Selected(Ok(None)) => r matches RestoreAction::Manual(m) && m@ == "The backed-up mouse is not connected."@,
            RestoreEvent::Selected(Err(e)) => r matches RestoreAction::Manual(m) && m@ == e@,
            RestoreEvent::DpiWritten(Ok(())) => match polling {
                Some(rate) => r == RestoreAction::WritePolling(rate),
                None => r == RestoreAction::ReadSettings,
            },
            RestoreEvent::DpiWritten(Err(e)) => r matches RestoreAction::Manual(m) && m@ == "Restore DPI write failed: "@ + e@,
            RestoreEvent::PollingWritten(Ok(())) => r == RestoreAction::ReadSettings,
            RestoreEvent::PollingWritten(Err(e)) => r matches RestoreAction::Manual(m)
                && m@ == "Restore polling-rate write failed: "@ + e@,
            RestoreEvent::ReadBack(Ok(v)) => r == RestoreAction::Finish(v.0, v.1),
            RestoreEvent::ReadBack(Err(e)) => r matches RestoreAction::Manual(m) && m@ == "Restore readback failed: "@ + e@,
        },
{
    match event {
        RestoreEvent::Selected(Ok(Some(id))) => if str_eq(id.as_str(), instance_id) {
            RestoreAction::WriteDpi(dpi)
        } else {
            RestoreAction::Manual(String::from_str("The backed-up physical mouse is not currently selected; restore was not attempted."))
        },
        RestoreEvent::Selected(Ok(None)) => RestoreAction::Manual(String::from_str("The backed-up mouse is not connected.")),
        RestoreEvent::Selected(Err(e)) => RestoreAction::Manual(e),
        RestoreEvent::DpiWritten(Ok(())) => match polling {
            Some(rate) => RestoreAction::WritePolling(rate),
            None => RestoreAction::ReadSettings,
        },
        RestoreEvent::DpiWritten(Err(e)) => RestoreAction::Manual(prefixed("Restore DPI write failed: ", e.as_str())),
        RestoreEvent::PollingWritten(Ok(())) => RestoreAction::ReadSettings,
        RestoreEvent::PollingWritten(Err(e)) => RestoreAction::Manual(prefixed("Restore polling-rate write failed: ", e.as_str())),
        RestoreEvent::ReadBack(Ok((d, p))) => RestoreAction::Finish(d, p),
        RestoreEvent::ReadBack(Err(e)) => RestoreAction::Manual(prefixed("Restore readback failed: ", e.as_str())),
    }
}


/// Law: the adapter families by USB ids. Every Logitech device (vendor 0x046D) is probed; a Razer
/// device (vendor 0x1532) is driven exactly when its product id is one of 0x00A5, 0x00A6, 0x00B2,
/// 0x00B6, 0x00B7, 0x00C0 and 0x00C1, which are exactly the ids with a known Razer model, and is
/// unsupported otherwise; Lamzu (vendor 0x373E) is detected only; every other vendor is
/// unsupported.
pub proof fn law_adapter_families(vendor_id: u16, product_id: u16)
    ensures
        vendor_id == 0x046D ==> spec_classify(vendor_id, product_id) == MouseAdapterKind::LogitechProbe,
        vendor_id == 0x1532 ==> (spec_classify(vendor_id, product_id) == MouseAdapterKind::Razer <==> (product_id == 0x00A5
            || product_id == 0x00A6 || product_id == 0x00B2 || product_id == 0x00B6 || product_id == 0x00B7
            || product_id == 0x00C0 || product_id == 0x00C1)),
        vendor_id == 0x1532 ==> (spec_classify(vendor_id, product_id) == MouseAdapterKind::Razer
            <==> spec_razer_model(product_id) is Some),
        vendor_id == 0x1532 && spec_classify(vendor_id, product_id) != MouseAdapterKind::Razer
            ==> spec_classify(vendor_id, product_id) == MouseAdapterKind::Unsupported,
        vendor_id == 0x373E ==> spec_classify(vendor_id, product_id) == MouseAdapterKind::LamzuDetectionOnly,
        vendor_id != 0x046D && vendor_id != 0x1532 && vendor_id != 0x373E
            ==> spec_classify(vendor_id, product_id) == MouseAdapterKind::Unsupported,
{
}

/// Law: a mouse snapshot is accepted exactly when its schema is 1, its DPI lies in 50..=100000
/// and its polling rate, when it has one, lies in 125..=8000.
pub proof fn law_mouse_snapshot_acceptance(p: MousePayload)
    ensures
        payload_problem(p) is None <==> (p.schema_version == 1 && 50 <= p.dpi <= 100000 && match p.polling_rate_hz {
            Some(rate) => 125 <= rate <= 8000,
            None => true,
        }),
{
}

} // verus!
