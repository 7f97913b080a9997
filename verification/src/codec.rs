use vstd::prelude::*;

use base64::Engine;
use sha2::Digest;

use crate::text::{lower, to_lower};

verus! {

/// The SHA-256 digest of some bytes.
pub uninterp spec fn spec_sha256(data: Seq<u8>) -> Seq<u8>;

/// The standard (padded) Base64 text of some bytes.
pub uninterp spec fn spec_base64_encode(data: Seq<u8>) -> Seq<char>;

/// The bytes that standard Base64 text decodes to, or `None` when it is not valid Base64.
pub uninterp spec fn spec_base64_decode(text: Seq<char>) -> Option<Seq<u8>>;

#[verifier::external_type_specification]
#[verifier::external_body]
pub struct ExDecodeError(base64::DecodeError);

/// `sha2::Sha256::digest`: the claim is that the 32-byte result is the SHA-256 digest of the input
/// bytes (a function of them alone).
#[verifier::external_body]
pub(crate) fn sha256(data: &[u8]) -> (d: Vec<u8>)
    ensures
        d@ == spec_sha256(data@),
        d@.len() == 32,
{
    sha2::Sha256::digest(data).to_vec()
}

/// `base64::engine::general_purpose::STANDARD.encode`: the claim is that the result is the padded
/// standard Base64 text of the input, a function of the input alone, and that the same engine's
/// `decode` gives the input back from it (the round trip the crate documents and tests). Inputs
/// long enough to overflow the output length (on which the crate panics) are excluded.
#[verifier::external_body]
pub(crate) fn base64_encode(data: &[u8]) -> (s: String)
    requires
        data@.len() <= usize::MAX / 4,
    ensures
        s@ == spec_base64_encode(data@),
        spec_base64_decode(s@) == Some(data@),
{
    base64::engine::general_purpose::STANDARD.encode(data)
}

/// `base64::engine::general_purpose::STANDARD.decode`: the claim is that it succeeds exactly when
/// the text is valid standard Base64, and then yields the decoded bytes; both are functions of the
/// text alone. Which `DecodeError` comes back is left unsaid.
#[verifier::external_body]
pub(crate) fn base64_decode(text: &str) -> (r: Result<Vec<u8>, base64::DecodeError>)
    ensures
        r is Ok <==> spec_base64_decode(text@) is Some,
        r matches Ok(v) ==> spec_base64_decode(text@) == Some(v@),
{
    base64::engine::general_purpose::STANDARD.decode(text)
}

/// The lower-case hexadecimal digit character for `d`.
pub open spec fn hex_lower_char(d: int) -> char {
    seq!['0', '1', '2', '3', '4', '5', '6', '7', '8', '9', 'a', 'b', 'c', 'd', 'e', 'f'][d]
}

/// Two lower-case hexadecimal digits per byte, in order.
pub open spec fn hex_lower(data: Seq<u8>) -> Seq<char>
    decreases data.len(),
{
    if data.len() == 0 {
        Seq::empty()
    } else {
        hex_lower(data.drop_last()) + seq![hex_lower_char((data.last() / 16) as int), hex_lower_char((data.last() % 16) as int)]
    }
}

/// Lower-case hexadecimal text of some bytes.
pub fn hex_lower_string(data: &[u8]) -> (s: String)
    ensures
        s@ == hex_lower(data@),
{
    let digits: [char; 16] = ['0', '1', '2', '3', '4', '5', '6', '7', '8', '9', 'a', 'b', 'c', 'd', 'e', 'f'];
    proof {
        assert(digits@ == seq!['0', '1', '2', '3', '4', '5', '6', '7', '8', '9', 'a', 'b', 'c', 'd', 'e', 'f']);
    }
    let mut v: Vec<char> = Vec::new();
    let mut i: usize = 0;
    while i < data.len()
        invariant
            i <= data@.len(),
            digits@ == seq!['0', '1', '2', '3', '4', '5', '6', '7', '8', '9', 'a', 'b', 'c', 'd', 'e', 'f'],
            v@ == hex_lower(data@.take(i as int)),
        decreases data.len() - i,
    {
        let b = data[i];
        v.push(digits[(b / 16) as usize]);
        v.push(digits[(b % 16) as usize]);
        proof {
            assert(data@.take(i + 1).drop_last() =~= data@.take(i as int));
        }
        i = i + 1;
    }
    proof { assert(data@.take(data@.len() as int) =~= data@); }
    crate::text::string_of(v.as_slice())
}

/// Lower-case hexadecimal text is its own lower-case form.
pub proof fn lemma_hex_lower_is_lower(data: Seq<u8>)
    ensures
        lower(hex_lower(data)) == hex_lower(data),
    decreases data.len(),
{
    if data.len() > 0 {
        lemma_hex_lower_is_lower(data.drop_last());
        let h = hex_lower(data);
        let d = seq!['0', '1', '2', '3', '4', '5', '6', '7', '8', '9', 'a', 'b', 'c', 'd', 'e', 'f'];
        assert forall|i: int| 0 <= i < 16 implies to_lower(#[trigger] d[i]) == d[i] by {}
        assert forall|i: int| 0 <= i < h.len() implies to_lower(#[trigger] h[i]) == h[i] by {
            let prev = hex_lower(data.drop_last());
            if i < prev.len() {
                assert(lower(prev)[i] == prev[i]);
            } else {
                assert(h[i] == d[(data.last() / 16) as int] || h[i] == d[(data.last() % 16) as int]);
            }
        }
        assert(lower(h) =~= h);
    }
}

/// Lower-case hexadecimal SHA-256 digest of some bytes.
pub fn sha256_hex(data: &[u8]) -> (s: String)
    ensures
        s@ == hex_lower(spec_sha256(data@)),
{
    let d = sha256(data);
    hex_lower_string(d.as_slice())
}

/// `std::str::from_utf8`: the claim is that it succeeds exactly on valid UTF-8, and that the text
/// it then returns is the one those bytes encode.
#[verifier::external_body]
pub(crate) fn utf8_text(bytes: &[u8]) -> (r: Option<&str>)
    ensures
        r is Some <==> vstd::utf8::valid_utf8(bytes@),
        r matches Some(t) ==> t@ == vstd::utf8::decode_utf8(bytes@),
{
    std::str::from_utf8(bytes).ok()
}

/// The text of some UTF-16 code units: a high surrogate (D800-DBFF) followed by a low one
/// (DC00-DFFF) is one character; any other surrogate becomes U+FFFD, and the unit after an
/// unpaired high surrogate is read afresh.
pub open spec fn utf16_decode_lossy(units: Seq<u16>) -> Seq<char>
    decreases units.len(),
{
    if units.len() == 0 {
        Seq::empty()
    } else {
        let u = units[0];
        if u < 0xD800u16 || u > 0xDFFFu16 {
            seq![(u as u32) as char] + utf16_decode_lossy(units.drop_first())
        } else if u <= 0xDBFFu16 && units.len() >= 2 && 0xDC00u16 <= units[1] <= 0xDFFFu16 {
            let scalar = 0x10000 + (u - 0xD800) * 0x400 + (units[1] - 0xDC00);
            seq![(scalar as u32) as char] + utf16_decode_lossy(units.skip(2))
        } else {
            seq!['\u{FFFD}'] + utf16_decode_lossy(units.drop_first())
        }
    }
}

/// `String::from_utf16_lossy`: the claim is that it decodes the code units as
/// `utf16_decode_lossy` states, as std's documentation describes it.
#[verifier::external_body]
pub(crate) fn utf16_lossy(units: &[u16]) -> (s: String)
    ensures
        s@ == utf16_decode_lossy(units@),
{
    String::from_utf16_lossy(units)
}

} // verus!
