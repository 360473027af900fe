//! Byte codecs the clipboard payloads go through: base64 for rich text and
//! lossy UTF-8 for HTML.

use base64::Engine as _;
use vstd::prelude::*;
use vstd::utf8::{decode_utf8, encode_utf8, valid_utf8};

verus! {

#[verifier::external_type_specification]
#[verifier::external_body]
pub struct ExDecodeError(base64::DecodeError);

/// What `base64::engine::general_purpose::STANDARD.encode` gives for `bytes`.
pub uninterp spec fn base64_encoding(bytes: Seq<u8>) -> Seq<char>;

/// What `base64::engine::general_purpose::STANDARD.decode` gives for `text`:
/// the decoded bytes, or `None` where it reports an error.
pub uninterp spec fn base64_decoding(text: Seq<char>) -> Option<Seq<u8>>;

/// What `String::from_utf8_lossy` gives for `bytes`.
pub uninterp spec fn utf8_lossy(bytes: Seq<u8>) -> Seq<char>;

/// Lossy UTF-8 decoding: the text that valid UTF-8 encodes, and otherwise
/// what `String::from_utf8_lossy` makes of the bytes.
pub open spec fn decode_utf8_lossy(bytes: Seq<u8>) -> Seq<char> {
    if valid_utf8(bytes) {
        decode_utf8(bytes)
    } else {
        utf8_lossy(bytes)
    }
}

/// `base64::engine::general_purpose::STANDARD.encode`: the standard, padded
/// base64 text of `bytes`. The bound keeps the encoded length, which the
/// crate computes with a panic on overflow and then allocates, in range.
#[verifier::external_body]
pub(crate) fn base64_encode(bytes: &[u8]) -> (r: String)
    requires
        bytes@.len() <= usize::MAX / 4,
    ensures
        r@ == base64_encoding(bytes@),
{
    base64::engine::general_purpose::STANDARD.encode(bytes)
}

/// `base64::engine::general_purpose::STANDARD.decode`: the bytes that `text`
/// encodes, or an error. Text that this engine's `encode` produced for some
/// bytes decodes to exactly those bytes.
#[verifier::external_body]
pub(crate) fn base64_decode(text: &str) -> (r: Result<Vec<u8>, base64::DecodeError>)
    ensures
        r is Ok <==> base64_decoding(text@) is Some,
        r matches Ok(v) ==> base64_decoding(text@) == Some(v@),
        forall|b: Seq<u8>| #[trigger] base64_encoding(b) == text@ ==> r is Ok && r->Ok_0@ == b,
{
    base64::engine::general_purpose::STANDARD.decode(text)
}

/// `String::from_utf8_lossy`, made owned: valid UTF-8 decodes to the text it
/// encodes; other input decodes with replacement characters.
#[verifier::external_body]
pub(crate) fn utf8_decode_lossy(bytes: &[u8]) -> (r: String)
    ensures
        valid_utf8(bytes@) ==> r@ == decode_utf8(bytes@),
        !valid_utf8(bytes@) ==> r@ == utf8_lossy(bytes@),
{
    String::from_utf8_lossy(bytes).into_owned()
}

/// The UTF-8 bytes of `s`.
pub fn utf8_bytes(s: &str) -> (r: Vec<u8>)
    ensures
        r@ == encode_utf8(s@),
{
    let b = s.as_bytes();
    let n = b.len();
    let mut out: Vec<u8> = Vec::new();
    let mut i: usize = 0;
    while i < n
        invariant
            n == b@.len(),
            i <= n,
            out@ == b@.take(i as int),
        decreases n - i,
    {
        out.push(b[i]);
        assert(out@ =~= b@.take(i + 1));
        i = i + 1;
    }
    assert(b@.take(n as int) =~= b@);
    out
}

} // verus!
