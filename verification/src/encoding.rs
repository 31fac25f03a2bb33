//! Base64 texts and decimal literals of doubles.
use vstd::prelude::*;
use base64::Engine;
use crate::float::Float64;

verus! {

/// The standard base64 text (with padding) of some bytes.
pub uninterp spec fn base64_text(bytes: Seq<u8>) -> Seq<char>;

/// The bytes that a standard base64 text stands for, if it is one.
pub uninterp spec fn base64_bytes(text: Seq<char>) -> Option<Seq<u8>>;

/// `base64::Engine::encode` of the `STANDARD` engine. The result depends on the
/// bytes alone, and decoding it gives the bytes back.
#[verifier::external_body]
pub(crate) fn base64_encode(bytes: &[u8]) -> (r: String)
    ensures
        r@ == base64_text(bytes@),
        base64_bytes(r@) == Some(bytes@),
{
    base64::engine::general_purpose::STANDARD.encode(bytes)
}

/// `base64::Engine::decode` of the `STANDARD` engine: the result depends on the
/// text alone.
#[verifier::external_body]
pub(crate) fn base64_decode(text: &str) -> (r: Option<Vec<u8>>)
    ensures
        match r {
            Some(v) => base64_bytes(text@) == Some(v@),
            None => base64_bytes(text@) is None,
        },
{
    base64::engine::general_purpose::STANDARD.decode(text).ok()
}

/// The bits of the double that a decimal literal stands for, where the text is
/// such a literal and the double is finite.
pub uninterp spec fn double_literal(text: Seq<char>) -> Option<u64>;

/// `str::parse` to a double, kept by `serde_json::Number::from_f64` where it is
/// finite. The result depends on the text alone and is finite.
#[verifier::external_body]
pub(crate) fn parse_double(text: &str) -> (r: Option<u64>)
    ensures
        r == double_literal(text@),
        r matches Some(bits) ==> (Float64 { bits }).finite(),
{
    text.parse().ok().and_then(serde_json::Number::from_f64).and_then(|n| n.as_f64()).map(
        |x| x.to_bits(),
    )
}

} // verus!
