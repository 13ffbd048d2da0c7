//! The signature that GitHub puts on a webhook request: `sha256=` and the lowercase hex of the
//! HMAC-SHA256 of the body under the webhook secret.
use vstd::prelude::*;
use vstd::utf8::{encode_utf8, encode_utf8_decode_utf8};
use hmac::Mac;
use subtle::ConstantTimeEq;
use crate::text::{append_str, from_chars, to_chars};

verus! {

/// The HMAC-SHA256 tag of `message` under `key`.
pub uninterp spec fn hmac_sha256(key: Seq<u8>, message: Seq<u8>) -> Seq<u8>;

/// Calls `hmac::Hmac::<sha2::Sha256>` (`new_from_slice`, `update`, `finalize`): the tag of the
/// message under the key, 32 bytes long. The contract names the tag and states its length;
/// `new_from_slice` accepts a key of any length.
#[verifier::external_body]
fn hmac_sha256_tag(key: &[u8], message: &[u8]) -> (r: Vec<u8>)
    ensures
        r@ == hmac_sha256(key@, message@),
        r@.len() == 32,
{
    let mut mac = hmac::Hmac::<sha2::Sha256>::new_from_slice(key).expect("HMAC takes a key of any length");
    mac.update(message);
    mac.finalize().into_bytes().to_vec()
}

/// The lowercase hexadecimal digit of a value below 16.
pub open spec fn hex_digit(n: int) -> char {
    if n < 10 {
        (n + 48) as char
    } else {
        (n + 87) as char
    }
}

/// Two lowercase hexadecimal digits per byte, the high one first.
pub open spec fn hex_lower(bytes: Seq<u8>) -> Seq<char>
    decreases bytes.len(),
{
    if bytes.len() == 0 {
        Seq::empty()
    } else {
        hex_lower(bytes.drop_last()) + seq![hex_digit(bytes.last() as int / 16), hex_digit(bytes.last() as int % 16)]
    }
}

/// Calls `hex::encode`, which writes each byte as two lowercase hexadecimal digits, high first.
#[verifier::external_body]
fn hex_encode(bytes: &[u8]) -> (r: String)
    ensures
        r@ == hex_lower(bytes@),
{
    hex::encode(bytes)
}

/// Calls `subtle::ConstantTimeEq::ct_eq` on two byte slices: true exactly when they have the same
/// length and the same bytes, compared in time that does not depend on the bytes.
#[verifier::external_body]
fn bytes_equal_constant_time(a: &[u8], b: &[u8]) -> (r: bool)
    ensures
        r == (a@ == b@),
{
    bool::from(a.ct_eq(b))
}

/// The signature GitHub computes for a body under a secret.
pub open spec fn expected_signature(body: Seq<u8>, secret: Seq<char>) -> Seq<char> {
    "sha256="@ + hex_lower(hmac_sha256(encode_utf8(secret), body))
}

/// Whether the `X-Hub-Signature-256` header value is the signature of the body under the secret;
/// an empty header is never valid.
pub fn verify_signature(payload_body: &[u8], signature: &str, github_secret: &str) -> (r: bool)
    ensures
        r == (signature@.len() > 0 && expected_signature(payload_body@, github_secret@) == signature@),
{
    let sig_chars = to_chars(signature);
    if sig_chars.len() == 0 {
        return false;
    }
    let tag = hmac_sha256_tag(github_secret.as_bytes(), payload_body);
    let digits = hex_encode(tag.as_slice());
    let mut computed: Vec<char> = Vec::new();
    append_str(&mut computed, "sha256=");
    append_str(&mut computed, digits.as_str());
    let computed = from_chars(computed.as_slice());
    let same = bytes_equal_constant_time(computed.as_str().as_bytes(), signature.as_bytes());
    proof {
        encode_utf8_decode_utf8(computed@);
        encode_utf8_decode_utf8(signature@);
    }
    same
}

} // verus!
