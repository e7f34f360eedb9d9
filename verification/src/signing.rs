//! Authentication of persisted resume approvals: canonical JSON payloads and HMAC-SHA256 tags.
use crate::environment::Environment;
use hmac::Mac;
use vstd::prelude::*;

verus! {

/// The JSON encoding (`serde_json::to_vec`) of the tuple `(tag, command, cwd, environment)`,
/// the environment as an object in key order.
pub uninterp spec fn exact_resume_json(
    tag: Seq<char>,
    command: Seq<char>,
    cwd: Seq<char>,
    environment: Seq<(Seq<char>, Seq<char>)>,
) -> Seq<u8>;

/// The JSON encoding (`serde_json::to_vec`) of the tuple
/// `(tag, command, prefix, cwd, environment)`, the environment as an object in key order.
pub uninterp spec fn prefix_resume_json(
    tag: Seq<char>,
    command: Seq<char>,
    prefix: Seq<Seq<char>>,
    cwd: Seq<char>,
    environment: Seq<(Seq<char>, Seq<char>)>,
) -> Seq<u8>;

/// HMAC-SHA256 of `message` under `key` (`hmac::Hmac<sha2::Sha256>`).
pub uninterp spec fn hmac_sha256(key: Seq<u8>, message: Seq<u8>) -> Seq<u8>;

/// Canonical signing input of an exact-command approval, via `serde_json::to_vec`.
/// Claims only that the bytes are the JSON encoding named above; serializing strings and a
/// string-keyed map cannot fail.
#[verifier::external_body]
pub(crate) fn exact_payload(tag: &str, command: &str, cwd: &str, environment: &Environment) -> (r: Vec<u8>)
    ensures
        r@ == exact_resume_json(tag@, command@, cwd@, environment@),
{
    let env: std::collections::BTreeMap<&str, &str> =
        (0..environment.len()).map(|i| (environment.key(i), environment.value(i))).collect();
    serde_json::to_vec(&(tag, command, cwd, &env)).unwrap_or_default()
}

/// Canonical signing input of a prefix approval, via `serde_json::to_vec`.
/// Claims only that the bytes are the JSON encoding named above.
#[verifier::external_body]
pub(crate) fn prefix_payload(tag: &str, command: &str, prefix: &[String], cwd: &str, environment: &Environment) -> (r: Vec<u8>)
    ensures
        r@ == prefix_resume_json(tag@, command@, prefix@.map_values(|s: String| s@), cwd@, environment@),
{
    let env: std::collections::BTreeMap<&str, &str> =
        (0..environment.len()).map(|i| (environment.key(i), environment.value(i))).collect();
    serde_json::to_vec(&(tag, command, prefix, cwd, &env)).unwrap_or_default()
}

/// Tag `message` with `Hmac::<Sha256>::new_from_slice(key)`, `update` and `finalize`.
/// Claims that the tag is the 32-byte HMAC-SHA256 value; HMAC accepts keys of any length.
#[verifier::external_body]
pub(crate) fn hmac_sign(key: &[u8; 32], message: &[u8]) -> (tag: Vec<u8>)
    ensures
        tag@ == hmac_sha256(key@, message@),
        tag@.len() == 32,
{
    match hmac::Hmac::<sha2::Sha256>::new_from_slice(key) {
        Ok(mut mac) => {
            mac.update(message);
            mac.finalize().into_bytes().to_vec()
        },
        Err(_) => Vec::new(),
    }
}

/// Check a tag with `Mac::verify_slice`, which accepts exactly the full 32-byte HMAC-SHA256 value.
#[verifier::external_body]
pub(crate) fn hmac_verify(key: &[u8; 32], message: &[u8], tag: &[u8]) -> (ok: bool)
    ensures
        ok == (tag@ == hmac_sha256(key@, message@)),
{
    match hmac::Hmac::<sha2::Sha256>::new_from_slice(key) {
        Ok(mut mac) => {
            mac.update(message);
            mac.verify_slice(tag).is_ok()
        },
        Err(_) => false,
    }
}

} // verus!
