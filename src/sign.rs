//! Ed25519 signing keys derived from the master key.
use crate::error::Error;
use crate::seed::{derived, wipe_key, Seed};
use crate::text::to_array;
use base64::Engine;
use ed25519_dalek::{Signer, Verifier};
use vstd::prelude::*;
use vstd::utf8::encode_utf8;

verus! {

/// The Ed25519 public key of a 32-byte secret key.
pub uninterp spec fn ed25519_public_key(secret: Seq<u8>) -> Seq<u8>;

/// The Ed25519 signature (RFC 8032, deterministic) of a message under a secret key.
pub uninterp spec fn ed25519_signature(secret: Seq<u8>, message: Seq<u8>) -> Seq<u8>;

/// Whether 32 bytes decode to an Ed25519 public key.
pub uninterp spec fn ed25519_key_valid(public: Seq<u8>) -> bool;

/// Whether a signature of a message verifies under a public key.
pub uninterp spec fn ed25519_accepts(public: Seq<u8>, signature: Seq<u8>, message: Seq<u8>) -> bool;

/// The standard (padded) base64 text of some bytes.
pub uninterp spec fn base64_text(bytes: Seq<u8>) -> Seq<char>;

/// The bytes that standard base64 decoding gives for a text, if it accepts it.
pub uninterp spec fn base64_decoded(text: Seq<char>) -> Option<Seq<u8>>;

/// Relies on `ed25519_dalek::SigningKey::from_bytes` and `verifying_key`.
#[verifier::external_body]
pub(crate) fn ed25519_public(secret: &[u8; 32]) -> (public: [u8; 32])
    ensures
        public@ == ed25519_public_key(secret@),
{
    ed25519_dalek::SigningKey::from_bytes(secret).verifying_key().to_bytes()
}

/// Relies on `ed25519_dalek::SigningKey::sign`.
#[verifier::external_body]
fn ed25519_sign(secret: &[u8; 32], message: &[u8]) -> (signature: [u8; 64])
    ensures
        signature@ == ed25519_signature(secret@, message@),
{
    ed25519_dalek::SigningKey::from_bytes(secret).sign(message).to_bytes()
}

/// Relies on `ed25519_dalek::VerifyingKey::from_bytes` and `verify`.
#[verifier::external_body]
fn ed25519_verify(public: &[u8; 32], signature: &[u8; 64], message: &[u8]) -> (r: Option<bool>)
    ensures
        r is Some <==> ed25519_key_valid(public@),
        r matches Some(ok) ==> ok == ed25519_accepts(public@, signature@, message@),
{
    let key = ed25519_dalek::VerifyingKey::from_bytes(public).ok()?;
    Some(key.verify(message, &ed25519_dalek::Signature::from_bytes(signature)).is_ok())
}

/// Relies on `base64::engine::general_purpose::STANDARD.encode`.
#[verifier::external_body]
pub(crate) fn base64_encode(bytes: &[u8]) -> (text: String)
    ensures
        text@ == base64_text(bytes@),
{
    base64::engine::general_purpose::STANDARD.encode(bytes)
}

/// Relies on `base64::engine::general_purpose::STANDARD.decode`.
#[verifier::external_body]
fn base64_decode(text: &str) -> (r: Option<Vec<u8>>)
    ensures
        r is Some <==> base64_decoded(text@) is Some,
        r matches Some(b) ==> base64_decoded(text@) == Some(b@),
{
    base64::engine::general_purpose::STANDARD.decode(text).ok()
}

/// The purpose of signing keys: "sign".
pub open spec fn sign_purpose() -> Seq<char> {
    seq!['s', 'i', 'g', 'n']
}

/// The signing secret key of a realm.
pub open spec fn signing_secret(master: Seq<u8>, realm: Seq<char>) -> Seq<u8> {
    derived(master, realm, encode_utf8(sign_purpose()), 32)
}

/// The base64 text of the Ed25519 public key of a realm.
pub fn derive_public(seed: &Seed, realm: &str) -> (r: String)
    ensures
        r@ == base64_text(ed25519_public_key(signing_secret(seed@, realm@))),
{
    proof {
        reveal_strlit("sign");
        assert("sign"@ =~= sign_purpose());
    }
    let mut secret = seed.derive_32(realm, "sign");
    let public = ed25519_public(&secret);
    wipe_key(&mut secret);
    base64_encode(public.as_slice())
}

/// Signs data with the Ed25519 key of a realm; the 64 signature bytes.
pub fn sign(seed: &Seed, realm: &str, data: &[u8]) -> (r: Vec<u8>)
    ensures
        r@ == ed25519_signature(signing_secret(seed@, realm@), data@),
{
    proof {
        reveal_strlit("sign");
        assert("sign"@ =~= sign_purpose());
    }
    let mut secret = seed.derive_32(realm, "sign");
    let signature = ed25519_sign(&secret, data);
    wipe_key(&mut secret);
    let mut out: Vec<u8> = Vec::new();
    crate::text::append_bytes(&mut out, signature.as_slice());
    out
}

/// The base64 text in which signatures are shown.
pub fn signature_text(signature: &[u8]) -> (r: String)
    ensures
        r@ == base64_text(signature@),
{
    base64_encode(signature)
}

/// Reads a signature given as base64 text.
pub fn signature_from_text(text: &str) -> (r: Result<Vec<u8>, Error>)
    ensures
        match base64_decoded(text@) {
            Some(b) => r matches Ok(v) && v@ == b,
            None => r == Err::<Vec<u8>, Error>(Error::InvalidBase64),
        },
{
    match base64_decode(text) {
        Some(b) => Ok(b),
        None => Err(Error::InvalidBase64),
    }
}

/// Checks a signature of data against a base64 public key.
pub fn verify(pubkey_b64: &str, signature: &[u8], data: &[u8]) -> (r: Result<bool, Error>)
    ensures
        base64_decoded(pubkey_b64@) is None ==> r == Err::<bool, Error>(Error::InvalidBase64),
        base64_decoded(pubkey_b64@) matches Some(key) ==> {
            if key.len() != 32 {
                r == Err::<bool, Error>(Error::PublicKeyLength(key.len() as usize))
            } else if signature@.len() != 64 {
                r == Err::<bool, Error>(Error::SignatureLength(signature@.len() as usize))
            } else if !ed25519_key_valid(key) {
                r == Err::<bool, Error>(Error::InvalidPublicKey)
            } else {
                r == Ok::<bool, Error>(ed25519_accepts(key, signature@, data@))
            }
        },
{
    let key = match base64_decode(pubkey_b64) {
        Some(k) => k,
        None => return Err(Error::InvalidBase64),
    };
    if key.len() != 32 {
        return Err(Error::PublicKeyLength(key.len()));
    }
    if signature.len() != 64 {
        return Err(Error::SignatureLength(signature.len()));
    }
    let key_array: [u8; 32] = to_array(key.as_slice());
    let sig_array: [u8; 64] = to_array(signature);
    match ed25519_verify(&key_array, &sig_array, data) {
        Some(ok) => Ok(ok),
        None => Err(Error::InvalidPublicKey),
    }
}

} // verus!
