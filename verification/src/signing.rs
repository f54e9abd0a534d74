//! Ed25519 keys and signatures, by their bytes.

use ed25519_dalek::{Signature, Signer, SigningKey, Verifier, VerifyingKey};
use rand::RngExt;
use vstd::prelude::*;

verus! {

/// `VerifyingKey::from_bytes` of ed25519-dalek accepts `key`.
pub uninterp spec fn ed25519_is_key(key: Seq<u8>) -> bool;

/// `Verifier::verify` of ed25519-dalek accepts `signature` over `message` under
/// the public key `key`.
pub uninterp spec fn ed25519_accepts(
    key: Seq<u8>,
    message: Seq<u8>,
    signature: Seq<u8>,
) -> bool;

/// The public key that ed25519-dalek derives from the secret key `secret`.
pub uninterp spec fn ed25519_public_key(secret: Seq<u8>) -> Seq<u8>;

/// The signature that ed25519-dalek makes over `message` with `secret`.
pub uninterp spec fn ed25519_signature(secret: Seq<u8>, message: Seq<u8>) -> Seq<u8>;

/// `VerifyingKey::from_bytes`: whether the bytes are a public key. Which bytes
/// are is named, not stated.
#[verifier::external_body]
pub(crate) fn is_key(key: &[u8; 32]) -> (yes: bool)
    ensures
        yes == ed25519_is_key(key@),
{
    VerifyingKey::from_bytes(key).is_ok()
}

/// `Verifier::verify` of a `VerifyingKey`: whether the signature holds. Bytes
/// that are no key verify nothing. Which signatures hold is named, not stated.
#[verifier::external_body]
pub(crate) fn accepts(key: &[u8; 32], message: &[u8], signature: &[u8; 64]) -> (yes: bool)
    ensures
        yes == (ed25519_is_key(key@) && ed25519_accepts(key@, message@, signature@)),
{
    match VerifyingKey::from_bytes(key) {
        Ok(key) => key.verify(message, &Signature::from_bytes(signature)).is_ok(),
        Err(_) => false,
    }
}

/// `SigningKey::verifying_key`: the public key of a secret key, which is a key.
#[verifier::external_body]
pub(crate) fn public_key_of(secret: &[u8; 32]) -> (key: [u8; 32])
    ensures
        key@ == ed25519_public_key(secret@),
        ed25519_is_key(key@),
{
    SigningKey::from_bytes(secret).verifying_key().to_bytes()
}

/// `Signer::sign` of a `SigningKey`: the signature over a message, which holds
/// under the public key of the same secret key.
#[verifier::external_body]
pub(crate) fn sign_with(secret: &[u8; 32], message: &[u8]) -> (signature: [u8; 64])
    ensures
        signature@ == ed25519_signature(secret@, message@),
        ed25519_accepts(ed25519_public_key(secret@), message@, signature@),
{
    SigningKey::from_bytes(secret).sign(message).to_bytes()
}

/// `fill` of rand's thread generator: 32 bytes of which nothing is promised.
#[verifier::external_body]
pub(crate) fn random_bytes() -> (bytes: [u8; 32]) {
    let mut bytes = [0_u8; 32];
    rand::rng().fill(&mut bytes);
    bytes
}

/// The first 32 bytes of `bytes`.
pub fn key_from(bytes: &[u8]) -> (out: [u8; 32])
    requires
        bytes@.len() >= 32,
    ensures
        out@ == bytes@.take(32),
{
    let mut out: [u8; 32] = [0; 32];
    let mut i: usize = 0;
    while i < 32
        invariant
            i <= 32,
            bytes@.len() >= 32,
            forall|j: int| 0 <= j < i ==> out@[j] == bytes@[j],
        decreases 32 - i,
    {
        out[i] = bytes[i];
        i = i + 1;
    }
    assert(out@ =~= bytes@.take(32));
    out
}

/// The first 64 bytes of `bytes`.
pub fn signature_from(bytes: &[u8]) -> (out: [u8; 64])
    requires
        bytes@.len() >= 64,
    ensures
        out@ == bytes@.take(64),
{
    let mut out: [u8; 64] = [0; 64];
    let mut i: usize = 0;
    while i < 64
        invariant
            i <= 64,
            bytes@.len() >= 64,
            forall|j: int| 0 <= j < i ==> out@[j] == bytes@[j],
        decreases 64 - i,
    {
        out[i] = bytes[i];
        i = i + 1;
    }
    assert(out@ =~= bytes@.take(64));
    out
}

} // verus!
