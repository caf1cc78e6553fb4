//! Proof that an agent holds the private key of the public key it presents.

use p256::ecdsa::signature::Verifier;
use p256::ecdsa::{Signature, VerifyingKey};
use p256::pkcs8::DecodePublicKey;
use vstd::prelude::*;

verus! {

/// Whether `p256` reads the bytes as a public key.
pub uninterp spec fn key_readable(der: Seq<u8>) -> bool;

/// Whether `p256` reads the bytes as a signature.
pub uninterp spec fn signature_readable(bytes: Seq<u8>) -> bool;

/// Whether `p256` finds that the signature of the message is that of the key.
pub uninterp spec fn signature_holds(der: Seq<u8>, message: Seq<u8>, signature: Seq<u8>) -> bool;

/// `VerifyingKey::from_public_key_der` of `p256`: whether the bytes are a public key
/// depends on them alone.
#[verifier::external_body]
pub(crate) fn read_key(der: &[u8]) -> (r: Result<(), String>)
    ensures
        r is Ok == key_readable(der@),
{
    VerifyingKey::from_public_key_der(der).map(|_| ()).map_err(|e| e.to_string())
}

/// `Signature::from_slice` of `p256`: whether the bytes are a signature depends on
/// them alone.
#[verifier::external_body]
pub(crate) fn read_signature(bytes: &[u8]) -> (r: Result<(), String>)
    ensures
        r is Ok == signature_readable(bytes@),
{
    Signature::from_slice(bytes).map(|_| ()).map_err(|e| e.to_string())
}

/// `Verifier::verify` of `p256` on a key and a signature that can be read: whether the
/// signature of the message is that of the key.
#[verifier::external_body]
pub(crate) fn verify(der: &[u8], message: &[u8], signature: &[u8]) -> (r: Result<(), String>)
    requires
        key_readable(der@),
        signature_readable(signature@),
    ensures
        r is Ok == signature_holds(der@, message@, signature@),
{
    let key = VerifyingKey::from_public_key_der(der).map_err(|e| e.to_string())?;
    let signature = Signature::from_slice(signature).map_err(|e| e.to_string())?;
    key.verify(message, &signature).map_err(|e| e.to_string())
}

} // verus!
