use vstd::prelude::*;
use k256::ecdsa::signature::Verifier;
use k256::ecdsa::{Signature, VerifyingKey};

verus! {

/// Whether `signature` is a valid ECDSA (secp256k1) signature by the
/// SEC1-encoded `public_key` over `message`, as the `k256` crate decides
/// it. The verdict depends on the three byte strings alone.
pub uninterp spec fn ecdsa_verifies(public_key: Seq<u8>, message: Seq<u8>, signature: Seq<u8>) -> bool;

/// Relies on k256::ecdsa (VerifyingKey::from_sec1_bytes, Signature::try_from
/// and Verifier::verify): parses the claimed key and signature and checks
/// the signature over `transaction_data`; an unparseable key or signature
/// verifies nothing.
#[verifier::external_body]
pub fn verify(public_key: &[u8], transaction_data: &[u8], signature: &[u8]) -> (r: bool)
    ensures
        r == ecdsa_verifies(public_key@, transaction_data@, signature@),
{
    let verifying_key = match VerifyingKey::from_sec1_bytes(public_key) {
        Ok(k) => k,
        Err(_) => return false,
    };
    let sig = match Signature::try_from(signature) {
        Ok(s) => s,
        Err(_) => return false,
    };
    verifying_key.verify(transaction_data, &sig).is_ok()
}

} // verus!
