//! The host facilities the contracts rely on: the Soroban environment handle,
//! the opaque host value type, and the host's SHA-256.
use vstd::prelude::*;

verus! {

/// The Soroban environment handle; the library only passes it to the host's
/// hash function.
#[verifier::external_type_specification]
#[verifier::external_body]
pub struct ExEnv(soroban_sdk::Env);

/// An opaque host value (an argument of a forwarded call); the library only
/// carries it to the dispatcher.
#[verifier::external_type_specification]
#[verifier::external_body]
pub struct ExVal(soroban_sdk::Val);

/// The SHA-256 digest of a byte string, as the Soroban host computes it.
pub uninterp spec fn sha256_digest(data: Seq<u8>) -> Seq<u8>;

/// Calls `soroban_sdk::crypto::Crypto::sha256` on `data` (copied into host
/// `Bytes`) and returns the 32 digest bytes. The contract claims only that the
/// digest is a function of the input bytes alone: the environment handle is
/// not an input of SHA-256. The host charges its budget for the hash; running
/// out of budget aborts the whole invocation, which this contract leaves
/// unsaid.
#[verifier::external_body]
pub fn sha256(env: &soroban_sdk::Env, data: &[u8]) -> (digest: [u8; 32])
    ensures
        digest@ == sha256_digest(data@),
{
    let bytes = soroban_sdk::Bytes::from_slice(env, data);
    env.crypto().sha256(&bytes).to_array()
}

} // verus!
