//! WebAuthn passkey assertions: the digest an authenticator signs, checked
//! against the challenge the assertion must embed.
use vstd::prelude::*;
use crate::base64::{base64_url_encode_no_pad, base64url_no_pad};
use crate::bytes::{append_bytes, bytes_contains, contains_bytes};
use crate::host::{sha256, sha256_digest};

verus! {

/// The bytes a WebAuthn authenticator signs (through their SHA-256):
/// `authenticator_data || SHA-256(client_data_json)`.
pub open spec fn signed_message(client_data_json: Seq<u8>, authenticator_data: Seq<u8>) -> Seq<u8> {
    authenticator_data + sha256_digest(client_data_json)
}

/// The digest a WebAuthn assertion over `challenge` signs, when
/// `client_data_json` embeds the base64url form of the challenge:
/// `SHA-256(authenticator_data || SHA-256(client_data_json))`. `None` when the
/// challenge is not embedded.
pub open spec fn passkey_digest(challenge: Seq<u8>, client_data_json: Seq<u8>, authenticator_data: Seq<u8>) -> Option<Seq<u8>> {
    if contains_bytes(client_data_json, base64url_no_pad(challenge)) {
        Some(sha256_digest(signed_message(client_data_json, authenticator_data)))
    } else {
        None
    }
}

/// Checks that `client_data_json` embeds the base64url form of `challenge`
/// and, if so, rebuilds the digest the authenticator signed.
pub fn passkey_message_digest(
    env: &soroban_sdk::Env,
    challenge: &[u8; 32],
    client_data_json: &Vec<u8>,
    authenticator_data: &Vec<u8>,
) -> (r: Option<[u8; 32]>)
    ensures
        match r {
            Some(d) => passkey_digest(challenge@, client_data_json@, authenticator_data@) == Some(d@),
            None => passkey_digest(challenge@, client_data_json@, authenticator_data@) is None,
        },
{
    let challenge_b64 = base64_url_encode_no_pad(challenge);
    if !bytes_contains(client_data_json.as_slice(), challenge_b64.as_slice()) {
        return None;
    }
    let signed_data = passkey_signed_message(env, client_data_json, authenticator_data);
    Some(sha256(env, signed_data.as_slice()))
}

/// The bytes an authenticator signs for an assertion:
/// `authenticator_data || SHA-256(client_data_json)`.
pub fn passkey_signed_message(env: &soroban_sdk::Env, client_data_json: &Vec<u8>, authenticator_data: &Vec<u8>) -> (m: Vec<u8>)
    ensures
        m@ == signed_message(client_data_json@, authenticator_data@),
{
    let client_data_hash = sha256(env, client_data_json.as_slice());
    let mut signed_data: Vec<u8> = Vec::new();
    append_bytes(&mut signed_data, authenticator_data.as_slice());
    append_bytes(&mut signed_data, client_data_hash.as_slice());
    signed_data
}

} // verus!
