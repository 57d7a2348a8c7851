//! The smart-account wallet: an owner key for administration, a WebAuthn
//! passkey with full authority, and scoped, expiring session keys.
use vstd::prelude::*;
use crate::base64::base64url_no_pad;
use crate::bytes::contains_bytes;
use crate::curve::{be_nat, is_curve_point, on_curve};
use crate::passkey::{passkey_digest, passkey_message_digest, passkey_signed_message, signed_message};
use crate::session::{AuthContext, SessionData, authorize_session, session_outcome};
use crate::table::{AccountKey, Table};

verus! {

/// Why the wallet refuses a request.
#[derive(Clone, Copy, Debug, PartialEq, Eq, Structural)]
pub enum WalletError {
    AlreadyInitialized,
    UnauthorizedOwner,
    SessionExpired,
    ContractNotWhitelisted,
    InvalidPasskeySignature,
    UnknownSessionKey,
    FunctionNotWhitelisted,
    SpendCapExceeded,
    /// The passkey public key is not the uncompressed SEC-1 encoding of a
    /// point of P-256.
    InvalidPasskeyKey,
}

/// The SEC-1 tag of an uncompressed elliptic-curve point.
pub const SEC1_UNCOMPRESSED_TAG: u8 = 4;

/// A 65-byte secp256r1 public key in the uncompressed SEC-1 form
/// `0x04 || X || Y`: the big-endian coordinates X and Y are below the field
/// prime and satisfy the curve equation.
pub open spec fn is_uncompressed_key(key: [u8; 65]) -> bool {
    &&& key@[0] == SEC1_UNCOMPRESSED_TAG
    &&& on_curve(be_nat(key@.subrange(1, 33)) as int, be_nat(key@.subrange(33, 65)) as int)
}

/// A WebAuthn passkey assertion.
pub struct PasskeySignature {
    pub client_data_json: Vec<u8>,
    pub authenticator_data: Vec<u8>,
    pub signature: [u8; 64],
}

/// What is presented to authorize a call on the wallet: the owner's passkey
/// assertion, or a claim to act as a registered session key.
pub enum WalletSignature {
    Owner(PasskeySignature),
    Session(AccountKey),
}

/// A secp256r1 signature check for the host to perform: `signature` over
/// `digest`, the SHA-256 of `message`, by the SEC-1 public key `public_key`.
pub struct PasskeyCheck {
    pub public_key: [u8; 65],
    pub message: Vec<u8>,
    pub digest: [u8; 32],
    pub signature: [u8; 64],
}

/// What remains for the host once the wallet has accepted an authorization:
/// a passkey signature to check, or the session key's own authorization to
/// require.
pub enum AuthRequirement {
    Passkey(PasskeyCheck),
    SessionKey(AccountKey),
}

/// The wallet's configuration, set once by `init`.
pub struct WalletConfig {
    pub owner: AccountKey,
    pub passkey: [u8; 65],
    pub seq: u64,
}

/// The wallet's storage: its configuration and its registered session keys.
pub struct SmartAccountWalletContract {
    pub config: Option<WalletConfig>,
    pub sessions: Table<AccountKey, SessionData>,
}

/// `sd` with its running spend total replaced by `spent`.
pub open spec fn with_spent(sd: SessionData, spent: i128) -> SessionData {
    SessionData {
        allowed_contract: sd.allowed_contract,
        allowed_functions: sd.allowed_functions,
        spend_cap: sd.spend_cap,
        spent,
        expires_at: sd.expires_at,
    }
}

/// What the owner path answers for an assertion over `challenge`: refused
/// when the assertion does not embed the challenge, otherwise the signature
/// check for the host, over the digest of the bytes the authenticator signed.
pub open spec fn owner_outcome(passkey: [u8; 65], challenge: Seq<u8>, sig: PasskeySignature, r: Result<PasskeyCheck, WalletError>) -> bool {
    match passkey_digest(challenge, sig.client_data_json@, sig.authenticator_data@) {
        None => r == Err::<PasskeyCheck, WalletError>(WalletError::InvalidPasskeySignature),
        Some(d) => r matches Ok(check) && check.public_key == passkey && check.digest@ == d
            && check.message@ == signed_message(sig.client_data_json@, sig.authenticator_data@)
            && check.signature == sig.signature,
    }
}

/// An assertion embeds `challenge` in its client data.
pub open spec fn embeds_challenge(challenge: Seq<u8>, client_data_json: Seq<u8>) -> bool {
    contains_bytes(client_data_json, base64url_no_pad(challenge))
}

/// The owner path's decision: the digest of a passkey assertion that embeds
/// `challenge`, to be checked against the wallet's passkey.
pub fn authorize_owner(env: &soroban_sdk::Env, challenge: &[u8; 32], passkey: &[u8; 65], sig: &PasskeySignature) -> (r: Result<PasskeyCheck, WalletError>)
    ensures
        owner_outcome(*passkey, challenge@, *sig, r),
{
    match passkey_message_digest(env, challenge, &sig.client_data_json, &sig.authenticator_data) {
        Some(digest) => {
            let message = passkey_signed_message(env, &sig.client_data_json, &sig.authenticator_data);
            Ok(PasskeyCheck { public_key: *passkey, message, digest, signature: sig.signature })
        },
        None => Err(WalletError::InvalidPasskeySignature),
    }
}

impl SmartAccountWalletContract {
    /// The session table is well formed.
    pub open spec fn wf(&self) -> bool {
        self.sessions.wf()
    }

    /// `init` has run.
    pub open spec fn is_initialized(&self) -> bool {
        self.config is Some
    }

    /// A wallet before `init`, with no session keys.
    pub fn new() -> (s: Self)
        ensures
            s.wf(),
            !s.is_initialized(),
            s.sessions.entries() == Map::<Seq<u8>, SessionData>::empty(),
    {
        SmartAccountWalletContract { config: None, sessions: Table::new() }
    }

    /// Sets the owner and the passkey public key, once. A key that is not an
    /// uncompressed SEC-1 encoding (`0x04 || X || Y`) of a point of P-256 is
    /// refused.
    pub fn init(&mut self, owner: AccountKey, passkey_pubkey: [u8; 65]) -> (r: Result<(), WalletError>)
        ensures
            old(self).is_initialized() ==> r == Err::<(), WalletError>(WalletError::AlreadyInitialized)
                && *final(self) == *old(self),
            !old(self).is_initialized() && !is_uncompressed_key(passkey_pubkey) ==> r == Err::<(), WalletError>(
                WalletError::InvalidPasskeyKey,
            ) && *final(self) == *old(self),
            !old(self).is_initialized() && is_uncompressed_key(passkey_pubkey) ==> r is Ok && final(self).config
                == Some(WalletConfig { owner, passkey: passkey_pubkey, seq: 0 })
                && final(self).sessions == old(self).sessions,
    {
        if self.config.is_some() {
            return Err(WalletError::AlreadyInitialized);
        }
        if passkey_pubkey[0] != SEC1_UNCOMPRESSED_TAG || !is_curve_point(&passkey_pubkey) {
            return Err(WalletError::InvalidPasskeyKey);
        }
        self.config = Some(WalletConfig { owner, passkey: passkey_pubkey, seq: 0 });
        Ok(())
    }

    /// The owner.
    pub fn get_owner(&self) -> (owner: AccountKey)
        requires
            self.is_initialized(),
        ensures
            owner@ == self.config->Some_0.owner@,
    {
        self.config.as_ref().unwrap().owner.duplicate()
    }

    /// Registers (or re-registers) `session_key` with its scope, its cap and
    /// its expiry; the running spend total starts again from zero.
    pub fn add_session_key(
        &mut self,
        session_key: &AccountKey,
        allowed_contract: AccountKey,
        allowed_functions: Vec<Vec<u8>>,
        spend_cap: Option<i128>,
        expires_at: u64,
    )
        requires
            old(self).wf(),
            old(self).is_initialized(),
        ensures
            final(self).wf(),
            final(self).config == old(self).config,
            final(self).sessions.entries() == old(self).sessions.entries().insert(
                session_key@,
                SessionData { allowed_contract, allowed_functions, spend_cap, spent: 0, expires_at },
            ),
    {
        let session_data = SessionData { allowed_contract, allowed_functions, spend_cap, spent: 0, expires_at };
        self.sessions.insert(session_key.duplicate(), session_data);
    }

    /// Checks a passkey assertion over `challenge` against the wallet's
    /// passkey: refused when the assertion does not embed the challenge,
    /// otherwise the signature check for the host to perform.
    pub fn verify_passkey_signature(
        &self,
        env: &soroban_sdk::Env,
        challenge: &[u8; 32],
        client_data_json: Vec<u8>,
        authenticator_data: Vec<u8>,
        signature: [u8; 64],
    ) -> (r: Result<PasskeyCheck, WalletError>)
        requires
            embeds_challenge(challenge@, client_data_json@) ==> self.is_initialized(),
        ensures
            owner_outcome(
                self.config->Some_0.passkey,
                challenge@,
                PasskeySignature { client_data_json, authenticator_data, signature },
                r,
            ),
    {
        let sig = PasskeySignature { client_data_json, authenticator_data, signature };
        match &self.config {
            Some(config) => authorize_owner(env, challenge, &config.passkey, &sig),
            None => Err(WalletError::InvalidPasskeySignature),
        }
    }

    /// Decides an authorization of the wallet at ledger time `now` for the
    /// host digest `signature_payload` and the calls in `auth_contexts`. The
    /// owner's assertion must embed the payload as its challenge and leaves
    /// the signature check to the host. A session key must be registered,
    /// unexpired and used within its scope; its new spend total is stored and
    /// its own authorization is left to the host. A refusal changes nothing.
    pub fn check_auth(
        &mut self,
        env: &soroban_sdk::Env,
        now: u64,
        this_wallet: &AccountKey,
        signature_payload: &[u8; 32],
        signature: WalletSignature,
        auth_contexts: &Vec<AuthContext>,
    ) -> (r: Result<AuthRequirement, WalletError>)
        requires
            old(self).wf(),
            signature matches WalletSignature::Owner(sig) && embeds_challenge(
                signature_payload@,
                sig.client_data_json@,
            ) ==> old(self).is_initialized(),
        ensures
            final(self).wf(),
            final(self).config == old(self).config,
            match signature {
                WalletSignature::Owner(sig) => *final(self) == *old(self) && match r {
                    Ok(AuthRequirement::Passkey(check)) => owner_outcome(
                        old(self).config->Some_0.passkey,
                        signature_payload@,
                        sig,
                        Ok(check),
                    ),
                    Ok(AuthRequirement::SessionKey(_)) => false,
                    Err(e) => owner_outcome(old(self).config->Some_0.passkey, signature_payload@, sig, Err(e)),
                },
                WalletSignature::Session(key) => if !old(self).sessions.entries().contains_key(key@) {
                    r matches Err(e) && e == WalletError::UnknownSessionKey && *final(self) == *old(self)
                } else {
                    let sd = old(self).sessions.entries()[key@];
                    match session_outcome(now, this_wallet@, sd, auth_contexts@) {
                        Ok(total) => (r matches Ok(AuthRequirement::SessionKey(k)) && k@ == key@)
                            && final(self).sessions.entries() == old(self).sessions.entries().insert(
                                key@,
                                with_spent(sd, total),
                            ),
                        Err(e) => r matches Err(e2) && e2 == e && *final(self) == *old(self),
                    }
                },
            },
    {
        match signature {
            WalletSignature::Owner(sig) => {
                let config = match &self.config {
                    Some(config) => config,
                    None => {
                        return Err(WalletError::InvalidPasskeySignature);
                    },
                };
                match authorize_owner(env, signature_payload, &config.passkey, &sig) {
                    Ok(check) => Ok(AuthRequirement::Passkey(check)),
                    Err(e) => Err(e),
                }
            },
            WalletSignature::Session(key) => {
                let (outcome, previous) = match self.sessions.get(&key) {
                    None => {
                        return Err(WalletError::UnknownSessionKey);
                    },
                    Some(sd) => (authorize_session(now, this_wallet, sd, auth_contexts), sd.spent),
                };
                match outcome {
                    Ok(total) => {
                        let ghost old_entries = self.sessions.entries();
                        if total != previous {
                            let mut sd = self.sessions.remove(&key).unwrap();
                            sd.spent = total;
                            self.sessions.insert(key.duplicate(), sd);
                        } else {
                            assert(self.sessions.entries() =~= old_entries.insert(
                                key@,
                                with_spent(old_entries[key@], total),
                            ));
                        }
                        Ok(AuthRequirement::SessionKey(key))
                    },
                    Err(e) => Err(e),
                }
            },
        }
    }
}

/// A session key whose running total is within its cap stays within its cap
/// after any authorization it is allowed, and a key without a cap keeps its
/// total; registration starts every key at zero.
pub proof fn lemma_session_spend_stays_within_cap(
    sd: SessionData,
    now: u64,
    this_wallet: Seq<u8>,
    ctxs: Seq<AuthContext>,
)
    requires
        session_outcome(now, this_wallet, sd, ctxs) is Ok,
        sd.spend_cap matches Some(cap) ==> sd.spent <= cap,
    ensures
        sd.spend_cap matches Some(cap) ==> session_outcome(now, this_wallet, sd, ctxs)->Ok_0 <= cap,
        sd.spend_cap is None ==> session_outcome(now, this_wallet, sd, ctxs)->Ok_0 == sd.spent,
{
    crate::session::lemma_scope_total_within_cap(this_wallet, sd, ctxs, sd.spent);
}

/// A session key authorizes nothing from its expiry time on, whatever the
/// calls; a key registered with expiry 0 is expired from genesis.
pub proof fn lemma_expired_session_refused(sd: SessionData, now: u64, this_wallet: Seq<u8>, ctxs: Seq<AuthContext>)
    requires
        now >= sd.expires_at,
    ensures
        session_outcome(now, this_wallet, sd, ctxs) == Err::<i128, WalletError>(WalletError::SessionExpired),
{
}

} // verus!
