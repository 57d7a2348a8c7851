//! The trusted forwarder: a per-user sequential nonce and a deadline guard in
//! front of forwarded calls, single or batched.
use vstd::prelude::*;
use soroban_sdk::Val;
use crate::table::{AccountKey, Table};

verus! {

/// Why the forwarder refuses a request.
#[derive(Clone, Copy, Debug, PartialEq, Eq, Structural)]
pub enum ForwarderError {
    AlreadyInitialized,
    ExpiredDeadline,
    InvalidNonceSequence,
    BatchLengthMismatch,
    UnauthorizedSigner,
}

/// One call to dispatch: the target contract, the function's name and the
/// arguments, passed through untouched.
pub struct BatchCall {
    pub target: AccountKey,
    pub function: Vec<u8>,
    pub args: Vec<Val>,
}

/// The forwarder's storage: the admin and protocol version set by `init`, and
/// the next expected nonce of every user that has forwarded a call.
pub struct TrustedForwarderContract {
    pub admin: Option<AccountKey>,
    pub version: Option<Vec<u8>>,
    pub nonces: Table<AccountKey, u64>,
}

/// The version reported before `init` sets one: `v1_0`.
pub open spec fn default_version() -> Seq<u8> {
    seq![118u8, 49u8, 95u8, 48u8]
}

/// What the nonce guard decides: a request past its deadline is refused, a
/// request whose nonce is not the stored one is refused, and otherwise the
/// stored nonce advances by one.
pub open spec fn consume_outcome(now: u64, deadline: u64, current_nonce: u64, nonce: u64) -> Result<u64, ForwarderError> {
    if now > deadline {
        Err(ForwarderError::ExpiredDeadline)
    } else if nonce != current_nonce {
        Err(ForwarderError::InvalidNonceSequence)
    } else {
        Ok((current_nonce + 1) as u64)
    }
}

/// Accepting the request would advance the stored nonce past `u64::MAX`.
pub open spec fn nonce_overflows(now: u64, deadline: u64, current_nonce: u64, nonce: u64) -> bool {
    now <= deadline && nonce == current_nonce && current_nonce == u64::MAX
}

/// What a batch request decides: an empty batch is refused before the nonce
/// guard is consulted.
pub open spec fn batch_outcome(n_calls: nat, now: u64, deadline: u64, current_nonce: u64, nonce: u64) -> Result<u64, ForwarderError> {
    if n_calls == 0 {
        Err(ForwarderError::BatchLengthMismatch)
    } else {
        consume_outcome(now, deadline, current_nonce, nonce)
    }
}

/// The nonce guard: refuses an expired deadline or an unexpected nonce, and
/// otherwise returns the nonce to store next.
pub fn check_and_consume_nonce(now: u64, deadline: u64, current_nonce: u64, nonce: u64) -> (r: Result<u64, ForwarderError>)
    requires
        !nonce_overflows(now, deadline, current_nonce, nonce),
    ensures
        r == consume_outcome(now, deadline, current_nonce, nonce),
{
    if now > deadline {
        return Err(ForwarderError::ExpiredDeadline);
    }
    if nonce != current_nonce {
        return Err(ForwarderError::InvalidNonceSequence);
    }
    Ok(current_nonce + 1)
}

/// The batch guard: refuses an empty batch, then applies the nonce guard.
pub fn check_batch(n_calls: usize, now: u64, deadline: u64, current_nonce: u64, nonce: u64) -> (r: Result<u64, ForwarderError>)
    requires
        n_calls > 0 ==> !nonce_overflows(now, deadline, current_nonce, nonce),
    ensures
        r == batch_outcome(n_calls as nat, now, deadline, current_nonce, nonce),
{
    if n_calls == 0 {
        return Err(ForwarderError::BatchLengthMismatch);
    }
    check_and_consume_nonce(now, deadline, current_nonce, nonce)
}

/// The `v1_0` version name.
pub fn default_version_name() -> (v: Vec<u8>)
    ensures
        v@ == default_version(),
{
    let v: Vec<u8> = vec![118u8, 49u8, 95u8, 48u8];
    assert(v@ =~= default_version());
    v
}

impl TrustedForwarderContract {
    /// The nonce table is well formed.
    pub open spec fn wf(&self) -> bool {
        self.nonces.wf()
    }

    /// The next nonce expected from `user`: the stored one, or 0.
    pub open spec fn nonce_of(&self, user: Seq<u8>) -> u64 {
        if self.nonces.entries().contains_key(user) {
            self.nonces.entries()[user]
        } else {
            0
        }
    }

    /// `new` is `old` with `user`'s nonce advanced to `next`, all else kept.
    pub open spec fn advanced(old: Self, new: Self, user: Seq<u8>, next: u64) -> bool {
        &&& new.wf()
        &&& new.nonces.entries() == old.nonces.entries().insert(user, next)
        &&& new.admin == old.admin
        &&& new.version == old.version
    }

    /// A forwarder before `init`: no admin, no version, no nonces.
    pub fn new() -> (s: Self)
        ensures
            s.wf(),
            s.admin is None,
            s.version is None,
            s.nonces.entries() == Map::<Seq<u8>, u64>::empty(),
    {
        TrustedForwarderContract { admin: None, version: None, nonces: Table::new() }
    }

    /// Sets the admin and the protocol version, once.
    pub fn init(&mut self, admin: AccountKey, version: Vec<u8>) -> (r: Result<(), ForwarderError>)
        requires
            old(self).wf(),
        ensures
            final(self).wf(),
            old(self).admin is Some ==> r == Err::<(), ForwarderError>(ForwarderError::AlreadyInitialized)
                && *final(self) == *old(self),
            old(self).admin is None ==> r is Ok && final(self).admin == Some(admin)
                && final(self).version == Some(version) && final(self).nonces == old(self).nonces,
    {
        if self.admin.is_some() {
            return Err(ForwarderError::AlreadyInitialized);
        }
        self.admin = Some(admin);
        self.version = Some(version);
        Ok(())
    }

    /// The next nonce expected from `user`.
    pub fn get_nonce(&self, user: &AccountKey) -> (n: u64)
        requires
            self.wf(),
        ensures
            n == self.nonce_of(user@),
    {
        match self.nonces.get(user) {
            Some(n) => *n,
            None => 0,
        }
    }

    /// The protocol version set by `init`, or `v1_0` before it.
    pub fn version(&self) -> (v: Vec<u8>)
        ensures
            v@ == match self.version {
                Some(stored) => stored@,
                None => default_version(),
            },
    {
        match &self.version {
            Some(stored) => crate::bytes::copy_bytes(stored.as_slice()),
            None => default_version_name(),
        }
    }

    /// Stores `next` as `user`'s nonce.
    fn store_nonce(&mut self, user: &AccountKey, next: u64)
        requires
            old(self).wf(),
        ensures
            Self::advanced(*old(self), *final(self), user@, next),
    {
        self.nonces.insert(user.duplicate(), next);
    }

    /// Accepts a call forwarded on `user`'s behalf at ledger time `now`:
    /// checks the deadline and the nonce, consumes the nonce, and hands back
    /// the call to dispatch. A refused request changes nothing.
    pub fn execute_forwarded(
        &mut self,
        now: u64,
        user: &AccountKey,
        target_contract: AccountKey,
        function: Vec<u8>,
        args: Vec<Val>,
        nonce: u64,
        deadline: u64,
    ) -> (r: Result<BatchCall, ForwarderError>)
        requires
            old(self).wf(),
            !nonce_overflows(now, deadline, old(self).nonce_of(user@), nonce),
        ensures
            match consume_outcome(now, deadline, old(self).nonce_of(user@), nonce) {
                Ok(next) => Self::advanced(*old(self), *final(self), user@, next) && match r {
                    Ok(call) => call.target@ == target_contract@ && call.function@ == function@
                        && call.args@ == args@,
                    Err(_) => false,
                },
                Err(e) => r matches Err(e2) && e2 == e && *final(self) == *old(self),
            },
    {
        let current = self.get_nonce(user);
        match check_and_consume_nonce(now, deadline, current, nonce) {
            Ok(next) => {
                self.store_nonce(user, next);
                Ok(BatchCall { target: target_contract, function, args })
            },
            Err(e) => Err(e),
        }
    }

    /// Accepts a batch of calls forwarded on `user`'s behalf under one nonce:
    /// refuses an empty batch, checks the deadline and the nonce, consumes the
    /// nonce once, and hands back the calls to dispatch in order. A refused
    /// request changes nothing.
    pub fn execute_batch(
        &mut self,
        now: u64,
        user: &AccountKey,
        calls: Vec<BatchCall>,
        nonce: u64,
        deadline: u64,
    ) -> (r: Result<Vec<BatchCall>, ForwarderError>)
        requires
            old(self).wf(),
            calls@.len() > 0 ==> !nonce_overflows(now, deadline, old(self).nonce_of(user@), nonce),
        ensures
            match batch_outcome(calls@.len(), now, deadline, old(self).nonce_of(user@), nonce) {
                Ok(next) => Self::advanced(*old(self), *final(self), user@, next) && match r {
                    Ok(dispatch) => dispatch@ == calls@,
                    Err(_) => false,
                },
                Err(e) => r matches Err(e2) && e2 == e && *final(self) == *old(self),
            },
    {
        let current = self.get_nonce(user);
        match check_batch(calls.len(), now, deadline, current, nonce) {
            Ok(next) => {
                self.store_nonce(user, next);
                Ok(calls)
            },
            Err(e) => Err(e),
        }
    }
}

/// The nonce guard refuses exactly what it must: a request is refused as
/// expired only when the ledger time is past its deadline (however far ahead
/// the deadline lies), refused for its nonce only when the deadline holds and
/// the nonce is not the stored one, and otherwise accepted with the stored
/// nonce advanced by one.
pub proof fn lemma_nonce_guard_decisions(now: u64, deadline: u64, current_nonce: u64, nonce: u64)
    requires
        !nonce_overflows(now, deadline, current_nonce, nonce),
    ensures
        (consume_outcome(now, deadline, current_nonce, nonce) == Err::<u64, ForwarderError>(
            ForwarderError::ExpiredDeadline,
        )) <==> now > deadline,
        (consume_outcome(now, deadline, current_nonce, nonce) == Err::<u64, ForwarderError>(
            ForwarderError::InvalidNonceSequence,
        )) <==> (now <= deadline && nonce != current_nonce),
        now <= deadline && nonce == current_nonce ==> consume_outcome(now, deadline, current_nonce, nonce)
            == Ok::<u64, ForwarderError>((nonce + 1) as u64) && nonce + 1 <= u64::MAX,
{
}

/// Replay protection: once a request with nonce `nonce` has been accepted for
/// `user`, the stored nonce is `nonce + 1`, so the same nonce is refused at any
/// later time and with any deadline, while every other user's nonce is
/// unchanged.
pub proof fn lemma_accepted_nonce_is_never_accepted_again(
    old_state: TrustedForwarderContract,
    new_state: TrustedForwarderContract,
    user: Seq<u8>,
    now: u64,
    deadline: u64,
    nonce: u64,
    later_now: u64,
    later_deadline: u64,
)
    requires
        old_state.wf(),
        !nonce_overflows(now, deadline, old_state.nonce_of(user), nonce),
        consume_outcome(now, deadline, old_state.nonce_of(user), nonce) is Ok,
        TrustedForwarderContract::advanced(
            old_state,
            new_state,
            user,
            consume_outcome(now, deadline, old_state.nonce_of(user), nonce)->Ok_0,
        ),
    ensures
        new_state.nonce_of(user) == nonce + 1,
        new_state.nonce_of(user) == old_state.nonce_of(user) + 1,
        consume_outcome(later_now, later_deadline, new_state.nonce_of(user), nonce) is Err,
        forall|other: Seq<u8>| other != user ==> new_state.nonce_of(other) == old_state.nonce_of(other),
{
}

} // verus!
