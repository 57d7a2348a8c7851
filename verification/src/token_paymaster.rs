//! The token paymaster: a flat per-transaction fee in one configured token,
//! paid by the user to the relayer's treasury, and admin withdrawals of the
//! reserve the paymaster holds.
use vstd::prelude::*;
use crate::table::AccountKey;

verus! {

/// Why the token paymaster refuses a request.
#[derive(Clone, Copy, Debug, PartialEq, Eq, Structural)]
pub enum PaymasterError {
    AlreadyInitialized,
    UnauthorizedAdmin,
    InsufficientBalance,
    InvalidFeeAmount,
}

/// A token transfer for the host to carry out: `amount` of `token` from
/// `from` to `to`.
pub struct TokenTransfer {
    pub token: AccountKey,
    pub from: AccountKey,
    pub to: AccountKey,
    pub amount: i128,
}

/// The paymaster's configuration, set once by `init`.
pub struct PaymasterConfig {
    pub admin: AccountKey,
    pub token: AccountKey,
    pub fee_per_tx: i128,
}

/// The token paymaster's storage.
pub struct TokenPaymasterContract {
    pub config: Option<PaymasterConfig>,
}

impl TokenPaymasterContract {
    /// A paymaster before `init`.
    pub fn new() -> (s: Self)
        ensures
            s.config is None,
    {
        TokenPaymasterContract { config: None }
    }

    /// `init` has run.
    pub open spec fn is_initialized(&self) -> bool {
        self.config is Some
    }

    /// Sets the admin, the fee token and the fee per transaction, once.
    pub fn init(&mut self, admin: AccountKey, token: AccountKey, fee_per_tx: i128) -> (r: Result<(), PaymasterError>)
        ensures
            old(self).is_initialized() ==> r == Err::<(), PaymasterError>(PaymasterError::AlreadyInitialized)
                && *final(self) == *old(self),
            !old(self).is_initialized() ==> r is Ok && final(self).config == Some(
                PaymasterConfig { admin, token, fee_per_tx },
            ),
    {
        if self.config.is_some() {
            return Err(PaymasterError::AlreadyInitialized);
        }
        self.config = Some(PaymasterConfig { admin, token, fee_per_tx });
        Ok(())
    }

    /// The fee for one transaction: `fee_per_tx` of the configured token,
    /// from `user` to `relayer_treasury`.
    pub fn charge_fee(&self, user: &AccountKey, relayer_treasury: &AccountKey) -> (t: TokenTransfer)
        requires
            self.is_initialized(),
        ensures
            t.token@ == self.config->Some_0.token@,
            t.from@ == user@,
            t.to@ == relayer_treasury@,
            t.amount == self.config->Some_0.fee_per_tx,
    {
        let config = self.config.as_ref().unwrap();
        TokenTransfer {
            token: config.token.duplicate(),
            from: user.duplicate(),
            to: relayer_treasury.duplicate(),
            amount: config.fee_per_tx,
        }
    }

    /// A withdrawal of `amount` of the configured token from the paymaster's
    /// own reserve (held at `this_contract`) to `to`, allowed only when
    /// `admin` is the stored admin.
    pub fn withdraw_reserves(&self, this_contract: &AccountKey, admin: &AccountKey, to: &AccountKey, amount: i128) -> (r: Result<TokenTransfer, PaymasterError>)
        requires
            self.is_initialized(),
        ensures
            admin@ != self.config->Some_0.admin@ ==> (r matches Err(e) && e == PaymasterError::UnauthorizedAdmin),
            admin@ == self.config->Some_0.admin@ ==> (r matches Ok(t) && t.token@ == self.config->Some_0.token@
                && t.from@ == this_contract@ && t.to@ == to@ && t.amount == amount),
    {
        let config = self.config.as_ref().unwrap();
        if !crate::table::LedgerKey::same_key(admin, &config.admin) {
            return Err(PaymasterError::UnauthorizedAdmin);
        }
        Ok(TokenTransfer {
            token: config.token.duplicate(),
            from: this_contract.duplicate(),
            to: to.duplicate(),
            amount,
        })
    }
}

} // verus!
