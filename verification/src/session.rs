//! Session-key scoping: which calls a session key may authorize for the
//! wallet, and the cumulative SEP-41 spend cap it is held to.
use vstd::prelude::*;
use crate::bytes::bytes_equal;
use crate::table::{AccountKey, LedgerKey};
use crate::wallet::WalletError;

verus! {

/// What a session key may do: call `allowed_functions` on `allowed_contract`
/// before ledger time `expires_at` (from then on it is expired), moving at most `spend_cap` (if any) through SEP-41
/// transfers in total; `spent` is what it has moved so far.
pub struct SessionData {
    pub allowed_contract: AccountKey,
    pub allowed_functions: Vec<Vec<u8>>,
    pub spend_cap: Option<i128>,
    pub spent: i128,
    pub expires_at: u64,
}

/// A call argument as far as the scope check reads it: an address, a symbol
/// (by its characters), a 128-bit integer, or anything else.
pub enum ArgValue {
    Address(AccountKey),
    Symbol(Vec<u8>),
    I128(i128),
    Other,
}

/// One contract call that needs the wallet's authorization.
pub struct ContractContext {
    pub contract: AccountKey,
    pub fn_name: Vec<u8>,
    pub args: Vec<ArgValue>,
}

/// One entry of the authorization tree: a contract call, or the creation of
/// a contract.
pub enum AuthContext {
    Contract(ContractContext),
    CreateContract,
}

/// The name of the wallet's own dispatch entry point: `execute`.
pub open spec fn execute_name() -> Seq<u8> {
    seq![101u8, 120u8, 101u8, 99u8, 117u8, 116u8, 101u8]
}

/// The SEP-41 `transfer(from, to, amount)` function name.
pub open spec fn transfer_name() -> Seq<u8> {
    seq![116u8, 114u8, 97u8, 110u8, 115u8, 102u8, 101u8, 114u8]
}

/// The SEP-41 `transfer_from(spender, from, to, amount)` function name.
pub open spec fn transfer_from_name() -> Seq<u8> {
    seq![116u8, 114u8, 97u8, 110u8, 115u8, 102u8, 101u8, 114u8, 95u8, 102u8, 114u8, 111u8, 109u8]
}

/// `f` is one of the allowed function names.
pub open spec fn allows_function(allowed: Seq<Vec<u8>>, f: Seq<u8>) -> bool {
    exists|i: int| 0 <= i < allowed.len() && #[trigger] allowed[i]@ == f
}

/// The amount a call moves if it has the SEP-41 `transfer` or
/// `transfer_from` shape (name, argument count, and an integer in the amount
/// position); `None` for any other call.
pub open spec fn transfer_amount(fn_name: Seq<u8>, args: Seq<ArgValue>) -> Option<i128> {
    if fn_name == transfer_name() && args.len() == 3 {
        match args[2] {
            ArgValue::I128(a) => Some(a),
            _ => None,
        }
    } else if fn_name == transfer_from_name() && args.len() == 4 {
        match args[3] {
            ArgValue::I128(a) => Some(a),
            _ => None,
        }
    } else {
        None
    }
}

/// The check of the wallet's own `execute(target, function, args)` call: the
/// target must be the allowed contract and the function an allowed one.
pub open spec fn execute_call_outcome(sd: SessionData, args: Seq<ArgValue>, spent: i128) -> Result<i128, WalletError> {
    if args.len() < 1 {
        Err(WalletError::ContractNotWhitelisted)
    } else if !(args[0] matches ArgValue::Address(a) && a@ == sd.allowed_contract@) {
        Err(WalletError::ContractNotWhitelisted)
    } else if args.len() < 2 {
        Err(WalletError::FunctionNotWhitelisted)
    } else if !(args[1] matches ArgValue::Symbol(f) && allows_function(sd.allowed_functions@, f@)) {
        Err(WalletError::FunctionNotWhitelisted)
    } else {
        Ok(spent)
    }
}

/// The check of a call made directly on another contract: it must be the
/// allowed contract and an allowed function, and under a cap a SEP-41
/// transfer must keep the running total representable and within the cap.
pub open spec fn direct_call_outcome(sd: SessionData, c: ContractContext, spent: i128) -> Result<i128, WalletError> {
    if c.contract@ != sd.allowed_contract@ {
        Err(WalletError::ContractNotWhitelisted)
    } else if !allows_function(sd.allowed_functions@, c.fn_name@) {
        Err(WalletError::FunctionNotWhitelisted)
    } else if sd.spend_cap is Some && transfer_amount(c.fn_name@, c.args@) is Some {
        let total = spent + transfer_amount(c.fn_name@, c.args@)->Some_0;
        if total < i128::MIN || total > i128::MAX {
            Err(WalletError::SpendCapExceeded)
        } else if total > sd.spend_cap->Some_0 {
            Err(WalletError::SpendCapExceeded)
        } else {
            Ok(total as i128)
        }
    } else {
        Ok(spent)
    }
}

/// The check of one authorization context, with `spent` the running total
/// so far: a call on the wallet itself must be `execute` and is judged by its
/// arguments; a call on another contract is judged directly; a contract
/// creation is never in scope.
pub open spec fn context_outcome(this_wallet: Seq<u8>, sd: SessionData, ctx: AuthContext, spent: i128) -> Result<i128, WalletError> {
    match ctx {
        AuthContext::CreateContract => Err(WalletError::ContractNotWhitelisted),
        AuthContext::Contract(c) => if c.contract@ == this_wallet {
            if c.fn_name@ != execute_name() {
                Err(WalletError::ContractNotWhitelisted)
            } else {
                execute_call_outcome(sd, c.args@, spent)
            }
        } else {
            direct_call_outcome(sd, c, spent)
        },
    }
}

/// The check of every context in order, stopping at the first refusal; on
/// success, the running total after the last context.
pub open spec fn scope_outcome(this_wallet: Seq<u8>, sd: SessionData, ctxs: Seq<AuthContext>, spent: i128) -> Result<i128, WalletError>
    decreases ctxs.len(),
{
    if ctxs.len() == 0 {
        Ok(spent)
    } else {
        match context_outcome(this_wallet, sd, ctxs[0], spent) {
            Ok(next) => scope_outcome(this_wallet, sd, ctxs.drop_first(), next),
            Err(e) => Err(e),
        }
    }
}

/// What a session key's authorization decides at ledger time `now`: a key
/// whose expiry time has been reached is refused, otherwise every context is checked against its
/// scope starting from the total it has already moved.
pub open spec fn session_outcome(now: u64, this_wallet: Seq<u8>, sd: SessionData, ctxs: Seq<AuthContext>) -> Result<i128, WalletError> {
    if now >= sd.expires_at {
        Err(WalletError::SessionExpired)
    } else {
        scope_outcome(this_wallet, sd, ctxs, sd.spent)
    }
}

/// `ctx` stays within the session's scope: a call on the wallet is `execute`
/// of an allowed function on the allowed contract, any other call is an
/// allowed function on the allowed contract.
pub open spec fn in_scope(this_wallet: Seq<u8>, sd: SessionData, ctx: AuthContext) -> bool {
    match ctx {
        AuthContext::CreateContract => false,
        AuthContext::Contract(c) => if c.contract@ == this_wallet {
            &&& c.fn_name@ == execute_name()
            &&& c.args@.len() >= 2
            &&& c.args@[0] matches ArgValue::Address(a) && a@ == sd.allowed_contract@
            &&& c.args@[1] matches ArgValue::Symbol(f) && allows_function(sd.allowed_functions@, f@)
        } else {
            &&& c.contract@ == sd.allowed_contract@
            &&& allows_function(sd.allowed_functions@, c.fn_name@)
        },
    }
}

/// The symbol `execute`.
fn execute_symbol() -> (v: Vec<u8>)
    ensures
        v@ == execute_name(),
{
    let v: Vec<u8> = vec![101u8, 120u8, 101u8, 99u8, 117u8, 116u8, 101u8];
    assert(v@ =~= execute_name());
    v
}

/// The symbol `transfer`.
fn transfer_symbol() -> (v: Vec<u8>)
    ensures
        v@ == transfer_name(),
{
    let v: Vec<u8> = vec![116u8, 114u8, 97u8, 110u8, 115u8, 102u8, 101u8, 114u8];
    assert(v@ =~= transfer_name());
    v
}

/// The symbol `transfer_from`.
fn transfer_from_symbol() -> (v: Vec<u8>)
    ensures
        v@ == transfer_from_name(),
{
    let v: Vec<u8> = vec![116u8, 114u8, 97u8, 110u8, 115u8, 102u8, 101u8, 114u8, 95u8, 102u8, 114u8, 111u8, 109u8];
    assert(v@ =~= transfer_from_name());
    v
}

/// Whether `f` is one of the allowed function names.
pub fn function_allowed(allowed: &Vec<Vec<u8>>, f: &Vec<u8>) -> (r: bool)
    ensures
        r == allows_function(allowed@, f@),
{
    let n = allowed.len();
    let mut i: usize = 0;
    while i < n
        invariant
            n == allowed@.len(),
            i <= n,
            forall|j: int| 0 <= j < i ==> #[trigger] allowed@[j]@ != f@,
        decreases n - i,
    {
        if bytes_equal(allowed[i].as_slice(), f.as_slice()) {
            return true;
        }
        i += 1;
    }
    false
}

/// The amount moved by a call of SEP-41 `transfer` or `transfer_from` shape.
pub fn sep41_transfer_amount(fn_name: &Vec<u8>, args: &Vec<ArgValue>) -> (r: Option<i128>)
    ensures
        r == transfer_amount(fn_name@, args@),
{
    let transfer = transfer_symbol();
    let transfer_from = transfer_from_symbol();
    if bytes_equal(fn_name.as_slice(), transfer.as_slice()) && args.len() == 3 {
        match &args[2] {
            ArgValue::I128(a) => Some(*a),
            _ => None,
        }
    } else if bytes_equal(fn_name.as_slice(), transfer_from.as_slice()) && args.len() == 4 {
        match &args[3] {
            ArgValue::I128(a) => Some(*a),
            _ => None,
        }
    } else {
        None
    }
}

/// The check of one authorization context.
fn check_context(this_wallet: &AccountKey, sd: &SessionData, ctx: &AuthContext, spent: i128) -> (r: Result<i128, WalletError>)
    ensures
        r == context_outcome(this_wallet@, *sd, *ctx, spent),
{
    let c = match ctx {
        AuthContext::CreateContract => {
            return Err(WalletError::ContractNotWhitelisted);
        },
        AuthContext::Contract(c) => c,
    };
    if c.contract.same_key(this_wallet) {
        let execute = execute_symbol();
        if !bytes_equal(c.fn_name.as_slice(), execute.as_slice()) {
            return Err(WalletError::ContractNotWhitelisted);
        }
        if c.args.len() < 1 {
            return Err(WalletError::ContractNotWhitelisted);
        }
        match &c.args[0] {
            ArgValue::Address(target) => {
                if !target.same_key(&sd.allowed_contract) {
                    return Err(WalletError::ContractNotWhitelisted);
                }
            },
            _ => {
                return Err(WalletError::ContractNotWhitelisted);
            },
        }
        if c.args.len() < 2 {
            return Err(WalletError::FunctionNotWhitelisted);
        }
        match &c.args[1] {
            ArgValue::Symbol(function) => {
                if !function_allowed(&sd.allowed_functions, function) {
                    return Err(WalletError::FunctionNotWhitelisted);
                }
            },
            _ => {
                return Err(WalletError::FunctionNotWhitelisted);
            },
        }
        Ok(spent)
    } else {
        if !c.contract.same_key(&sd.allowed_contract) {
            return Err(WalletError::ContractNotWhitelisted);
        }
        if !function_allowed(&sd.allowed_functions, &c.fn_name) {
            return Err(WalletError::FunctionNotWhitelisted);
        }
        if let Some(cap) = sd.spend_cap {
            if let Some(amount) = sep41_transfer_amount(&c.fn_name, &c.args) {
                let total = match spent.checked_add(amount) {
                    Some(t) => t,
                    None => {
                        return Err(WalletError::SpendCapExceeded);
                    },
                };
                if total > cap {
                    return Err(WalletError::SpendCapExceeded);
                }
                return Ok(total);
            }
        }
        Ok(spent)
    }
}

/// Checks every authorization context against the session's scope, in
/// order, and returns the running spend total after them; the first context
/// out of scope, or the first transfer past the cap, is refused.
pub fn check_session_scope(this_wallet: &AccountKey, session_data: &SessionData, auth_contexts: &Vec<AuthContext>) -> (r: Result<i128, WalletError>)
    ensures
        r == scope_outcome(this_wallet@, *session_data, auth_contexts@, session_data.spent),
{
    let ghost ctxs = auth_contexts@;
    let mut new_spent = session_data.spent;
    let n = auth_contexts.len();
    let mut i: usize = 0;
    assert(ctxs.skip(0) =~= ctxs);
    while i < n
        invariant
            n == ctxs.len(),
            ctxs == auth_contexts@,
            i <= n,
            scope_outcome(this_wallet@, *session_data, ctxs, session_data.spent)
                == scope_outcome(this_wallet@, *session_data, ctxs.skip(i as int), new_spent),
        decreases n - i,
    {
        let ghost rest = ctxs.skip(i as int);
        assert(rest[0] == ctxs[i as int]);
        assert(rest.drop_first() =~= ctxs.skip(i + 1));
        match check_context(this_wallet, session_data, &auth_contexts[i], new_spent) {
            Ok(next) => {
                new_spent = next;
            },
            Err(e) => {
                return Err(e);
            },
        }
        i += 1;
    }
    assert(ctxs.skip(n as int).len() == 0);
    Ok(new_spent)
}

/// A session key's authorization at ledger time `now`: refused from the key's
/// expiry time on, otherwise the scope check.
pub fn authorize_session(now: u64, this_wallet: &AccountKey, session_data: &SessionData, auth_contexts: &Vec<AuthContext>) -> (r: Result<i128, WalletError>)
    ensures
        r == session_outcome(now, this_wallet@, *session_data, auth_contexts@),
{
    if now >= session_data.expires_at {
        return Err(WalletError::SessionExpired);
    }
    check_session_scope(this_wallet, session_data, auth_contexts)
}

/// Every context a session key is allowed to authorize stays within its
/// scope.
pub proof fn lemma_accepted_contexts_in_scope(this_wallet: Seq<u8>, sd: SessionData, ctxs: Seq<AuthContext>, spent: i128)
    requires
        scope_outcome(this_wallet, sd, ctxs, spent) is Ok,
    ensures
        forall|i: int| 0 <= i < ctxs.len() ==> #[trigger] in_scope(this_wallet, sd, ctxs[i]),
    decreases ctxs.len(),
{
    if ctxs.len() > 0 {
        let next = context_outcome(this_wallet, sd, ctxs[0], spent)->Ok_0;
        lemma_accepted_contexts_in_scope(this_wallet, sd, ctxs.drop_first(), next);
        assert forall|i: int| 0 <= i < ctxs.len() implies #[trigger] in_scope(this_wallet, sd, ctxs[i]) by {
            if i > 0 {
                assert(ctxs[i] == ctxs.drop_first()[i - 1]);
            }
        }
    }
}

/// The spend cap holds: a successful scope check leaves the running total
/// where it was, or within the cap; without a cap it never moves.
pub proof fn lemma_scope_total_within_cap(this_wallet: Seq<u8>, sd: SessionData, ctxs: Seq<AuthContext>, spent: i128)
    requires
        scope_outcome(this_wallet, sd, ctxs, spent) is Ok,
    ensures
        sd.spend_cap is None ==> scope_outcome(this_wallet, sd, ctxs, spent)->Ok_0 == spent,
        sd.spend_cap is Some ==> (scope_outcome(this_wallet, sd, ctxs, spent)->Ok_0 == spent
            || scope_outcome(this_wallet, sd, ctxs, spent)->Ok_0 <= sd.spend_cap->Some_0),
    decreases ctxs.len(),
{
    if ctxs.len() > 0 {
        let next = context_outcome(this_wallet, sd, ctxs[0], spent)->Ok_0;
        lemma_scope_total_within_cap(this_wallet, sd, ctxs.drop_first(), next);
    }
}

/// Function allowlist membership: a name is allowed exactly when it is one of
/// the listed names, whichever position it has in the list.
pub proof fn lemma_allowlist_membership(allowed: Seq<Vec<u8>>, f: Seq<u8>)
    ensures
        allows_function(allowed, f) <==> allowed.map_values(|v: Vec<u8>| v@).contains(f),
        forall|i: int| 0 <= i < allowed.len() ==> allows_function(allowed, #[trigger] allowed[i]@),
{
    let names = allowed.map_values(|v: Vec<u8>| v@);
    if allows_function(allowed, f) {
        let i = choose|i: int| 0 <= i < allowed.len() && #[trigger] allowed[i]@ == f;
        assert(names[i] == f);
    }
    if names.contains(f) {
        let i = choose|i: int| 0 <= i < names.len() && names[i] == f;
        assert(allowed[i]@ == f);
    }
    assert forall|i: int| 0 <= i < allowed.len() implies allows_function(allowed, #[trigger] allowed[i]@) by {
        assert(allowed[i]@ == allowed[i]@);
    }
}

/// A live session key may have the wallet `execute` any listed function on
/// its allowed contract: such a call is accepted and moves nothing.
pub proof fn lemma_listed_execute_call_accepted(
    now: u64,
    this_wallet: Seq<u8>,
    sd: SessionData,
    ctx: AuthContext,
    i: int,
)
    requires
        now < sd.expires_at,
        0 <= i < sd.allowed_functions@.len(),
        ctx matches AuthContext::Contract(c) && {
            &&& c.contract@ == this_wallet
            &&& c.fn_name@ == execute_name()
            &&& c.args@.len() >= 2
            &&& c.args@[0] matches ArgValue::Address(a) && a@ == sd.allowed_contract@
            &&& c.args@[1] matches ArgValue::Symbol(f) && f@ == sd.allowed_functions@[i]@
        },
    ensures
        session_outcome(now, this_wallet, sd, seq![ctx]) == Ok::<i128, WalletError>(sd.spent),
{
    lemma_allowlist_membership(sd.allowed_functions@, sd.allowed_functions@[i]@);
    let c = ctx->Contract_0;
    let f = c.args@[1]->Symbol_0;
    assert(allows_function(sd.allowed_functions@, f@));
    assert(execute_call_outcome(sd, c.args@, sd.spent) == Ok::<i128, WalletError>(sd.spent));
    assert(context_outcome(this_wallet, sd, ctx, sd.spent) == Ok::<i128, WalletError>(sd.spent));
    let ctxs = seq![ctx];
    assert(ctxs.drop_first() =~= Seq::<AuthContext>::empty());
    assert(ctxs[0] == ctx);
    assert(scope_outcome(this_wallet, sd, ctxs.drop_first(), sd.spent) == Ok::<i128, WalletError>(sd.spent));
}

/// What a direct call moves through SEP-41: the amount of a `transfer` or
/// `transfer_from` call on another contract than the wallet, 0 otherwise.
pub open spec fn moved_by(this_wallet: Seq<u8>, ctx: AuthContext) -> int {
    match ctx {
        AuthContext::Contract(c) => if c.contract@ != this_wallet && transfer_amount(c.fn_name@, c.args@) is Some {
            transfer_amount(c.fn_name@, c.args@)->Some_0 as int
        } else {
            0
        },
        AuthContext::CreateContract => 0,
    }
}

/// The sum of what a sequence of contexts moves.
pub open spec fn total_moved(this_wallet: Seq<u8>, ctxs: Seq<AuthContext>) -> int
    decreases ctxs.len(),
{
    if ctxs.len() == 0 {
        0
    } else {
        moved_by(this_wallet, ctxs[0]) + total_moved(this_wallet, ctxs.drop_first())
    }
}

/// The SEP-41 shapes whose amounts count: `transfer(from, to, amount)` and
/// `transfer_from(spender, from, to, amount)`.
pub proof fn lemma_transfer_shapes(args: Seq<ArgValue>, amount: i128)
    ensures
        args.len() == 3 && args[2] == ArgValue::I128(amount) ==> transfer_amount(transfer_name(), args) == Some(
            amount,
        ),
        args.len() == 4 && args[3] == ArgValue::I128(amount) ==> transfer_amount(transfer_from_name(), args)
            == Some(amount),
{
    assert(transfer_name() != transfer_from_name()) by {
        assert(transfer_name().len() != transfer_from_name().len());
    }
}

/// Under a spend cap, every accepted authorization counts everything it
/// moves: the new running total is the old one plus the amount of every
/// direct SEP-41 `transfer` and `transfer_from` among the contexts.
pub proof fn lemma_capped_total_counts_every_transfer(
    this_wallet: Seq<u8>,
    sd: SessionData,
    ctxs: Seq<AuthContext>,
    spent: i128,
)
    requires
        sd.spend_cap is Some,
        scope_outcome(this_wallet, sd, ctxs, spent) is Ok,
    ensures
        scope_outcome(this_wallet, sd, ctxs, spent)->Ok_0 == spent + total_moved(this_wallet, ctxs),
    decreases ctxs.len(),
{
    if ctxs.len() > 0 {
        let next = context_outcome(this_wallet, sd, ctxs[0], spent)->Ok_0;
        assert(next == spent + moved_by(this_wallet, ctxs[0]));
        lemma_capped_total_counts_every_transfer(this_wallet, sd, ctxs.drop_first(), next);
    }
}

/// A single direct transfer that would take the running total past the cap
/// is refused, whether it is a `transfer` or a `transfer_from`.
pub proof fn lemma_transfer_past_cap_refused(now: u64, this_wallet: Seq<u8>, sd: SessionData, ctx: AuthContext, amount: i128)
    requires
        now < sd.expires_at,
        sd.spend_cap is Some,
        sd.spent + amount > sd.spend_cap->Some_0,
        ctx matches AuthContext::Contract(c) && {
            &&& c.contract@ != this_wallet
            &&& c.contract@ == sd.allowed_contract@
            &&& allows_function(sd.allowed_functions@, c.fn_name@)
            &&& {
                ||| c.fn_name@ == transfer_name() && c.args@.len() == 3 && c.args@[2] == ArgValue::I128(amount)
                ||| c.fn_name@ == transfer_from_name() && c.args@.len() == 4 && c.args@[3] == ArgValue::I128(amount)
            }
        },
    ensures
        session_outcome(now, this_wallet, sd, seq![ctx]) == Err::<i128, WalletError>(WalletError::SpendCapExceeded),
{
    let c = ctx->Contract_0;
    lemma_transfer_shapes(c.args@, amount);
    assert(transfer_amount(c.fn_name@, c.args@) == Some(amount));
    let ctxs = seq![ctx];
    assert(ctxs[0] == ctx);
}

/// A single direct transfer that keeps the running total within the cap is
/// accepted, and the new total is the old one plus its amount.
pub proof fn lemma_transfer_within_cap_accepted(now: u64, this_wallet: Seq<u8>, sd: SessionData, ctx: AuthContext, amount: i128)
    requires
        now < sd.expires_at,
        sd.spend_cap is Some,
        i128::MIN <= sd.spent + amount <= sd.spend_cap->Some_0,
        ctx matches AuthContext::Contract(c) && {
            &&& c.contract@ != this_wallet
            &&& c.contract@ == sd.allowed_contract@
            &&& allows_function(sd.allowed_functions@, c.fn_name@)
            &&& {
                ||| c.fn_name@ == transfer_name() && c.args@.len() == 3 && c.args@[2] == ArgValue::I128(amount)
                ||| c.fn_name@ == transfer_from_name() && c.args@.len() == 4 && c.args@[3] == ArgValue::I128(amount)
            }
        },
    ensures
        session_outcome(now, this_wallet, sd, seq![ctx]) == Ok::<i128, WalletError>((sd.spent + amount) as i128),
{
    let c = ctx->Contract_0;
    lemma_transfer_shapes(c.args@, amount);
    assert(transfer_amount(c.fn_name@, c.args@) == Some(amount));
    let ctxs = seq![ctx];
    assert(ctxs[0] == ctx);
    assert(ctxs.drop_first() =~= Seq::<AuthContext>::empty());
    let total = (sd.spent + amount) as i128;
    assert(context_outcome(this_wallet, sd, ctx, sd.spent) == Ok::<i128, WalletError>(total));
    assert(scope_outcome(this_wallet, sd, ctxs.drop_first(), total) == Ok::<i128, WalletError>(total));
}

} // verus!
