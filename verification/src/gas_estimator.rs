//! The gas estimator: a fixed overhead plus a per-argument charge.
use vstd::prelude::*;
use soroban_sdk::Val;
use crate::table::AccountKey;

verus! {

/// The fixed overhead charged for forwarder verification.
pub const BASE_OVERHEAD: u64 = 5000;

/// The overhead charged per call argument.
pub const PER_ARG_OVERHEAD: u64 = 100;

/// The estimator holds no state.
pub struct GasEstimatorContract {}

/// The estimate for a call with `n_args` arguments.
pub open spec fn overhead_estimate(n_args: nat) -> int {
    BASE_OVERHEAD + n_args * PER_ARG_OVERHEAD
}

impl GasEstimatorContract {
    /// Estimates the overhead of forwarding a call: the base overhead plus
    /// the per-argument charge for each argument. The target and the function
    /// do not enter the estimate.
    pub fn estimate_execution_overhead(target: &AccountKey, function: &Vec<u8>, args: &Vec<Val>) -> (estimate: u64)
        requires
            args@.len() <= u32::MAX,
        ensures
            estimate == overhead_estimate(args@.len()),
    {
        let n: u64 = args.len() as u64;
        BASE_OVERHEAD + n * PER_ARG_OVERHEAD
    }
}

/// The estimate grows linearly with the argument count: a call without
/// arguments is charged 5000, and each further argument adds exactly 100.
pub proof fn lemma_estimate_is_linear(n_args: nat)
    ensures
        overhead_estimate(0) == 5000,
        overhead_estimate(n_args + 1) == overhead_estimate(n_args) + 100,
        overhead_estimate(n_args) == 5000 + 100 * n_args,
{
}

} // verus!
