//! The fee that a transaction owes.
use vstd::prelude::*;

verus! {

/// Fee per unit of weight where none is asked for: a thousandth of a coin.
pub const DEFAULT_BASE_FEE: u64 = 1_000_000;

/// Weight of a transaction: four for each output and one for each kernel, less
/// one for each input that it takes out of the output set, and at least one.
/// What the outputs and kernels weigh is counted up to the largest 64-bit number.
pub open spec fn tx_weight(inputs: nat, outputs: nat, kernels: nat) -> nat {
    let added: nat = if 4 * outputs + kernels <= u64::MAX {
        4 * outputs + kernels
    } else {
        u64::MAX as nat
    };
    if added - inputs >= 1 {
        (added - inputs) as nat
    } else {
        1
    }
}

/// The fee of a transaction of the given size at the default fee per unit.
pub open spec fn default_fee(inputs: nat, outputs: nat, kernels: nat) -> nat {
    tx_weight(inputs, outputs, kernels) * DEFAULT_BASE_FEE as nat
}

/// Calls `grin_core::core::Transaction::old_weight_by_iok`, the weight by which
/// fees are asked for: the contract states it whole.
#[verifier::external_body]
fn weight_by_iok(inputs: u64, outputs: u64, kernels: u64) -> (weight: u64)
    ensures
        weight == tx_weight(inputs as nat, outputs as nat, kernels as nat),
{
    grin_core::core::Transaction::old_weight_by_iok(inputs, outputs, kernels)
}

/// Transaction fee calculation: the weight of the transaction times the fee per
/// unit, which is [`DEFAULT_BASE_FEE`] where `base_fee` names none.
pub fn tx_fee(
    input_len: usize,
    output_len: usize,
    kernel_len: usize,
    base_fee: Option<u64>,
) -> (fee: u64)
    requires
        tx_weight(input_len as nat, output_len as nat, kernel_len as nat) * (match base_fee {
            Some(base) => base,
            None => DEFAULT_BASE_FEE,
        }) <= u64::MAX,
    ensures
        fee == tx_weight(input_len as nat, output_len as nat, kernel_len as nat) * (match base_fee {
            Some(base) => base,
            None => DEFAULT_BASE_FEE,
        }),
{
    let use_base_fee: u64 = match base_fee {
        Some(base) => base,
        None => DEFAULT_BASE_FEE,
    };
    weight_by_iok(input_len as u64, output_len as u64, kernel_len as u64) * use_base_fee
}

} // verus!
