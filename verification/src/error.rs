//! The errors of the library.
use vstd::prelude::*;

verus! {

/// Why a payment could not be prepared or recorded.
#[derive(Debug, PartialEq, Eq)]
pub enum Error {
    /// The spendable outputs do not cover the amount and the fee.
    NotEnoughFunds {
        /// Value of the outputs that could be gathered.
        available: u64,
        /// `available`, as shown to a person.
        available_disp: String,
        /// Value that the payment needs.
        needed: u64,
        /// `needed`, as shown to a person.
        needed_disp: String,
    },
    /// A payment proof was asked for and cannot be recorded.
    PaymentProof(String),
    /// The values of the outputs to lock do not add up to a 64-bit amount.
    AmountOverflow,
    /// The blinding factors of what was added to a transaction stand for no secret key.
    InvalidSecretKey,
    /// The wallet store failed.
    Backend(String),
    /// The keychain failed.
    Keychain(String),
}

} // verus!
