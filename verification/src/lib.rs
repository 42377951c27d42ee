//! Selection of inputs for building transactions, with machine-checked
//! contracts.
//!
//! A wallet pays by spending outputs that it owns. This crate decides which of
//! them to spend, what fee the transaction owes, how the change is split, and
//! what the wallet has to record about the payment:
//!
//! * [`selection`] chooses outputs and makes change; [`choice`], [`sort`] and
//!   [`totals`] say what is chosen;
//! * [`send`], [`lock`] and [`receive`] are the rounds of a payment: starting it,
//!   recording it, and receiving it;
//! * [`wallet`] declares what these ask of a wallet store and of a keychain;
//! * [`types`], [`slate`] and [`error`] hold the data they work on;
//! * [`fee`], [`amount`] and [`keys`] hold the fee rule, the way amounts are shown,
//!   and the secret key that a blinding factor stands for;
//! * [`laws`], [`payment_laws`] and [`step_laws`] state what holds of the library as a
//!   whole;
//! * [`data_laws`], [`choosing_laws`], [`sending_laws`], [`locking_laws`] and
//!   [`receiving_laws`] state what each call does, in terms of what goes in and what comes
//!   out, and [`callable_laws`] which calls may be made.
pub mod amount;
pub mod callable_laws;
pub mod choice;
pub mod choosing_laws;
pub mod data_laws;
pub mod error;
pub mod fee;
pub mod keys;
pub mod laws;
pub mod lock;
pub mod locking_laws;
pub mod payment_laws;
pub mod receive;
pub mod receiving_laws;
pub mod selection;
pub mod send;
pub mod sending_laws;
pub mod slate;
pub mod sort;
pub mod step_laws;
pub mod totals;
pub mod types;
pub mod wallet;
