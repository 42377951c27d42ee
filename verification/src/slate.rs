//! The slate that the parties of a payment pass to and fro.
use crate::error::Error;
use crate::types::{BlindingFactor, Commitment, ParticipantMessageData, PaymentInfo};
use crate::wallet::{Keychain, TxElement};
use vstd::prelude::*;

verus! {

/// A payment in the making.
#[derive(Debug, PartialEq, Eq)]
pub struct Slate {
    /// Identifier of the payment, as text.
    pub id: String,
    /// The transaction so far, serialised.
    pub tx: Vec<u8>,
    /// Amount that is paid.
    pub amount: u64,
    /// Fee of the transaction.
    pub fee: u64,
    /// Height of the chain when the payment was started.
    pub height: u64,
    /// What the participants said so far.
    pub messages: Vec<ParticipantMessageData>,
    /// Payment proof, if one was asked for.
    pub payment_proof: Option<PaymentInfo>,
}

impl Slate {
    /// Adds inputs and outputs to the transaction; gives the sum of their blinding
    /// factors.
    pub fn add_transaction_elements<K: Keychain>(
        &mut self,
        keychain: &K,
        elems: Vec<TxElement>,
    ) -> (result: Result<BlindingFactor, Error>)
        ensures
            match result {
                Ok(blinding) => {
                    &&& keychain.builds(*old(self), elems@, Ok((final(self).tx, blinding)))
                    &&& *final(self) == (Slate { tx: final(self).tx, ..*old(self) })
                },
                Err(e) => {
                    &&& keychain.builds(*old(self), elems@, Err(e))
                    &&& *final(self) == *old(self)
                },
            },
    {
        match keychain.build_elements(self, &elems) {
            Ok((tx, blinding)) => {
                self.tx = tx;
                Ok(blinding)
            },
            Err(e) => Err(e),
        }
    }

    /// What the participants said.
    pub fn participant_messages(&self) -> (messages: Vec<ParticipantMessageData>)
        ensures
            messages@ == self.messages@,
    {
        let mut messages: Vec<ParticipantMessageData> = Vec::new();
        let mut i: usize = 0;
        while i < self.messages.len()
            invariant
                i <= self.messages.len(),
                messages@ =~= self.messages@.take(i as int),
            decreases self.messages.len() - i,
        {
            messages.push(self.messages[i].clone());
            i = i + 1;
        }
        messages
    }

    /// The excess of the kernel.
    pub fn calc_excess<K: Keychain>(&self, keychain: &K) -> (excess: Result<Commitment, Error>)
        ensures
            excess == keychain.excess(*self),
    {
        keychain.kernel_excess(self)
    }
}

} // verus!
