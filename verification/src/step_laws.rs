//! How the steps of starting a payment fit together.
//!
//! A wallet store may answer the same request differently at different times. Where a law
//! speaks of two runs, the store replies alike in both.
use crate::choice::{candidates, funding, Funding};
use crate::error::Error;
use crate::selection::{
    change_amounts, change_entries, change_of, change_outcome, change_request, fee_outcome,
    select_outcome,
};
use crate::send::{
    input_entries, lemma_send_starts, output_entries, send_outcome, send_request,
};
use crate::slate::Slate;
use crate::types::{Context, Identifier, OutputData, SecretKey};
use crate::wallet::{
    alike, conversation, lemma_alike, lemma_same_conversation, so_far, Exchange, Keychain,
    TxElement,
};
use vstd::prelude::*;

verus! {

/// What a payment is made from, and how: what the wallet holds, and the choices of the
/// one who pays.
pub struct Terms {
    pub outputs: Seq<OutputData>,
    pub mask: Option<SecretKey>,
    pub minimum_confirmations: u64,
    pub max_outputs: usize,
    pub change_outputs: usize,
    pub select_all: bool,
    pub parent_key_id: Identifier,
}

impl Terms {
    /// What comes of the search for outputs that cover an amount at a height.
    pub open spec fn plan(self, amount: u64, height: u64) -> Funding {
        funding(
            amount as nat,
            self.max_outputs as int,
            self.change_outputs as nat,
            self.select_all,
            candidates(self.outputs, self.parent_key_id, height, self.minimum_confirmations),
        )
    }

    /// The amounts of change that are left of `coins`.
    pub open spec fn change(self, coins: Seq<OutputData>, amount: u64, fee: nat) -> Seq<u64> {
        change_amounts(change_of(coins, amount, fee), self.change_outputs as nat)
    }
}

/// A run of [`select_send_tx`](crate::selection::select_send_tx) that was funded: what was
/// exchanged with the store, and what the run gave.
pub struct Selection<K> {
    pub h: Seq<Exchange<K>>,
    pub result: Result<
        (Vec<TxElement>, Vec<OutputData>, Vec<(u64, Identifier, Option<u64>)>, u64),
        Error,
    >,
}

impl<K> Selection<K> {
    /// The run selected for an amount at a height, on the given terms.
    pub open spec fn is_of(self, terms: Terms, amount: u64, height: u64) -> bool {
        match terms.plan(amount, height) {
            Funding::Funded { coins, fee } => {
                let amounts = terms.change(coins, amount, fee);
                &&& conversation(
                    |h: Seq<Exchange<K>>| change_request(terms.mask, amounts, h),
                    self.h,
                )
                &&& select_outcome(coins, amounts, fee, self.h, self.result)
            },
            Funding::Short { .. } => false,
        }
    }
}

/// A run of [`build_send_tx`](crate::send::build_send_tx) that succeeded: what was exchanged
/// with the store, the slate before and after, and the context that the run gave.
pub struct Sending<K> {
    pub h: Seq<Exchange<K>>,
    pub before: Slate,
    pub after: Slate,
    pub context: Context,
}

impl<K: Keychain> Sending<K> {
    /// The run started the payment of its slate, on the given terms.
    pub open spec fn is_of(self, terms: Terms, keychain: K, use_test_nonce: bool) -> bool {
        match terms.plan(self.before.amount, self.before.height) {
            Funding::Funded { coins, fee } => {
                let amounts = terms.change(coins, self.before.amount, fee);
                &&& so_far(
                    |h: Seq<Exchange<K>>| send_request(terms.mask, amounts, h),
                    self.h,
                )
                &&& send_outcome(
                    keychain,
                    coins,
                    amounts,
                    fee as u64,
                    terms.parent_key_id,
                    use_test_nonce,
                    self.h,
                    self.before,
                    self.after,
                    Ok(self.context),
                )
            },
            Funding::Short { .. } => false,
        }
    }
}

/// Selecting for a payment at once is choosing the outputs and the fee first, and making
/// change of them then: it gives the same parts, outputs, change and fee, or is refused
/// for the same reason.
pub proof fn law_selected_step_by_step<K>(
    terms: Terms,
    amount: u64,
    height: u64,
    found: (Vec<OutputData>, u64, u64, u64),
    h: Seq<Exchange<K>>,
    made: Result<(Vec<TxElement>, Vec<(u64, Identifier, Option<u64>)>), Error>,
    at_once: Selection<K>,
)
    requires
        fee_outcome(terms.plan(amount, height), amount, Ok(found)),
        ({
            let amounts = terms.change(found.0@, found.2, found.3 as nat);
            &&& conversation(|h: Seq<Exchange<K>>| change_request(terms.mask, amounts, h), h)
            &&& change_outcome(found.0@, amounts, h, made)
        }),
        at_once.is_of(terms, amount, height),
        alike(h, at_once.h),
    ensures
        match made {
            Ok((parts, change)) => {
                &&& at_once.result matches Ok(selected)
                &&& selected.0@ == parts@
                &&& selected.1@ == found.0@
                &&& selected.2@ == change@
                &&& selected.3 == found.3
            },
            Err(e) => at_once.result matches Err(reason) && reason == e,
        },
{
    let amounts = terms.change(found.0@, found.2, found.3 as nat);
    lemma_same_conversation(
        |h: Seq<Exchange<K>>| change_request(terms.mask, amounts, h),
        h,
        at_once.h,
    );
}

/// A payment that was started keeps what is selected for it: the context holds the
/// selected outputs and the change, in order, and the fee, which is also the one on the
/// slate. It is that of the first participant, for the account that pays.
pub proof fn law_context_keeps_selection<K: Keychain>(
    terms: Terms,
    keychain: K,
    use_test_nonce: bool,
    selection: Selection<K>,
    sending: Sending<K>,
)
    requires
        selection.is_of(terms, sending.before.amount, sending.before.height),
        selection.result is Ok,
        sending.is_of(terms, keychain, use_test_nonce),
        alike(selection.h, sending.h),
    ensures
        selection.result matches Ok(selected) && {
            &&& sending.context.input_ids@ == input_entries(selected.1@)
            &&& sending.context.output_ids@ == output_entries(selected.2@)
            &&& sending.context.fee == selected.3
            &&& sending.after.fee == selected.3
            &&& sending.context.parent_key_id == terms.parent_key_id
            &&& sending.context.participant_id == 0
            &&& keychain.draws(use_test_nonce, sending.context.sec_nonce)
        },
{
    if let Funding::Funded { coins, fee } = terms.plan(
        sending.before.amount,
        sending.before.height,
    ) {
        let amounts = terms.change(coins, sending.before.amount, fee);
        let count = amounts.len() as int;
        lemma_send_starts(terms.mask, amounts, selection.h);
        assert(selection.h.len() == count);
        lemma_alike(
            |h: Seq<Exchange<K>>| send_request(terms.mask, amounts, h),
            selection.h,
            sending.h,
            count,
        );
        assert(change_entries(amounts, selection.h) =~= change_entries(amounts, sending.h)) by {
            assert(forall|i: int|
                0 <= i < count ==> selection.h.take(count)[i] == sending.h.take(count)[i]);
        }
    }
}

/// A fee that is already on the slate has no influence on a payment that is started: the
/// inputs, the change and the fee are the same, and what came of one slate could have come
/// of the other.
pub proof fn law_old_fee_is_ignored<K: Keychain>(
    terms: Terms,
    keychain: K,
    use_test_nonce: bool,
    one: Sending<K>,
    two: Sending<K>,
)
    requires
        one.is_of(terms, keychain, use_test_nonce),
        two.is_of(terms, keychain, use_test_nonce),
        one.before == (Slate { fee: one.before.fee, ..two.before }),
        alike(one.h, two.h),
    ensures
        one.after.fee == two.after.fee,
        one.context.fee == two.context.fee,
        one.context.input_ids@ == two.context.input_ids@,
        one.context.output_ids@ == two.context.output_ids@,
        (Sending { before: one.before, ..two }).is_of(terms, keychain, use_test_nonce),
{
    if let Funding::Funded { coins, fee } = terms.plan(one.before.amount, one.before.height) {
        let amounts = terms.change(coins, one.before.amount, fee);
        lemma_alike(
            |h: Seq<Exchange<K>>| send_request(terms.mask, amounts, h),
            one.h,
            two.h,
            one.h.len() as int,
        );
        assert(one.h.take(one.h.len() as int) =~= one.h);
        assert(two.h.take(two.h.len() as int) =~= two.h);
    }
}

/// Starting a payment records nothing: the store is only asked for keys and commitments.
/// Locking the outputs is left to [`lock_tx_context`](crate::lock::lock_tx_context).
pub proof fn law_starting_records_nothing<K>(
    mask: Option<SecretKey>,
    amounts: Seq<u64>,
    h: Seq<Exchange<K>>,
    at: int,
)
    requires
        so_far(|h: Seq<Exchange<K>>| send_request(mask, amounts, h), h),
        0 <= at < h.len(),
    ensures
        h[at].request is NextChild || h[at].request is CalcCommit,
{
    let script = |h: Seq<Exchange<K>>| send_request(mask, amounts, h);
    assert(script(h.take(at)) == Some(h[at].request));
}

} // verus!
