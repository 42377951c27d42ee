//! Starting a payment.
use crate::choice::{candidates, funding, Funding};
use crate::error::Error;
use crate::keys::{blinding_key, secret_key};
use crate::selection::{
    can_send, change_amounts, change_entries, change_of, change_request, input_elements,
    is_not_enough_funds, output_elements, select_send_tx,
};
use crate::slate::Slate;
use crate::types::{
    BlindingFactor, Context, ContextEntry, Identifier, OutputData, SecretKey,
};
use crate::wallet::{
    added, fits, lemma_asked, mask_of, refused, refused_with, so_far, Exchange, Keychain, Request,
    TxElement, WalletBackend,
};
use vstd::prelude::*;

verus! {

/// Adding `elems` to the transaction of `slate` came out as `tx`, and `key` is the
/// secret key of what was added, if it has one.
pub open spec fn built<K: Keychain>(
    keychain: K,
    slate: Slate,
    elems: Seq<TxElement>,
    tx: Vec<u8>,
    key: Option<SecretKey>,
) -> bool {
    exists|blinding: BlindingFactor| #[trigger]
        keychain.builds(slate, elems, Ok((tx, blinding))) && blinding_key(blinding) == key
}

/// What a context keeps of the outputs that are spent.
pub open spec fn input_entries(coins: Seq<OutputData>) -> Seq<ContextEntry> {
    coins.map_values(|coin: OutputData| (coin.key_id, coin.mmr_index, coin.value))
}

/// What a context keeps of the change outputs.
pub open spec fn output_entries(change: Seq<(u64, Identifier, Option<u64>)>) -> Seq<ContextEntry> {
    change.map_values(|entry: (u64, Identifier, Option<u64>)| (entry.1, entry.2, entry.0))
}

/// What a wallet is asked for when a payment is started: a key for each change
/// output, then the commitment of each.
pub open spec fn send_request<K>(
    mask: Option<SecretKey>,
    amounts: Seq<u64>,
    h: Seq<Exchange<K>>,
) -> Option<Request> {
    let i = h.len() - amounts.len();
    if refused(h) {
        None
    } else if i < 0 {
        Some(Request::NextChild { mask })
    } else if i < amounts.len() {
        Some(Request::CalcCommit { mask, amount: amounts[i], key_id: h[i].reply->Key_0 })
    } else {
        None
    }
}

/// How starting a payment ended, after the exchanges `h`: with `result`, and with
/// the slate changed from `before` to `after`.
pub open spec fn send_outcome<K: Keychain>(
    keychain: K,
    coins: Seq<OutputData>,
    amounts: Seq<u64>,
    fee: u64,
    parent_key_id: Identifier,
    use_test_nonce: bool,
    h: Seq<Exchange<K>>,
    before: Slate,
    after: Slate,
    result: Result<Context, Error>,
) -> bool {
    let priced = Slate { fee, ..before };
    let change = change_entries(amounts, h);
    let elems = input_elements(coins) + output_elements(change);
    match result {
        Ok(context) => {
            &&& h.len() == 2 * amounts.len()
            &&& !refused(h)
            &&& after == (Slate { tx: after.tx, ..priced })
            &&& built(keychain, priced, elems, after.tx, Some(context.sec_key))
            &&& keychain.draws(use_test_nonce, context.sec_nonce)
            &&& context.parent_key_id == parent_key_id
            &&& context.participant_id == 0
            &&& context.fee == fee
            &&& context.payment_proof_derivation_index is None
            &&& context.input_ids@ == input_entries(coins)
            &&& context.output_ids@ == output_entries(change)
        },
        Err(e) => if refused(h) && h.len() <= amounts.len() {
            // a key was refused
            &&& refused_with(h, e)
            &&& after == before
        } else if refused(h) {
            // a commitment was refused
            &&& refused_with(h, e)
            &&& after == (Slate { tx: after.tx, ..priced })
            &&& exists|key: SecretKey| built(keychain, priced, elems, after.tx, Some(key))
        } else {
            // the transaction could not be built, or has no secret key
            &&& h.len() == amounts.len()
            &&& {
                ||| after == priced && keychain.builds(priced, elems, Err(e))
                ||| {
                    &&& e is InvalidSecretKey
                    &&& after == (Slate { tx: after.tx, ..priced })
                    &&& built(keychain, priced, elems, after.tx, None)
                }
            }
        },
    }
}

/// Asking for the keys is how a payment starts.
pub proof fn lemma_send_starts<K>(mask: Option<SecretKey>, amounts: Seq<u64>, h: Seq<Exchange<K>>)
    requires
        so_far(|h: Seq<Exchange<K>>| change_request(mask, amounts, h), h),
    ensures
        so_far(|h: Seq<Exchange<K>>| send_request(mask, amounts, h), h),
        h.len() <= amounts.len(),
{
    let first = |h: Seq<Exchange<K>>| change_request(mask, amounts, h);
    let script = |h: Seq<Exchange<K>>| send_request(mask, amounts, h);
    assert forall|i: int| 0 <= i < h.len() implies script(#[trigger] h.take(i)) == Some(
        h[i].request,
    ) && fits(h[i]) by {
        assert(first(h.take(i)) == Some(h[i].request));
    }
    if h.len() > 0 {
        assert(first(h.take(h.len() - 1)) is Some);
    }
}

/// Initialize a transaction on the sender side: selects the inputs, puts them and
/// the change into the transaction of the slate, sets the fee on it, and keeps the
/// private wallet identifiers of our selected outputs in the context that it
/// returns.
pub fn build_send_tx<T, K>(
    wallet: &mut T,
    keychain: &K,
    keychain_mask: Option<&SecretKey>,
    slate: &mut Slate,
    minimum_confirmations: u64,
    max_outputs: usize,
    change_outputs: usize,
    selection_strategy_is_use_all: bool,
    parent_key_id: Identifier,
    use_test_nonce: bool,
) -> (result: Result<Context, Error>) where T: WalletBackend<K>, K: Keychain
    requires
        can_send(
            old(slate).amount,
            max_outputs,
            change_outputs,
            selection_strategy_is_use_all,
            candidates(
                old(wallet).outputs(),
                parent_key_id,
                old(slate).height,
                minimum_confirmations,
            ),
        ),
    ensures
        match funding(
            old(slate).amount as nat,
            max_outputs as int,
            change_outputs as nat,
            selection_strategy_is_use_all,
            candidates(
                old(wallet).outputs(),
                parent_key_id,
                old(slate).height,
                minimum_confirmations,
            ),
        ) {
            Funding::Short { available, needed } => {
                &&& *final(wallet) == *old(wallet)
                &&& *final(slate) == *old(slate)
                &&& result matches Err(e)
                &&& is_not_enough_funds(e, available, needed)
            },
            Funding::Funded { coins, fee } => {
                let amounts = change_amounts(
                    change_of(coins, old(slate).amount, fee),
                    change_outputs as nat,
                );
                let h = added(old(wallet).exchanges(), final(wallet).exchanges());
                &&& final(wallet).exchanges() == old(wallet).exchanges() + h
                &&& so_far(
                    |h: Seq<Exchange<K>>| send_request(mask_of(keychain_mask), amounts, h),
                    h,
                )
                &&& send_outcome(
                    *keychain,
                    coins,
                    amounts,
                    fee as u64,
                    parent_key_id,
                    use_test_nonce,
                    h,
                    *old(slate),
                    *final(slate),
                    result,
                )
                &&& change_of(coins, old(slate).amount, fee) == 0 ==> *final(wallet) == *old(wallet)
            },
        },
        final(wallet).outputs() == old(wallet).outputs(),
{
    let ghost start = old(wallet).exchanges();
    let ghost before = *old(slate);
    let ghost plan = funding(
        before.amount as nat,
        max_outputs as int,
        change_outputs as nat,
        selection_strategy_is_use_all,
        candidates(
            old(wallet).outputs(),
            parent_key_id,
            before.height,
            minimum_confirmations,
        ),
    );
    let (elems, inputs, change_amounts_derivations, fee) = match select_send_tx(
        wallet,
        keychain_mask,
        slate.amount,
        slate.height,
        minimum_confirmations,
        max_outputs,
        change_outputs,
        selection_strategy_is_use_all,
        &parent_key_id,
    ) {
        Ok(found) => found,
        Err(e) => {
            proof {
                if let Funding::Funded { coins, fee } = plan {
                    lemma_send_starts(
                        mask_of(keychain_mask),
                        change_amounts(
                            change_of(coins, before.amount, fee),
                            change_outputs as nat,
                        ),
                        added(start, wallet.exchanges()),
                    );
                }
            }
            return Err(e);
        },
    };
    let ghost amounts = change_amounts(
        change_of(inputs@, before.amount, fee as nat),
        change_outputs as nat,
    );
    let ghost mask = mask_of(keychain_mask);
    let ghost script = |h: Seq<Exchange<K>>| send_request(mask, amounts, h);
    let ghost mut h = added(start, wallet.exchanges());
    let ghost keys = h;
    let ghost picked = *wallet;
    proof {
        lemma_send_starts(mask, amounts, h);
    }

    // Update the fee on the slate so we account for this when building the tx.
    slate.fee = fee;

    let blinding = match slate.add_transaction_elements(keychain, elems) {
        Ok(blinding) => blinding,
        Err(e) => {
            return Err(e);
        },
    };

    // Create our own private context
    let sec_key = match secret_key(&blinding) {
        Some(sec_key) => sec_key,
        None => {
            return Err(Error::InvalidSecretKey);
        },
    };
    let sec_nonce = keychain.create_secnonce(use_test_nonce);
    let mut context = Context::new(sec_key, sec_nonce, &parent_key_id, 0);

    context.fee = fee;

    // Store our private identifiers for each input
    let ghost fresh = context;
    let mut i: usize = 0;
    while i < inputs.len()
        invariant
            i <= inputs.len(),
            context.input_ids@ =~= input_entries(inputs@.take(i as int)),
            context == (Context { input_ids: context.input_ids, ..fresh }),
        decreases inputs.len() - i,
    {
        let input = &inputs[i];
        context.add_input(&input.key_id, &input.mmr_index, input.value);
        i = i + 1;
    }

    // Store change output(s) and cached commits
    assert(inputs@.take(i as int) =~= inputs@);
    let ghost filled = context;
    let ghost parts = input_elements(inputs@) + output_elements(change_entries(amounts, keys));
    let ghost priced = Slate { fee, ..before };
    assert(built(*keychain, priced, parts, slate.tx, Some(sec_key)));
    let mut i: usize = 0;
    #[verifier::loop_isolation(false)]
    while i < change_amounts_derivations.len()
        invariant
            i <= change_amounts_derivations.len(),
            mask == mask_of(keychain_mask),
            script == |h: Seq<Exchange<K>>| send_request(mask, amounts, h),
            so_far(script, h),
            !refused(h),
            start == old(wallet).exchanges(),
            wallet.exchanges() == start + h,
            wallet.outputs() == old(wallet).outputs(),
            i == 0 ==> *wallet == picked,
            keys.len() == amounts.len(),
            h.len() == amounts.len() + i,
            h.take(keys.len() as int) == keys,
            change_amounts_derivations@ == change_entries(amounts, keys),
            context.output_ids@ =~= output_entries(change_amounts_derivations@.take(i as int)),
            context == (Context { output_ids: context.output_ids, ..filled }),
        decreases change_amounts_derivations.len() - i,
    {
        let (change_amount, id, mmr_index) = change_amounts_derivations[i];
        context.add_output(&id, &mmr_index, change_amount);
        assert(h[i as int] == keys[i as int]);
        let reply = wallet.calc_commit_for_cache(keychain_mask, change_amount, &id);
        proof {
            lemma_asked(script, start, h, wallet.exchanges());
            h = h.push(wallet.exchanges().last());
            assert(h.take(keys.len() as int) =~= keys);
            assert(added(start, wallet.exchanges()) =~= h);
            assert(change_entries(amounts, h) =~= change_entries(amounts, keys)) by {
                assert(forall|j: int| 0 <= j < keys.len() ==> keys[j] == h.take(keys.len() as int)[j]);
            }
        }
        match reply {
            Ok(_commit) => {},
            Err(e) => {
                return Err(e);
            },
        }
        i = i + 1;
    }
    proof {
        assert(added(start, wallet.exchanges()) =~= h);
        assert(change_entries(amounts, h) =~= change_entries(amounts, keys)) by {
            assert(forall|j: int| 0 <= j < keys.len() ==> keys[j] == h.take(keys.len() as int)[j]);
        }
        assert(change_amounts_derivations@.take(i as int) =~= change_amounts_derivations@);
    }
    Ok(context)
}

} // verus!
