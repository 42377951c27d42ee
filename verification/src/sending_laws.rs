//! What calls of `inputs_and_change`, `select_send_tx` and `build_send_tx` give, and how they
//! relate.
//!
//! A wallet store may answer the same request differently at different times. Where a law
//! speaks of two calls that ask for keys, the store replies alike in both, as far as both go.
use crate::amount::amount_text;
use crate::choice::{candidates, funding, Funding};
use crate::error::Error;
use crate::keys::{group_order, number};
use crate::selection::{
    change_amounts, change_entries, change_of, change_request, inputs_and_change, lemma_share,
    select_coins_and_fee, select_send_tx,
};
use crate::send::{build_send_tx, lemma_send_starts, send_request};
use crate::slate::Slate;
use crate::totals::total;
use crate::types::{BlindingFactor, Context, Identifier, OutputData, SecretKey};
use crate::wallet::{
    alike, fits, lemma_alike, lemma_same_conversation, so_far, Exchange, Keychain,
    Reply, Request, TxElement, WalletBackend,
};
use vstd::prelude::*;

verus! {

/// What was exchanged at a place, where change is made.
proof fn lemma_change_place<K>(
    mask: Option<SecretKey>,
    amounts: Seq<u64>,
    h: Seq<Exchange<K>>,
    i: int,
)
    requires
        so_far(|h: Seq<Exchange<K>>| change_request(mask, amounts, h), h),
        0 <= i < h.len(),
    ensures
        i < amounts.len(),
        h[i].request == (Request::NextChild { mask }),
        fits(h[i]),
        i + 1 < h.len() ==> !(h[i].reply is Refused),
{
    let script = |h: Seq<Exchange<K>>| change_request(mask, amounts, h);
    assert(script(h.take(i)) == Some(h[i].request));
    if i + 1 < h.len() {
        assert(script(h.take(i + 1)) is Some);
        assert(h.take(i + 1).last() == h[i]);
    }
}

/// What was exchanged at a place, where a payment is started.
proof fn lemma_send_place<K>(
    mask: Option<SecretKey>,
    amounts: Seq<u64>,
    h: Seq<Exchange<K>>,
    i: int,
)
    requires
        so_far(|h: Seq<Exchange<K>>| send_request(mask, amounts, h), h),
        0 <= i < h.len(),
    ensures
        i < 2 * amounts.len(),
        i < amounts.len() ==> h[i].request == (Request::NextChild { mask }),
        i >= amounts.len() ==> h[i].request == (Request::CalcCommit {
            mask,
            amount: amounts[i - amounts.len()],
            key_id: h[i - amounts.len()].reply->Key_0,
        }),
        fits(h[i]),
        i + 1 < h.len() ==> !(h[i].reply is Refused),
{
    let script = |h: Seq<Exchange<K>>| send_request(mask, amounts, h);
    assert(script(h.take(i)) == Some(h[i].request));
    if i + 1 < h.len() {
        assert(script(h.take(i + 1)) is Some);
        assert(h.take(i + 1).last() == h[i]);
    }
}

/// What the coins leave of the amount and the fee goes into as many change outputs as are
/// asked for, none where nothing is left: all of the same amount, but for the last one,
/// which takes the rest. The store is asked for one key for each, and for nothing else.
/// The parts are one for each coin, of its kind, value and key, and then one for each
/// change output.
#[verifier::rlimit(40)]
pub proof fn law_change_is_made<T, K>(
    coins: &Vec<OutputData>,
    wallet: &mut T,
    keychain_mask: Option<&SecretKey>,
    amount: u64,
    fee: u64,
    count: usize,
    result: Result<(Vec<TxElement>, Vec<(u64, Identifier, Option<u64>)>), Error>,
) where T: WalletBackend<K>, K: Keychain
    requires
        call_ensures(
            inputs_and_change::<T, K>,
            (coins, wallet, keychain_mask, amount, fee, count),
            result,
        ),
        amount + fee <= total(coins@) <= u64::MAX,
        total(coins@) == amount + fee || 0 < count <= total(coins@) - amount - fee,
        result is Ok,
    ensures
        final(wallet).outputs() == old(wallet).outputs(),
        ({
            let start = old(wallet).exchanges();
            let h = final(wallet).exchanges().skip(start.len() as int);
            let mask = match keychain_mask {
                Some(key) => Some(*key),
                None => None,
            };
            let left = total(coins@) - amount - fee;
            let share = left / count as int;
            &&& result matches Ok((parts, change))
            &&& final(wallet).exchanges() == start + h
            &&& h.len() == change@.len()
            &&& left == 0 ==> change@.len() == 0 && *final(wallet) == *old(wallet)
            &&& left > 0 ==> change@.len() == count
            &&& forall|i: int|
                0 <= i < change@.len() ==> {
                    &&& (#[trigger] h[i]).request == (Request::NextChild { mask })
                    &&& h[i].reply == Reply::<K>::Key(change@[i].1)
                }
            &&& forall|i: int|
                0 <= i < change@.len() ==> {
                    &&& (#[trigger] change@[i]).2 is None
                    &&& change@[i].0 == if i < count - 1 {
                        share
                    } else {
                        left - (count - 1) * share
                    }
                }
            &&& parts@.len() == coins@.len() + change@.len()
            &&& forall|j: int|
                0 <= j < coins@.len() ==> #[trigger] parts@[j] == if coins@[j].is_coinbase {
                    TxElement::CoinbaseInput { value: coins@[j].value, key_id: coins@[j].key_id }
                } else {
                    TxElement::Input { value: coins@[j].value, key_id: coins@[j].key_id }
                }
            &&& forall|i: int|
                0 <= i < change@.len() ==> #[trigger] parts@[coins@.len() + i]
                    == (TxElement::Output { value: change@[i].0, key_id: change@[i].1 })
        }),
{
    let start = old(wallet).exchanges();
    let h = final(wallet).exchanges().skip(start.len() as int);
    let mask = match keychain_mask {
        Some(key) => Some(*key),
        None => None,
    };
    let left = change_of(coins@, amount, fee as nat);
    let amounts = change_amounts(left, count as nat);
    if let Ok((parts, change)) = result {
        if h.len() > 0 {
            lemma_change_place(mask, amounts, h, h.len() - 1);
        }
        assert(h.len() == amounts.len());
        assert forall|i: int| 0 <= i < change@.len() implies {
            &&& (#[trigger] h[i]).request == (Request::NextChild { mask })
            &&& h[i].reply == Reply::<K>::Key(change@[i].1)
        } by {
            lemma_change_place(mask, amounts, h, i);
        }
        if left > 0 {
            let n = count as int;
            lemma_share(left, n);
            assert(left - (n - 1) * (left / n) == left / n + left % n) by (nonlinear_arith)
                requires
                    n * (left / n) + left % n == left,
            ;
        }
    }
}

/// Making change fails only where a key is refused, and for that reason: the store was
/// asked for no more keys than are needed, and for none after the refusal.
pub proof fn law_change_is_not_made<T, K>(
    coins: &Vec<OutputData>,
    wallet: &mut T,
    keychain_mask: Option<&SecretKey>,
    amount: u64,
    fee: u64,
    count: usize,
    result: Result<(Vec<TxElement>, Vec<(u64, Identifier, Option<u64>)>), Error>,
) where T: WalletBackend<K>, K: Keychain
    requires
        call_ensures(
            inputs_and_change::<T, K>,
            (coins, wallet, keychain_mask, amount, fee, count),
            result,
        ),
        result is Err,
    ensures
        final(wallet).outputs() == old(wallet).outputs(),
        ({
            let start = old(wallet).exchanges();
            let h = final(wallet).exchanges().skip(start.len() as int);
            let mask = match keychain_mask {
                Some(key) => Some(*key),
                None => None,
            };
            &&& result matches Err(e)
            &&& final(wallet).exchanges() == start + h
            &&& 1 <= h.len() <= count
            &&& h.last().reply == Reply::<K>::Refused(e)
            &&& forall|i: int|
                0 <= i < h.len() ==> {
                    &&& (#[trigger] h[i]).request == (Request::NextChild { mask })
                    &&& i < h.len() - 1 ==> !(h[i].reply is Refused)
                }
        }),
{
    let start = old(wallet).exchanges();
    let h = final(wallet).exchanges().skip(start.len() as int);
    let mask = match keychain_mask {
        Some(key) => Some(*key),
        None => None,
    };
    let amounts = change_amounts(change_of(coins@, amount, fee as nat), count as nat);
    assert forall|i: int| 0 <= i < h.len() implies {
        &&& (#[trigger] h[i]).request == (Request::NextChild { mask })
        &&& i < h.len() - 1 ==> !(h[i].reply is Refused)
    } by {
        lemma_change_place(mask, amounts, h, i);
    }
    lemma_change_place(mask, amounts, h, h.len() - 1);
}

/// Selecting for a payment is choosing the outputs and the fee, and then making change of
/// them. It gives the parts, the outputs, the change and the fee that these give, in this
/// order, or fails as they fail.
pub proof fn law_selected<T, K>(
    wallet: &mut T,
    keychain_mask: Option<&SecretKey>,
    amount: u64,
    height: u64,
    confirmations: u64,
    max_outputs: usize,
    change_outputs: usize,
    select_all: bool,
    account: &Identifier,
    result: Result<
        (Vec<TxElement>, Vec<OutputData>, Vec<(u64, Identifier, Option<u64>)>, u64),
        Error,
    >,
    fee_wallet: &mut T,
    found: (Vec<OutputData>, u64, u64, u64),
    change_wallet: &mut T,
    made: Result<(Vec<TxElement>, Vec<(u64, Identifier, Option<u64>)>), Error>,
) where T: WalletBackend<K>, K: Keychain
    requires
        call_ensures(
            select_send_tx::<T, K>,
            (
                wallet,
                keychain_mask,
                amount,
                height,
                confirmations,
                max_outputs,
                change_outputs,
                select_all,
                account,
            ),
            result,
        ),
        call_ensures(
            select_coins_and_fee::<T, K>,
            (
                fee_wallet,
                amount,
                height,
                confirmations,
                max_outputs,
                change_outputs,
                select_all,
                account,
            ),
            Ok(found),
        ),
        old(fee_wallet).outputs() == old(wallet).outputs(),
        call_ensures(
            inputs_and_change::<T, K>,
            (&found.0, change_wallet, keychain_mask, amount, found.3, change_outputs),
            made,
        ),
        ({
            let g = final(wallet).exchanges().skip(old(wallet).exchanges().len() as int);
            let h = final(change_wallet).exchanges().skip(
                old(change_wallet).exchanges().len() as int,
            );
            forall|i: int|
                0 <= i < g.len() && i < h.len() ==> (#[trigger] g[i]).reply == (
                #[trigger] h[i]).reply
        }),
    ensures
        final(wallet).outputs() == old(wallet).outputs(),
        match made {
            Ok((parts, change)) => {
                &&& result matches Ok(selected)
                &&& selected.0@ == parts@
                &&& selected.1@ == found.0@
                &&& selected.2@ == change@
                &&& selected.3 == found.3
            },
            Err(e) => result matches Err(reason) && reason == e,
        },
        final(wallet).exchanges().skip(old(wallet).exchanges().len() as int)
            == final(change_wallet).exchanges().skip(old(change_wallet).exchanges().len() as int),
{
    let g = final(wallet).exchanges().skip(old(wallet).exchanges().len() as int);
    let h = final(change_wallet).exchanges().skip(old(change_wallet).exchanges().len() as int);
    let mask = match keychain_mask {
        Some(key) => Some(*key),
        None => None,
    };
    let amounts = change_amounts(
        change_of(found.0@, amount, found.3 as nat),
        change_outputs as nat,
    );
    assert(alike(g, h));
    lemma_same_conversation(|h: Seq<Exchange<K>>| change_request(mask, amounts, h), g, h);
}

/// Where outputs that cover the amount and the fee are not found, selecting for a payment
/// and starting one are refused with the same figures, and neither the wallet nor the slate
/// changes.
pub proof fn law_lack_of_funds_changes_nothing<T, K>(
    wallet: &mut T,
    keychain: &K,
    keychain_mask: Option<&SecretKey>,
    slate: &mut Slate,
    confirmations: u64,
    max_outputs: usize,
    change_outputs: usize,
    select_all: bool,
    account: Identifier,
    use_test_nonce: bool,
    sent: Result<Context, Error>,
    select_wallet: &mut T,
    selected: Result<
        (Vec<TxElement>, Vec<OutputData>, Vec<(u64, Identifier, Option<u64>)>, u64),
        Error,
    >,
    fee_wallet: &mut T,
    available: u64,
    available_disp: String,
    needed: u64,
    needed_disp: String,
) where T: WalletBackend<K>, K: Keychain
    requires
        call_ensures(
            build_send_tx::<T, K>,
            (
                wallet,
                keychain,
                keychain_mask,
                slate,
                confirmations,
                max_outputs,
                change_outputs,
                select_all,
                account,
                use_test_nonce,
            ),
            sent,
        ),
        call_ensures(
            select_send_tx::<T, K>,
            (
                select_wallet,
                keychain_mask,
                old(slate).amount,
                old(slate).height,
                confirmations,
                max_outputs,
                change_outputs,
                select_all,
                &account,
            ),
            selected,
        ),
        old(select_wallet).outputs() == old(wallet).outputs(),
        call_ensures(
            select_coins_and_fee::<T, K>,
            (
                fee_wallet,
                old(slate).amount,
                old(slate).height,
                confirmations,
                max_outputs,
                change_outputs,
                select_all,
                &account,
            ),
            Err(Error::NotEnoughFunds { available, available_disp, needed, needed_disp }),
        ),
        old(fee_wallet).outputs() == old(wallet).outputs(),
    ensures
        *final(wallet) == *old(wallet),
        *final(slate) == *old(slate),
        *final(select_wallet) == *old(select_wallet),
        selected matches Err(Error::NotEnoughFunds {
            available: has,
            available_disp: has_text,
            needed: wants,
            needed_disp: wants_text,
        }) && has == available && has_text@ == amount_text(available, false) && wants == needed
            && wants_text@ == amount_text(needed, false),
        sent matches Err(Error::NotEnoughFunds {
            available: has,
            available_disp: has_text,
            needed: wants,
            needed_disp: wants_text,
        }) && has == available && has_text@ == amount_text(available, false) && wants == needed
            && wants_text@ == amount_text(needed, false),
{
}

/// The context of a payment that was started keeps each output that was selected to be
/// spent, in its place: its key and its position, by which it is found again, and its value.
pub proof fn law_inputs_are_kept<T, K>(
    wallet: &mut T,
    keychain: &K,
    keychain_mask: Option<&SecretKey>,
    slate: &mut Slate,
    confirmations: u64,
    max_outputs: usize,
    change_outputs: usize,
    select_all: bool,
    account: Identifier,
    use_test_nonce: bool,
    sent: Result<Context, Error>,
    select_wallet: &mut T,
    selected: (Vec<TxElement>, Vec<OutputData>, Vec<(u64, Identifier, Option<u64>)>, u64),
) where T: WalletBackend<K>, K: Keychain
    requires
        call_ensures(
            build_send_tx::<T, K>,
            (
                wallet,
                keychain,
                keychain_mask,
                slate,
                confirmations,
                max_outputs,
                change_outputs,
                select_all,
                account,
                use_test_nonce,
            ),
            sent,
        ),
        call_ensures(
            select_send_tx::<T, K>,
            (
                select_wallet,
                keychain_mask,
                old(slate).amount,
                old(slate).height,
                confirmations,
                max_outputs,
                change_outputs,
                select_all,
                &account,
            ),
            Ok(selected),
        ),
        old(select_wallet).outputs() == old(wallet).outputs(),
        sent is Ok,
    ensures
        ({
            let coins = selected.1;
            &&& sent matches Ok(context)
            &&& context.input_ids@.len() == coins@.len()
            &&& forall|j: int|
                0 <= j < coins@.len() ==> {
                    &&& (#[trigger] context.input_ids@[j]).0 == coins@[j].key_id
                    &&& context.input_ids@[j].1 == coins@[j].mmr_index
                    &&& context.input_ids@[j].2 == coins@[j].value
                }
        }),
{
}

/// A payment that was started is the one that was selected. Its parts are what was put into
/// the transaction of the slate, which has the fee on it and is unchanged otherwise. The
/// context keeps the key, the position and the amount of each change output, in order, with
/// the fee and the secret key of the parts.
#[verifier::rlimit(40)]
pub proof fn law_started<T, K>(
    wallet: &mut T,
    keychain: &K,
    keychain_mask: Option<&SecretKey>,
    slate: &mut Slate,
    confirmations: u64,
    max_outputs: usize,
    change_outputs: usize,
    select_all: bool,
    account: Identifier,
    use_test_nonce: bool,
    sent: Result<Context, Error>,
    select_wallet: &mut T,
    selected: (Vec<TxElement>, Vec<OutputData>, Vec<(u64, Identifier, Option<u64>)>, u64),
) where T: WalletBackend<K>, K: Keychain
    requires
        call_ensures(
            build_send_tx::<T, K>,
            (
                wallet,
                keychain,
                keychain_mask,
                slate,
                confirmations,
                max_outputs,
                change_outputs,
                select_all,
                account,
                use_test_nonce,
            ),
            sent,
        ),
        call_ensures(
            select_send_tx::<T, K>,
            (
                select_wallet,
                keychain_mask,
                old(slate).amount,
                old(slate).height,
                confirmations,
                max_outputs,
                change_outputs,
                select_all,
                &account,
            ),
            Ok(selected),
        ),
        old(select_wallet).outputs() == old(wallet).outputs(),
        ({
            let g = final(wallet).exchanges().skip(old(wallet).exchanges().len() as int);
            let h = final(select_wallet).exchanges().skip(
                old(select_wallet).exchanges().len() as int,
            );
            forall|i: int|
                0 <= i < g.len() && i < h.len() ==> (#[trigger] g[i]).reply == (
                #[trigger] h[i]).reply
        }),
        sent is Ok,
    ensures
        final(wallet).outputs() == old(wallet).outputs(),
        ({
            let (parts, coins, change, fee) = selected;
            let n = change@.len();
            let priced = Slate { fee, ..*old(slate) };
            &&& sent matches Ok(context)
            // the slate
            &&& exists|blinding: BlindingFactor| #[trigger]
                keychain.builds(priced, parts@, Ok((final(slate).tx, blinding)))
                    && context.sec_key.bytes == blinding.bytes
            &&& final(slate).id == old(slate).id
            &&& final(slate).amount == old(slate).amount
            &&& final(slate).fee == fee
            &&& final(slate).height == old(slate).height
            &&& final(slate).messages == old(slate).messages
            &&& final(slate).payment_proof == old(slate).payment_proof
            // the context
            &&& keychain.draws(use_test_nonce, context.sec_nonce)
            &&& context.parent_key_id == account
            &&& context.participant_id == 0
            &&& context.fee == fee
            &&& context.payment_proof_derivation_index is None
            &&& context.output_ids@.len() == n
            &&& forall|i: int|
                0 <= i < n ==> {
                    &&& (#[trigger] context.output_ids@[i]).0 == change@[i].1
                    &&& context.output_ids@[i].1 == change@[i].2
                    &&& context.output_ids@[i].2 == change@[i].0
                }
        }),
{
    let start = old(wallet).exchanges();
    let g = final(wallet).exchanges().skip(start.len() as int);
    let h = final(select_wallet).exchanges().skip(old(select_wallet).exchanges().len() as int);
    let mask = match keychain_mask {
        Some(key) => Some(*key),
        None => None,
    };
    let plan = funding(
        old(slate).amount as nat,
        max_outputs as int,
        change_outputs as nat,
        select_all,
        candidates(old(wallet).outputs(), account, old(slate).height, confirmations),
    );
    if let Funding::Funded { coins, fee } = plan {
        let amounts = change_amounts(
            change_of(coins, old(slate).amount, fee),
            change_outputs as nat,
        );
        let n = amounts.len() as int;
        let script = |h: Seq<Exchange<K>>| send_request(mask, amounts, h);
        lemma_send_starts(mask, amounts, h);
        assert(alike(g, h));
        assert(h.len() == n);
        lemma_alike(script, g, h, n);
        assert(forall|i: int| 0 <= i < n ==> g.take(n)[i] == h.take(n)[i]);
        assert(change_entries(amounts, g) =~= change_entries(amounts, h));
    }
}

/// Starting a payment asks the store for a key for each change output that was selected, and
/// then for the commitment of each, and for nothing else.
#[verifier::rlimit(40)]
pub proof fn law_starting_asks<T, K>(
    wallet: &mut T,
    keychain: &K,
    keychain_mask: Option<&SecretKey>,
    slate: &mut Slate,
    confirmations: u64,
    max_outputs: usize,
    change_outputs: usize,
    select_all: bool,
    account: Identifier,
    use_test_nonce: bool,
    sent: Result<Context, Error>,
    select_wallet: &mut T,
    selected: (Vec<TxElement>, Vec<OutputData>, Vec<(u64, Identifier, Option<u64>)>, u64),
) where T: WalletBackend<K>, K: Keychain
    requires
        call_ensures(
            build_send_tx::<T, K>,
            (
                wallet,
                keychain,
                keychain_mask,
                slate,
                confirmations,
                max_outputs,
                change_outputs,
                select_all,
                account,
                use_test_nonce,
            ),
            sent,
        ),
        call_ensures(
            select_send_tx::<T, K>,
            (
                select_wallet,
                keychain_mask,
                old(slate).amount,
                old(slate).height,
                confirmations,
                max_outputs,
                change_outputs,
                select_all,
                &account,
            ),
            Ok(selected),
        ),
        old(select_wallet).outputs() == old(wallet).outputs(),
        ({
            let g = final(wallet).exchanges().skip(old(wallet).exchanges().len() as int);
            let h = final(select_wallet).exchanges().skip(
                old(select_wallet).exchanges().len() as int,
            );
            forall|i: int|
                0 <= i < g.len() && i < h.len() ==> (#[trigger] g[i]).reply == (
                #[trigger] h[i]).reply
        }),
        sent is Ok,
    ensures
        final(wallet).outputs() == old(wallet).outputs(),
        ({
            let start = old(wallet).exchanges();
            let g = final(wallet).exchanges().skip(start.len() as int);
            let mask = match keychain_mask {
                Some(key) => Some(*key),
                None => None,
            };
            let change = selected.2;
            let n = change@.len();
            &&& final(wallet).exchanges() == start + g
            &&& g.len() == 2 * n
            &&& forall|i: int| 0 <= i < g.len() ==> !((#[trigger] g[i]).reply is Refused)
            &&& forall|i: int|
                0 <= i < n ==> {
                    &&& (#[trigger] g[i]).request == (Request::NextChild { mask })
                    &&& g[i].reply == Reply::<K>::Key(change@[i].1)
                    &&& g[n + i].request == (Request::CalcCommit {
                        mask,
                        amount: change@[i].0,
                        key_id: change@[i].1,
                    })
                }
        }),
{
    let start = old(wallet).exchanges();
    let g = final(wallet).exchanges().skip(start.len() as int);
    let h = final(select_wallet).exchanges().skip(old(select_wallet).exchanges().len() as int);
    let mask = match keychain_mask {
        Some(key) => Some(*key),
        None => None,
    };
    let plan = funding(
        old(slate).amount as nat,
        max_outputs as int,
        change_outputs as nat,
        select_all,
        candidates(old(wallet).outputs(), account, old(slate).height, confirmations),
    );
    if let Funding::Funded { coins, fee } = plan {
        let amounts = change_amounts(
            change_of(coins, old(slate).amount, fee),
            change_outputs as nat,
        );
        let n = amounts.len() as int;
        let script = |h: Seq<Exchange<K>>| send_request(mask, amounts, h);
        lemma_send_starts(mask, amounts, h);
        assert(alike(g, h));
        assert(h.len() == n);
        lemma_alike(script, g, h, n);
        assert(forall|i: int| 0 <= i < n ==> g.take(n)[i] == h.take(n)[i]);
        assert(change_entries(amounts, g) =~= change_entries(amounts, h));
        assert forall|i: int| 0 <= i < g.len() implies !((#[trigger] g[i]).reply is Refused) by {
            lemma_send_place(mask, amounts, g, i);
        }
        assert forall|i: int| 0 <= i < n implies {
            &&& (#[trigger] g[i]).request == (Request::NextChild { mask })
            &&& g[i].reply == Reply::<K>::Key(selected.2@[i].1)
            &&& g[n + i].request == (Request::CalcCommit {
                mask,
                amount: selected.2@[i].0,
                key_id: selected.2@[i].1,
            })
        } by {
            lemma_send_place(mask, amounts, g, i);
            lemma_send_place(mask, amounts, g, n + i);
        }
    }
}

/// A payment that was selected but not started failed because the transaction could not be
/// built of the selected parts, because the blinding factor of these stands for no secret
/// key, or because the store refused a commitment. The slate then has the fee on it, and a
/// new transaction if one was built.
#[verifier::rlimit(40)]
pub proof fn law_selected_but_not_started<T, K>(
    wallet: &mut T,
    keychain: &K,
    keychain_mask: Option<&SecretKey>,
    slate: &mut Slate,
    confirmations: u64,
    max_outputs: usize,
    change_outputs: usize,
    select_all: bool,
    account: Identifier,
    use_test_nonce: bool,
    sent: Result<Context, Error>,
    select_wallet: &mut T,
    selected: (Vec<TxElement>, Vec<OutputData>, Vec<(u64, Identifier, Option<u64>)>, u64),
) where T: WalletBackend<K>, K: Keychain
    requires
        call_ensures(
            build_send_tx::<T, K>,
            (
                wallet,
                keychain,
                keychain_mask,
                slate,
                confirmations,
                max_outputs,
                change_outputs,
                select_all,
                account,
                use_test_nonce,
            ),
            sent,
        ),
        call_ensures(
            select_send_tx::<T, K>,
            (
                select_wallet,
                keychain_mask,
                old(slate).amount,
                old(slate).height,
                confirmations,
                max_outputs,
                change_outputs,
                select_all,
                &account,
            ),
            Ok(selected),
        ),
        old(select_wallet).outputs() == old(wallet).outputs(),
        ({
            let g = final(wallet).exchanges().skip(old(wallet).exchanges().len() as int);
            let h = final(select_wallet).exchanges().skip(
                old(select_wallet).exchanges().len() as int,
            );
            forall|i: int|
                0 <= i < g.len() && i < h.len() ==> (#[trigger] g[i]).reply == (
                #[trigger] h[i]).reply
        }),
        sent is Err,
    ensures
        final(wallet).outputs() == old(wallet).outputs(),
        ({
            let start = old(wallet).exchanges();
            let g = final(wallet).exchanges().skip(start.len() as int);
            let mask = match keychain_mask {
                Some(key) => Some(*key),
                None => None,
            };
            let (parts, coins, change, fee) = selected;
            let n = change@.len();
            let priced = Slate { fee, ..*old(slate) };
            &&& sent matches Err(e)
            &&& final(wallet).exchanges() == start + g
            &&& n <= g.len() <= 2 * n
            &&& forall|i: int| 0 <= i < g.len() - 1 ==> !((#[trigger] g[i]).reply is Refused)
            &&& forall|i: int|
                0 <= i < g.len() ==> (#[trigger] g[i]).request == if i < n {
                    Request::NextChild { mask }
                } else {
                    Request::CalcCommit {
                        mask,
                        amount: change@[i - n].0,
                        key_id: change@[i - n].1,
                    }
                }
            &&& final(slate).id == old(slate).id
            &&& final(slate).amount == old(slate).amount
            &&& final(slate).fee == fee
            &&& final(slate).height == old(slate).height
            &&& final(slate).messages == old(slate).messages
            &&& final(slate).payment_proof == old(slate).payment_proof
            &&& g.len() > n ==> {
                &&& g.last().reply == Reply::<K>::Refused(e)
                &&& exists|blinding: BlindingFactor| #[trigger]
                    keychain.builds(priced, parts@, Ok((final(slate).tx, blinding)))
            }
            &&& g.len() == n ==> {
                ||| keychain.builds(priced, parts@, Err(e)) && final(slate).tx == old(slate).tx
                ||| e is InvalidSecretKey && exists|blinding: BlindingFactor| #[trigger]
                    keychain.builds(priced, parts@, Ok((final(slate).tx, blinding))) && number(
                        blinding.bytes@,
                    ) >= group_order()
            }
        }),
{
    let start = old(wallet).exchanges();
    let g = final(wallet).exchanges().skip(start.len() as int);
    let h = final(select_wallet).exchanges().skip(old(select_wallet).exchanges().len() as int);
    let mask = match keychain_mask {
        Some(key) => Some(*key),
        None => None,
    };
    let plan = funding(
        old(slate).amount as nat,
        max_outputs as int,
        change_outputs as nat,
        select_all,
        candidates(old(wallet).outputs(), account, old(slate).height, confirmations),
    );
    if let Funding::Funded { coins, fee } = plan {
        let amounts = change_amounts(
            change_of(coins, old(slate).amount, fee),
            change_outputs as nat,
        );
        let n = amounts.len() as int;
        let script = |h: Seq<Exchange<K>>| send_request(mask, amounts, h);
        lemma_send_starts(mask, amounts, h);
        assert(alike(g, h));
        assert(h.len() == n);
        let shared = if g.len() <= n {
            g.len() as int
        } else {
            n
        };
        lemma_alike(script, g, h, shared);
        assert(forall|i: int| 0 <= i < shared ==> g.take(shared)[i] == h.take(shared)[i]);
        if h.len() > 0 {
            assert(!(h.last().reply is Refused));
        }
        assert forall|i: int| 0 <= i < h.len() implies !((#[trigger] h[i]).reply is Refused) by {
            lemma_change_place(mask, amounts, h, i);
        }
        if g.len() > 0 && g.len() <= n {
            assert(g[g.len() - 1] == h[g.len() - 1]);
        }
        assert(g.len() >= n);
        assert(change_entries(amounts, g) =~= change_entries(amounts, h));
        assert forall|i: int| 0 <= i < g.len() - 1 implies !((#[trigger] g[i]).reply is Refused) by {
            lemma_send_place(mask, amounts, g, i);
        }
        if g.len() > 0 {
            lemma_send_place(mask, amounts, g, g.len() - 1);
        }
        assert forall|i: int| 0 <= i < g.len() implies (#[trigger] g[i]).request == if i < n {
            Request::NextChild { mask }
        } else {
            Request::CalcCommit {
                mask,
                amount: selected.2@[i - n].0,
                key_id: selected.2@[i - n].1,
            }
        } by {
            lemma_send_place(mask, amounts, g, i);
        }
    }
}

/// Where a key for the change is refused, a payment is not started, for that reason, and
/// the slate stays as it is.
#[verifier::rlimit(40)]
pub proof fn law_refused_key_ends_it<T, K>(
    wallet: &mut T,
    keychain: &K,
    keychain_mask: Option<&SecretKey>,
    slate: &mut Slate,
    confirmations: u64,
    max_outputs: usize,
    change_outputs: usize,
    select_all: bool,
    account: Identifier,
    use_test_nonce: bool,
    sent: Result<Context, Error>,
    select_wallet: &mut T,
    reason: Error,
) where T: WalletBackend<K>, K: Keychain
    requires
        call_ensures(
            build_send_tx::<T, K>,
            (
                wallet,
                keychain,
                keychain_mask,
                slate,
                confirmations,
                max_outputs,
                change_outputs,
                select_all,
                account,
                use_test_nonce,
            ),
            sent,
        ),
        call_ensures(
            select_send_tx::<T, K>,
            (
                select_wallet,
                keychain_mask,
                old(slate).amount,
                old(slate).height,
                confirmations,
                max_outputs,
                change_outputs,
                select_all,
                &account,
            ),
            Err(reason),
        ),
        old(select_wallet).outputs() == old(wallet).outputs(),
        ({
            let g = final(wallet).exchanges().skip(old(wallet).exchanges().len() as int);
            let h = final(select_wallet).exchanges().skip(
                old(select_wallet).exchanges().len() as int,
            );
            forall|i: int|
                0 <= i < g.len() && i < h.len() ==> (#[trigger] g[i]).reply == (
                #[trigger] h[i]).reply
        }),
        final(select_wallet).exchanges().len() > old(select_wallet).exchanges().len(),
    ensures
        sent matches Err(e) && e == reason,
        *final(slate) == *old(slate),
        final(wallet).outputs() == old(wallet).outputs(),
        final(wallet).exchanges().skip(old(wallet).exchanges().len() as int)
            == final(select_wallet).exchanges().skip(old(select_wallet).exchanges().len() as int),
{
    let start = old(wallet).exchanges();
    let g = final(wallet).exchanges().skip(start.len() as int);
    let h = final(select_wallet).exchanges().skip(old(select_wallet).exchanges().len() as int);
    let mask = match keychain_mask {
        Some(key) => Some(*key),
        None => None,
    };
    let plan = funding(
        old(slate).amount as nat,
        max_outputs as int,
        change_outputs as nat,
        select_all,
        candidates(old(wallet).outputs(), account, old(slate).height, confirmations),
    );
    if let Funding::Funded { coins, fee } = plan {
        let amounts = change_amounts(
            change_of(coins, old(slate).amount, fee),
            change_outputs as nat,
        );
        let n = amounts.len() as int;
        let script = |h: Seq<Exchange<K>>| send_request(mask, amounts, h);
        lemma_send_starts(mask, amounts, h);
        assert(alike(g, h));
        let shared = if g.len() <= h.len() {
            g.len() as int
        } else {
            h.len() as int
        };
        lemma_alike(script, g, h, shared);
        assert(g.take(g.len() as int) =~= g);
        assert(h.take(h.len() as int) =~= h);
        assert(forall|i: int| 0 <= i < shared ==> g.take(shared)[i] == h.take(shared)[i]);
        if g.len() < h.len() {
            if g.len() > 0 {
                lemma_change_place(mask, amounts, h, g.len() - 1);
                assert(g[g.len() - 1] == h[g.len() - 1]);
            }
            assert(false);
        }
        if g.len() > h.len() {
            lemma_send_place(mask, amounts, g, h.len() - 1);
            assert(g[h.len() - 1] == h[h.len() - 1]);
        }
    } else {
        assert(h.len() == 0);
    }
}

} // verus!
