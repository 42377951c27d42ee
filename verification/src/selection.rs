//! Selection of inputs for building transactions.
use crate::amount::{amount_text, amount_to_hr_string};
use crate::choice::{
    candidates, chosen, eligible, funding, funding_fits, funding_with_change, is_first_window,
    is_shortest, lemma_chosen_bound, lemma_first_window, lemma_second_choice, lemma_shortest, pick,
    sums_fit, window, Funding,
};
use crate::error::Error;
use crate::fee::{default_fee, tx_fee};
use crate::sort::{lemma_by_value_sorts, lemma_sorting_keeps, sort_by_value};
use crate::totals::{lemma_total_take, lemma_total_take_monotone, total};
use crate::types::{Identifier, OutputData, SecretKey};
use crate::wallet::{
    added, conversation, lemma_asked, mask_of, refused, refused_with, so_far, Exchange,
    Keychain, Request, TxElement, WalletBackend,
};
use vstd::prelude::*;

verus! {

/// What the outputs are worth together.
fn total_value(outputs: &Vec<OutputData>) -> (sum: u64)
    requires
        total(outputs@) <= u64::MAX,
    ensures
        sum == total(outputs@),
{
    let mut sum: u64 = 0;
    let mut i: usize = 0;
    assert(total(outputs@.take(0)) == 0);
    while i < outputs.len()
        invariant
            i <= outputs.len(),
            sum == total(outputs@.take(i as int)),
            total(outputs@) <= u64::MAX,
        decreases outputs.len() - i,
    {
        proof {
            lemma_total_take(outputs@, i as int);
            lemma_total_take_monotone(outputs@, i + 1, outputs.len() as int);
            assert(outputs@.take(outputs.len() as int) =~= outputs@);
        }
        sum = sum + outputs[i].value;
        i = i + 1;
    }
    assert(outputs@.take(i as int) =~= outputs@);
    sum
}

/// Picks outputs worth at least `amount`: all of them, or as many, from the first
/// one on, as are needed. `None` where all of them are not worth that much.
pub fn select_from(amount: u64, select_all: bool, outputs: Vec<OutputData>) -> (selected: Option<
    Vec<OutputData>,
>)
    requires
        total(outputs@) <= u64::MAX,
    ensures
        selected is Some <==> total(outputs@) >= amount,
        selected matches Some(coins) ==> Some(coins@) == pick(amount as nat, select_all, outputs@),
        selected matches Some(coins) ==> select_all ==> coins@ == outputs@,
        selected matches Some(coins) ==> !select_all ==> coins@ == outputs@.take(coins.len() as int)
            && is_shortest(amount as nat, outputs@, coins.len() as int),
{
    let sum = total_value(&outputs);
    if sum < amount {
        return None;
    }
    let mut outputs = outputs;
    let ghost all = outputs@;
    if !select_all {
        let mut selected_amount: u64 = 0;
        let mut len: usize = 0;
        assert(total(outputs@.take(0)) == 0);
        while selected_amount < amount && len < outputs.len()
            invariant
                outputs@ == all,
                total(all) <= u64::MAX,
                total(all) >= amount,
                len <= outputs.len(),
                selected_amount == total(all.take(len as int)),
                forall|k: int| 0 <= k < len ==> total(#[trigger] all.take(k)) < amount,
            decreases outputs.len() - len,
        {
            proof {
                lemma_total_take(all, len as int);
                lemma_total_take_monotone(all, len + 1, all.len() as int);
                assert(all.take(all.len() as int) =~= all);
            }
            selected_amount = selected_amount + outputs[len].value;
            len = len + 1;
        }
        proof {
            assert(all.take(all.len() as int) =~= all);
            assert(is_shortest(amount as nat, all, len as int));
            lemma_shortest(amount as nat, all);
        }
        outputs.truncate(len);
        assert(outputs@ =~= all.take(len as int));
    }
    Some(outputs)
}

/// Copies the run of `size` outputs that starts at `start`.
fn copy_window(outputs: &Vec<OutputData>, size: usize, start: usize) -> (run: Vec<OutputData>)
    requires
        start + size <= outputs.len(),
    ensures
        run@ == window(outputs@, size as int, start as int),
{
    let mut run: Vec<OutputData> = Vec::new();
    let mut i: usize = 0;
    while i < size
        invariant
            i <= size,
            start + size <= outputs.len(),
            run@ =~= window(outputs@, i as int, start as int),
        decreases size - i,
    {
        run.push(outputs[start + i].clone());
        i = i + 1;
    }
    run
}

/// The last `count` outputs, or all of them if there are fewer, the last one first.
fn largest(outputs: Vec<OutputData>, count: usize) -> (coins: Vec<OutputData>)
    ensures
        coins@ == outputs@.reverse().take(
            if count <= outputs.len() {
                count as int
            } else {
                outputs.len() as int
            },
        ),
{
    let ghost all = outputs@;
    let mut rest = outputs;
    let mut coins: Vec<OutputData> = Vec::new();
    while coins.len() < count && rest.len() > 0
        invariant
            coins.len() <= count,
            coins.len() + rest.len() == all.len(),
            rest@ =~= all.take(rest.len() as int),
            coins@ =~= all.reverse().take(coins.len() as int),
        decreases rest.len(),
    {
        match rest.pop() {
            Some(out) => coins.push(out),
            None => {},
        }
    }
    coins
}

/// Select spendable coins from a wallet.
/// Default strategy is to spend the maximum number of outputs (up to
/// max_outputs). Alternative strategy is to spend smallest outputs first
/// but only as many as necessary.
///
/// Gives the number of outputs that are eligible and those that were chosen. Where
/// the eligible outputs do not cover the amount, the most valuable are chosen, to
/// tell what is possible.
pub fn select_coins<T, K>(
    wallet: &mut T,
    amount: u64,
    current_height: u64,
    minimum_confirmations: u64,
    max_outputs: usize,
    select_all: bool,
    parent_key_id: &Identifier,
) -> (result: (usize, Vec<OutputData>)) where T: WalletBackend<K>, K: Keychain
    requires
        ({
            let s = candidates(
                old(wallet).outputs(),
                *parent_key_id,
                current_height,
                minimum_confirmations,
            );
            &&& max_outputs > 0 || s.len() == 0
            &&& sums_fit(amount as nat, max_outputs as int, s)
        }),
    ensures
        *final(wallet) == *old(wallet),
        ({
            let s = candidates(
                old(wallet).outputs(),
                *parent_key_id,
                current_height,
                minimum_confirmations,
            );
            &&& result.0 == s.len()
            &&& result.1@ == chosen(amount as nat, max_outputs as int, select_all, s)
        }),
{
    // first find all eligible outputs based on number of confirmations
    let outputs = wallet.iter();
    let ghost all = outputs@;
    let ghost wanted = |out: OutputData|
        out.root_key_id == *parent_key_id && out.spendable(current_height, minimum_confirmations);
    let mut eligible_outputs: Vec<OutputData> = Vec::new();
    let mut i: usize = 0;
    proof {
        reveal(Seq::filter);
    }
    while i < outputs.len()
        invariant
            i <= outputs.len(),
            outputs@ == all,
            wanted == |out: OutputData|
                out.root_key_id == *parent_key_id && out.spendable(
                    current_height,
                    minimum_confirmations,
                ),
            eligible_outputs@ == all.take(i as int).filter(wanted),
        decreases outputs.len() - i,
    {
        let out = &outputs[i];
        if out.root_key_id == *parent_key_id && out.eligible_to_spend(
            current_height,
            minimum_confirmations,
        ) {
            eligible_outputs.push(out.clone());
        }
        proof {
            reveal(Seq::filter);
            assert(all.take(i + 1).drop_last() =~= all.take(i as int));
        }
        i = i + 1;
    }
    assert(all.take(i as int) =~= all);

    let max_available: usize = eligible_outputs.len();

    // sort eligible outputs by increasing value
    let sorted = sort_by_value(eligible_outputs);
    let ghost s = sorted@;
    proof {
        lemma_sorting_keeps(s, all.filter(wanted));
    }

    // use a sliding window to identify potential sets of possible outputs to spend;
    // the limit is a soft one, given up where no window is enough
    if sorted.len() > max_outputs {
        let mut start: usize = 0;
        while start <= sorted.len() - max_outputs
            invariant
                *wallet == *old(wallet),
                s == candidates(
                    old(wallet).outputs(),
                    *parent_key_id,
                    current_height,
                    minimum_confirmations,
                ),
                sorted@ == s,
                max_available == s.len(),
                0 < max_outputs < s.len(),
                start <= s.len() - max_outputs + 1,
                sums_fit(amount as nat, max_outputs as int, s),
                forall|k: int|
                    0 <= k < start ==> total(#[trigger] window(s, max_outputs as int, k)) < amount,
            decreases s.len() - start,
        {
            let run = copy_window(&sorted, max_outputs, start);
            proof {
                if total(run@) >= amount {
                    assert(is_first_window(amount as nat, max_outputs as int, s, start as int));
                    lemma_first_window(amount as nat, max_outputs as int, s, start as int);
                }
            }
            if let Some(outputs) = select_from(amount, select_all, run) {
                return (max_available, outputs);
            }
            start = start + 1;
        }
        proof {
            assert forall|k: int| !is_first_window(amount as nat, max_outputs as int, s, k) by {
                if 0 <= k <= s.len() - max_outputs {
                    assert(total(window(s, max_outputs as int, k)) < amount);
                }
            }
        }
        // no window is worth the amount: take coins from the smallest one up
        let coins = copy_window(&sorted, max_available, 0);
        assert(coins@ =~= s);
        if let Some(outputs) = select_from(amount, false, coins) {
            return (max_available, outputs);
        }
    } else {
        let coins = copy_window(&sorted, max_available, 0);
        assert(coins@ =~= s);
        if let Some(outputs) = select_from(amount, select_all, coins) {
            return (max_available, outputs);
        }
    }

    // we failed to find a suitable set of outputs to spend, so return the largest
    // amount we can so we can provide guidance on what is possible
    let coins = largest(sorted, max_outputs);
    assert(s.reverse().take(s.len() as int) =~= s.reverse());
    (max_available, coins)
}

/// `error` says that `available` is less than the `needed` amount.
pub open spec fn is_not_enough_funds(error: Error, available: nat, needed: nat) -> bool {
    match error {
        Error::NotEnoughFunds { available: a, available_disp, needed: n, needed_disp } => {
            &&& a == available
            &&& available_disp@ == amount_text(a, false)
            &&& n == needed
            &&& needed_disp@ == amount_text(n, false)
        },
        _ => false,
    }
}

fn not_enough_funds(available: u64, needed: u64) -> (error: Error)
    ensures
        is_not_enough_funds(error, available as nat, needed as nat),
{
    Error::NotEnoughFunds {
        available,
        available_disp: amount_to_hr_string(available, false),
        needed,
        needed_disp: amount_to_hr_string(needed, false),
    }
}

/// What [`select_coins_and_fee`] gives for an amount, where `plan` is what comes of the
/// search.
pub open spec fn fee_outcome(
    plan: Funding,
    amount: u64,
    result: Result<(Vec<OutputData>, u64, u64, u64), Error>,
) -> bool {
    match plan {
        Funding::Funded { coins, fee } => {
            &&& result matches Ok(found)
            &&& found.0@ == coins
            &&& found.1 == total(coins)
            &&& found.2 == amount
            &&& found.3 == fee
        },
        Funding::Short { available, needed } => {
            &&& result matches Err(e)
            &&& is_not_enough_funds(e, available, needed)
        },
    }
}

/// Select outputs and calculating fee.
///
/// Gives the outputs to spend, what they are worth, the amount and the fee.
pub fn select_coins_and_fee<T, K>(
    wallet: &mut T,
    amount: u64,
    current_height: u64,
    minimum_confirmations: u64,
    max_outputs: usize,
    change_outputs: usize,
    selection_strategy_is_use_all: bool,
    parent_key_id: &Identifier,
) -> (result: Result<(Vec<OutputData>, u64, u64, u64), Error>) where
    T: WalletBackend<K>,
    K: Keychain,

    requires
        ({
            let s = candidates(
                old(wallet).outputs(),
                *parent_key_id,
                current_height,
                minimum_confirmations,
            );
            &&& max_outputs > 0 || s.len() == 0
            &&& funding_fits(
                amount as nat,
                max_outputs as int,
                change_outputs as nat,
                selection_strategy_is_use_all,
                s,
            )
        }),
    ensures
        *final(wallet) == *old(wallet),
        fee_outcome(
            funding(
                amount as nat,
                max_outputs as int,
                change_outputs as nat,
                selection_strategy_is_use_all,
                candidates(
                    old(wallet).outputs(),
                    *parent_key_id,
                    current_height,
                    minimum_confirmations,
                ),
            ),
            amount,
            result,
        ),
{
    let ghost s = candidates(
        old(wallet).outputs(),
        *parent_key_id,
        current_height,
        minimum_confirmations,
    );
    let ghost first = chosen(
        amount as nat,
        max_outputs as int,
        selection_strategy_is_use_all,
        s,
    );
    proof {
        lemma_by_value_sorts(
            eligible(
                old(wallet).outputs(),
                *parent_key_id,
                current_height,
                minimum_confirmations,
            ),
        );
        lemma_chosen_bound(
            amount as nat,
            max_outputs as int,
            selection_strategy_is_use_all,
            s,
        );
        lemma_second_choice(
            amount as nat,
            max_outputs as int,
            change_outputs as nat,
            selection_strategy_is_use_all,
            s,
        );
    }
    // select some spendable coins from the wallet
    let (max_available, mut coins) = select_coins(
        wallet,
        amount,
        current_height,
        minimum_confirmations,
        max_outputs,
        selection_strategy_is_use_all,
        parent_key_id,
    );

    // sender is responsible for setting the fee on the partial tx
    // recipient should double check the fee calculation and not blindly trust the
    // sender

    // First attempt to spend without change
    let mut fee: u64 = tx_fee(coins.len(), 1, 1, None);
    let mut sum: u64 = total_value(&coins);
    let mut amount_with_fee: u64 = amount + fee;

    if sum == 0 {
        return Err(not_enough_funds(0, amount_with_fee));
    }

    // The amount with fee is more than the total values of our max outputs
    if sum < amount_with_fee && coins.len() == max_available {
        return Err(not_enough_funds(sum, amount_with_fee));
    }

    let num_outputs: usize = change_outputs + 1;

    // We need to add a change address or amount with fee is more than total
    if sum != amount_with_fee {
        fee = tx_fee(coins.len(), num_outputs, 1, None);
        amount_with_fee = amount + fee;
        let ghost first_fee = fee as nat;
        let ghost more = chosen(
            amount as nat + first_fee,
            s.len() as int,
            selection_strategy_is_use_all,
            s,
        );
        let ghost mut again = false;

        // Here check if we have enough outputs for the amount including fee otherwise
        // look for other outputs and check again
        while sum < amount_with_fee
            invariant
                *wallet == *old(wallet),
                s == candidates(
                    old(wallet).outputs(),
                    *parent_key_id,
                    current_height,
                    minimum_confirmations,
                ),
                max_available == s.len(),
                num_outputs == change_outputs + 1,
                first_fee == default_fee(first.len(), num_outputs as nat, 1),
                amount + first_fee <= u64::MAX,
                more == chosen(
                    amount as nat + first_fee,
                    s.len() as int,
                    selection_strategy_is_use_all,
                    s,
                ),
                sum == total(coins@),
                fee == default_fee(coins.len() as nat, num_outputs as nat, 1),
                amount_with_fee == amount + fee,
                coins@ == if again {
                    more
                } else {
                    first
                },
                again ==> total(first) < amount + first_fee && first.len() != s.len(),
                total(first) < amount + first_fee && first.len() != s.len() ==> total(s)
                    <= u64::MAX,
                total(first) < amount + first_fee ==> {
                    let more_fee = default_fee(more.len(), num_outputs as nat, 1);
                    &&& more_fee <= first_fee
                    &&& total(more) >= amount + more_fee || more.len() == s.len()
                },
                funding(
                    amount as nat,
                    max_outputs as int,
                    change_outputs as nat,
                    selection_strategy_is_use_all,
                    s,
                ) == funding_with_change(
                    amount as nat,
                    change_outputs as nat,
                    selection_strategy_is_use_all,
                    s,
                    first,
                ),
            decreases
                    (if again {
                        0int
                    } else {
                        1int
                    }),
        {
            // End the loop if we have selected all the outputs and still not enough funds
            if coins.len() == max_available {
                return Err(not_enough_funds(sum, amount_with_fee));
            }
            proof {
                lemma_chosen_bound(
                    amount as nat + first_fee,
                    s.len() as int,
                    selection_strategy_is_use_all,
                    s,
                );
                again = true;
            }
            // select some spendable coins from the wallet
            let (_, found) = select_coins(
                wallet,
                amount_with_fee,
                current_height,
                minimum_confirmations,
                max_available,
                selection_strategy_is_use_all,
                parent_key_id,
            );
            coins = found;
            fee = tx_fee(coins.len(), num_outputs, 1, None);
            sum = total_value(&coins);
            amount_with_fee = amount + fee;
        }
    }
    Ok((coins, sum, amount, fee))
}

/// What is left of `coins` once the amount and the fee are paid.
pub open spec fn change_of(coins: Seq<OutputData>, amount: u64, fee: nat) -> int {
    total(coins) - amount - fee
}

/// `change` can be split among `count` outputs, none of them empty.
pub open spec fn can_split(change: int, count: nat) -> bool {
    change == 0 || 0 < count <= change
}

/// What each change output is worth: all the same, but for the last one, which also
/// takes what an even split leaves over. There are none where nothing is left.
pub open spec fn change_amounts(change: int, count: nat) -> Seq<u64> {
    let share = change / count as int;
    Seq::new(
        if change == 0 {
            0
        } else {
            count
        },
        |i: int|
            if i == count - 1 {
                (share + change % count as int) as u64
            } else {
                share as u64
            },
    )
}

/// The parts that spend `coins`.
pub open spec fn input_elements(coins: Seq<OutputData>) -> Seq<TxElement> {
    coins.map_values(
        |coin: OutputData|
            if coin.is_coinbase {
                TxElement::CoinbaseInput { value: coin.value, key_id: coin.key_id }
            } else {
                TxElement::Input { value: coin.value, key_id: coin.key_id }
            },
    )
}

/// The parts that add change outputs.
pub open spec fn output_elements(change: Seq<(u64, Identifier, Option<u64>)>) -> Seq<TxElement> {
    change.map_values(
        |entry: (u64, Identifier, Option<u64>)|
            TxElement::Output { value: entry.0, key_id: entry.1 },
    )
}

/// The change outputs: their amounts, for the keys that the wallet gave out in turn.
pub open spec fn change_entries<K>(amounts: Seq<u64>, h: Seq<Exchange<K>>) -> Seq<
    (u64, Identifier, Option<u64>),
> {
    Seq::new(amounts.len(), |i: int| (amounts[i], h[i].reply->Key_0, None::<u64>))
}

/// What a wallet is asked for when change is made: one key for each change output.
pub open spec fn change_request<K>(
    mask: Option<SecretKey>,
    amounts: Seq<u64>,
    h: Seq<Exchange<K>>,
) -> Option<Request> {
    if !refused(h) && h.len() < amounts.len() {
        Some(Request::NextChild { mask })
    } else {
        None
    }
}

/// What [`inputs_and_change`] gives for `coins` and the given amounts of change, after the
/// exchanges `h`.
pub open spec fn change_outcome<K>(
    coins: Seq<OutputData>,
    amounts: Seq<u64>,
    h: Seq<Exchange<K>>,
    result: Result<(Vec<TxElement>, Vec<(u64, Identifier, Option<u64>)>), Error>,
) -> bool {
    match result {
        Ok((parts, change)) => {
            &&& !refused(h)
            &&& change@ == change_entries(amounts, h)
            &&& parts@ == input_elements(coins) + output_elements(change@)
        },
        Err(e) => refused_with(h, e),
    }
}

/// Selects inputs and change for a transaction.
///
/// Gives the parts of the transaction, and for each change output its amount, its
/// key and its position in the output set, which is not known yet.
pub fn inputs_and_change<T, K>(
    coins: &Vec<OutputData>,
    wallet: &mut T,
    keychain_mask: Option<&SecretKey>,
    amount: u64,
    fee: u64,
    num_change_outputs: usize,
) -> (result: Result<(Vec<TxElement>, Vec<(u64, Identifier, Option<u64>)>), Error>) where
    T: WalletBackend<K>,
    K: Keychain,

    requires
        total(coins@) <= u64::MAX,
        amount + fee <= total(coins@),
        can_split(change_of(coins@, amount, fee as nat), num_change_outputs as nat),
    ensures
        ({
            let amounts = change_amounts(
                change_of(coins@, amount, fee as nat),
                num_change_outputs as nat,
            );
            let h = added(old(wallet).exchanges(), final(wallet).exchanges());
            &&& final(wallet).exchanges() == old(wallet).exchanges() + h
            &&& conversation(
                |h: Seq<Exchange<K>>| change_request(mask_of(keychain_mask), amounts, h),
                h,
            )
            &&& change_outcome(coins@, amounts, h, result)
        }),
        final(wallet).outputs() == old(wallet).outputs(),
        change_of(coins@, amount, fee as nat) == 0 ==> *final(wallet) == *old(wallet) && result is Ok,
{
    let mut parts: Vec<TxElement> = Vec::new();

    // calculate the total across all inputs, and how much is left
    let sum: u64 = total_value(coins);

    // if we are spending 10,000 coins to send 1,000 then our change will be 9,000
    // if the fee is 80 then the recipient will receive 1000 and our change will be
    // 8,920
    let change: u64 = sum - amount - fee;

    // build inputs using the appropriate derived key_ids
    let mut i: usize = 0;
    while i < coins.len()
        invariant
            i <= coins.len(),
            parts@ =~= input_elements(coins@.take(i as int)),
        decreases coins.len() - i,
    {
        let coin = &coins[i];
        if coin.is_coinbase {
            parts.push(TxElement::CoinbaseInput { value: coin.value, key_id: coin.key_id });
        } else {
            parts.push(TxElement::Input { value: coin.value, key_id: coin.key_id });
        }
        i = i + 1;
    }
    assert(coins@.take(i as int) =~= coins@);

    let ghost inputs = parts@;
    let ghost amounts = change_amounts(change as int, num_change_outputs as nat);
    let ghost script = |h: Seq<Exchange<K>>| change_request(mask_of(keychain_mask), amounts, h);
    let ghost start = old(wallet).exchanges();
    let ghost mut h = Seq::<Exchange<K>>::empty();
    let mut change_amounts_derivations: Vec<(u64, Identifier, Option<u64>)> = Vec::new();
    assert(wallet.exchanges() =~= start + h);

    if change != 0 {
        let part_change: u64 = change / num_change_outputs as u64;
        proof {
            lemma_share(change as int, num_change_outputs as int);
        }
        let remainder_change: u64 = change % num_change_outputs as u64;

        let mut x: usize = 0;
        while x < num_change_outputs
            invariant
                x <= num_change_outputs,
                0 < num_change_outputs,
                0 < part_change,
                change != 0,
                change == change_of(coins@, amount, fee as nat),
                part_change == change / num_change_outputs as u64,
                remainder_change == change % num_change_outputs as u64,
                part_change + remainder_change <= u64::MAX,
                amounts == change_amounts(change as int, num_change_outputs as nat),
                script == |h: Seq<Exchange<K>>| change_request(mask_of(keychain_mask), amounts, h),
                start == old(wallet).exchanges(),
                wallet.exchanges() == start + h,
                wallet.outputs() == old(wallet).outputs(),
                h.len() == x,
                so_far(script, h),
                !refused(h),
                change_amounts_derivations@ =~= change_entries(amounts.take(x as int), h),
                parts@ =~= inputs + output_elements(change_amounts_derivations@),
            decreases num_change_outputs - x,
        {
            // n-1 equal change_outputs and a final one accounting for any remainder
            let change_amount: u64 = if x == num_change_outputs - 1 {
                part_change + remainder_change
            } else {
                part_change
            };
            assert(change_amount == amounts[x as int]);

            let reply = wallet.next_child(keychain_mask);
            proof {
                lemma_asked(script, start, h, wallet.exchanges());
                h = h.push(wallet.exchanges().last());
            }
            match reply {
                Ok(change_key) => {
                    change_amounts_derivations.push((change_amount, change_key, None));
                    parts.push(TxElement::Output { value: change_amount, key_id: change_key });
                },
                Err(e) => {
                    return Err(e);
                },
            }
            x = x + 1;
        }
    }
    proof {
        assert(added(start, wallet.exchanges()) =~= h);
        assert(amounts.take(amounts.len() as int) =~= amounts);
        assert(change_amounts_derivations@ =~= change_entries(amounts, h));
        assert(parts@ =~= input_elements(coins@) + output_elements(change_amounts_derivations@));
    }
    Ok((parts, change_amounts_derivations))
}

/// A share of the change is not empty, and the shares and what is left over make up the
/// change.
pub proof fn lemma_share(change: int, count: int)
    requires
        0 < count <= change,
    ensures
        0 < change / count,
        0 <= change % count,
        change / count + change % count <= change,
        count * (change / count) + change % count == change,
{
    let share = change / count;
    let left = change % count;
    assert(0 < share && 0 <= left && count * share + left == change) by (nonlinear_arith)
        requires
            0 < count <= change,
            share == change / count,
            left == change % count,
    ;
    assert(share <= count * share) by (nonlinear_arith)
        requires
            0 < count,
            0 < share,
    ;
}

/// A payment of `amount` out of the outputs of an account is one that can be worked
/// out: the limit is not empty, the sums fit in 64 bits, and the change can be split.
pub open spec fn can_send(
    amount: u64,
    max_outputs: usize,
    change_outputs: usize,
    select_all: bool,
    s: Seq<OutputData>,
) -> bool {
    &&& max_outputs > 0 || s.len() == 0
    &&& funding_fits(
        amount as nat,
        max_outputs as int,
        change_outputs as nat,
        select_all,
        s,
    )
    &&& funding(
        amount as nat,
        max_outputs as int,
        change_outputs as nat,
        select_all,
        s,
    ) matches Funding::Funded { coins, fee } ==> can_split(
        change_of(coins, amount, fee),
        change_outputs as nat,
    )
}

/// What [`select_send_tx`] gives for `coins`, the given amounts of change and a fee, after
/// the exchanges `h`.
pub open spec fn select_outcome<K>(
    coins: Seq<OutputData>,
    amounts: Seq<u64>,
    fee: nat,
    h: Seq<Exchange<K>>,
    result: Result<
        (Vec<TxElement>, Vec<OutputData>, Vec<(u64, Identifier, Option<u64>)>, u64),
        Error,
    >,
) -> bool {
    match result {
        Ok((parts, inputs, change, paid)) => {
            &&& !refused(h)
            &&& inputs@ == coins
            &&& change@ == change_entries(amounts, h)
            &&& parts@ == input_elements(coins) + output_elements(change@)
            &&& paid == fee
        },
        Err(e) => refused_with(h, e),
    }
}

/// Builds a transaction to send to someone from the HD seed associated with the
/// wallet and the amount to send. Handles reading through the wallet data,
/// selecting outputs to spend and building the change.
///
/// Gives the parts of the transaction, the outputs that it spends, the change
/// outputs as [`inputs_and_change`] gives them, and the fee.
pub fn select_send_tx<T, K>(
    wallet: &mut T,
    keychain_mask: Option<&SecretKey>,
    amount: u64,
    current_height: u64,
    minimum_confirmations: u64,
    max_outputs: usize,
    change_outputs: usize,
    selection_strategy_is_use_all: bool,
    parent_key_id: &Identifier,
) -> (result: Result<
    (Vec<TxElement>, Vec<OutputData>, Vec<(u64, Identifier, Option<u64>)>, u64),
    Error,
>) where T: WalletBackend<K>, K: Keychain
    requires
        can_send(
            amount,
            max_outputs,
            change_outputs,
            selection_strategy_is_use_all,
            candidates(
                old(wallet).outputs(),
                *parent_key_id,
                current_height,
                minimum_confirmations,
            ),
        ),
    ensures
        match funding(
            amount as nat,
            max_outputs as int,
            change_outputs as nat,
            selection_strategy_is_use_all,
            candidates(
                old(wallet).outputs(),
                *parent_key_id,
                current_height,
                minimum_confirmations,
            ),
        ) {
            Funding::Short { available, needed } => {
                &&& *final(wallet) == *old(wallet)
                &&& result matches Err(e)
                &&& is_not_enough_funds(e, available, needed)
            },
            Funding::Funded { coins, fee } => {
                let amounts = change_amounts(change_of(coins, amount, fee), change_outputs as nat);
                let h = added(old(wallet).exchanges(), final(wallet).exchanges());
                &&& final(wallet).exchanges() == old(wallet).exchanges() + h
                &&& conversation(
                    |h: Seq<Exchange<K>>| change_request(mask_of(keychain_mask), amounts, h),
                    h,
                )
                &&& select_outcome(coins, amounts, fee, h, result)
                &&& change_of(coins, amount, fee) == 0 ==> *final(wallet) == *old(wallet)
                    && result is Ok
            },
        },
        final(wallet).outputs() == old(wallet).outputs(),
{
    let (coins, _total, amount, fee) = match select_coins_and_fee(
        wallet,
        amount,
        current_height,
        minimum_confirmations,
        max_outputs,
        change_outputs,
        selection_strategy_is_use_all,
        parent_key_id,
    ) {
        Ok(found) => found,
        Err(e) => {
            return Err(e);
        },
    };

    // build transaction skeleton with inputs and change
    match inputs_and_change(&coins, wallet, keychain_mask, amount, fee, change_outputs) {
        Ok((parts, change_amounts_derivations)) => Ok(
            (parts, coins, change_amounts_derivations, fee),
        ),
        Err(e) => Err(e),
    }
}

} // verus!
