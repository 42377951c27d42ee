//! What calls of `select_from`, `select_coins` and `select_coins_and_fee` give, and how
//! they relate.
use crate::amount::amount_text;
use crate::choice::{
    candidates, chosen, eligible, first_window, has_window, is_first_window,
    lemma_chosen_within, lemma_first_window, lemma_shortest, lemma_window_covers, shortest,
    window,
};
use crate::error::Error;
use crate::fee::{default_fee, tx_fee};
use crate::selection::{select_coins, select_coins_and_fee, select_from};
use crate::sort::{is_sorting, lemma_by_value, lemma_by_value_sorts, worth};
use crate::totals::{
    lemma_total_reverse, lemma_total_same, lemma_total_take_monotone, lemma_total_within, total,
};
use crate::types::{Identifier, OutputData};
use crate::wallet::{Keychain, WalletBackend};
use vstd::prelude::*;

verus! {

/// Outputs are picked if and only if all of them are worth the amount; then either all
/// are picked, or the first few that are worth it: without the last of these, they are
/// not.
pub proof fn law_picked(
    amount: u64,
    select_all: bool,
    outputs: Vec<OutputData>,
    selected: Option<Vec<OutputData>>,
)
    requires
        call_ensures(select_from, (amount, select_all, outputs), selected),
    ensures
        selected is Some <==> total(outputs@) >= amount,
        selected matches Some(coins) ==> {
            &&& total(coins@) >= amount
            &&& select_all ==> coins@ == outputs@
            &&& !select_all ==> coins@ == outputs@.take(coins@.len() as int)
            &&& !select_all && coins@.len() > 0 ==> total(coins@.drop_last()) < amount
        },
{
    if let Some(coins) = selected {
        if !select_all && coins@.len() > 0 {
            assert(coins@.drop_last() =~= outputs@.take(coins@.len() - 1));
        }
    }
}

/// The outputs of `s` that are worth `value`.
pub open spec fn of_value(s: Seq<OutputData>, value: u64) -> Seq<OutputData> {
    s.filter(|out: OutputData| out.value == value)
}

/// `s` holds the outputs of an account that can be spent, as often as `outputs` does, by
/// increasing value; and outputs of the same value in their order.
pub open spec fn in_order(
    s: Seq<OutputData>,
    outputs: Seq<OutputData>,
    account: Identifier,
    height: u64,
    confirmations: u64,
) -> bool {
    let spendable = outputs.filter(
        |out: OutputData| out.root_key_id == account && out.spendable(height, confirmations),
    );
    &&& forall|i: int, j: int|
        0 <= i <= j < s.len() ==> (#[trigger] s[i]).value <= (#[trigger] s[j]).value
    &&& forall|value: u64| #[trigger] of_value(s, value) == of_value(spendable, value)
}

/// Outputs in order are the candidates.
proof fn lemma_in_order(
    s: Seq<OutputData>,
    outputs: Seq<OutputData>,
    account: Identifier,
    height: u64,
    confirmations: u64,
)
    requires
        in_order(s, outputs, account, height, confirmations),
    ensures
        s == candidates(outputs, account, height, confirmations),
{
    let e = eligible(outputs, account, height, confirmations);
    let wanted = |out: OutputData|
        out.root_key_id == account && out.spendable(height, confirmations);
    assert forall|value: u64| #[trigger] worth(s, value) == worth(e, value) by {
        assert(of_value(s, value) == of_value(outputs.filter(wanted), value));
    }
    assert(is_sorting(s, e));
    lemma_by_value(s, e);
}

/// The number that comes with the chosen outputs counts every output of the wallet that
/// belongs to the account and can be spent, and no other; and each chosen one is such an
/// output, chosen no more often than the wallet holds it. The wallet stays as it is.
pub proof fn law_every_spendable_output_counts<T, K>(
    wallet: &mut T,
    amount: u64,
    height: u64,
    confirmations: u64,
    max_outputs: usize,
    select_all: bool,
    account: &Identifier,
    result: (usize, Vec<OutputData>),
) where T: WalletBackend<K>, K: Keychain
    requires
        call_ensures(
            select_coins::<T, K>,
            (wallet, amount, height, confirmations, max_outputs, select_all, account),
            result,
        ),
    ensures
        *final(wallet) == *old(wallet),
        ({
            let held = old(wallet).outputs().to_multiset();
            let wanted = |out: OutputData|
                out.root_key_id == *account && out.spendable(height, confirmations);
            &&& result.0 == held.filter(wanted).len()
            &&& result.1@.to_multiset().subset_of(held.filter(wanted))
        }),
{
    broadcast use vstd::multiset::group_multiset_axioms;
    broadcast use vstd::seq_lib::group_to_multiset_ensures;

    let outputs = old(wallet).outputs();
    let wanted = |out: OutputData|
        out.root_key_id == *account && out.spendable(height, confirmations);
    let e = eligible(outputs, *account, height, confirmations);
    let s = candidates(outputs, *account, height, confirmations);
    assert(e == outputs.filter(wanted));
    lemma_filter_multiset(outputs, wanted);
    lemma_by_value_sorts(e);
    lemma_chosen_within(amount as nat, max_outputs as int, select_all, s);
    assert(e.len() == e.to_multiset().len());
}

/// Filtering keeps every output that is wanted, as often as it occurs.
proof fn lemma_filter_multiset(s: Seq<OutputData>, wanted: spec_fn(OutputData) -> bool)
    ensures
        s.filter(wanted).to_multiset() == s.to_multiset().filter(wanted),
    decreases s.len(),
{
    broadcast use vstd::multiset::group_multiset_axioms;
    broadcast use vstd::seq_lib::group_to_multiset_ensures;

    reveal(Seq::filter);
    if s.len() > 0 {
        lemma_filter_multiset(s.drop_last(), wanted);
        assert(s =~= s.drop_last().push(s.last()));
    }
    assert(s.filter(wanted).to_multiset() =~= s.to_multiset().filter(wanted));
}

/// Where the limit allows all outputs and they are worth the amount, either all are
/// chosen, or the smallest ones that are worth it, and no more of them than needed.
pub proof fn law_chosen_within_the_limit<T, K>(
    wallet: &mut T,
    amount: u64,
    height: u64,
    confirmations: u64,
    max_outputs: usize,
    select_all: bool,
    account: &Identifier,
    result: (usize, Vec<OutputData>),
    s: Seq<OutputData>,
) where T: WalletBackend<K>, K: Keychain
    requires
        call_ensures(
            select_coins::<T, K>,
            (wallet, amount, height, confirmations, max_outputs, select_all, account),
            result,
        ),
        in_order(s, old(wallet).outputs(), *account, height, confirmations),
        s.len() <= max_outputs,
        total(s) >= amount,
    ensures
        ({
            let coins = result.1@;
            &&& result.0 == s.len()
            &&& select_all ==> coins == s
            &&& !select_all ==> coins == s.take(coins.len() as int) && total(coins) >= amount
            &&& !select_all && coins.len() > 0 ==> total(coins.drop_last()) < amount
        }),
{
    lemma_in_order(s, old(wallet).outputs(), *account, height, confirmations);
    lemma_by_value_sorts(eligible(old(wallet).outputs(), *account, height, confirmations));
    let coins = result.1@;
    lemma_shortest(amount as nat, s);
    if !select_all && coins.len() > 0 {
        assert(coins.drop_last() =~= s.take(coins.len() - 1));
    }
}

/// Where there are more outputs than the limit allows, and `k` is the first place in the
/// order of their values from which as many as it allows are worth the amount, these are
/// chosen: all of them, or the first of them that are worth it, and no more than needed.
pub proof fn law_chosen_from_the_first_run<T, K>(
    wallet: &mut T,
    amount: u64,
    height: u64,
    confirmations: u64,
    max_outputs: usize,
    select_all: bool,
    account: &Identifier,
    result: (usize, Vec<OutputData>),
    s: Seq<OutputData>,
    k: int,
) where T: WalletBackend<K>, K: Keychain
    requires
        call_ensures(
            select_coins::<T, K>,
            (wallet, amount, height, confirmations, max_outputs, select_all, account),
            result,
        ),
        in_order(s, old(wallet).outputs(), *account, height, confirmations),
        s.len() > max_outputs,
        0 <= k <= s.len() - max_outputs,
        total(s.subrange(k, k + max_outputs)) >= amount,
        forall|i: int|
            0 <= i < k ==> total(#[trigger] s.subrange(i, i + max_outputs)) < amount,
    ensures
        ({
            let coins = result.1@;
            &&& result.0 == s.len()
            &&& coins.len() <= max_outputs
            &&& select_all ==> coins == s.subrange(k, k + max_outputs)
            &&& !select_all ==> coins == s.subrange(k, k + coins.len()) && total(coins) >= amount
            &&& !select_all && coins.len() > 0 ==> total(coins.drop_last()) < amount
        }),
{
    lemma_in_order(s, old(wallet).outputs(), *account, height, confirmations);
    lemma_by_value_sorts(eligible(old(wallet).outputs(), *account, height, confirmations));
    let size = max_outputs as int;
    let coins = result.1@;
    let run = s.subrange(k, k + max_outputs);
    assert(is_first_window(amount as nat, size, s, k)) by {
        assert forall|i: int| 0 <= i < k implies total(
            #[trigger] window(s, size, i),
        ) < amount by {
            assert(total(s.subrange(i, i + max_outputs)) < amount);
        }
    }
    lemma_first_window(amount as nat, size, s, k);
    lemma_shortest(amount as nat, run);
    if !select_all {
        assert(coins == run.take(shortest(amount as nat, run)));
        assert(coins =~= s.subrange(k, k + coins.len()));
        if coins.len() > 0 {
            assert(coins.drop_last() =~= run.take(coins.len() - 1));
        }
    }
}

/// Where no run of as many outputs as the limit allows is worth the amount, but all of
/// them are, the limit is given up: the smallest ones that are worth it are chosen, and no
/// more of them than needed, even where all were to be used.
pub proof fn law_chosen_beyond_the_limit<T, K>(
    wallet: &mut T,
    amount: u64,
    height: u64,
    confirmations: u64,
    max_outputs: usize,
    select_all: bool,
    account: &Identifier,
    result: (usize, Vec<OutputData>),
    s: Seq<OutputData>,
) where T: WalletBackend<K>, K: Keychain
    requires
        call_ensures(
            select_coins::<T, K>,
            (wallet, amount, height, confirmations, max_outputs, select_all, account),
            result,
        ),
        in_order(s, old(wallet).outputs(), *account, height, confirmations),
        s.len() > max_outputs,
        total(s) >= amount,
        forall|i: int|
            0 <= i <= s.len() - max_outputs ==> total(
                #[trigger] s.subrange(i, i + max_outputs),
            ) < amount,
    ensures
        ({
            let coins = result.1@;
            &&& result.0 == s.len()
            &&& coins == s.take(coins.len() as int)
            &&& total(coins) >= amount
            &&& coins.len() > 0 ==> total(coins.drop_last()) < amount
        }),
{
    lemma_in_order(s, old(wallet).outputs(), *account, height, confirmations);
    lemma_by_value_sorts(eligible(old(wallet).outputs(), *account, height, confirmations));
    let size = max_outputs as int;
    let coins = result.1@;
    assert forall|k: int| !is_first_window(amount as nat, size, s, k) by {
        if 0 <= k <= s.len() - size {
            assert(total(s.subrange(k, k + max_outputs)) < amount);
        }
    }
    lemma_shortest(amount as nat, s);
    if coins.len() > 0 {
        assert(coins.drop_last() =~= s.take(coins.len() - 1));
    }
}

/// Where all outputs together are not worth the amount, the most valuable ones are given,
/// the largest first, as many as the limit allows.
pub proof fn law_most_valuable_where_short<T, K>(
    wallet: &mut T,
    amount: u64,
    height: u64,
    confirmations: u64,
    max_outputs: usize,
    select_all: bool,
    account: &Identifier,
    result: (usize, Vec<OutputData>),
    s: Seq<OutputData>,
) where T: WalletBackend<K>, K: Keychain
    requires
        call_ensures(
            select_coins::<T, K>,
            (wallet, amount, height, confirmations, max_outputs, select_all, account),
            result,
        ),
        in_order(s, old(wallet).outputs(), *account, height, confirmations),
        total(s) < amount,
    ensures
        ({
            let coins = result.1@;
            &&& result.0 == s.len()
            &&& coins.len() == if s.len() <= max_outputs {
                s.len()
            } else {
                max_outputs as nat
            }
            &&& forall|i: int|
                0 <= i < coins.len() ==> #[trigger] coins[i] == s[s.len() - 1 - i]
        }),
{
    lemma_in_order(s, old(wallet).outputs(), *account, height, confirmations);
    lemma_by_value_sorts(eligible(old(wallet).outputs(), *account, height, confirmations));
    if has_window(amount as nat, max_outputs as int, s) {
        lemma_window_covers(amount as nat, max_outputs as int, s);
    }
}

/// `result` says that `available` is less than the `needed` amount, in figures and in
/// words.
pub open spec fn lacks(
    result: Result<(Vec<OutputData>, u64, u64, u64), Error>,
    available: int,
    needed: int,
) -> bool {
    &&& result matches Err(e)
    &&& e matches Error::NotEnoughFunds {
        available: has,
        available_disp: has_text,
        needed: wants,
        needed_disp: wants_text,
    }
    &&& has == available
    &&& has_text@ == amount_text(has, false)
    &&& wants == needed
    &&& wants_text@ == amount_text(wants, false)
}

/// `result` tells of `coins`, what they are worth, the amount and a fee.
pub open spec fn pays(
    result: Result<(Vec<OutputData>, u64, u64, u64), Error>,
    coins: Seq<OutputData>,
    amount: u64,
    fee: u64,
) -> bool {
    &&& result matches Ok(found)
    &&& found.0@ == coins
    &&& found.1 == total(coins)
    &&& found.2 == amount
    &&& found.3 == fee
}

/// The outputs that are chosen for the amount alone come first. Where they are worth
/// nothing, or are all there are and do not cover the fee of a transaction without change
/// either, the payment is refused; where they come to just that, it is made with them.
pub proof fn law_paid_without_change<T, K>(
    wallet: &mut T,
    amount: u64,
    height: u64,
    confirmations: u64,
    max_outputs: usize,
    change_outputs: usize,
    select_all: bool,
    account: &Identifier,
    result: Result<(Vec<OutputData>, u64, u64, u64), Error>,
    first_wallet: &mut T,
    first: (usize, Vec<OutputData>),
    plain_fee: u64,
) where T: WalletBackend<K>, K: Keychain
    requires
        call_ensures(
            select_coins_and_fee::<T, K>,
            (
                wallet,
                amount,
                height,
                confirmations,
                max_outputs,
                change_outputs,
                select_all,
                account,
            ),
            result,
        ),
        call_ensures(
            select_coins::<T, K>,
            (first_wallet, amount, height, confirmations, max_outputs, select_all, account),
            first,
        ),
        old(first_wallet).outputs() == old(wallet).outputs(),
        call_ensures(tx_fee, (first.1.len(), 1, 1, None), plain_fee),
    ensures
        *final(wallet) == *old(wallet),
        ({
            let worth = total(first.1@);
            let needed = amount + plain_fee;
            &&& worth == 0 ==> lacks(result, 0, needed)
            &&& worth < needed && first.1@.len() == first.0 ==> lacks(result, worth as int, needed)
            &&& worth > 0 && worth == needed ==> pays(result, first.1@, amount, plain_fee)
        }),
{
}

/// Otherwise the fee is that of a transaction with change: where the first choice covers
/// it, the payment is made with that choice; where it does not and there are no other
/// outputs, the payment is refused.
pub proof fn law_paid_with_change<T, K>(
    wallet: &mut T,
    amount: u64,
    height: u64,
    confirmations: u64,
    max_outputs: usize,
    change_outputs: usize,
    select_all: bool,
    account: &Identifier,
    result: Result<(Vec<OutputData>, u64, u64, u64), Error>,
    first_wallet: &mut T,
    first: (usize, Vec<OutputData>),
    plain_fee: u64,
    change_fee: u64,
) where T: WalletBackend<K>, K: Keychain
    requires
        call_ensures(
            select_coins_and_fee::<T, K>,
            (
                wallet,
                amount,
                height,
                confirmations,
                max_outputs,
                change_outputs,
                select_all,
                account,
            ),
            result,
        ),
        call_ensures(
            select_coins::<T, K>,
            (first_wallet, amount, height, confirmations, max_outputs, select_all, account),
            first,
        ),
        old(first_wallet).outputs() == old(wallet).outputs(),
        call_ensures(tx_fee, (first.1.len(), 1, 1, None), plain_fee),
        change_outputs < usize::MAX,
        call_ensures(tx_fee, (first.1.len(), (change_outputs + 1) as usize, 1, None), change_fee),
        total(first.1@) > 0,
        total(first.1@) != amount + plain_fee,
        total(first.1@) > amount + plain_fee || first.1@.len() != first.0,
    ensures
        ({
            let worth = total(first.1@);
            let needed = amount + change_fee;
            &&& worth >= needed ==> pays(result, first.1@, amount, change_fee)
            &&& worth < needed && first.1@.len() == first.0 ==> lacks(result, worth as int, needed)
        }),
{
}

/// Where the first choice does not cover the fee of a transaction with change and there
/// are other outputs, they are chosen once more, for the amount and that fee, in the same
/// way, and with all of them allowed. That choice settles it.
pub proof fn law_paid_by_choosing_again<T, K>(
    wallet: &mut T,
    amount: u64,
    height: u64,
    confirmations: u64,
    max_outputs: usize,
    change_outputs: usize,
    select_all: bool,
    account: &Identifier,
    result: Result<(Vec<OutputData>, u64, u64, u64), Error>,
    first_wallet: &mut T,
    first: (usize, Vec<OutputData>),
    plain_fee: u64,
    change_fee: u64,
    again_wallet: &mut T,
    again: (usize, Vec<OutputData>),
    again_fee: u64,
) where T: WalletBackend<K>, K: Keychain
    requires
        call_ensures(
            select_coins_and_fee::<T, K>,
            (
                wallet,
                amount,
                height,
                confirmations,
                max_outputs,
                change_outputs,
                select_all,
                account,
            ),
            result,
        ),
        call_ensures(
            select_coins::<T, K>,
            (first_wallet, amount, height, confirmations, max_outputs, select_all, account),
            first,
        ),
        old(first_wallet).outputs() == old(wallet).outputs(),
        call_ensures(tx_fee, (first.1.len(), 1, 1, None), plain_fee),
        change_outputs < usize::MAX,
        call_ensures(tx_fee, (first.1.len(), (change_outputs + 1) as usize, 1, None), change_fee),
        total(first.1@) > 0,
        total(first.1@) != amount + plain_fee,
        total(first.1@) < amount + change_fee <= u64::MAX,
        first.1@.len() != first.0,
        call_ensures(
            select_coins::<T, K>,
            (
                again_wallet,
                (amount + change_fee) as u64,
                height,
                confirmations,
                first.0,
                select_all,
                account,
            ),
            again,
        ),
        old(again_wallet).outputs() == old(wallet).outputs(),
        call_ensures(tx_fee, (again.1.len(), (change_outputs + 1) as usize, 1, None), again_fee),
    ensures
        ({
            let worth = total(again.1@);
            let needed = amount + again_fee;
            &&& worth >= needed ==> pays(result, again.1@, amount, again_fee)
            &&& worth < needed ==> lacks(result, worth as int, needed)
        }),
{
    lemma_by_value_sorts(eligible(old(wallet).outputs(), *account, height, confirmations));
}

/// Where only as many outputs as needed are to be used, that is so of the whole payment:
/// without the last output that it spends, it would not cover the amount and the fee of a
/// transaction with change. And where the limit allows all outputs, or the first choice
/// did not do, the smallest ones are spent; it takes all of them, the largest first, where
/// they cover the fee only because spending them all makes it less.
pub proof fn law_pays_with_only_what_is_needed<T, K>(
    wallet: &mut T,
    amount: u64,
    height: u64,
    confirmations: u64,
    max_outputs: usize,
    change_outputs: usize,
    select_all: bool,
    account: &Identifier,
    result: Result<(Vec<OutputData>, u64, u64, u64), Error>,
    first_wallet: &mut T,
    first: (usize, Vec<OutputData>),
    change_fee: u64,
    s: Seq<OutputData>,
) where T: WalletBackend<K>, K: Keychain
    requires
        call_ensures(
            select_coins_and_fee::<T, K>,
            (
                wallet,
                amount,
                height,
                confirmations,
                max_outputs,
                change_outputs,
                select_all,
                account,
            ),
            result,
        ),
        call_ensures(
            select_coins::<T, K>,
            (first_wallet, amount, height, confirmations, max_outputs, select_all, account),
            first,
        ),
        old(first_wallet).outputs() == old(wallet).outputs(),
        change_outputs < usize::MAX,
        call_ensures(tx_fee, (first.1.len(), (change_outputs + 1) as usize, 1, None), change_fee),
        in_order(s, old(wallet).outputs(), *account, height, confirmations),
        !select_all,
        result is Ok,
    ensures
        result matches Ok(found) && {
            let coins = found.0@;
            &&& coins.len() > 0
            &&& total(coins.drop_last()) < amount + change_fee
            &&& coins == first.1@ ==> total(coins.drop_last()) < amount || amount == 0
            &&& s.len() <= max_outputs || coins != first.1@ ==> {
                ||| coins == s.take(coins.len() as int)
                ||| coins == s.reverse() && total(s) < amount + change_fee
            }
        },
{
    lemma_in_order(s, old(wallet).outputs(), *account, height, confirmations);
    let e = eligible(old(wallet).outputs(), *account, height, confirmations);
    lemma_by_value_sorts(e);
    lemma_total_same(s, e);
    lemma_minimal(amount as nat, max_outputs as int, s);
    lemma_minimal(amount as nat + change_fee as nat, s.len() as int, s);
    lemma_total_reverse(s);
    if s.len() > 0 {
        assert(s.reverse().drop_last() =~= s.reverse().take(s.len() - 1));
        lemma_total_take_monotone(s.reverse(), s.len() - 1, s.len() as int);
        assert(s.reverse().take(s.len() as int) =~= s.reverse());
    }
    if total(s) >= amount + change_fee {
        lemma_shortest(amount as nat + change_fee as nat, s);
    }
}

/// What is chosen without need is left out.
proof fn lemma_minimal(amount: nat, max_outputs: int, s: Seq<OutputData>)
    requires
        0 <= max_outputs,
    ensures
        ({
            let coins = chosen(amount, max_outputs, false, s);
            &&& total(coins) >= amount && coins.len() > 0 ==> total(coins.drop_last()) < amount
            &&& total(coins) >= amount && s.len() <= max_outputs ==> coins == s.take(
                coins.len() as int,
            )
        }),
{
    let coins = chosen(amount, max_outputs, false, s);
    lemma_chosen_within(amount, max_outputs, false, s);
    lemma_total_within(coins, s);
    if total(coins) >= amount {
        let from = if s.len() > max_outputs && has_window(amount, max_outputs, s) {
            first_window(amount, max_outputs, s)
        } else {
            s
        };
        lemma_shortest(amount, from);
        assert(coins == from.take(shortest(amount, from)));
        if coins.len() > 0 {
            assert(coins.drop_last() =~= from.take(coins.len() - 1));
        }
    }
}

/// Where all outputs are to be used and the limit allows all of them, or the first choice
/// did not do, all of them are spent.
pub proof fn law_pays_with_all<T, K>(
    wallet: &mut T,
    amount: u64,
    height: u64,
    confirmations: u64,
    max_outputs: usize,
    change_outputs: usize,
    select_all: bool,
    account: &Identifier,
    result: Result<(Vec<OutputData>, u64, u64, u64), Error>,
    first_wallet: &mut T,
    first: (usize, Vec<OutputData>),
    s: Seq<OutputData>,
) where T: WalletBackend<K>, K: Keychain
    requires
        call_ensures(
            select_coins_and_fee::<T, K>,
            (
                wallet,
                amount,
                height,
                confirmations,
                max_outputs,
                change_outputs,
                select_all,
                account,
            ),
            result,
        ),
        call_ensures(
            select_coins::<T, K>,
            (first_wallet, amount, height, confirmations, max_outputs, select_all, account),
            first,
        ),
        old(first_wallet).outputs() == old(wallet).outputs(),
        in_order(s, old(wallet).outputs(), *account, height, confirmations),
        select_all,
        result is Ok,
    ensures
        result matches Ok(found) && (s.len() <= max_outputs || found.0@ != first.1@ ==> found.0@
            == s || found.0@ == s.reverse()),
{
    lemma_in_order(s, old(wallet).outputs(), *account, height, confirmations);
    let e = eligible(old(wallet).outputs(), *account, height, confirmations);
    lemma_by_value_sorts(e);
    lemma_total_same(s, e);
    assert forall|wanted: nat, limit: int| limit >= s.len() && total(s) >= wanted implies #[trigger]
        chosen(wanted, limit, true, s) == s by {}
    lemma_total_within_choice(amount as nat, max_outputs as int, s);
    let change_fee = default_fee(first.1@.len(), change_outputs as nat + 1, 1);
    lemma_total_within_choice(amount as nat + change_fee, s.len() as int, s);
}

/// What is chosen is worth no more than all there is.
proof fn lemma_total_within_choice(amount: nat, max_outputs: int, s: Seq<OutputData>)
    requires
        0 <= max_outputs,
    ensures
        total(chosen(amount, max_outputs, true, s)) <= total(s),
{
    lemma_chosen_within(amount, max_outputs, true, s);
    lemma_total_within(chosen(amount, max_outputs, true, s), s);
}

} // verus!
