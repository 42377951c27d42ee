//! What holds of the selection of outputs.
use crate::choice::{
    candidates, chosen, eligible, first_window, has_window, lemma_chosen_covers,
    lemma_chosen_within, lemma_last_largest, lemma_limit_suffices, lemma_shortest,
    lemma_window_covers, lemma_within_eligible, shortest,
};
use crate::sort::lemma_by_value_sorts;
use crate::totals::{lemma_total_reverse, lemma_total_same, lemma_total_within, total};
use crate::types::{Identifier, OutputData, OutputStatus};
use vstd::prelude::*;

verus! {

/// Only outputs of the account that can be spent are chosen, each at most as often as
/// the wallet holds it.
pub proof fn law_only_eligible_coins(
    outputs: Seq<OutputData>,
    parent_key_id: Identifier,
    current_height: u64,
    minimum_confirmations: u64,
    amount: u64,
    max_outputs: usize,
    select_all: bool,
)
    ensures
        ({
            let s = candidates(outputs, parent_key_id, current_height, minimum_confirmations);
            let coins = chosen(amount as nat, max_outputs as int, select_all, s);
            &&& coins.to_multiset().subset_of(outputs.to_multiset())
            &&& forall|i: int|
                0 <= i < coins.len() ==> {
                    &&& (#[trigger] coins[i]).root_key_id == parent_key_id
                    &&& coins[i].spendable(current_height, minimum_confirmations)
                    &&& coins[i].status != OutputStatus::Locked
                    &&& coins[i].status != OutputStatus::Spent
                }
        }),
{
    let e = eligible(outputs, parent_key_id, current_height, minimum_confirmations);
    let s = candidates(outputs, parent_key_id, current_height, minimum_confirmations);
    lemma_by_value_sorts(e);
    lemma_chosen_within(amount as nat, max_outputs as int, select_all, s);
    lemma_within_eligible(
        outputs,
        parent_key_id,
        current_height,
        minimum_confirmations,
        chosen(amount as nat, max_outputs as int, select_all, s),
    );
}

/// What is chosen covers the amount exactly where all that can be spent does.
pub proof fn law_selection_covers(
    outputs: Seq<OutputData>,
    parent_key_id: Identifier,
    current_height: u64,
    minimum_confirmations: u64,
    amount: u64,
    max_outputs: usize,
    select_all: bool,
)
    ensures
        ({
            let s = candidates(outputs, parent_key_id, current_height, minimum_confirmations);
            let e = eligible(outputs, parent_key_id, current_height, minimum_confirmations);
            total(chosen(amount as nat, max_outputs as int, select_all, s)) >= amount <==> total(e)
                >= amount
        }),
{
    let e = eligible(outputs, parent_key_id, current_height, minimum_confirmations);
    let s = candidates(outputs, parent_key_id, current_height, minimum_confirmations);
    lemma_by_value_sorts(e);
    lemma_total_same(s, e);
    if total(s) >= amount {
        lemma_chosen_covers(amount as nat, max_outputs as int, select_all, s);
    } else {
        lemma_chosen_within(amount as nat, max_outputs as int, select_all, s);
        lemma_total_within(chosen(amount as nat, max_outputs as int, select_all, s), s);
    }
}

/// The limit on the number of outputs is a soft one, given up only where it must be:
/// where any `within`, no more than `max_outputs` of the outputs that can be spent,
/// cover the amount, no more than `max_outputs` are chosen.
pub proof fn law_soft_limit(
    outputs: Seq<OutputData>,
    parent_key_id: Identifier,
    current_height: u64,
    minimum_confirmations: u64,
    amount: u64,
    max_outputs: usize,
    select_all: bool,
    within: Seq<OutputData>,
)
    requires
        ({
            let e = eligible(outputs, parent_key_id, current_height, minimum_confirmations);
            &&& within.to_multiset().subset_of(e.to_multiset())
            &&& within.len() <= max_outputs
            &&& total(within) >= amount
        }),
    ensures
        ({
            let s = candidates(outputs, parent_key_id, current_height, minimum_confirmations);
            chosen(amount as nat, max_outputs as int, select_all, s).len() <= max_outputs
        }),
{
    let e = eligible(outputs, parent_key_id, current_height, minimum_confirmations);
    let s = candidates(outputs, parent_key_id, current_height, minimum_confirmations);
    lemma_by_value_sorts(e);
    if s.len() > max_outputs {
        lemma_limit_suffices(s, within, amount as nat, max_outputs as int);
        let run = first_window(amount as nat, max_outputs as int, s);
        lemma_shortest(amount as nat, run);
    } else {
        lemma_chosen_within(amount as nat, max_outputs as int, select_all, s);
        lemma_total_within(chosen(amount as nat, max_outputs as int, select_all, s), s);
    }
}

/// Where all outputs are to be used, as many are chosen as the limit allows, as long as
/// any `within` the limit cover the amount.
pub proof fn law_uses_all_up_to_the_limit(
    outputs: Seq<OutputData>,
    parent_key_id: Identifier,
    current_height: u64,
    minimum_confirmations: u64,
    amount: u64,
    max_outputs: usize,
    within: Seq<OutputData>,
)
    requires
        ({
            let e = eligible(outputs, parent_key_id, current_height, minimum_confirmations);
            &&& within.to_multiset().subset_of(e.to_multiset())
            &&& within.len() <= max_outputs
            &&& total(within) >= amount
        }),
    ensures
        ({
            let e = eligible(outputs, parent_key_id, current_height, minimum_confirmations);
            let s = candidates(outputs, parent_key_id, current_height, minimum_confirmations);
            chosen(amount as nat, max_outputs as int, true, s).len() == if e.len() <= max_outputs {
                e.len()
            } else {
                max_outputs as nat
            }
        }),
{
    let e = eligible(outputs, parent_key_id, current_height, minimum_confirmations);
    let s = candidates(outputs, parent_key_id, current_height, minimum_confirmations);
    lemma_by_value_sorts(e);
    if s.len() > max_outputs {
        lemma_limit_suffices(s, within, amount as nat, max_outputs as int);
    } else {
        lemma_total_within(within, s);
    }
}

/// Where only as many outputs as needed are to be used, one less would not do; and
/// where the limit allows all of them, the smallest are used first.
pub proof fn law_uses_only_what_is_needed(
    outputs: Seq<OutputData>,
    parent_key_id: Identifier,
    current_height: u64,
    minimum_confirmations: u64,
    amount: u64,
    max_outputs: usize,
)
    requires
        total(eligible(outputs, parent_key_id, current_height, minimum_confirmations)) >= amount,
    ensures
        ({
            let s = candidates(outputs, parent_key_id, current_height, minimum_confirmations);
            let coins = chosen(amount as nat, max_outputs as int, false, s);
            &&& coins.len() > 0 ==> total(coins.drop_last()) < amount
            &&& s.len() <= max_outputs ==> coins == s.take(coins.len() as int)
        }),
{
    let e = eligible(outputs, parent_key_id, current_height, minimum_confirmations);
    let s = candidates(outputs, parent_key_id, current_height, minimum_confirmations);
    let coins = chosen(amount as nat, max_outputs as int, false, s);
    lemma_by_value_sorts(e);
    lemma_total_same(s, e);
    let from = if s.len() > max_outputs && has_window(amount as nat, max_outputs as int, s) {
        first_window(amount as nat, max_outputs as int, s)
    } else {
        s
    };
    lemma_shortest(amount as nat, from);
    assert(coins == from.take(shortest(amount as nat, from)));
    if coins.len() > 0 {
        assert(coins.drop_last() =~= from.take(coins.len() - 1));
    }
}

/// Where the outputs do not cover the amount, those that are chosen show how much could
/// be paid: no other choice within the limit is worth more.
pub proof fn law_shows_what_is_possible(
    outputs: Seq<OutputData>,
    parent_key_id: Identifier,
    current_height: u64,
    minimum_confirmations: u64,
    amount: u64,
    max_outputs: usize,
    select_all: bool,
    other: Seq<OutputData>,
)
    requires
        ({
            let e = eligible(outputs, parent_key_id, current_height, minimum_confirmations);
            &&& total(e) < amount
            &&& other.to_multiset().subset_of(e.to_multiset())
            &&& other.len() <= max_outputs
        }),
    ensures
        ({
            let s = candidates(outputs, parent_key_id, current_height, minimum_confirmations);
            let coins = chosen(amount as nat, max_outputs as int, select_all, s);
            &&& coins.len() <= max_outputs
            &&& total(other) <= total(coins)
        }),
{
    let e = eligible(outputs, parent_key_id, current_height, minimum_confirmations);
    let s = candidates(outputs, parent_key_id, current_height, minimum_confirmations);
    lemma_by_value_sorts(e);
    lemma_total_same(s, e);
    if s.len() > max_outputs {
        if has_window(amount as nat, max_outputs as int, s) {
            lemma_window_covers(amount as nat, max_outputs as int, s);
        }
        let top = s.skip(s.len() - max_outputs);
        lemma_last_largest(s, other, max_outputs as int);
        assert(s.reverse().take(max_outputs as int) =~= top.reverse());
        lemma_total_reverse(top);
    } else {
        lemma_total_reverse(s);
        lemma_total_within(other, s);
    }
}

} // verus!
