//! Which outputs are chosen to cover an amount.
use crate::fee::default_fee;
use crate::sort::{by_value, increasing};
use crate::totals::{
    lemma_filter_within, lemma_reverse_same, lemma_run_within, lemma_total_add, lemma_total_push, lemma_total_remove,
    lemma_total_reverse, lemma_total_take, lemma_total_take_monotone, lemma_total_within, total,
};
use crate::types::{Identifier, OutputData};
use vstd::prelude::*;

verus! {

/// The outputs of an account that can be spent, in the order of the wallet.
pub open spec fn eligible(
    outputs: Seq<OutputData>,
    parent_key_id: Identifier,
    current_height: u64,
    minimum_confirmations: u64,
) -> Seq<OutputData> {
    outputs.filter(
        |out: OutputData|
            out.root_key_id == parent_key_id && out.spendable(current_height, minimum_confirmations),
    )
}

/// The first `len` outputs of `s` cover `amount`, and fewer do not.
pub open spec fn is_shortest(amount: nat, s: Seq<OutputData>, len: int) -> bool {
    &&& 0 <= len <= s.len()
    &&& total(s.take(len)) >= amount
    &&& forall|k: int| 0 <= k < len ==> total(#[trigger] s.take(k)) < amount
}

/// How many outputs, from the first one on, it takes to cover `amount`.
pub open spec fn shortest(amount: nat, s: Seq<OutputData>) -> int {
    choose|len: int| is_shortest(amount, s, len)
}

/// What is chosen out of `s`: all of it, or the first few that are enough; nothing
/// where all of it is not enough.
pub open spec fn pick(amount: nat, select_all: bool, s: Seq<OutputData>) -> Option<
    Seq<OutputData>,
> {
    if total(s) < amount {
        None
    } else if select_all {
        Some(s)
    } else {
        Some(s.take(shortest(amount, s)))
    }
}

/// The run of `size` outputs that starts at `start`.
pub open spec fn window(s: Seq<OutputData>, size: int, start: int) -> Seq<OutputData> {
    s.subrange(start, start + size)
}

/// The run that starts at `start` covers `amount`, and none before it does.
pub open spec fn is_first_window(
    amount: nat,
    size: int,
    s: Seq<OutputData>,
    start: int,
) -> bool {
    &&& 0 <= start <= s.len() - size
    &&& total(window(s, size, start)) >= amount
    &&& forall|k: int| 0 <= k < start ==> total(#[trigger] window(s, size, k)) < amount
}

/// Some run of `size` outputs covers `amount`.
pub open spec fn has_window(amount: nat, size: int, s: Seq<OutputData>) -> bool {
    exists|start: int| is_first_window(amount, size, s, start)
}

/// The first run of `size` outputs that covers `amount`.
pub open spec fn first_window(amount: nat, size: int, s: Seq<OutputData>) -> Seq<OutputData> {
    window(s, size, choose|start: int| is_first_window(amount, size, s, start))
}

/// What is chosen out of `s`, whose values increase.
///
/// Where `s` holds more than `max_outputs`, the first run of that many that covers
/// the amount is chosen from; the limit is given up only where no run does. Where
/// all of `s` is not enough, the most valuable outputs are chosen, the largest
/// first.
pub open spec fn chosen(
    amount: nat,
    max_outputs: int,
    select_all: bool,
    s: Seq<OutputData>,
) -> Seq<OutputData> {
    if s.len() > max_outputs && has_window(amount, max_outputs, s) {
        pick(amount, select_all, first_window(amount, max_outputs, s)).unwrap()
    } else if total(s) >= amount {
        pick(amount, select_all && s.len() <= max_outputs, s).unwrap()
    } else if s.len() > max_outputs {
        s.reverse().take(max_outputs)
    } else {
        s.reverse()
    }
}

/// The sums by which outputs are chosen fit in 64 bits.
pub open spec fn sums_fit(amount: nat, max_outputs: int, s: Seq<OutputData>) -> bool {
    if s.len() > max_outputs && has_window(amount, max_outputs, s) {
        total(first_window(amount, max_outputs, s)) <= u64::MAX
    } else {
        total(s) <= u64::MAX
    }
}

/// The outputs of an account that can be spent, by increasing value.
pub open spec fn candidates(
    outputs: Seq<OutputData>,
    parent_key_id: Identifier,
    current_height: u64,
    minimum_confirmations: u64,
) -> Seq<OutputData> {
    by_value(eligible(outputs, parent_key_id, current_height, minimum_confirmations))
}

/// What comes of the search for outputs that cover an amount and the fee.
pub enum Funding {
    /// These outputs are spent, and this is the fee.
    Funded { coins: Seq<OutputData>, fee: nat },
    /// The outputs are not enough.
    Short { available: nat, needed: nat },
}

/// Pays `amount` out of `s`, whose values increase.
///
/// The outputs that cover the amount alone are tried first, without a change
/// output. Unless they come to exactly the amount and the fee, the fee is that of a
/// transaction with change; where they do not cover that, outputs are chosen once
/// more, out of all of them, to cover the amount and that fee.
pub open spec fn funding(
    amount: nat,
    max_outputs: int,
    change_outputs: nat,
    select_all: bool,
    s: Seq<OutputData>,
) -> Funding {
    let coins = chosen(amount, max_outputs, select_all, s);
    let needed = amount + default_fee(coins.len(), 1, 1);
    if total(coins) == 0 || (total(coins) < needed && coins.len() == s.len()) {
        Funding::Short { available: total(coins), needed }
    } else if total(coins) == needed {
        Funding::Funded { coins, fee: default_fee(coins.len(), 1, 1) }
    } else {
        funding_with_change(amount, change_outputs, select_all, s, coins)
    }
}

/// Pays `amount` with `coins`, or with other outputs where these do not cover the
/// fee of a transaction with change.
pub open spec fn funding_with_change(
    amount: nat,
    change_outputs: nat,
    select_all: bool,
    s: Seq<OutputData>,
    coins: Seq<OutputData>,
) -> Funding {
    let fee = default_fee(coins.len(), change_outputs + 1, 1);
    let more = chosen(amount + fee, s.len() as int, select_all, s);
    let more_fee = default_fee(more.len(), change_outputs + 1, 1);
    if total(coins) >= amount + fee {
        Funding::Funded { coins, fee }
    } else if coins.len() == s.len() {
        Funding::Short { available: total(coins), needed: amount + fee }
    } else if total(more) >= amount + more_fee {
        Funding::Funded { coins: more, fee: more_fee }
    } else {
        Funding::Short { available: total(more), needed: amount + more_fee }
    }
}

/// The sums that [`funding`] speaks of fit in 64 bits.
pub open spec fn funding_fits(
    amount: nat,
    max_outputs: int,
    change_outputs: nat,
    select_all: bool,
    s: Seq<OutputData>,
) -> bool {
    let coins = chosen(amount, max_outputs, select_all, s);
    let needed = amount + default_fee(coins.len(), 1, 1);
    let fee = default_fee(coins.len(), change_outputs + 1, 1);
    &&& sums_fit(amount, max_outputs, s)
    &&& needed <= u64::MAX
    &&& total(coins) > 0 && !(total(coins) < needed && coins.len() == s.len()) ==> {
        &&& change_outputs < usize::MAX
        &&& total(coins) != needed ==> amount + fee <= u64::MAX
        &&& total(coins) != needed && total(coins) < amount + fee && coins.len() != s.len()
            ==> total(s) <= u64::MAX
    }
}

/// A part is worth no more than the whole.
pub proof fn lemma_total_window(s: Seq<OutputData>, size: int, start: int)
    requires
        0 <= size,
        0 <= start <= s.len() - size,
    ensures
        total(window(s, size, start)) <= total(s),
{
    let before = s.take(start);
    let after = s.skip(start + size);
    let run = window(s, size, start);
    assert(s =~= before + run + after);
    lemma_total_add(before + run, after);
    lemma_total_add(before, run);
}

/// Where all of `s` covers the amount, some shortest part does, and only one.
pub proof fn lemma_shortest(amount: nat, s: Seq<OutputData>)
    requires
        total(s) >= amount,
    ensures
        is_shortest(amount, s, shortest(amount, s)),
        forall|len: int| is_shortest(amount, s, len) ==> len == shortest(amount, s),
{
    assert(s.take(s.len() as int) =~= s);
    lemma_shortest_exists(amount, s, s.len() as int);
    let found = shortest(amount, s);
    assert(is_shortest(amount, s, found));
    assert forall|len: int| is_shortest(amount, s, len) implies len == found by {
        if len < found {
            assert(total(s.take(len)) < amount);
        } else if found < len {
            assert(total(s.take(found)) < amount);
        }
    }
}

proof fn lemma_shortest_exists(amount: nat, s: Seq<OutputData>, len: int)
    requires
        0 <= len <= s.len(),
        total(s.take(len)) >= amount,
    ensures
        exists|k: int| is_shortest(amount, s, k),
    decreases len,
{
    if exists|k: int| 0 <= k < len && total(#[trigger] s.take(k)) >= amount {
        let k = choose|k: int| 0 <= k < len && total(#[trigger] s.take(k)) >= amount;
        lemma_shortest_exists(amount, s, k);
    } else {
        assert(is_shortest(amount, s, len));
    }
}

/// The first run that covers the amount is one.
pub proof fn lemma_first_window(amount: nat, size: int, s: Seq<OutputData>, start: int)
    requires
        is_first_window(amount, size, s, start),
    ensures
        has_window(amount, size, s),
        first_window(amount, size, s) == window(s, size, start),
{
    let found = choose|k: int| is_first_window(amount, size, s, k);
    assert(is_first_window(amount, size, s, found));
    if found < start {
        assert(total(window(s, size, found)) < amount);
    } else if start < found {
        assert(total(window(s, size, start)) < amount);
    }
}

/// Where a run covers the amount, all outputs together do.
pub proof fn lemma_window_covers(amount: nat, size: int, s: Seq<OutputData>)
    requires
        0 <= size,
        has_window(amount, size, s),
    ensures
        total(s) >= amount,
{
    let start = choose|k: int| is_first_window(amount, size, s, k);
    lemma_total_window(s, size, start);
}

/// What is chosen is worth no more than what it is chosen from.
pub proof fn lemma_chosen_bound(amount: nat, max_outputs: int, select_all: bool, s: Seq<OutputData>)
    requires
        0 <= max_outputs,
        sums_fit(amount, max_outputs, s),
    ensures
        total(chosen(amount, max_outputs, select_all, s)) <= u64::MAX,
{
    if s.len() > max_outputs && has_window(amount, max_outputs, s) {
        lemma_pick_bound(amount, select_all, first_window(amount, max_outputs, s));
    } else if total(s) >= amount {
        lemma_pick_bound(amount, select_all && s.len() <= max_outputs, s);
    } else {
        lemma_total_reverse(s);
        let r = s.reverse();
        if s.len() > max_outputs {
            lemma_total_take_monotone(r, max_outputs, r.len() as int);
            assert(r.take(r.len() as int) =~= r);
        }
    }
}

proof fn lemma_pick_bound(amount: nat, select_all: bool, s: Seq<OutputData>)
    requires
        total(s) >= amount,
    ensures
        total(pick(amount, select_all, s).unwrap()) <= total(s),
{
    if !select_all {
        lemma_shortest(amount, s);
        lemma_total_take_monotone(s, shortest(amount, s), s.len() as int);
        assert(s.take(s.len() as int) =~= s);
    }
}

/// Where values increase, the first outputs are worth no more than a later run of
/// as many.
pub proof fn lemma_prefix_smallest(s: Seq<OutputData>, size: int, start: int)
    requires
        increasing(s),
        0 <= size,
        0 <= start <= s.len() - size,
    ensures
        total(s.take(size)) <= total(window(s, size, start)),
    decreases size,
{
    if size > 0 {
        lemma_prefix_smallest(s, size - 1, start);
        lemma_total_take(s, size - 1);
        let run = window(s, size - 1, start);
        assert(window(s, size, start) =~= run.push(s[start + size - 1]));
        lemma_total_push(run, s[start + size - 1]);
    } else {
        assert(s.take(0) =~= window(s, 0, start));
    }
}

/// Where all of `s` covers the amount, what is chosen covers it, and as many of the
/// smallest outputs are worth no more.
pub proof fn lemma_chosen_covers(
    amount: nat,
    max_outputs: int,
    select_all: bool,
    s: Seq<OutputData>,
)
    requires
        increasing(s),
        0 <= max_outputs,
        total(s) >= amount,
    ensures
        ({
            let coins = chosen(amount, max_outputs, select_all, s);
            &&& total(coins) >= amount
            &&& coins.len() <= s.len()
            &&& total(s.take(coins.len() as int)) <= total(coins)
        }),
{
    if s.len() > max_outputs && has_window(amount, max_outputs, s) {
        let start = choose|k: int| is_first_window(amount, max_outputs, s, k);
        let run = window(s, max_outputs, start);
        if select_all {
            lemma_prefix_smallest(s, max_outputs, start);
        } else {
            lemma_shortest(amount, run);
            let len = shortest(amount, run);
            assert(run.take(len) =~= window(s, len, start));
            lemma_prefix_smallest(s, len, start);
        }
    } else {
        assert(s.take(s.len() as int) =~= s);
        lemma_shortest(amount, s);
    }
}

/// Choosing once more settles it: either the new outputs cover the amount and their
/// fee, or there are no others.
pub proof fn lemma_second_choice(
    amount: nat,
    max_outputs: int,
    change_outputs: nat,
    select_all: bool,
    s: Seq<OutputData>,
)
    requires
        increasing(s),
        0 <= max_outputs,
    ensures
        ({
            let coins = chosen(amount, max_outputs, select_all, s);
            let fee = default_fee(coins.len(), change_outputs + 1, 1);
            let more = chosen(amount + fee, s.len() as int, select_all, s);
            let more_fee = default_fee(more.len(), change_outputs + 1, 1);
            total(coins) < amount + fee ==> {
                &&& more_fee <= fee
                &&& total(more) >= amount + more_fee || more.len() == s.len()
            }
        }),
{
    let coins = chosen(amount, max_outputs, select_all, s);
    let fee = default_fee(coins.len(), change_outputs + 1, 1);
    let more = chosen(amount + fee, s.len() as int, select_all, s);
    if total(s) >= amount {
        lemma_chosen_covers(amount, max_outputs, select_all, s);
    } else if has_window(amount, max_outputs, s) {
        lemma_window_covers(amount, max_outputs, s);
    }
    if total(coins) < amount + fee && total(s) >= amount + fee {
        lemma_shortest(amount + fee, s);
        if !select_all && more.len() < coins.len() {
            lemma_total_take_monotone(s, more.len() as int, coins.len() as int);
            assert(s.take(more.len() as int) =~= more);
        }
    }
}

/// What is chosen is among what it is chosen from.
pub proof fn lemma_chosen_within(amount: nat, max_outputs: int, select_all: bool, s: Seq<OutputData>)
    requires
        0 <= max_outputs,
    ensures
        chosen(amount, max_outputs, select_all, s).to_multiset().subset_of(s.to_multiset()),
{
    if s.len() > max_outputs && has_window(amount, max_outputs, s) {
        let start = choose|k: int| is_first_window(amount, max_outputs, s, k);
        let run = window(s, max_outputs, start);
        lemma_run_within(s, start, start + max_outputs);
        if !select_all {
            lemma_shortest(amount, run);
            lemma_run_within(run, 0, shortest(amount, run));
        }
    } else if total(s) >= amount {
        lemma_shortest(amount, s);
        lemma_run_within(s, 0, shortest(amount, s));
    } else {
        lemma_reverse_same(s);
        if s.len() > max_outputs {
            lemma_run_within(s.reverse(), 0, max_outputs);
        }
    }
}

/// What is among the eligible outputs is held by the wallet, belongs to the account and
/// can be spent.
pub proof fn lemma_within_eligible(
    outputs: Seq<OutputData>,
    parent_key_id: Identifier,
    current_height: u64,
    minimum_confirmations: u64,
    coins: Seq<OutputData>,
)
    requires
        coins.to_multiset().subset_of(
            eligible(
                outputs,
                parent_key_id,
                current_height,
                minimum_confirmations,
            ).to_multiset(),
        ),
    ensures
        coins.to_multiset().subset_of(outputs.to_multiset()),
        forall|i: int|
            0 <= i < coins.len() ==> {
                &&& (#[trigger] coins[i]).root_key_id == parent_key_id
                &&& coins[i].spendable(current_height, minimum_confirmations)
            },
{
    broadcast use vstd::seq_lib::group_to_multiset_ensures;

    let wanted = |out: OutputData|
        out.root_key_id == parent_key_id && out.spendable(current_height, minimum_confirmations);
    let e = eligible(outputs, parent_key_id, current_height, minimum_confirmations);
    lemma_filter_within(outputs, wanted);
    assert forall|i: int| 0 <= i < coins.len() implies {
        &&& (#[trigger] coins[i]).root_key_id == parent_key_id
        &&& coins[i].spendable(current_height, minimum_confirmations)
    } by {
        assert(coins.contains(coins[i]));
        assert(coins.to_multiset().count(coins[i]) > 0);
        assert(e.to_multiset().count(coins[i]) > 0);
        assert(e.contains(coins[i]));
        let k = choose|k: int| 0 <= k < e.len() && e[k] == coins[i];
        outputs.lemma_filter_pred(wanted, k);
    }
}

/// A later run of increasing outputs is worth no less.
pub proof fn lemma_window_monotone(s: Seq<OutputData>, size: int, k: int, l: int)
    requires
        increasing(s),
        0 <= size,
        0 <= k <= l <= s.len() - size,
    ensures
        total(window(s, size, k)) <= total(window(s, size, l)),
{
    let rest = s.skip(k);
    assert(forall|i: int| 0 <= i < rest.len() ==> rest[i] == s[i + k]);
    lemma_prefix_smallest(rest, size, l - k);
    assert(rest.take(size) =~= window(s, size, k));
    assert(window(rest, size, l - k) =~= window(s, size, l));
}

/// No `count` outputs are worth more than the last `count` of an increasing sequence.
pub proof fn lemma_last_largest(s: Seq<OutputData>, t: Seq<OutputData>, count: int)
    requires
        increasing(s),
        t.to_multiset().subset_of(s.to_multiset()),
        t.len() <= count <= s.len(),
    ensures
        total(t) <= total(s.skip(s.len() - count)),
    decreases s.len(),
{
    broadcast use vstd::seq_lib::group_to_multiset_ensures;
    broadcast use vstd::multiset::group_multiset_axioms;

    if t.len() > 0 {
        let out = s.last();
        let rest = s.drop_last();
        let top = s.skip(s.len() - count);
        assert(s =~= rest.push(out));
        assert(top =~= rest.skip(rest.len() - (count - 1)).push(out));
        lemma_total_push(rest.skip(rest.len() - (count - 1)), out);
        assert(increasing(rest)) by {
            assert(forall|i: int| 0 <= i < rest.len() ==> rest[i] == s[i]);
        }
        if t.contains(out) {
            let i = choose|i: int| 0 <= i < t.len() && t[i] == out;
            lemma_last_largest(rest, t.remove(i), count - 1);
            lemma_total_remove(t, i);
        } else {
            assert(t.to_multiset().count(out) == 0);
            assert forall|x: OutputData| t.to_multiset().count(x) <= rest.to_multiset().count(x) by {
                assert(t.to_multiset().count(x) <= s.to_multiset().count(x));
            }
            lemma_total_within(t, rest);
            if count <= rest.len() {
                lemma_last_largest(rest, t, count);
                assert(window(s, count, s.len() - count - 1) =~= rest.skip(rest.len() - count));
                assert(window(s, count, s.len() - count) =~= top);
                lemma_window_monotone(s, count, s.len() - count - 1, s.len() - count);
            } else {
                assert(rest.skip(0) =~= rest);
            }
        }
    }
}

/// Where no more than `max_outputs` outputs that can be spent cover the amount, a run of
/// that many does.
pub proof fn lemma_limit_suffices(
    s: Seq<OutputData>,
    t: Seq<OutputData>,
    amount: nat,
    max_outputs: int,
)
    requires
        increasing(s),
        t.to_multiset().subset_of(s.to_multiset()),
        t.len() <= max_outputs < s.len(),
        total(t) >= amount,
    ensures
        has_window(amount, max_outputs, s),
{
    lemma_last_largest(s, t, max_outputs);
    let last = s.len() - max_outputs;
    assert(window(s, max_outputs, last) =~= s.skip(last));
    lemma_window_exists(amount, max_outputs, s, last);
}

/// Where a run covers the amount, there is a first one.
pub proof fn lemma_window_exists(amount: nat, size: int, s: Seq<OutputData>, start: int)
    requires
        0 <= start <= s.len() - size,
        total(window(s, size, start)) >= amount,
    ensures
        has_window(amount, size, s),
    decreases start,
{
    if exists|k: int| 0 <= k < start && total(#[trigger] window(s, size, k)) >= amount {
        let k = choose|k: int| 0 <= k < start && total(#[trigger] window(s, size, k)) >= amount;
        lemma_window_exists(amount, size, s, k);
    } else {
        assert(is_first_window(amount, size, s, start));
    }
}

} // verus!
