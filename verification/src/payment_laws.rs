//! What holds of a payment as a whole.
use crate::choice::{
    candidates, chosen, eligible, funding, has_window, is_first_window, lemma_chosen_covers,
    lemma_chosen_within, lemma_second_choice, lemma_total_window, lemma_window_covers,
    lemma_within_eligible, Funding,
};
use crate::fee::{default_fee, DEFAULT_BASE_FEE};
use crate::lock::{
    coins_read, credit, entry_place, first_get, first_save, is_last_entry, last_entry,
    lock_request, saved_amount,
};
use crate::receive::receive_request;
use crate::selection::{
    can_send, can_split, change_amounts, change_entries, change_of, input_elements, lemma_share,
    output_elements,
};
use crate::send::send_outcome;
use crate::slate::Slate;
use crate::sort::{increasing, lemma_by_value_sorts};
use crate::totals::{
    lemma_total_nothing, lemma_total_push, lemma_total_remove, lemma_total_reverse,
    lemma_total_same, lemma_total_within, total,
};
use crate::types::{Context, ContextEntry, Identifier, OutputData, SecretKey};
use crate::wallet::{fits, so_far, Exchange, Keychain, Request, TxElement};
use vstd::prelude::*;

verus! {

/// Spending more outputs never costs a higher fee, adding more never a lower one, and
/// there is always a fee.
pub proof fn law_fee_rewards_spending(inputs: nat, outputs: nat, kernels: nat)
    ensures
        default_fee(inputs + 1, outputs, kernels) <= default_fee(inputs, outputs, kernels),
        default_fee(inputs, outputs + 1, kernels) >= default_fee(inputs, outputs, kernels),
        default_fee(inputs, outputs, kernels) >= DEFAULT_BASE_FEE,
{
}

/// A payment that is funded spends outputs that the wallet holds, each of them one of
/// the account that can be spent, and they cover the amount and the fee. The fee is
/// that of a transaction with change outputs, unless nothing is left over. A payment
/// that is refused needs more than is available, and what is available is all that can
/// be spent, where the amount and the limit are not zero.
pub proof fn law_funding_covers(
    outputs: Seq<OutputData>,
    parent_key_id: Identifier,
    current_height: u64,
    minimum_confirmations: u64,
    amount: u64,
    max_outputs: usize,
    change_outputs: usize,
    select_all: bool,
)
    ensures
        match funding(
            amount as nat,
            max_outputs as int,
            change_outputs as nat,
            select_all,
            candidates(outputs, parent_key_id, current_height, minimum_confirmations),
        ) {
            Funding::Funded { coins, fee } => {
                &&& coins.to_multiset().subset_of(outputs.to_multiset())
                &&& forall|i: int|
                    0 <= i < coins.len() ==> {
                        &&& (#[trigger] coins[i]).root_key_id == parent_key_id
                        &&& coins[i].spendable(current_height, minimum_confirmations)
                    }
                &&& total(coins) >= amount + fee
                &&& total(coins) > amount + fee ==> fee == default_fee(
                    coins.len(),
                    change_outputs as nat + 1,
                    1,
                )
            },
            Funding::Short { available, needed } => {
                &&& available < needed
                &&& available <= total(
                    eligible(outputs, parent_key_id, current_height, minimum_confirmations),
                )
                &&& amount > 0 && max_outputs > 0 ==> available == total(
                    eligible(outputs, parent_key_id, current_height, minimum_confirmations),
                )
            },
        },
{
    let e = eligible(outputs, parent_key_id, current_height, minimum_confirmations);
    let s = candidates(outputs, parent_key_id, current_height, minimum_confirmations);
    let coins = chosen(amount as nat, max_outputs as int, select_all, s);
    let fee = default_fee(coins.len(), change_outputs as nat + 1, 1);
    let more = chosen(amount as nat + fee, s.len() as int, select_all, s);
    lemma_by_value_sorts(e);
    lemma_total_same(s, e);
    lemma_chosen_within(amount as nat, max_outputs as int, select_all, s);
    lemma_chosen_within(amount as nat + fee, s.len() as int, select_all, s);
    lemma_within_eligible(outputs, parent_key_id, current_height, minimum_confirmations, coins);
    lemma_within_eligible(outputs, parent_key_id, current_height, minimum_confirmations, more);
    lemma_total_within(coins, s);
    lemma_total_within(more, s);
    lemma_second_choice(
        amount as nat,
        max_outputs as int,
        change_outputs as nat,
        select_all,
        s,
    );
    if amount > 0 && max_outputs > 0 && total(coins) == 0 {
        lemma_nothing_chosen(amount as nat, max_outputs as int, select_all, s);
    }
}

/// Where what is chosen is worth nothing, so is what it is chosen from.
proof fn lemma_nothing_chosen(amount: nat, max_outputs: int, select_all: bool, s: Seq<OutputData>)
    requires
        increasing(s),
        amount > 0,
        max_outputs > 0,
        total(chosen(amount, max_outputs, select_all, s)) == 0,
    ensures
        total(s) == 0,
{
    if total(s) >= amount {
        lemma_chosen_covers(amount, max_outputs, select_all, s);
    } else if s.len() > max_outputs {
        if has_window(amount, max_outputs, s) {
            lemma_window_covers(amount, max_outputs, s);
        }
        let top = s.reverse().take(max_outputs);
        assert(top[0] == s.last());
        lemma_total_remove(top, 0);
        lemma_total_nothing(s);
    } else {
        lemma_total_reverse(s);
    }
}

/// A payment with a single change output can be worked out whatever the wallet holds, as
/// long as all that can be spent fits in 64 bits, and so does the amount with the fee
/// of a transaction that has an output besides the change and spends nothing.
pub proof fn law_single_change_can_be_sent(
    outputs: Seq<OutputData>,
    parent_key_id: Identifier,
    current_height: u64,
    minimum_confirmations: u64,
    amount: u64,
    max_outputs: usize,
    select_all: bool,
)
    requires
        max_outputs > 0,
        total(eligible(outputs, parent_key_id, current_height, minimum_confirmations)) <= u64::MAX,
        amount + default_fee(0, 2, 1) <= u64::MAX,
    ensures
        can_send(
            amount,
            max_outputs,
            1,
            select_all,
            candidates(outputs, parent_key_id, current_height, minimum_confirmations),
        ),
{
    let e = eligible(outputs, parent_key_id, current_height, minimum_confirmations);
    let s = candidates(outputs, parent_key_id, current_height, minimum_confirmations);
    lemma_by_value_sorts(e);
    lemma_total_same(s, e);
    if has_window(amount as nat, max_outputs as int, s) {
        let start = choose|k: int| is_first_window(amount as nat, max_outputs as int, s, k);
        lemma_total_window(s, max_outputs as int, start);
    }
}

/// A payment is funded whenever all that can be spent covers the amount and the fee
/// for spending all of it.
///
/// The amount is not zero: where only as many outputs as needed are to be used, a
/// payment of nothing chooses none, and is refused.
pub proof fn law_enough_is_never_refused(
    outputs: Seq<OutputData>,
    parent_key_id: Identifier,
    current_height: u64,
    minimum_confirmations: u64,
    amount: u64,
    max_outputs: usize,
    change_outputs: usize,
    select_all: bool,
)
    requires
        amount > 0,
        ({
            let e = eligible(outputs, parent_key_id, current_height, minimum_confirmations);
            total(e) >= amount + default_fee(e.len(), change_outputs as nat + 1, 1)
        }),
    ensures
        funding(
            amount as nat,
            max_outputs as int,
            change_outputs as nat,
            select_all,
            candidates(outputs, parent_key_id, current_height, minimum_confirmations),
        ) is Funded,
{
    let e = eligible(outputs, parent_key_id, current_height, minimum_confirmations);
    let s = candidates(outputs, parent_key_id, current_height, minimum_confirmations);
    let coins = chosen(amount as nat, max_outputs as int, select_all, s);
    let fee = default_fee(coins.len(), change_outputs as nat + 1, 1);
    let more = chosen(amount as nat + fee, s.len() as int, select_all, s);
    lemma_by_value_sorts(e);
    lemma_total_same(s, e);
    lemma_chosen_covers(amount as nat, max_outputs as int, select_all, s);
    lemma_chosen_within(amount as nat, max_outputs as int, select_all, s);
    lemma_chosen_within(amount as nat + fee, s.len() as int, select_all, s);
    if coins.len() == s.len() {
        lemma_total_within(coins, s);
    }
    if more.len() == s.len() {
        lemma_total_within(more, s);
    }
    lemma_second_choice(
        amount as nat,
        max_outputs as int,
        change_outputs as nat,
        select_all,
        s,
    );
}

/// The sum of amounts.
pub open spec fn sum(amounts: Seq<u64>) -> nat
    decreases amounts.len(),
{
    if amounts.len() == 0 {
        0
    } else {
        sum(amounts.drop_last()) + amounts.last() as nat
    }
}

/// The sum of equal amounts.
proof fn lemma_sum_equal(amounts: Seq<u64>, each: u64)
    requires
        forall|i: int| 0 <= i < amounts.len() ==> #[trigger] amounts[i] == each,
    ensures
        sum(amounts) == amounts.len() * each,
    decreases amounts.len(),
{
    if amounts.len() > 0 {
        lemma_sum_equal(amounts.drop_last(), each);
        assert((amounts.len() - 1) * each + each == amounts.len() * each) by (nonlinear_arith);
    }
}

/// The change outputs add up to the change: nothing is lost in the split.
pub proof fn law_change_adds_up(change: int, count: nat)
    requires
        0 <= change <= u64::MAX,
        can_split(change, count),
    ensures
        sum(change_amounts(change, count)) == change,
{
    let amounts = change_amounts(change, count);
    if change == 0 {
        assert(amounts.len() == 0);
    } else {
        let n = count as int;
        let share = change / n;
        lemma_share(change, n);
        let firsts = amounts.drop_last();
        assert forall|i: int| 0 <= i < firsts.len() implies #[trigger] firsts[i] == share as u64 by {}
        lemma_sum_equal(firsts, share as u64);
        assert(sum(amounts) == (n - 1) * share + share + change % n);
        assert((n - 1) * share + share == n * share) by (nonlinear_arith);
    }
}

/// What the inputs among `parts` bring in.
pub open spec fn spent(parts: Seq<TxElement>) -> nat
    decreases parts.len(),
{
    if parts.len() == 0 {
        0
    } else {
        spent(parts.drop_last()) + match parts.last() {
            TxElement::Input { value, .. } => value as nat,
            TxElement::CoinbaseInput { value, .. } => value as nat,
            TxElement::Output { .. } => 0,
        }
    }
}

/// What the outputs among `parts` take.
pub open spec fn kept(parts: Seq<TxElement>) -> nat
    decreases parts.len(),
{
    if parts.len() == 0 {
        0
    } else {
        kept(parts.drop_last()) + match parts.last() {
            TxElement::Output { value, .. } => value as nat,
            _ => 0,
        }
    }
}

proof fn lemma_parts_inputs(coins: Seq<OutputData>)
    ensures
        spent(input_elements(coins)) == total(coins),
        kept(input_elements(coins)) == 0,
    decreases coins.len(),
{
    if coins.len() > 0 {
        lemma_parts_inputs(coins.drop_last());
        assert(input_elements(coins).drop_last() =~= input_elements(coins.drop_last()));
    }
}

proof fn lemma_parts_outputs(
    inputs: Seq<TxElement>,
    change: Seq<(u64, Identifier, Option<u64>)>,
    amounts: Seq<u64>,
)
    requires
        change.len() == amounts.len(),
        forall|i: int| 0 <= i < change.len() ==> (#[trigger] change[i]).0 == amounts[i],
    ensures
        spent(inputs + output_elements(change)) == spent(inputs),
        kept(inputs + output_elements(change)) == kept(inputs) + sum(amounts),
    decreases change.len(),
{
    let parts = inputs + output_elements(change);
    if change.len() > 0 {
        lemma_parts_outputs(inputs, change.drop_last(), amounts.drop_last());
        assert(parts.drop_last() =~= inputs + output_elements(change.drop_last()));
        assert(change.last().0 == amounts.last());
    } else {
        assert(parts =~= inputs);
    }
}

/// The parts of a transaction balance: what it spends is the amount, the fee and what
/// goes back to the wallet as change.
pub proof fn law_parts_balance<K>(
    coins: Seq<OutputData>,
    amount: u64,
    fee: u64,
    count: nat,
    h: Seq<Exchange<K>>,
)
    requires
        total(coins) <= u64::MAX,
        amount + fee <= total(coins),
        can_split(change_of(coins, amount, fee as nat), count),
    ensures
        ({
            let amounts = change_amounts(change_of(coins, amount, fee as nat), count);
            let change = change_entries(amounts, h);
            let parts = input_elements(coins) + output_elements(change);
            spent(parts) == amount + fee + kept(parts)
        }),
{
    let amounts = change_amounts(change_of(coins, amount, fee as nat), count);
    lemma_parts_inputs(coins);
    lemma_parts_outputs(input_elements(coins), change_entries(amounts, h), amounts);
    law_change_adds_up(change_of(coins, amount, fee as nat), count);
}

/// The outputs that were locked in the course of `h`.
pub open spec fn locked_outputs<K>(context: Context, h: Seq<Exchange<K>>) -> Seq<OutputData> {
    Seq::new(
        context.input_ids@.len(),
        |j: int| h[first_get(context) + 2 * j + 1].request->LockOutput_output,
    )
}

/// The outputs that were saved in the course of `h`.
pub open spec fn saved_outputs<K>(context: Context, h: Seq<Exchange<K>>) -> Seq<OutputData> {
    Seq::new(
        context.output_ids@.len(),
        |i: int| h[first_save(context) + i].request->Save_output,
    )
}

/// What was exchanged at a place, in a conversation that records a payment.
pub proof fn lemma_lock_place<K: Keychain>(
    slate: Slate,
    context: Context,
    mask: Option<SecretKey>,
    h: Seq<Exchange<K>>,
    i: int,
)
    requires
        so_far(|h: Seq<Exchange<K>>| lock_request(slate, context, mask, h), h),
        0 <= i < h.len(),
    ensures
        lock_request(slate, context, mask, h.take(i)) == Some(h[i].request),
        fits(h[i]),
        i + 1 < h.len() ==> !(h[i].reply is Refused),
{
    let script = |h: Seq<Exchange<K>>| lock_request(slate, context, mask, h);
    assert(script(h.take(i)) == Some(h[i].request));
    if i + 1 < h.len() {
        assert(script(h.take(i + 1)) is Some);
        assert(h.take(i + 1).last() == h[i]);
    }
}

/// A payment is recorded as a whole or not at all: the batch is committed only after
/// every input was locked and every change output and the log entry were saved, and
/// the transaction is stored only after that.
pub proof fn law_recorded_as_a_whole<K: Keychain>(
    slate: Slate,
    context: Context,
    mask: Option<SecretKey>,
    h: Seq<Exchange<K>>,
    at: int,
)
    requires
        so_far(|h: Seq<Exchange<K>>| lock_request(slate, context, mask, h), h),
        0 <= at < h.len(),
        h[at].request is Commit || h[at].request is StoreTx,
    ensures
        h[at].request is Commit ==> at == entry_place(context) + 1,
        h[at].request is StoreTx ==> at == entry_place(context) + 2 && h[at - 1].request is Commit
            && h[at - 1].reply is Done,
        forall|i: int| 0 <= i < at ==> !((#[trigger] h[i]).reply is Refused),
        forall|j: int|
            0 <= j < context.input_ids@.len() ==> (#[trigger] h[first_get(context) + 2 * j
                + 1]).request is LockOutput,
        forall|i: int|
            0 <= i < context.output_ids@.len() ==> (#[trigger] h[first_save(context)
                + i]).request is Save,
        h[entry_place(context)].request is SaveTxLogEntry,
{
    lemma_lock_place(slate, context, mask, h, at);
    assert forall|i: int| 0 <= i < at implies !((#[trigger] h[i]).reply is Refused) by {
        lemma_lock_place(slate, context, mask, h, i);
    }
    lemma_lock_place(slate, context, mask, h, at - 1);
    lemma_lock_place(slate, context, mask, h, entry_place(context));
    assert forall|j: int| 0 <= j < context.input_ids@.len() implies (#[trigger] h[first_get(
        context,
    ) + 2 * j + 1]).request is LockOutput by {
        lemma_lock_place(slate, context, mask, h, first_get(context) + 2 * j + 1);
    }
    assert forall|i: int| 0 <= i < context.output_ids@.len() implies (#[trigger] h[first_save(
        context,
    ) + i]).request is Save by {
        lemma_lock_place(slate, context, mask, h, first_save(context) + i);
    }
}

/// The log entry of a payment says what was done: it debits what the locked outputs
/// are worth and credits what the saved outputs are worth, and these carry its number.
pub proof fn law_entry_matches_outputs<K: Keychain>(
    slate: Slate,
    context: Context,
    mask: Option<SecretKey>,
    h: Seq<Exchange<K>>,
)
    requires
        so_far(|h: Seq<Exchange<K>>| lock_request(slate, context, mask, h), h),
        h.len() > entry_place(context),
    ensures
        h[entry_place(context)].request matches Request::SaveTxLogEntry { entry, parent_key_id }
            && {
            &&& parent_key_id == context.parent_key_id
            &&& entry.amount_debited == total(locked_outputs(context, h))
            &&& entry.amount_credited == total(saved_outputs(context, h))
            &&& entry.num_inputs == context.input_ids@.len()
            &&& entry.num_outputs == context.output_ids@.len()
            &&& forall|j: int|
                0 <= j < context.input_ids@.len() ==> (#[trigger] locked_outputs(
                    context,
                    h,
                )[j]).tx_log_entry == Some(entry.id)
            &&& forall|i: int|
                0 <= i < context.output_ids@.len() ==> (#[trigger] saved_outputs(
                    context,
                    h,
                )[i]).tx_log_entry == Some(entry.id)
        },
{
    let p = entry_place(context);
    let first = first_get(context);
    let outs = context.output_ids@;
    let ins = context.input_ids@;
    let log_id = h[outs.len() as int + 2].reply->LogId_0;
    lemma_lock_place(slate, context, mask, h, p);
    let read = coins_read(h, first, ins.len() as int);
    assert(coins_read(h.take(p), first, ins.len() as int) =~= read);
    assert forall|j: int| 0 <= j < ins.len() implies {
        &&& (#[trigger] locked_outputs(context, h)[j]).value == read[j].value
        &&& locked_outputs(context, h)[j].tx_log_entry == Some(log_id)
    } by {
        let at = first + 2 * j + 1;
        lemma_lock_place(slate, context, mask, h, at);
        assert(h.take(at).last() == h[at - 1]);
    }
    lemma_same_values(locked_outputs(context, h), read);
    assert forall|i: int| 0 <= i < outs.len() implies {
        &&& (#[trigger] saved_outputs(context, h)[i]).value == saved_amount(outs, i)
        &&& saved_outputs(context, h)[i].tx_log_entry == Some(log_id)
    } by {
        lemma_lock_place(slate, context, mask, h, first_save(context) + i);
    }
    lemma_credit_saved(outs, saved_outputs(context, h), outs.len() as int);
    assert(saved_outputs(context, h).take(outs.len() as int) =~= saved_outputs(context, h));
}

/// Outputs of the same values are worth the same.
pub proof fn lemma_same_values(s: Seq<OutputData>, t: Seq<OutputData>)
    requires
        s.len() == t.len(),
        forall|i: int| 0 <= i < s.len() ==> (#[trigger] s[i]).value == t[i].value,
    ensures
        total(s) == total(t),
    decreases s.len(),
{
    if s.len() > 0 {
        assert(s[s.len() - 1].value == t[t.len() - 1].value);
        assert forall|i: int| 0 <= i < s.drop_last().len() implies (#[trigger] s.drop_last()[i]).value
            == t.drop_last()[i].value by {
            assert(s[i].value == t[i].value);
        }
        lemma_same_values(s.drop_last(), t.drop_last());
    }
}

/// What is credited is what the saved outputs are worth.
proof fn lemma_credit_saved(entries: Seq<ContextEntry>, saved: Seq<OutputData>, count: int)
    requires
        0 <= count <= entries.len(),
        saved.len() == entries.len(),
        forall|i: int|
            0 <= i < entries.len() ==> (#[trigger] saved[i]).value == saved_amount(entries, i),
    ensures
        credit(entries, count) == total(saved.take(count)),
    decreases count,
{
    if count > 0 {
        lemma_credit_saved(entries, saved, count - 1);
        assert(saved.take(count) =~= saved.take(count - 1).push(saved[count - 1]));
        lemma_total_push(saved.take(count - 1), saved[count - 1]);
    }
}

/// No two change outputs of a context share a key.
pub open spec fn distinct_keys(entries: Seq<ContextEntry>) -> bool {
    forall|i: int, j: int|
        0 <= i < j < entries.len() ==> (#[trigger] entries[i]).0 != (#[trigger] entries[j]).0
}

/// What is credited for change outputs of distinct keys is the sum of their amounts.
pub proof fn lemma_credit_distinct(entries: Seq<ContextEntry>, amounts: Seq<u64>, count: int)
    requires
        distinct_keys(entries),
        amounts.len() == entries.len(),
        0 <= count <= entries.len(),
        forall|i: int| 0 <= i < entries.len() ==> (#[trigger] entries[i]).2 == amounts[i],
    ensures
        credit(entries, count) == sum(amounts.take(count)),
    decreases count,
{
    if count > 0 {
        let i = count - 1;
        lemma_credit_distinct(entries, amounts, i);
        assert(amounts.take(count).drop_last() =~= amounts.take(i));
        assert(is_last_entry(entries, entries[i].0, i));
        let found = last_entry(entries, entries[i].0);
        assert(is_last_entry(entries, entries[i].0, found));
        assert(found == i);
    }
}

/// A payment that was started and then recorded costs the account the amount and the
/// fee: the log entry debits just that much more than it credits.
///
/// The change outputs have keys of their own, and the inputs are still worth what they
/// were when the payment was started.
pub proof fn law_payment_costs_amount_and_fee<K: Keychain>(
    keychain: K,
    coins: Seq<OutputData>,
    amount: u64,
    fee: u64,
    count: nat,
    parent_key_id: Identifier,
    use_test_nonce: bool,
    sent: Seq<Exchange<K>>,
    before: Slate,
    after: Slate,
    context: Context,
    slate: Slate,
    mask: Option<SecretKey>,
    h: Seq<Exchange<K>>,
)
    requires
        total(coins) <= u64::MAX,
        amount + fee <= total(coins),
        can_split(change_of(coins, amount, fee as nat), count),
        send_outcome(
            keychain,
            coins,
            change_amounts(change_of(coins, amount, fee as nat), count),
            fee,
            parent_key_id,
            use_test_nonce,
            sent,
            before,
            after,
            Ok(context),
        ),
        distinct_keys(context.output_ids@),
        so_far(|h: Seq<Exchange<K>>| lock_request(slate, context, mask, h), h),
        h.len() > entry_place(context),
        forall|j: int|
            0 <= j < coins.len() ==> (#[trigger] locked_outputs(context, h)[j]).value
                == coins[j].value,
    ensures
        h[entry_place(context)].request matches Request::SaveTxLogEntry { entry, .. }
            && entry.amount_debited == entry.amount_credited + amount + fee,
{
    let amounts = change_amounts(change_of(coins, amount, fee as nat), count);
    let outs = context.output_ids@;
    law_entry_matches_outputs(slate, context, mask, h);
    lemma_lock_place(slate, context, mask, h, entry_place(context));
    lemma_same_values(locked_outputs(context, h), coins);
    law_change_adds_up(change_of(coins, amount, fee as nat), count);
    lemma_credit_distinct(outs, amounts, outs.len() as int);
    assert(amounts.take(outs.len() as int) =~= amounts);
}

/// A payment that is received is recorded as a whole or not at all, and as what it is:
/// the output that is saved and the log entry are worth the amount of the slate, and
/// the output is for the key that the wallet gave out.
pub proof fn law_received_as_a_whole<K: Keychain>(
    slate: Slate,
    parent_key_id: Identifier,
    mask: Option<SecretKey>,
    h: Seq<Exchange<K>>,
    at: int,
)
    requires
        so_far(|h: Seq<Exchange<K>>| receive_request(slate, parent_key_id, mask, h), h),
        0 <= at < h.len(),
        h[at].request is Commit,
    ensures
        at == 8,
        forall|i: int| 0 <= i < at ==> !((#[trigger] h[i]).reply is Refused),
        h[6].request matches Request::Save { output } && {
            &&& output.value == slate.amount
            &&& output.key_id == h[0].reply->Key_0
            &&& output.root_key_id == parent_key_id
            &&& h[7].request matches Request::SaveTxLogEntry { entry, .. }
            &&& entry.amount_credited == output.value
            &&& entry.amount_debited == 0
            &&& output.tx_log_entry == Some(entry.id)
        },
{
    let script = |h: Seq<Exchange<K>>| receive_request(slate, parent_key_id, mask, h);
    assert(script(h.take(at)) == Some(h[at].request));
    assert forall|i: int| 0 <= i < at implies !((#[trigger] h[i]).reply is Refused) by {
        assert(script(h.take(i + 1)) is Some);
        assert(h.take(i + 1).last() == h[i]);
    }
    assert(script(h.take(6)) == Some(h[6].request));
    assert(script(h.take(7)) == Some(h[7].request));
}

} // verus!
