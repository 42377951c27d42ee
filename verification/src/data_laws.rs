//! What holds of outputs, keys, fees and log entries, and of the calls that make and read
//! them.
use crate::choosing_laws::of_value;
use crate::error::Error;
use crate::fee::{default_fee, tx_fee};
use crate::keys::{blinding_key, number};
use crate::slate::Slate;
use crate::sort::{lemma_by_value_sorts, lemma_sorting_keeps, sort_by_value, worth};
use crate::totals::{lemma_total_push, total};
use crate::types::{
    BlindingFactor, Commitment, Context, Identifier, OutputData, OutputStatus,
    ParticipantMessageData, PathDepth, SecretKey, TxLogEntry, TxLogEntryType,
};
use crate::wallet::{
    mask_of, next_available_key, Keychain, Reply, Request, TxElement, WalletBackend,
};
use vstd::prelude::*;

verus! {

/// An output can be spent from the end of its lock on, and only if it is unspent and the
/// block that holds it and those above it are as many as the confirmations asked for; or if
/// it is not confirmed yet, no block reward, and no confirmation is asked for. Whose it is,
/// where it came from and what it is worth makes no difference.
pub proof fn law_spendable(
    out: &OutputData,
    current_height: u64,
    minimum_confirmations: u64,
    eligible: bool,
)
    requires
        call_ensures(
            OutputData::eligible_to_spend,
            (out, current_height, minimum_confirmations),
            eligible,
        ),
    ensures
        eligible == out.spendable(current_height, minimum_confirmations),
        eligible <==> out.lock_height <= current_height && {
            ||| {
                &&& out.status == OutputStatus::Unspent
                &&& minimum_confirmations == 0 || out.height + minimum_confirmations
                    <= current_height + 1
            }
            ||| {
                &&& out.status == OutputStatus::Unconfirmed
                &&& !out.is_coinbase
                &&& minimum_confirmations == 0
            }
        },
{
}

/// What can be spent can still be spent later, and with fewer confirmations asked for.
pub proof fn law_spendable_for_good(
    out: OutputData,
    height: u64,
    later: u64,
    confirmations: u64,
    fewer: u64,
)
    requires
        out.spendable(height, confirmations),
        height <= later,
        fewer <= confirmations,
    ensures
        out.spendable(later, fewer),
{
}

/// The last index of a path is the step at its depth, whatever the steps beyond, and 0 for
/// the root.
pub proof fn law_last_index(id: &Identifier, index: u32)
    requires
        call_ensures(Identifier::last_path_index, (id,), index),
    ensures
        index == id.last_index(),
        id.depth == PathDepth::Zero ==> index == 0,
        id.depth == PathDepth::One ==> index == id.path[0],
        id.depth == PathDepth::Two ==> index == id.path[1],
        id.depth == PathDepth::Three ==> index == id.path[2],
        id.depth == PathDepth::Four ==> index == id.path[3],
{
}

/// A transaction pays for four units of weight for each output and one for each kernel,
/// less one for each input, but for one unit at least. What is added is counted up to the
/// largest 64-bit number. A unit costs what is asked for it, or a million where nothing is.
pub proof fn law_fee(inputs: usize, outputs: usize, kernels: usize, base: Option<u64>, fee: u64)
    requires
        call_ensures(tx_fee, (inputs, outputs, kernels, base), fee),
    ensures
        ({
            let added = 4 * outputs + kernels;
            let weight = if added <= u64::MAX {
                added - inputs
            } else {
                u64::MAX - inputs
            };
            let price = match base {
                Some(price) => price as int,
                None => 1_000_000,
            };
            &&& weight >= 1 ==> fee == weight * price
            &&& weight < 1 ==> fee == price
        }),
{
}

/// The fee without a price is the one at a million for a unit.
pub proof fn law_default_fee(inputs: nat, outputs: nat, kernels: nat)
    requires
        4 * outputs + kernels <= u64::MAX,
    ensures
        inputs < 4 * outputs + kernels ==> default_fee(inputs, outputs, kernels) == (4 * outputs
            + kernels - inputs) * 1_000_000,
        inputs >= 4 * outputs + kernels ==> default_fee(inputs, outputs, kernels) == 1_000_000,
{
}

/// What outputs are worth together grows by the value of each.
pub proof fn law_total(s: Seq<OutputData>, out: OutputData)
    ensures
        total(Seq::<OutputData>::empty()) == 0,
        total(s.push(out)) == total(s) + out.value,
{
    lemma_total_push(s, out);
}

/// Sorting keeps every output, puts them in the order of their values, and leaves those of
/// one value in the order that they had.
pub proof fn law_sorted(outputs: Vec<OutputData>, sorted: Vec<OutputData>)
    requires
        call_ensures(sort_by_value, (outputs,), sorted),
    ensures
        sorted@.len() == outputs@.len(),
        sorted@.to_multiset() == outputs@.to_multiset(),
        forall|i: int, j: int|
            0 <= i <= j < sorted@.len() ==> (#[trigger] sorted@[i]).value <= (
            #[trigger] sorted@[j]).value,
        forall|value: u64| #[trigger] of_value(sorted@, value) == of_value(outputs@, value),
{
    lemma_by_value_sorts(outputs@);
    lemma_sorting_keeps(sorted@, outputs@);
    assert forall|value: u64| #[trigger] of_value(sorted@, value) == of_value(outputs@, value) by {
        assert(worth(sorted@, value) == worth(outputs@, value));
    }
}

/// A secret key has the bytes of its blinding factor; there is one where these write a
/// number below the group order.
pub proof fn law_secret_key(blinding: BlindingFactor)
    ensures
        blinding_key(blinding) is Some <==> number(blinding.bytes@)
            < 0xFFFFFFFFFFFFFFFFFFFFFFFFFFFFFFFEBAAEDCE6AF48A03BBFD25E8CD0364141int,
        blinding_key(blinding) matches Some(key) ==> key.bytes == blinding.bytes,
{
}

/// Bytes write a number with the most significant byte first.
pub proof fn law_number(bytes: Seq<u8>, next: u8)
    ensures
        number(Seq::<u8>::empty()) == 0,
        number(bytes.push(next)) == 256 * number(bytes) + next,
{
    assert(bytes.push(next).drop_last() =~= bytes);
}

/// A mask is handed on as it is.
pub proof fn law_mask(mask: Option<&SecretKey>)
    ensures
        mask is None <==> mask_of(mask) is None,
        mask matches Some(key) ==> mask_of(mask) == Some(*key),
{
}

/// A log entry is seen as it is.
pub proof fn law_entry_is_seen_as_it_is(entry: TxLogEntry)
    ensures
        entry@.parent_key_id == entry.parent_key_id,
        entry@.id == entry.id,
        entry@.tx_type == entry.tx_type,
        entry@.num_inputs == entry.num_inputs,
        entry@.num_outputs == entry.num_outputs,
        entry@.amount_credited == entry.amount_credited,
        entry@.amount_debited == entry.amount_debited,
        entry@.fee == entry.fee,
        entry@.kernel_excess == entry.kernel_excess,
        entry@.kernel_lookup_min_height == entry.kernel_lookup_min_height,
        entry@.payment_proof == entry.payment_proof,
        entry.tx_slate_id is None <==> entry@.tx_slate_id is None,
        entry.tx_slate_id matches Some(id) ==> entry@.tx_slate_id == Some(id@),
        entry.messages is None <==> entry@.messages is None,
        entry.messages matches Some(messages) ==> entry@.messages == Some(messages@),
        entry.stored_tx is None <==> entry@.stored_tx is None,
        entry.stored_tx matches Some(name) ==> entry@.stored_tx == Some(name@),
{
}

/// A new log entry has an account, a kind and a number, and nothing else.
pub proof fn law_new_entry(
    parent_key_id: Identifier,
    tx_type: TxLogEntryType,
    id: u32,
    entry: TxLogEntry,
)
    requires
        call_ensures(TxLogEntry::new, (parent_key_id, tx_type, id), entry),
    ensures
        entry.parent_key_id == parent_key_id,
        entry.tx_type == tx_type,
        entry.id == id,
        entry.num_inputs == 0,
        entry.num_outputs == 0,
        entry.amount_credited == 0,
        entry.amount_debited == 0,
        entry.tx_slate_id is None,
        entry.fee is None,
        entry.messages is None,
        entry.stored_tx is None,
        entry.kernel_excess is None,
        entry.kernel_lookup_min_height is None,
        entry.payment_proof is None,
{
    law_entry_is_seen_as_it_is(entry);
}

/// A new context has its keys, its account and its participant, and nothing else.
pub proof fn law_new_context(
    sec_key: SecretKey,
    sec_nonce: SecretKey,
    parent_key_id: &Identifier,
    participant_id: usize,
    context: Context,
)
    requires
        call_ensures(
            Context::new,
            (sec_key, sec_nonce, parent_key_id, participant_id),
            context,
        ),
    ensures
        context.sec_key == sec_key,
        context.sec_nonce == sec_nonce,
        context.parent_key_id == *parent_key_id,
        context.participant_id == participant_id,
        context.input_ids@.len() == 0,
        context.output_ids@.len() == 0,
        context.fee == 0,
        context.payment_proof_derivation_index is None,
{
}

/// A context keeps of each output that is added its key, its position and its amount, after
/// those that it has, and nothing else of it changes.
pub proof fn law_output_is_kept(
    context: &mut Context,
    output_id: &Identifier,
    mmr_index: &Option<u64>,
    amount: u64,
)
    requires
        call_ensures(Context::add_output, (context, output_id, mmr_index, amount), ()),
    ensures
        ({
            let kept = final(context).output_ids@;
            &&& kept.len() == old(context).output_ids@.len() + 1
            &&& kept.drop_last() == old(context).output_ids@
            &&& kept.last().0 == *output_id
            &&& kept.last().1 == *mmr_index
            &&& kept.last().2 == amount
        }),
        final(context).input_ids == old(context).input_ids,
        final(context).parent_key_id == old(context).parent_key_id,
        final(context).sec_key == old(context).sec_key,
        final(context).sec_nonce == old(context).sec_nonce,
        final(context).fee == old(context).fee,
        final(context).payment_proof_derivation_index == old(
            context,
        ).payment_proof_derivation_index,
        final(context).participant_id == old(context).participant_id,
{
}

/// A context keeps of each input that is spent its key, its position and its value, after
/// those that it has, and nothing else of it changes.
pub proof fn law_input_is_kept(
    context: &mut Context,
    input_id: &Identifier,
    mmr_index: &Option<u64>,
    amount: u64,
)
    requires
        call_ensures(Context::add_input, (context, input_id, mmr_index, amount), ()),
    ensures
        ({
            let kept = final(context).input_ids@;
            &&& kept.len() == old(context).input_ids@.len() + 1
            &&& kept.drop_last() == old(context).input_ids@
            &&& kept.last().0 == *input_id
            &&& kept.last().1 == *mmr_index
            &&& kept.last().2 == amount
        }),
        final(context).output_ids == old(context).output_ids,
        final(context).parent_key_id == old(context).parent_key_id,
        final(context).sec_key == old(context).sec_key,
        final(context).sec_nonce == old(context).sec_nonce,
        final(context).fee == old(context).fee,
        final(context).payment_proof_derivation_index == old(
            context,
        ).payment_proof_derivation_index,
        final(context).participant_id == old(context).participant_id,
{
}

/// The messages of a slate are given as they are, each in its place; and its excess is the
/// one that the keychain computes of it.
pub proof fn law_slate_is_read<K>(
    slate: &Slate,
    messages: Vec<ParticipantMessageData>,
    keychain: &K,
    excess: Result<Commitment, Error>,
) where K: Keychain
    requires
        call_ensures(Slate::participant_messages, (slate,), messages),
        call_ensures(Slate::calc_excess::<K>, (slate, keychain), excess),
    ensures
        messages@.len() == slate.messages@.len(),
        forall|i: int| 0 <= i < messages@.len() ==> #[trigger] messages@[i] == slate.messages@[i],
        excess == keychain.excess(*slate),
{
}

/// The next available key is the next child of the wallet, asked for once; the outputs stay
/// as they are.
pub proof fn law_next_available_key<T, K>(
    wallet: &mut T,
    keychain_mask: Option<&SecretKey>,
    result: Result<Identifier, Error>,
) where T: WalletBackend<K>, K: Keychain
    requires
        call_ensures(next_available_key::<T, K>, (wallet, keychain_mask), result),
    ensures
        final(wallet).outputs() == old(wallet).outputs(),
        ({
            let start = old(wallet).exchanges();
            let after = final(wallet).exchanges();
            &&& after.len() == start.len() + 1
            &&& after.drop_last() == start
            &&& after.last().request == (Request::NextChild {
                mask: match keychain_mask {
                    Some(key) => Some(*key),
                    None => None,
                },
            })
            &&& match result {
                Ok(key_id) => after.last().reply == Reply::<K>::Key(key_id),
                Err(e) => after.last().reply == Reply::<K>::Refused(e),
            }
        }),
{
}

/// Adding parts to the transaction of a slate changes nothing but the transaction, and
/// nothing at all where they cannot be added.
pub proof fn law_parts_are_added<K>(
    slate: &mut Slate,
    keychain: &K,
    elems: Vec<TxElement>,
    result: Result<BlindingFactor, Error>,
) where K: Keychain
    requires
        call_ensures(Slate::add_transaction_elements::<K>, (slate, keychain, elems), result),
    ensures
        final(slate).id == old(slate).id,
        final(slate).amount == old(slate).amount,
        final(slate).fee == old(slate).fee,
        final(slate).height == old(slate).height,
        final(slate).messages == old(slate).messages,
        final(slate).payment_proof == old(slate).payment_proof,
        match result {
            Ok(blinding) => keychain.builds(
                *old(slate),
                elems@,
                Ok((final(slate).tx, blinding)),
            ),
            Err(e) => keychain.builds(*old(slate), elems@, Err(e)) && final(slate).tx == old(
                slate,
            ).tx,
        },
{
}

} // verus!
