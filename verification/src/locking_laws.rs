//! What a call of `lock_tx_context` does.
use crate::error::Error;
use crate::lock::{coins_read, is_last_entry, last_entry, lock_request, lock_tx_context};
use crate::payment_laws::{
    law_entry_matches_outputs, lemma_lock_place, locked_outputs, saved_outputs,
};
use crate::selection::select_send_tx;
use crate::send::build_send_tx;
use crate::sending_laws::law_inputs_are_kept;
use crate::slate::Slate;
use crate::totals::total;
use crate::types::{
    Context, Identifier, OutputData, OutputStatus, SecretKey, TxLogEntryType,
};
use crate::wallet::{Keychain, Reply, Request, TxElement, WalletBackend};
use vstd::prelude::*;

verus! {

/// Recording a payment asks the store for the commitment of each change output, for the
/// keychain and, in a batch, for the number of the log entry. After the inputs, the change
/// outputs and the log entry, which have laws of their own, the batch is committed and the
/// transaction is stored under the identifier of the slate. A refusal ends it.
#[verifier::rlimit(40)]
pub proof fn law_recording_asks<T, K>(
    wallet: &mut T,
    keychain_mask: Option<&SecretKey>,
    slate: &Slate,
    context: &Context,
    result: Result<(), Error>,
) where T: WalletBackend<K>, K: Keychain
    requires
        call_ensures(lock_tx_context::<T, K>, (wallet, keychain_mask, slate, context), result),
    ensures
        ({
            let start = old(wallet).exchanges();
            let h = final(wallet).exchanges().skip(start.len() as int);
            let mask = match keychain_mask {
                Some(key) => Some(*key),
                None => None,
            };
            let outs = context.output_ids@;
            let head = outs.len() as int;
            let tail = head + 3 + 2 * context.input_ids@.len() + outs.len();
            &&& final(wallet).exchanges() == start + h
            &&& h.len() <= tail + 3
            &&& forall|i: int| 0 <= i < h.len() - 1 ==> !((#[trigger] h[i]).reply is Refused)
            &&& forall|i: int|
                0 <= i < outs.len() && i < h.len() ==> (#[trigger] h[i]).request == (
                Request::CalcCommit { mask, amount: outs[i].2, key_id: outs[i].0 })
            &&& head < h.len() ==> h[head].request == (Request::Keychain { mask })
            &&& head + 1 < h.len() ==> h[head + 1].request == (Request::Batch { mask })
            &&& head + 2 < h.len() ==> h[head + 2].request == (Request::NextTxLogId {
                parent_key_id: context.parent_key_id,
            })
            &&& tail < h.len() ==> h[tail].request is SaveTxLogEntry
            &&& tail + 1 < h.len() ==> h[tail + 1].request is Commit
            &&& tail + 2 < h.len() ==> h[tail + 2].request == (Request::StoreTx {
                id: slate.id@,
                tx: slate.tx@,
            })
        }),
{
    let start = old(wallet).exchanges();
    let h = final(wallet).exchanges().skip(start.len() as int);
    let mask = match keychain_mask {
        Some(key) => Some(*key),
        None => None,
    };
    let outs = context.output_ids@;
    let head = outs.len() as int;
    let tail = head + 3 + 2 * context.input_ids@.len() + outs.len();
    if h.len() > 0 {
        lemma_lock_place(*slate, *context, mask, h, h.len() - 1);
    }
    assert forall|i: int| 0 <= i < h.len() - 1 implies !((#[trigger] h[i]).reply is Refused) by {
        lemma_lock_place(*slate, *context, mask, h, i);
    }
    assert forall|i: int| 0 <= i < outs.len() && i < h.len() implies (#[trigger] h[i]).request == (
    Request::CalcCommit { mask, amount: outs[i].2, key_id: outs[i].0 }) by {
        lemma_lock_place(*slate, *context, mask, h, i);
    }
    if head < h.len() {
        lemma_lock_place(*slate, *context, mask, h, head);
    }
    if head + 1 < h.len() {
        lemma_lock_place(*slate, *context, mask, h, head + 1);
    }
    if head + 2 < h.len() {
        lemma_lock_place(*slate, *context, mask, h, head + 2);
    }
    if tail < h.len() {
        lemma_lock_place(*slate, *context, mask, h, tail);
    }
    if tail + 1 < h.len() {
        lemma_lock_place(*slate, *context, mask, h, tail + 1);
    }
    if tail + 2 < h.len() {
        lemma_lock_place(*slate, *context, mask, h, tail + 2);
    }
}

/// A payment is recorded if and only if all of this was asked for and nothing was refused.
pub proof fn law_recorded<T, K>(
    wallet: &mut T,
    keychain_mask: Option<&SecretKey>,
    slate: &Slate,
    context: &Context,
    result: Result<(), Error>,
) where T: WalletBackend<K>, K: Keychain
    requires
        call_ensures(lock_tx_context::<T, K>, (wallet, keychain_mask, slate, context), result),
    ensures
        ({
            let h = final(wallet).exchanges().skip(old(wallet).exchanges().len() as int);
            let outs = context.output_ids@;
            let tail = outs.len() + 3 + 2 * context.input_ids@.len() + outs.len();
            result is Ok <==> h.len() == tail + 3 && !(h.last().reply is Refused)
        }),
{
    law_recording_asks(wallet, keychain_mask, slate, context, result);
    let h = final(wallet).exchanges().skip(old(wallet).exchanges().len() as int);
    let mask = match keychain_mask {
        Some(key) => Some(*key),
        None => None,
    };
    if h.len() > 0 {
        lemma_lock_place(*slate, *context, mask, h, h.len() - 1);
    }
}

/// Each input of a payment that is being recorded is read by the key and the position that the
/// context keeps of it, and what was read is locked with the number of the log entry,
/// unchanged otherwise.
pub proof fn law_inputs_are_locked<T, K>(
    wallet: &mut T,
    keychain_mask: Option<&SecretKey>,
    slate: &Slate,
    context: &Context,
    result: Result<(), Error>,
    j: int,
) where T: WalletBackend<K>, K: Keychain
    requires
        call_ensures(lock_tx_context::<T, K>, (wallet, keychain_mask, slate, context), result),
        0 <= j < context.input_ids@.len(),
        final(wallet).exchanges().len() - old(wallet).exchanges().len() > context.output_ids@.len()
            + 3 + 2 * j + 1,
    ensures
        ({
            let h = final(wallet).exchanges().skip(old(wallet).exchanges().len() as int);
            let head = context.output_ids@.len() as int;
            let at = head + 3 + 2 * j;
            &&& h[at].request == (Request::Get {
                key_id: context.input_ids@[j].0,
                mmr_index: context.input_ids@[j].1,
            })
            &&& h[at].reply matches Reply::Output(coin)
            &&& h[at + 1].request matches Request::LockOutput { output }
            &&& h[head + 2].reply matches Reply::LogId(log_id)
            &&& output.tx_log_entry == Some(log_id)
            &&& output.root_key_id == coin.root_key_id
            &&& output.key_id == coin.key_id
            &&& output.n_child == coin.n_child
            &&& output.commit == coin.commit
            &&& output.mmr_index == coin.mmr_index
            &&& output.value == coin.value
            &&& output.status == coin.status
            &&& output.height == coin.height
            &&& output.lock_height == coin.lock_height
            &&& output.is_coinbase == coin.is_coinbase
        }),
{
    law_recording_asks(wallet, keychain_mask, slate, context, result);
    let h = final(wallet).exchanges().skip(old(wallet).exchanges().len() as int);
    let mask = match keychain_mask {
        Some(key) => Some(*key),
        None => None,
    };
    let head = context.output_ids@.len() as int;
    let at = head + 3 + 2 * j;
    lemma_lock_place(*slate, *context, mask, h, head + 2);
    lemma_lock_place(*slate, *context, mask, h, at);
    lemma_lock_place(*slate, *context, mask, h, at + 1);
    assert((at - head - 3) / 2 == j);
    assert((at + 1 - head - 3) / 2 == j);
    assert(h.take(at + 1).last() == h[at]);
}

/// What is locked for a payment is what was selected for it: each selected output is read
/// by its own key and position, in its place.
pub proof fn law_selected_outputs_are_read<T, K>(
    wallet: &mut T,
    keychain: &K,
    keychain_mask: Option<&SecretKey>,
    slate: &mut Slate,
    confirmations: u64,
    max_outputs: usize,
    change_outputs: usize,
    select_all: bool,
    account: Identifier,
    use_test_nonce: bool,
    context: Context,
    select_wallet: &mut T,
    selected: (Vec<TxElement>, Vec<OutputData>, Vec<(u64, Identifier, Option<u64>)>, u64),
    lock_wallet: &mut T,
    lock_mask: Option<&SecretKey>,
    lock_slate: &Slate,
    locked: Result<(), Error>,
    j: int,
) where T: WalletBackend<K>, K: Keychain
    requires
        call_ensures(
            build_send_tx::<T, K>,
            (
                wallet,
                keychain,
                keychain_mask,
                slate,
                confirmations,
                max_outputs,
                change_outputs,
                select_all,
                account,
                use_test_nonce,
            ),
            Ok(context),
        ),
        call_ensures(
            select_send_tx::<T, K>,
            (
                select_wallet,
                keychain_mask,
                old(slate).amount,
                old(slate).height,
                confirmations,
                max_outputs,
                change_outputs,
                select_all,
                &account,
            ),
            Ok(selected),
        ),
        old(select_wallet).outputs() == old(wallet).outputs(),
        call_ensures(
            lock_tx_context::<T, K>,
            (lock_wallet, lock_mask, lock_slate, &context),
            locked,
        ),
        locked is Ok,
        0 <= j < selected.1@.len(),
    ensures
        ({
            let h = final(lock_wallet).exchanges().skip(old(lock_wallet).exchanges().len() as int);
            let at = context.output_ids@.len() as int + 3 + 2 * j;
            h[at].request == (Request::Get {
                key_id: selected.1@[j].key_id,
                mmr_index: selected.1@[j].mmr_index,
            })
        }),
{
    law_inputs_are_kept(
        wallet,
        keychain,
        keychain_mask,
        slate,
        confirmations,
        max_outputs,
        change_outputs,
        select_all,
        account,
        use_test_nonce,
        Ok(context),
        select_wallet,
        selected,
    );
    law_recorded(lock_wallet, lock_mask, lock_slate, &context, locked);
    law_inputs_are_locked(lock_wallet, lock_mask, lock_slate, &context, locked, j);
}

/// Each change output of a payment that is being recorded is saved in the account of the
/// context, for the key of its place, not confirmed yet, at the height of the slate, and
/// with the number of the log entry. Its amount and commitment are those of the last
/// place that has its key: its own, where no later one has.
pub proof fn law_change_is_saved<T, K>(
    wallet: &mut T,
    keychain_mask: Option<&SecretKey>,
    slate: &Slate,
    context: &Context,
    result: Result<(), Error>,
    i: int,
    last: int,
) where T: WalletBackend<K>, K: Keychain
    requires
        call_ensures(lock_tx_context::<T, K>, (wallet, keychain_mask, slate, context), result),
        0 <= i < context.output_ids@.len(),
        final(wallet).exchanges().len() - old(wallet).exchanges().len() > context.output_ids@.len()
            + 3 + 2 * context.input_ids@.len() + i,
        0 <= last < context.output_ids@.len(),
        context.output_ids@[last].0 == context.output_ids@[i].0,
        forall|k: int|
            last < k < context.output_ids@.len() ==> (#[trigger] context.output_ids@[k]).0
                != context.output_ids@[i].0,
    ensures
        ({
            let h = final(wallet).exchanges().skip(old(wallet).exchanges().len() as int);
            let head = context.output_ids@.len() as int;
            let key_id = context.output_ids@[i].0;
            let at = head + 3 + 2 * context.input_ids@.len() + i;
            &&& h[at].request matches Request::Save { output }
            &&& h[last].reply matches Reply::Commitment(commit)
            &&& h[head + 2].reply matches Reply::LogId(log_id)
            &&& output.root_key_id == context.parent_key_id
            &&& output.key_id == key_id
            &&& output.n_child == key_id.last_index()
            &&& output.commit == commit
            &&& output.mmr_index is None
            &&& output.value == context.output_ids@[last].2
            &&& output.status == OutputStatus::Unconfirmed
            &&& output.height == slate.height
            &&& output.lock_height == 0
            &&& !output.is_coinbase
            &&& output.tx_log_entry == Some(log_id)
        }),
{
    law_recording_asks(wallet, keychain_mask, slate, context, result);
    let h = final(wallet).exchanges().skip(old(wallet).exchanges().len() as int);
    let mask = match keychain_mask {
        Some(key) => Some(*key),
        None => None,
    };
    let outs = context.output_ids@;
    let head = outs.len() as int;
    let at = head + 3 + 2 * context.input_ids@.len() + i;
    lemma_lock_place(*slate, *context, mask, h, last);
    lemma_lock_place(*slate, *context, mask, h, head + 2);
    lemma_lock_place(*slate, *context, mask, h, at);
    assert(is_last_entry(outs, outs[i].0, last));
    let found = last_entry(outs, outs[i].0);
    assert(is_last_entry(outs, outs[i].0, found));
    assert(found == last);
}

/// The log entry of a payment that is being recorded says that the account of the context made
/// it: how many outputs it spends and adds, what those that were locked and those that
/// were saved are worth, the fee, the messages, the height and the identifier of the
/// slate, the file of the transaction, and the payment proof, if there is one.
#[verifier::rlimit(40)]
pub proof fn law_payment_is_logged<T, K>(
    wallet: &mut T,
    keychain_mask: Option<&SecretKey>,
    slate: &Slate,
    context: &Context,
    result: Result<(), Error>,
) where T: WalletBackend<K>, K: Keychain
    requires
        call_ensures(lock_tx_context::<T, K>, (wallet, keychain_mask, slate, context), result),
        final(wallet).exchanges().len() - old(wallet).exchanges().len() > context.output_ids@.len()
            + 3 + 2 * context.input_ids@.len() + context.output_ids@.len(),
    ensures
        ({
            let h = final(wallet).exchanges().skip(old(wallet).exchanges().len() as int);
            let outs = context.output_ids@;
            let ins = context.input_ids@;
            let head = outs.len() as int;
            let tail = head + 3 + 2 * ins.len() + outs.len();
            let locked = Seq::new(
                ins.len(),
                |j: int| h[head + 3 + 2 * j + 1].request->LockOutput_output,
            );
            let saved = Seq::new(
                outs.len(),
                |i: int| h[head + 3 + 2 * ins.len() + i].request->Save_output,
            );
            &&& h[tail].request matches Request::SaveTxLogEntry { entry, parent_key_id }
            &&& h[head].reply matches Reply::Keychain(keychain)
            &&& h[head + 2].reply matches Reply::LogId(log_id)
            &&& parent_key_id == context.parent_key_id
            &&& entry.parent_key_id == context.parent_key_id
            &&& entry.id == log_id
            &&& entry.tx_slate_id == Some(slate.id@)
            &&& entry.tx_type == TxLogEntryType::TxSent
            &&& entry.num_inputs == ins.len()
            &&& entry.num_outputs == outs.len()
            &&& entry.amount_debited == total(locked)
            &&& entry.amount_credited == total(saved)
            &&& entry.fee == Some(slate.fee)
            &&& entry.messages == Some(slate.messages@)
            &&& entry.stored_tx == Some(slate.id@ + ".grintx"@)
            &&& match keychain.excess(*slate) {
                Ok(excess) => entry.kernel_excess == Some(excess),
                Err(_) => entry.kernel_excess is None,
            }
            &&& entry.kernel_lookup_min_height == Some(slate.height)
            &&& match slate.payment_proof {
                None => entry.payment_proof is None,
                Some(asked) => {
                    &&& entry.payment_proof matches Some(kept)
                    &&& kept.receiver_address == asked.receiver_address
                    &&& kept.receiver_signature == asked.receiver_signature
                    &&& context.payment_proof_derivation_index == Some(kept.sender_address_path)
                    &&& kept.sender_signature is None
                },
            }
        }),
{
    law_recording_asks(wallet, keychain_mask, slate, context, result);
    let h = final(wallet).exchanges().skip(old(wallet).exchanges().len() as int);
    let mask = match keychain_mask {
        Some(key) => Some(*key),
        None => None,
    };
    let outs = context.output_ids@;
    let ins = context.input_ids@;
    let head = outs.len() as int;
    let tail = head + 3 + 2 * ins.len() + outs.len();
    let locked = Seq::new(
        ins.len(),
        |j: int| h[head + 3 + 2 * j + 1].request->LockOutput_output,
    );
    let saved = Seq::new(
        outs.len(),
        |i: int| h[head + 3 + 2 * ins.len() + i].request->Save_output,
    );
    lemma_lock_place(*slate, *context, mask, h, head);
    lemma_lock_place(*slate, *context, mask, h, head + 2);
    lemma_lock_place(*slate, *context, mask, h, tail);
    law_entry_matches_outputs(*slate, *context, mask, h);
    assert(locked =~= locked_outputs(*context, h));
    assert(saved =~= saved_outputs(*context, h));
}

/// A payment that is not recorded leaves nothing half done: the batch is not committed,
/// unless all that is missing is to store the transaction. Where the store refused
/// something, that is the reason.
#[verifier::rlimit(40)]
pub proof fn law_not_recorded<T, K>(
    wallet: &mut T,
    keychain_mask: Option<&SecretKey>,
    slate: &Slate,
    context: &Context,
    result: Result<(), Error>,
) where T: WalletBackend<K>, K: Keychain
    requires
        call_ensures(lock_tx_context::<T, K>, (wallet, keychain_mask, slate, context), result),
        result is Err,
    ensures
        ({
            let h = final(wallet).exchanges().skip(old(wallet).exchanges().len() as int);
            let last = h.len() - 1;
            &&& h.len() > 0
            &&& forall|i: int|
                0 <= i < h.len() && (#[trigger] h[i]).request is Commit && !(h[i].reply is Refused)
                    ==> i == last - 1 && h[last].request is StoreTx
            &&& result matches Err(e)
            &&& h[last].reply is Refused ==> h[last].reply == Reply::<K>::Refused(e)
        }),
{
    law_recording_asks(wallet, keychain_mask, slate, context, result);
    let h = final(wallet).exchanges().skip(old(wallet).exchanges().len() as int);
    let mask = match keychain_mask {
        Some(key) => Some(*key),
        None => None,
    };
    let last = h.len() - 1;
    if h.len() == 0 {
        assert(lock_request(*slate, *context, mask, h) is Some);
    }
    assert forall|i: int|
        0 <= i < h.len() && (#[trigger] h[i]).request is Commit && !(h[i].reply is Refused)
            implies i == last - 1 && h[last].request is StoreTx by {
        lemma_lock_place(*slate, *context, mask, h, i);
    }
}

/// A payment that is not recorded, though the store refused nothing, is one whose inputs, as
/// far as they were read, are worth more than 64 bits hold; or one whose slate asks for a
/// payment proof that the context has no derivation index for, which is found once all
/// inputs are locked.
#[verifier::rlimit(40)]
pub proof fn law_why_not_recorded<T, K>(
    wallet: &mut T,
    keychain_mask: Option<&SecretKey>,
    slate: &Slate,
    context: &Context,
    result: Result<(), Error>,
) where T: WalletBackend<K>, K: Keychain
    requires
        call_ensures(lock_tx_context::<T, K>, (wallet, keychain_mask, slate, context), result),
        result is Err,
        !(final(wallet).exchanges().last().reply is Refused),
    ensures
        ({
            let h = final(wallet).exchanges().skip(old(wallet).exchanges().len() as int);
            let ins = context.input_ids@;
            let head = context.output_ids@.len() as int;
            let last = h.len() - 1;
            let count = (last - head - 1) / 2;
            let read = Seq::new(count as nat, |j: int| h[head + 3 + 2 * j].reply->Output_0);
            &&& result matches Err(e)
            &&& {
                ||| {
                    &&& e is AmountOverflow
                    &&& last == head + 3 + 2 * (count - 1)
                    &&& 0 < count <= ins.len()
                    &&& total(read) > u64::MAX
                    &&& total(read.drop_last()) <= u64::MAX
                }
                ||| {
                    &&& e matches Error::PaymentProof(reason)
                    &&& reason@ == "Payment proof derivation index required"@
                    &&& slate.payment_proof is Some
                    &&& context.payment_proof_derivation_index is None
                    &&& h.len() == head + 3 + 2 * ins.len()
                }
            }
        }),
{
    law_not_recorded(wallet, keychain_mask, slate, context, result);
    let h = final(wallet).exchanges().skip(old(wallet).exchanges().len() as int);
    let mask = match keychain_mask {
        Some(key) => Some(*key),
        None => None,
    };
    let ins = context.input_ids@;
    let head = context.output_ids@.len() as int;
    let n = h.len() as int;
    let last = n - 1;
    assert(h[last] == final(wallet).exchanges().last());
    lemma_lock_place(*slate, *context, mask, h, last);
    if n < head + 3 + 2 * ins.len() {
        let count = (last - head - 1) / 2;
        let read = Seq::new(count as nat, |j: int| h[head + 3 + 2 * j].reply->Output_0);
        assert(n > head + 2);
        assert((n - head - 3) % 2 == 1);
        assert(count == (n - head - 3) / 2 + 1);
        assert(coins_read(h, head + 3, count) =~= read);
        if count > 1 {
            lemma_lock_place(*slate, *context, mask, h, last - 1);
            assert((last - 1 - head - 3) % 2 == 1);
            assert((last - 1 - head - 3) / 2 == count - 2);
            assert(coins_read(h.take(last - 1), head + 3, count - 1) =~= read.drop_last());
        } else {
            assert(read.drop_last().len() == 0);
        }
    }
}

} // verus!
