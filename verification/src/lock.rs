//! Recording a payment that was started.
use crate::error::Error;
use crate::slate::Slate;
use crate::totals::{lemma_total_push, total};
use crate::types::{
    blank_entry, pending_output, Context, ContextEntry, Identifier, OutputData, OutputStatus,
    SecretKey, StoredProofInfo, TxLogEntry, TxLogEntryType, TxLogEntryView,
};
use crate::wallet::{
    added, conversation, lemma_asked, mask_of, refused, refused_with, so_far, Exchange,
    Keychain, Request, WalletBackend,
};
use vstd::prelude::*;
use vstd::string::StringExecFns;

verus! {

/// `i` is the last place at which `entries` holds a key.
pub open spec fn is_last_entry(entries: Seq<ContextEntry>, key_id: Identifier, i: int) -> bool {
    &&& 0 <= i < entries.len()
    &&& entries[i].0 == key_id
    &&& forall|j: int| i < j < entries.len() ==> (#[trigger] entries[j]).0 != key_id
}

/// The last place at which `entries` holds a key.
pub open spec fn last_entry(entries: Seq<ContextEntry>, key_id: Identifier) -> int {
    choose|i: int| is_last_entry(entries, key_id, i)
}

/// What the output at place `i` is saved with: where a key occurs more than once, the
/// amount of its last place.
pub open spec fn saved_amount(entries: Seq<ContextEntry>, i: int) -> u64 {
    entries[last_entry(entries, entries[i].0)].2
}

/// What the first `count` outputs are saved with, together.
pub open spec fn credit(entries: Seq<ContextEntry>, count: int) -> nat
    decreases count,
{
    if count <= 0 {
        0
    } else {
        credit(entries, count - 1) + saved_amount(entries, count - 1) as nat
    }
}

/// The outputs that were read to be locked: the first `count` of those that the
/// exchanges from `first` on speak of.
pub open spec fn coins_read<K>(h: Seq<Exchange<K>>, first: int, count: int) -> Seq<OutputData> {
    Seq::new(count as nat, |j: int| h[first + 2 * j].reply->Output_0)
}

/// The slate asks for a payment proof that the context gives no address for.
pub open spec fn lacks_proof_index(slate: Slate, context: Context) -> bool {
    slate.payment_proof is Some && context.payment_proof_derivation_index is None
}

/// The entry of the transaction log for a payment that we make.
pub open spec fn sent_entry<K: Keychain>(
    slate: Slate,
    context: Context,
    keychain: K,
    log_id: u32,
    debited: nat,
) -> TxLogEntryView {
    TxLogEntryView {
        tx_slate_id: Some(slate.id@),
        num_inputs: context.input_ids@.len(),
        num_outputs: context.output_ids@.len(),
        amount_credited: credit(context.output_ids@, context.output_ids@.len() as int),
        amount_debited: debited,
        fee: Some(slate.fee),
        messages: Some(slate.messages@),
        stored_tx: Some(slate.id@ + ".grintx"@),
        kernel_excess: match keychain.excess(slate) {
            Ok(excess) => Some(excess),
            Err(_) => None,
        },
        kernel_lookup_min_height: Some(slate.height),
        payment_proof: match slate.payment_proof {
            Some(proof_info) => Some(
                StoredProofInfo {
                    receiver_address: proof_info.receiver_address,
                    receiver_signature: proof_info.receiver_signature,
                    sender_address_path: context.payment_proof_derivation_index.unwrap(),
                    sender_signature: None,
                },
            ),
            None => None,
        },
        ..blank_entry(context.parent_key_id, TxLogEntryType::TxSent, log_id)
    }
}

/// Where the exchanges of [`lock_tx_context`] begin to speak of the inputs.
pub open spec fn first_get(context: Context) -> int {
    context.output_ids@.len() as int + 3
}

/// Where they begin to speak of the change outputs.
pub open spec fn first_save(context: Context) -> int {
    first_get(context) + 2 * context.input_ids@.len()
}

/// Where they speak of the log entry.
pub open spec fn entry_place(context: Context) -> int {
    first_save(context) + context.output_ids@.len()
}

/// What a wallet is asked for when a payment is recorded.
///
/// The commitments of the change outputs come first, then the keychain, a batch and
/// the number of the log entry. Each input is read, marked with that number and
/// locked. Then the change outputs and the log entry are saved, the batch is
/// committed, and the transaction is stored. A refusal ends it, and so do inputs
/// worth more than 64 bits hold, and a payment proof that cannot be recorded.
pub open spec fn lock_request<K: Keychain>(
    slate: Slate,
    context: Context,
    mask: Option<SecretKey>,
    h: Seq<Exchange<K>>,
) -> Option<Request> {
    let outs = context.output_ids@;
    let ins = context.input_ids@;
    let n = h.len() as int;
    let keychain = h[outs.len() as int].reply->Keychain_0;
    let log_id = h[outs.len() as int + 2].reply->LogId_0;
    let j = (n - first_get(context)) / 2;
    let i = n - first_save(context);
    if refused(h) {
        None
    } else if n < outs.len() {
        Some(Request::CalcCommit { mask, amount: outs[n].2, key_id: outs[n].0 })
    } else if n == outs.len() {
        Some(Request::Keychain { mask })
    } else if n == outs.len() + 1 {
        Some(Request::Batch { mask })
    } else if n == outs.len() + 2 {
        Some(Request::NextTxLogId { parent_key_id: context.parent_key_id })
    } else if n < first_save(context) {
        if (n - first_get(context)) % 2 == 0 {
            Some(Request::Get { key_id: ins[j].0, mmr_index: ins[j].1 })
        } else if total(coins_read(h, first_get(context), j + 1)) <= u64::MAX {
            Some(
                Request::LockOutput {
                    output: OutputData {
                        tx_log_entry: Some(log_id),
                        ..h.last().reply->Output_0
                    },
                },
            )
        } else {
            None
        }
    } else if lacks_proof_index(slate, context) {
        None
    } else if n < entry_place(context) {
        let commit = h[last_entry(outs, outs[i].0)].reply->Commitment_0;
        Some(
            Request::Save {
                output: pending_output(
                    context.parent_key_id,
                    outs[i].0,
                    commit,
                    saved_amount(outs, i),
                    slate.height,
                    log_id,
                ),
            },
        )
    } else if n == entry_place(context) {
        let debited = total(coins_read(h, first_get(context), ins.len() as int));
        Some(
            Request::SaveTxLogEntry {
                entry: sent_entry(slate, context, keychain, log_id, debited),
                parent_key_id: context.parent_key_id,
            },
        )
    } else if n == entry_place(context) + 1 {
        Some(Request::Commit)
    } else if n == entry_place(context) + 2 {
        Some(Request::StoreTx { id: slate.id@, tx: slate.tx@ })
    } else {
        None
    }
}

/// How recording a payment ended, after the exchanges `h`.
pub open spec fn lock_outcome<K>(
    context: Context,
    h: Seq<Exchange<K>>,
    result: Result<(), Error>,
) -> bool {
    if refused(h) {
        result matches Err(e) && refused_with(h, e)
    } else if h.len() < first_save(context) {
        result matches Err(e) && e is AmountOverflow
    } else if h.len() < entry_place(context) + 3 {
        result matches Err(e) && e matches Error::PaymentProof(reason) && reason@
            == "Payment proof derivation index required"@
    } else {
        result is Ok
    }
}

/// Finds the last place of a key.
fn find_last(entries: &Vec<ContextEntry>, key_id: &Identifier) -> (found: usize)
    requires
        exists|i: int| 0 <= i < entries.len() && (#[trigger] entries[i]).0 == *key_id,
    ensures
        found < entries.len(),
        found == last_entry(entries@, *key_id),
{
    let mut i: usize = entries.len();
    while i > 0
        invariant
            i <= entries.len(),
            exists|k: int| 0 <= k < entries.len() && (#[trigger] entries[k]).0 == *key_id,
            forall|k: int| i <= k < entries.len() ==> (#[trigger] entries[k]).0 != *key_id,
        decreases i,
    {
        i = i - 1;
        if entries[i].0 == *key_id {
            proof {
                assert(is_last_entry(entries@, *key_id, i as int));
                let other = last_entry(entries@, *key_id);
                assert(is_last_entry(entries@, *key_id, other));
            }
            return i;
        }
    }
    assert(false);
    0
}

/// Locks all corresponding outputs in the context, creates
/// change outputs and tx log entry.
#[verifier::rlimit(30)]
pub fn lock_tx_context<T, K>(
    wallet: &mut T,
    keychain_mask: Option<&SecretKey>,
    slate: &Slate,
    context: &Context,
) -> (result: Result<(), Error>) where T: WalletBackend<K>, K: Keychain
    requires
        credit(context.output_ids@, context.output_ids@.len() as int) <= u64::MAX,
    ensures
        ({
            let h = added(old(wallet).exchanges(), final(wallet).exchanges());
            &&& final(wallet).exchanges() == old(wallet).exchanges() + h
            &&& conversation(
                |h: Seq<Exchange<K>>| lock_request(*slate, *context, mask_of(keychain_mask), h),
                h,
            )
            &&& lock_outcome(*context, h, result)
        }),
{
    let outputs = &context.output_ids;
    let lock_inputs = &context.input_ids;
    let ghost outs = outputs@;
    let ghost ins = lock_inputs@;
    let ghost start = old(wallet).exchanges();
    let ghost mask = mask_of(keychain_mask);
    let ghost script = |h: Seq<Exchange<K>>| lock_request(*slate, *context, mask, h);
    let ghost mut h = Seq::<Exchange<K>>::empty();
    assert(wallet.exchanges() =~= start + h);

    // Store cached commits before locking wallet
    let mut output_commits: Vec<Option<String>> = Vec::new();
    let mut i: usize = 0;
    while i < outputs.len()
        invariant
            i <= outputs.len(),
            outputs == context.output_ids,
            outs == outputs@,
            mask == mask_of(keychain_mask),
            script == |h: Seq<Exchange<K>>| lock_request(*slate, *context, mask, h),
            start == old(wallet).exchanges(),
            wallet.exchanges() == start + h,
            so_far(script, h),
            !refused(h),
            h.len() == i,
            output_commits.len() == i,
            forall|j: int|
                0 <= j < i ==> (#[trigger] h[j]).reply->Commitment_0 == output_commits[j],
        decreases outputs.len() - i,
    {
        let reply = wallet.calc_commit_for_cache(keychain_mask, outputs[i].2, &outputs[i].0);
        proof {
            lemma_asked(script, start, h, wallet.exchanges());
            h = h.push(wallet.exchanges().last());
        }
        match reply {
            Ok(commit) => output_commits.push(commit),
            Err(e) => {
                return Err(e);
            },
        }
        i = i + 1;
    }

    let reply = wallet.keychain(keychain_mask);
    proof {
        lemma_asked(script, start, h, wallet.exchanges());
        h = h.push(wallet.exchanges().last());
    }
    let keychain = match reply {
        Ok(keychain) => keychain,
        Err(e) => {
            return Err(e);
        },
    };

    let messages = slate.participant_messages();
    let parent_key_id = context.parent_key_id;
    let reply = wallet.batch(keychain_mask);
    proof {
        lemma_asked(script, start, h, wallet.exchanges());
        h = h.push(wallet.exchanges().last());
    }
    match reply {
        Ok(()) => {},
        Err(e) => {
            return Err(e);
        },
    }
    let reply = wallet.next_tx_log_id(&parent_key_id);
    proof {
        lemma_asked(script, start, h, wallet.exchanges());
        h = h.push(wallet.exchanges().last());
    }
    let log_id: u32 = match reply {
        Ok(log_id) => log_id,
        Err(e) => {
            return Err(e);
        },
    };
    let mut t = TxLogEntry::new(parent_key_id, TxLogEntryType::TxSent, log_id);
    t.tx_slate_id = Some(slate.id.clone());
    let filename = slate.id.clone().concat(".grintx");
    t.stored_tx = Some(filename);
    t.fee = Some(slate.fee);
    match slate.calc_excess(&keychain) {
        Ok(excess) => {
            t.kernel_excess = Some(excess);
        },
        Err(_) => {},
    }
    t.kernel_lookup_min_height = Some(slate.height);

    let ghost first = first_get(*context);
    let mut amount_debited: u64 = 0;
    t.num_inputs = lock_inputs.len();
    let mut i: usize = 0;
    assert(coins_read(h, first, 0) =~= Seq::<OutputData>::empty());
    while i < lock_inputs.len()
        invariant
            i <= lock_inputs.len(),
            outputs == context.output_ids,
            outs == outputs@,
            lock_inputs == context.input_ids,
            ins == lock_inputs@,
            mask == mask_of(keychain_mask),
            script == |h: Seq<Exchange<K>>| lock_request(*slate, *context, mask, h),
            start == old(wallet).exchanges(),
            wallet.exchanges() == start + h,
            so_far(script, h),
            !refused(h),
            first == first_get(*context),
            h.len() == first + 2 * i,
            output_commits.len() == outs.len(),
            forall|j: int|
                0 <= j < outs.len() ==> (#[trigger] h[j]).reply->Commitment_0
                    == output_commits[j],
            h[outs.len() as int].reply->Keychain_0 == keychain,
            h[outs.len() as int + 2].reply->LogId_0 == log_id,
            amount_debited == total(coins_read(h, first, i as int)),
        decreases lock_inputs.len() - i,
    {
        let ghost before = h;
        let reply = wallet.get(&lock_inputs[i].0, &lock_inputs[i].1);
        proof {
            lemma_asked(script, start, h, wallet.exchanges());
            h = h.push(wallet.exchanges().last());
        }
        let mut coin = match reply {
            Ok(coin) => coin,
            Err(e) => {
                return Err(e);
            },
        };
        coin.tx_log_entry = Some(log_id);
        proof {
            assert(coins_read(h, first, i + 1) =~= coins_read(before, first, i as int).push(
                h.last().reply->Output_0,
            ));
            lemma_total_push(coins_read(before, first, i as int), h.last().reply->Output_0);
        }
        amount_debited = match amount_debited.checked_add(coin.value) {
            Some(sum) => sum,
            None => {
                return Err(Error::AmountOverflow);
            },
        };
        let ghost read = h;
        let reply = wallet.lock_output(&mut coin);
        proof {
            lemma_asked(script, start, h, wallet.exchanges());
            h = h.push(wallet.exchanges().last());
            assert(coins_read(h, first, i + 1) =~= coins_read(read, first, i + 1));
        }
        match reply {
            Ok(()) => {},
            Err(e) => {
                return Err(e);
            },
        }
        i = i + 1;
    }

    t.amount_debited = amount_debited;
    t.messages = Some(messages);

    // store extra payment proof info, if required
    match slate.payment_proof {
        Some(proof_info) => {
            let sender_address_path: u32 = match context.payment_proof_derivation_index {
                Some(index) => index,
                None => {
                    assert(added(start, wallet.exchanges()) =~= h);
                    return Err(
                        Error::PaymentProof(
                            "Payment proof derivation index required".to_owned(),
                        ),
                    );
                },
            };
            t.payment_proof = Some(
                StoredProofInfo {
                    receiver_address: proof_info.receiver_address,
                    receiver_signature: proof_info.receiver_signature,
                    sender_address_path,
                    sender_signature: None,
                },
            );
        },
        None => {},
    }

    // write the output representing our change
    let ghost debited = amount_debited as nat;
    let ghost locked = h;
    let mut i: usize = 0;
    while i < outputs.len()
        invariant
            i <= outputs.len(),
            outputs == context.output_ids,
            outs == outputs@,
            ins == context.input_ids@,
            parent_key_id == context.parent_key_id,
            mask == mask_of(keychain_mask),
            script == |h: Seq<Exchange<K>>| lock_request(*slate, *context, mask, h),
            start == old(wallet).exchanges(),
            wallet.exchanges() == start + h,
            so_far(script, h),
            !refused(h),
            !lacks_proof_index(*slate, *context),
            h.len() == first_save(*context) + i,
            locked.len() == first_save(*context),
            h.take(locked.len() as int) == locked,
            output_commits.len() == outs.len(),
            forall|j: int|
                0 <= j < outs.len() ==> (#[trigger] locked[j]).reply->Commitment_0
                    == output_commits[j],
            locked[outs.len() as int + 2].reply->LogId_0 == log_id,
            credit(outs, outs.len() as int) <= u64::MAX,
            t@ == (TxLogEntryView {
                num_outputs: i as nat,
                amount_credited: credit(outs, i as int),
                ..sent_entry(*slate, *context, keychain, log_id, debited)
            }),
        decreases outputs.len() - i,
    {
        t.num_outputs = t.num_outputs + 1;
        let id = outputs[i].0;
        assert(outputs[i as int].0 == id);
        let place = find_last(outputs, &id);
        let commit = match &output_commits[place] {
            Some(commit) => Some(commit.clone()),
            None => None,
        };
        let change_amount: u64 = outputs[place].2;
        proof {
            lemma_credit_monotone(outs, i + 1, outs.len() as int);
            assert(h[place as int] == locked[place as int]);
            assert(h[outs.len() as int + 2] == locked[outs.len() as int + 2]);
        }
        t.amount_credited = t.amount_credited + change_amount;
        let reply = wallet.save(
            OutputData {
                root_key_id: parent_key_id,
                key_id: id,
                n_child: id.last_path_index(),
                commit,
                mmr_index: None,
                value: change_amount,
                status: OutputStatus::Unconfirmed,
                height: slate.height,
                lock_height: 0,
                is_coinbase: false,
                tx_log_entry: Some(log_id),
            },
        );
        proof {
            lemma_asked(script, start, h, wallet.exchanges());
            h = h.push(wallet.exchanges().last());
            assert(h.take(locked.len() as int) =~= locked);
        }
        match reply {
            Ok(()) => {},
            Err(e) => {
                return Err(e);
            },
        }
        i = i + 1;
    }
    proof {
        assert(coins_read(h, first, ins.len() as int) =~= coins_read(
            locked,
            first,
            ins.len() as int,
        )) by {
            assert(forall|j: int|
                0 <= j < locked.len() ==> h[j] == #[trigger] h.take(locked.len() as int)[j]);
        }
        assert(h[outs.len() as int] == locked[outs.len() as int]) by {
            assert(h.take(locked.len() as int)[outs.len() as int] == h[outs.len() as int]);
        }
        assert(h[outs.len() as int + 2] == locked[outs.len() as int + 2]) by {
            assert(h.take(locked.len() as int)[outs.len() as int + 2] == h[outs.len() as int + 2]);
        }
    }
    let reply = wallet.save_tx_log_entry(t, &parent_key_id);
    proof {
        lemma_asked(script, start, h, wallet.exchanges());
        h = h.push(wallet.exchanges().last());
    }
    match reply {
        Ok(()) => {},
        Err(e) => {
            return Err(e);
        },
    }
    let reply = wallet.commit();
    proof {
        lemma_asked(script, start, h, wallet.exchanges());
        h = h.push(wallet.exchanges().last());
    }
    match reply {
        Ok(()) => {},
        Err(e) => {
            return Err(e);
        },
    }
    let reply = wallet.store_tx(&slate.id, &slate.tx);
    proof {
        lemma_asked(script, start, h, wallet.exchanges());
        h = h.push(wallet.exchanges().last());
    }
    reply
}

/// More outputs are credited with no less.
proof fn lemma_credit_monotone(entries: Seq<ContextEntry>, i: int, j: int)
    requires
        i <= j,
    ensures
        credit(entries, i) <= credit(entries, j),
    decreases j - i,
{
    if i < j {
        lemma_credit_monotone(entries, i, j - 1);
    }
}

} // verus!
