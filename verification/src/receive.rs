//! Receiving a payment.
use crate::error::Error;
use crate::keys::secret_key;
use crate::send::built;
use crate::slate::Slate;
use crate::types::{
    blank_entry, pending_output, Context, ContextEntry, Identifier, OutputData, OutputStatus,
    SecretKey, TxLogEntry, TxLogEntryType, TxLogEntryView,
};
use crate::wallet::{
    added, fits, lemma_asked, mask_of, next_available_key, refused, refused_with, so_far, Exchange,
    Keychain, Request, TxElement, WalletBackend,
};
use vstd::prelude::*;

verus! {

/// The entry of the transaction log for a payment that we receive.
pub open spec fn received_entry<K: Keychain>(
    slate: Slate,
    parent_key_id: Identifier,
    keychain: K,
    log_id: u32,
) -> TxLogEntryView {
    TxLogEntryView {
        tx_slate_id: Some(slate.id@),
        amount_credited: slate.amount as nat,
        num_outputs: 1,
        messages: Some(slate.messages@),
        kernel_excess: match keychain.excess(slate) {
            Ok(excess) => Some(excess),
            Err(_) => None,
        },
        kernel_lookup_min_height: Some(slate.height),
        ..blank_entry(parent_key_id, TxLogEntryType::TxReceived, log_id)
    }
}

/// What a wallet is asked for when a payment is received, where `slate` already holds
/// the new output: a key and the keychain, twice; the commitment of the output; then,
/// in a batch, the number of the log entry, and to save the output and the entry.
pub open spec fn receive_request<K: Keychain>(
    slate: Slate,
    parent_key_id: Identifier,
    mask: Option<SecretKey>,
    h: Seq<Exchange<K>>,
) -> Option<Request> {
    let key_id = h[0].reply->Key_0;
    let keychain = h[1].reply->Keychain_0;
    let commit = h[3].reply->Commitment_0;
    let log_id = h[5].reply->LogId_0;
    if refused(h) {
        None
    } else if h.len() == 0 {
        Some(Request::NextChild { mask })
    } else if h.len() == 1 {
        Some(Request::Keychain { mask })
    } else if h.len() == 2 {
        Some(Request::Keychain { mask })
    } else if h.len() == 3 {
        Some(Request::CalcCommit { mask, amount: slate.amount, key_id })
    } else if h.len() == 4 {
        Some(Request::Batch { mask })
    } else if h.len() == 5 {
        Some(Request::NextTxLogId { parent_key_id })
    } else if h.len() == 6 {
        Some(
            Request::Save {
                output: pending_output(
                    parent_key_id,
                    key_id,
                    commit,
                    slate.amount,
                    slate.height,
                    log_id,
                ),
            },
        )
    } else if h.len() == 7 {
        Some(
            Request::SaveTxLogEntry {
                entry: received_entry(slate, parent_key_id, keychain, log_id),
                parent_key_id,
            },
        )
    } else if h.len() == 8 {
        Some(Request::Commit)
    } else {
        None
    }
}

/// How receiving a payment ended, after the exchanges `h`: with `result`, and with
/// the slate changed from `before` to `after`.
pub open spec fn receive_outcome<K: Keychain>(
    parent_key_id: Identifier,
    use_test_rng: bool,
    h: Seq<Exchange<K>>,
    before: Slate,
    after: Slate,
    result: Result<(Identifier, Context), Error>,
) -> bool {
    let key_id = h[0].reply->Key_0;
    let keychain = h[1].reply->Keychain_0;
    let elems = seq![TxElement::Output { value: before.amount, key_id }];
    match result {
        Ok((found, context)) => {
            &&& h.len() == 9
            &&& !refused(h)
            &&& after == (Slate { tx: after.tx, ..before })
            &&& found == key_id
            &&& built(keychain, before, elems, after.tx, Some(context.sec_key))
            &&& keychain.draws(use_test_rng, context.sec_nonce)
            &&& context.parent_key_id == parent_key_id
            &&& context.participant_id == 1
            &&& context.fee == 0
            &&& context.payment_proof_derivation_index is None
            &&& context.input_ids@ == Seq::<ContextEntry>::empty()
            &&& context.output_ids@ == seq![(key_id, None::<u64>, before.amount)]
        },
        Err(e) => if refused(h) && h.len() <= 2 {
            // a key or the keychain was refused
            &&& refused_with(h, e)
            &&& after == before
        } else if refused(h) {
            // something later was refused
            &&& refused_with(h, e)
            &&& after == (Slate { tx: after.tx, ..before })
            &&& exists|blinding| #[trigger]
                keychain.builds(before, elems, Ok((after.tx, blinding)))
        } else if h.len() == 2 {
            // the transaction could not be built
            &&& after == before
            &&& keychain.builds(before, elems, Err(e))
        } else {
            // it has no secret key
            &&& h.len() == 3
            &&& e is InvalidSecretKey
            &&& after == (Slate { tx: after.tx, ..before })
            &&& built(keychain, before, elems, after.tx, None)
        },
    }
}

/// Creates a new output in the wallet for the recipient,
/// returning the key of the fresh output.
/// Also puts the output into the transaction of the slate.
pub fn build_recipient_output<T, K>(
    wallet: &mut T,
    keychain_mask: Option<&SecretKey>,
    slate: &mut Slate,
    parent_key_id: Identifier,
    use_test_rng: bool,
) -> (result: Result<(Identifier, Context), Error>) where T: WalletBackend<K>, K: Keychain
    ensures
        ({
            let h = added(old(wallet).exchanges(), final(wallet).exchanges());
            &&& final(wallet).exchanges() == old(wallet).exchanges() + h
            &&& so_far(
                |h: Seq<Exchange<K>>|
                    receive_request(*final(slate), parent_key_id, mask_of(keychain_mask), h),
                h,
            )
            &&& receive_outcome(
                parent_key_id,
                use_test_rng,
                h,
                *old(slate),
                *final(slate),
                result,
            )
        }),
{
    let ghost start = old(wallet).exchanges();
    let ghost before = *old(slate);
    let ghost mask = mask_of(keychain_mask);
    let ghost mut h = Seq::<Exchange<K>>::empty();
    let ghost mut script = |h: Seq<Exchange<K>>| receive_request(before, parent_key_id, mask, h);
    assert(wallet.exchanges() =~= start + h);

    // Create a potential output for this transaction
    let reply = next_available_key(wallet, keychain_mask);
    proof {
        lemma_asked(script, start, h, wallet.exchanges());
        h = h.push(wallet.exchanges().last());
    }
    let key_id = match reply {
        Ok(key_id) => key_id,
        Err(e) => {
            return Err(e);
        },
    };
    let reply = wallet.keychain(keychain_mask);
    proof {
        lemma_asked(script, start, h, wallet.exchanges());
        h = h.push(wallet.exchanges().last());
    }
    let keychain = match reply {
        Ok(keychain) => keychain,
        Err(e) => {
            return Err(e);
        },
    };
    let amount: u64 = slate.amount;
    let height: u64 = slate.height;

    let mut elems: Vec<TxElement> = Vec::new();
    elems.push(TxElement::Output { value: amount, key_id });
    assert(elems@ =~= seq![TxElement::Output { value: before.amount, key_id }]);
    let blinding = match slate.add_transaction_elements(&keychain, elems) {
        Ok(blinding) => blinding,
        Err(e) => {
            return Err(e);
        },
    };
    let ghost after = *slate;
    proof {
        lemma_slate_later(before, after, parent_key_id, mask, h);
        script = |h: Seq<Exchange<K>>| receive_request(after, parent_key_id, mask, h);
    }

    // Add blinding sum to our context
    let reply = wallet.keychain(keychain_mask);
    proof {
        lemma_asked(script, start, h, wallet.exchanges());
        h = h.push(wallet.exchanges().last());
    }
    match reply {
        Ok(_keychain) => {},
        Err(e) => {
            return Err(e);
        },
    }
    let sec_key = match secret_key(&blinding) {
        Some(sec_key) => sec_key,
        None => {
            return Err(Error::InvalidSecretKey);
        },
    };
    let sec_nonce = keychain.create_secnonce(use_test_rng);
    let mut context = Context::new(sec_key, sec_nonce, &parent_key_id, 1);

    context.add_output(&key_id, &None, amount);
    let messages = slate.participant_messages();
    let reply = wallet.calc_commit_for_cache(keychain_mask, amount, &key_id);
    proof {
        lemma_asked(script, start, h, wallet.exchanges());
        h = h.push(wallet.exchanges().last());
    }
    let commit = match reply {
        Ok(commit) => commit,
        Err(e) => {
            return Err(e);
        },
    };
    let reply = wallet.batch(keychain_mask);
    proof {
        lemma_asked(script, start, h, wallet.exchanges());
        h = h.push(wallet.exchanges().last());
    }
    match reply {
        Ok(()) => {},
        Err(e) => {
            return Err(e);
        },
    }
    let reply = wallet.next_tx_log_id(&parent_key_id);
    proof {
        lemma_asked(script, start, h, wallet.exchanges());
        h = h.push(wallet.exchanges().last());
    }
    let log_id: u32 = match reply {
        Ok(log_id) => log_id,
        Err(e) => {
            return Err(e);
        },
    };
    let mut t = TxLogEntry::new(parent_key_id, TxLogEntryType::TxReceived, log_id);
    t.tx_slate_id = Some(slate.id.clone());
    t.amount_credited = amount;
    t.num_outputs = 1;
    t.messages = Some(messages);
    // when invoicing, this will be invalid
    match slate.calc_excess(&keychain) {
        Ok(excess) => {
            t.kernel_excess = Some(excess);
        },
        Err(_) => {},
    }
    t.kernel_lookup_min_height = Some(slate.height);
    let reply = wallet.save(
        OutputData {
            root_key_id: parent_key_id,
            key_id,
            mmr_index: None,
            n_child: key_id.last_path_index(),
            commit,
            value: amount,
            status: OutputStatus::Unconfirmed,
            height,
            lock_height: 0,
            is_coinbase: false,
            tx_log_entry: Some(log_id),
        },
    );
    proof {
        lemma_asked(script, start, h, wallet.exchanges());
        h = h.push(wallet.exchanges().last());
    }
    match reply {
        Ok(()) => {},
        Err(e) => {
            return Err(e);
        },
    }
    let reply = wallet.save_tx_log_entry(t, &parent_key_id);
    proof {
        lemma_asked(script, start, h, wallet.exchanges());
        h = h.push(wallet.exchanges().last());
    }
    match reply {
        Ok(()) => {},
        Err(e) => {
            return Err(e);
        },
    }
    let reply = wallet.commit();
    proof {
        lemma_asked(script, start, h, wallet.exchanges());
        h = h.push(wallet.exchanges().last());
    }
    match reply {
        Ok(()) => {},
        Err(e) => {
            return Err(e);
        },
    }
    Ok((key_id, context))
}

/// The first requests do not depend on the slate.
proof fn lemma_slate_later<K: Keychain>(
    before: Slate,
    after: Slate,
    parent_key_id: Identifier,
    mask: Option<SecretKey>,
    h: Seq<Exchange<K>>,
)
    requires
        h.len() <= 3,
        so_far(|h: Seq<Exchange<K>>| receive_request(before, parent_key_id, mask, h), h),
    ensures
        so_far(|h: Seq<Exchange<K>>| receive_request(after, parent_key_id, mask, h), h),
{
    let first = |h: Seq<Exchange<K>>| receive_request(before, parent_key_id, mask, h);
    let later = |h: Seq<Exchange<K>>| receive_request(after, parent_key_id, mask, h);
    assert forall|i: int| 0 <= i < h.len() implies later(#[trigger] h.take(i)) == Some(
        h[i].request,
    ) && fits(h[i]) by {
        assert(first(h.take(i)) == Some(h[i].request));
    }
}

} // verus!
