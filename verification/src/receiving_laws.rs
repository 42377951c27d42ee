//! What a call of `build_recipient_output` does.
use crate::error::Error;
use crate::keys::{group_order, number};
use crate::receive::{build_recipient_output, receive_request};
use crate::slate::Slate;
use crate::types::{
    BlindingFactor, Context, ContextEntry, Identifier, OutputStatus, SecretKey, TxLogEntryType,
};
use crate::wallet::{fits, so_far, Exchange, Keychain, Reply, Request, TxElement, WalletBackend};
use vstd::prelude::*;

verus! {

/// What was exchanged at a place, in a conversation that receives a payment.
proof fn lemma_receive_place<K: Keychain>(
    slate: Slate,
    parent_key_id: Identifier,
    mask: Option<SecretKey>,
    h: Seq<Exchange<K>>,
    i: int,
)
    requires
        so_far(|h: Seq<Exchange<K>>| receive_request(slate, parent_key_id, mask, h), h),
        0 <= i < h.len(),
    ensures
        receive_request(slate, parent_key_id, mask, h.take(i)) == Some(h[i].request),
        fits(h[i]),
        i + 1 < h.len() ==> !(h[i].reply is Refused),
{
    let script = |h: Seq<Exchange<K>>| receive_request(slate, parent_key_id, mask, h);
    assert(script(h.take(i)) == Some(h[i].request));
    if i + 1 < h.len() {
        assert(script(h.take(i + 1)) is Some);
        assert(h.take(i + 1).last() == h[i]);
    }
}

/// Receiving a payment asks the store for a key and the keychain, and for the commitment of
/// an output for that key, worth the amount of the slate. In a batch, that output is saved
/// in the account that was named, not confirmed yet, at the height of the slate; and a log
/// entry of the same number that credits the same amount. The batch is committed last. A
/// refusal ends it.
#[verifier::rlimit(40)]
pub proof fn law_receiving_asks<T, K>(
    wallet: &mut T,
    keychain_mask: Option<&SecretKey>,
    slate: &mut Slate,
    parent_key_id: Identifier,
    use_test_rng: bool,
    result: Result<(Identifier, Context), Error>,
) where T: WalletBackend<K>, K: Keychain
    requires
        call_ensures(
            build_recipient_output::<T, K>,
            (wallet, keychain_mask, slate, parent_key_id, use_test_rng),
            result,
        ),
    ensures
        ({
            let start = old(wallet).exchanges();
            let h = final(wallet).exchanges().skip(start.len() as int);
            let mask = match keychain_mask {
                Some(key) => Some(*key),
                None => None,
            };
            let amount = old(slate).amount;
            let key_id = h[0].reply->Key_0;
            let keychain = h[1].reply->Keychain_0;
            let commit = h[3].reply->Commitment_0;
            let log_id = h[5].reply->LogId_0;
            &&& final(wallet).exchanges() == start + h
            &&& 1 <= h.len() <= 9
            &&& forall|i: int| 0 <= i < h.len() - 1 ==> !((#[trigger] h[i]).reply is Refused)
            &&& h[0].request == (Request::NextChild { mask })
            &&& h.len() > 1 ==> h[0].reply is Key && h[1].request == (Request::Keychain { mask })
            &&& h.len() > 2 ==> h[1].reply is Keychain && h[2].request == (Request::Keychain {
                mask,
            })
            &&& h.len() > 3 ==> h[3].request == (Request::CalcCommit { mask, amount, key_id })
            &&& h.len() > 4 ==> h[3].reply is Commitment && h[4].request == (Request::Batch {
                mask,
            })
            &&& h.len() > 5 ==> h[5].request == (Request::NextTxLogId { parent_key_id })
            &&& h.len() > 6 ==> {
                &&& h[5].reply is LogId
                &&& h[6].request matches Request::Save { output }
                &&& output.root_key_id == parent_key_id
                &&& output.key_id == key_id
                &&& output.n_child == key_id.last_index()
                &&& output.commit == commit
                &&& output.mmr_index is None
                &&& output.value == amount
                &&& output.status == OutputStatus::Unconfirmed
                &&& output.height == old(slate).height
                &&& output.lock_height == 0
                &&& !output.is_coinbase
                &&& output.tx_log_entry == Some(log_id)
            }
            &&& h.len() > 7 ==> {
                &&& h[7].request matches Request::SaveTxLogEntry { entry, parent_key_id: of }
                &&& of == parent_key_id
                &&& entry.parent_key_id == parent_key_id
                &&& entry.id == log_id
                &&& entry.tx_slate_id == Some(old(slate).id@)
                &&& entry.tx_type == TxLogEntryType::TxReceived
                &&& entry.num_inputs == 0
                &&& entry.num_outputs == 1
                &&& entry.amount_credited == amount
                &&& entry.amount_debited == 0
                &&& entry.fee is None
                &&& entry.messages == Some(old(slate).messages@)
                &&& entry.stored_tx is None
                &&& match keychain.excess(*final(slate)) {
                    Ok(excess) => entry.kernel_excess == Some(excess),
                    Err(_) => entry.kernel_excess is None,
                }
                &&& entry.kernel_lookup_min_height == Some(old(slate).height)
                &&& entry.payment_proof is None
            }
            &&& h.len() > 8 ==> h[8].request is Commit
        }),
{
    let start = old(wallet).exchanges();
    let h = final(wallet).exchanges().skip(start.len() as int);
    let mask = match keychain_mask {
        Some(key) => Some(*key),
        None => None,
    };
    assert forall|i: int| 0 <= i < h.len() - 1 implies !((#[trigger] h[i]).reply is Refused) by {
        lemma_receive_place(*final(slate), parent_key_id, mask, h, i);
    }
    lemma_receive_place(*final(slate), parent_key_id, mask, h, h.len() - 1);
    if h.len() > 0 {
        lemma_receive_place(*final(slate), parent_key_id, mask, h, 0);
    }
    if h.len() > 1 {
        lemma_receive_place(*final(slate), parent_key_id, mask, h, 1);
    }
    if h.len() > 2 {
        lemma_receive_place(*final(slate), parent_key_id, mask, h, 2);
    }
    if h.len() > 3 {
        lemma_receive_place(*final(slate), parent_key_id, mask, h, 3);
    }
    if h.len() > 4 {
        lemma_receive_place(*final(slate), parent_key_id, mask, h, 4);
    }
    if h.len() > 5 {
        lemma_receive_place(*final(slate), parent_key_id, mask, h, 5);
    }
    if h.len() > 6 {
        lemma_receive_place(*final(slate), parent_key_id, mask, h, 6);
    }
    if h.len() > 7 {
        lemma_receive_place(*final(slate), parent_key_id, mask, h, 7);
    }
    if h.len() > 8 {
        lemma_receive_place(*final(slate), parent_key_id, mask, h, 8);
    }
}

/// A payment that is received puts just one output into the transaction, worth the amount
/// of the slate whatever its fee, for the key that the store gave out; nothing else on the
/// slate changes. The same key and amount are kept in the context, for the account that was
/// named and the second participant. Everything was asked for and nothing was refused.
#[verifier::rlimit(40)]
pub proof fn law_received<T, K>(
    wallet: &mut T,
    keychain_mask: Option<&SecretKey>,
    slate: &mut Slate,
    parent_key_id: Identifier,
    use_test_rng: bool,
    result: Result<(Identifier, Context), Error>,
) where T: WalletBackend<K>, K: Keychain
    requires
        call_ensures(
            build_recipient_output::<T, K>,
            (wallet, keychain_mask, slate, parent_key_id, use_test_rng),
            result,
        ),
        result is Ok,
    ensures
        ({
            let start = old(wallet).exchanges();
            let h = final(wallet).exchanges().skip(start.len() as int);
            let amount = old(slate).amount;
            &&& final(wallet).exchanges() == start + h
            &&& h.len() == 9
            &&& forall|i: int| 0 <= i < 9 ==> !((#[trigger] h[i]).reply is Refused)
            // the key and the transaction
            &&& result matches Ok((key_id, context))
            &&& h[0].reply == Reply::<K>::Key(key_id)
            &&& h[1].reply matches Reply::Keychain(keychain)
            &&& exists|blinding: BlindingFactor| #[trigger]
                keychain.builds(
                    *old(slate),
                    seq![TxElement::Output { value: amount, key_id }],
                    Ok((final(slate).tx, blinding)),
                ) && context.sec_key.bytes == blinding.bytes
            &&& final(slate).id == old(slate).id
            &&& final(slate).amount == amount
            &&& final(slate).fee == old(slate).fee
            &&& final(slate).height == old(slate).height
            &&& final(slate).messages == old(slate).messages
            &&& final(slate).payment_proof == old(slate).payment_proof
            // the context
            &&& keychain.draws(use_test_rng, context.sec_nonce)
            &&& context.parent_key_id == parent_key_id
            &&& context.participant_id == 1
            &&& context.fee == 0
            &&& context.payment_proof_derivation_index is None
            &&& context.input_ids@ == Seq::<ContextEntry>::empty()
            &&& context.output_ids@.len() == 1
            &&& context.output_ids@[0].0 == key_id
            &&& context.output_ids@[0].1 is None
            &&& context.output_ids@[0].2 == amount
        }),
{
    let start = old(wallet).exchanges();
    let h = final(wallet).exchanges().skip(start.len() as int);
    let mask = match keychain_mask {
        Some(key) => Some(*key),
        None => None,
    };
    assert forall|i: int| 0 <= i < 9 implies !((#[trigger] h[i]).reply is Refused) by {
        lemma_receive_place(*final(slate), parent_key_id, mask, h, i);
    }
    lemma_receive_place(*final(slate), parent_key_id, mask, h, 0);
    lemma_receive_place(*final(slate), parent_key_id, mask, h, 1);
    lemma_receive_place(*final(slate), parent_key_id, mask, h, 2);
    lemma_receive_place(*final(slate), parent_key_id, mask, h, 3);
    lemma_receive_place(*final(slate), parent_key_id, mask, h, 4);
    lemma_receive_place(*final(slate), parent_key_id, mask, h, 5);
    lemma_receive_place(*final(slate), parent_key_id, mask, h, 6);
    lemma_receive_place(*final(slate), parent_key_id, mask, h, 7);
    lemma_receive_place(*final(slate), parent_key_id, mask, h, 8);
}

/// A payment that is not received is not committed. The reason is the one that the store
/// or the keychain gave, or that the blinding factor of the output stands for no secret
/// key; and the slate is as it was, unless the output was put into its transaction.
#[verifier::rlimit(40)]
pub proof fn law_not_received<T, K>(
    wallet: &mut T,
    keychain_mask: Option<&SecretKey>,
    slate: &mut Slate,
    parent_key_id: Identifier,
    use_test_rng: bool,
    result: Result<(Identifier, Context), Error>,
) where T: WalletBackend<K>, K: Keychain
    requires
        call_ensures(
            build_recipient_output::<T, K>,
            (wallet, keychain_mask, slate, parent_key_id, use_test_rng),
            result,
        ),
        result is Err,
    ensures
        ({
            let start = old(wallet).exchanges();
            let h = final(wallet).exchanges().skip(start.len() as int);
            let key_id = h[0].reply->Key_0;
            let keychain = h[1].reply->Keychain_0;
            let parts = seq![TxElement::Output { value: old(slate).amount, key_id }];
            &&& final(wallet).exchanges() == start + h
            &&& 1 <= h.len() <= 9
            &&& forall|i: int|
                0 <= i < h.len() && (#[trigger] h[i]).request is Commit ==> h[i].reply is Refused
            &&& forall|i: int| 0 <= i < h.len() - 1 ==> !((#[trigger] h[i]).reply is Refused)
            &&& final(slate).id == old(slate).id
            &&& final(slate).amount == old(slate).amount
            &&& final(slate).fee == old(slate).fee
            &&& final(slate).height == old(slate).height
            &&& final(slate).messages == old(slate).messages
            &&& final(slate).payment_proof == old(slate).payment_proof
            &&& h.len() <= 2 ==> final(slate).tx == old(slate).tx
            &&& h.len() > 2 ==> exists|blinding: BlindingFactor| #[trigger]
                keychain.builds(*old(slate), parts, Ok((final(slate).tx, blinding)))
            &&& result matches Err(e)
            &&& h.last().reply is Refused ==> h.last().reply == Reply::<K>::Refused(e)
            &&& !(h.last().reply is Refused) ==> {
                ||| h.len() == 2 && keychain.builds(*old(slate), parts, Err(e))
                ||| h.len() == 3 && e is InvalidSecretKey && exists|blinding: BlindingFactor|
                    #[trigger] keychain.builds(
                        *old(slate),
                        parts,
                        Ok((final(slate).tx, blinding)),
                    ) && number(blinding.bytes@) >= group_order()
            }
        }),
{
    let start = old(wallet).exchanges();
    let h = final(wallet).exchanges().skip(start.len() as int);
    let mask = match keychain_mask {
        Some(key) => Some(*key),
        None => None,
    };
    assert forall|i: int| 0 <= i < h.len() - 1 implies !((#[trigger] h[i]).reply is Refused) by {
        lemma_receive_place(*final(slate), parent_key_id, mask, h, i);
    }
    if h.len() > 0 {
        lemma_receive_place(*final(slate), parent_key_id, mask, h, h.len() - 1);
    }
    assert forall|i: int|
        0 <= i < h.len() && (#[trigger] h[i]).request is Commit implies h[i].reply is Refused by {
        lemma_receive_place(*final(slate), parent_key_id, mask, h, i);
        assert(i == 8);
    }
}

} // verus!
