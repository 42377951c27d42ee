//! What the payment logic asks of a wallet store and of a keychain.
use crate::error::Error;
use crate::slate::Slate;
use crate::types::{
    BlindingFactor, Commitment, Identifier, OutputData, SecretKey, TxLogEntry, TxLogEntryView,
};
use vstd::prelude::*;

verus! {

/// A part that a transaction is built of.
#[derive(Debug, Clone, Copy, PartialEq, Eq)]
pub enum TxElement {
    /// Spends an output of the wallet.
    Input { value: u64, key_id: Identifier },
    /// Spends a block reward of the wallet.
    CoinbaseInput { value: u64, key_id: Identifier },
    /// Adds an output for a key of the wallet.
    Output { value: u64, key_id: Identifier },
}

/// The keys of a wallet.
///
/// `builds`, `draws` and `excess` tell what the other methods may answer. A keychain
/// that is itself verified defines them; one in plain Rust can leave them out.
pub trait Keychain: Sized {
    /// Adding `elems` to the transaction of `slate` may come out as `built`: the new
    /// transaction and the sum of the blinding factors of what was added.
    open spec fn builds(
        &self,
        slate: Slate,
        elems: Seq<TxElement>,
        built: Result<(Vec<u8>, BlindingFactor), Error>,
    ) -> bool {
        arbitrary()
    }

    /// `nonce` may be drawn; a fixed nonce is drawn where `use_test_rng` is set.
    open spec fn draws(&self, use_test_rng: bool, nonce: SecretKey) -> bool {
        arbitrary()
    }

    /// The excess of the kernel of a slate.
    open spec fn excess(&self, slate: Slate) -> Result<Commitment, Error> {
        arbitrary()
    }

    /// Adds inputs and outputs to the transaction of a slate.
    fn build_elements(&self, slate: &Slate, elems: &Vec<TxElement>) -> (built: Result<
        (Vec<u8>, BlindingFactor),
        Error,
    >)
        ensures
            self.builds(*slate, elems@, built),
    ;

    /// Draws the secret nonce of a signature.
    fn create_secnonce(&self, use_test_rng: bool) -> (nonce: SecretKey)
        ensures
            self.draws(use_test_rng, nonce),
    ;

    /// The excess of the kernel of a slate.
    fn kernel_excess(&self, slate: &Slate) -> (excess: Result<Commitment, Error>)
        ensures
            excess == self.excess(*slate),
    ;
}

/// What a wallet store is asked for.
pub enum Request {
    CalcCommit { mask: Option<SecretKey>, amount: u64, key_id: Identifier },
    NextChild { mask: Option<SecretKey> },
    Keychain { mask: Option<SecretKey> },
    Batch { mask: Option<SecretKey> },
    NextTxLogId { parent_key_id: Identifier },
    Get { key_id: Identifier, mmr_index: Option<u64> },
    LockOutput { output: OutputData },
    Save { output: OutputData },
    SaveTxLogEntry { entry: TxLogEntryView, parent_key_id: Identifier },
    Commit,
    StoreTx { id: Seq<char>, tx: Seq<u8> },
}

/// What a wallet store answers.
pub enum Reply<K> {
    Commitment(Option<String>),
    Key(Identifier),
    Keychain(K),
    LogId(u32),
    Output(OutputData),
    Done,
    Refused(Error),
}

/// A request and what was answered.
pub struct Exchange<K> {
    pub request: Request,
    pub reply: Reply<K>,
}

/// The mask that a reference points to.
pub open spec fn mask_of(mask: Option<&SecretKey>) -> Option<SecretKey> {
    match mask {
        Some(key) => Some(*key),
        None => None,
    }
}

/// The reply that says whether something was done.
pub open spec fn done<K>(result: Result<(), Error>) -> Reply<K> {
    match result {
        Ok(()) => Reply::Done,
        Err(e) => Reply::Refused(e),
    }
}

/// A wallet store. It is asked one thing at a time, and `exchanges` tells what it
/// was asked so far and what it answered.
///
/// What is written goes through a batch: [`WalletBackend::batch`] opens one,
/// [`WalletBackend::commit`] makes everything since then permanent at once, and a
/// batch that is not committed is dropped without effect.
///
/// A store that is itself verified defines `outputs` and `exchanges`; one in plain
/// Rust can leave them out.
pub trait WalletBackend<K: Keychain>: Sized {
    /// The outputs that the store holds.
    open spec fn outputs(&self) -> Seq<OutputData> {
        arbitrary()
    }

    /// What the store was asked and what it answered, the oldest first.
    open spec fn exchanges(&self) -> Seq<Exchange<K>> {
        arbitrary()
    }

    /// Iterate over all output data stored by the backend.
    fn iter(&self) -> (outputs: Vec<OutputData>)
        ensures
            outputs@ == self.outputs(),
    ;

    /// The keychain that this wallet uses. The outputs stay as they are.
    fn keychain(&mut self, mask: Option<&SecretKey>) -> (result: Result<K, Error>)
        ensures
            final(self).outputs() == old(self).outputs(),
            final(self).exchanges() == old(self).exchanges().push(
                (Exchange {
                    request: Request::Keychain { mask: mask_of(mask) },
                    reply: match result {
                        Ok(keychain) => Reply::Keychain(keychain),
                        Err(e) => Reply::Refused(e),
                    },
                }),
            ),
    ;

    /// Commitment of an output, for the cache; `None` where the wallet keeps none. The
    /// outputs stay as they are.
    fn calc_commit_for_cache(
        &mut self,
        mask: Option<&SecretKey>,
        amount: u64,
        key_id: &Identifier,
    ) -> (result: Result<Option<String>, Error>)
        ensures
            final(self).outputs() == old(self).outputs(),
            final(self).exchanges() == old(self).exchanges().push(
                (Exchange {
                    request: Request::CalcCommit { mask: mask_of(mask), amount, key_id: *key_id },
                    reply: match result {
                        Ok(commit) => Reply::Commitment(commit),
                        Err(e) => Reply::Refused(e),
                    },
                }),
            ),
    ;

    /// Next child key of the wallet. The outputs stay as they are.
    fn next_child(&mut self, mask: Option<&SecretKey>) -> (result: Result<Identifier, Error>)
        ensures
            final(self).outputs() == old(self).outputs(),
            final(self).exchanges() == old(self).exchanges().push(
                (Exchange {
                    request: Request::NextChild { mask: mask_of(mask) },
                    reply: match result {
                        Ok(key_id) => Reply::Key(key_id),
                        Err(e) => Reply::Refused(e),
                    },
                }),
            ),
    ;

    /// Opens a batch.
    fn batch(&mut self, mask: Option<&SecretKey>) -> (result: Result<(), Error>)
        ensures
            final(self).exchanges() == old(self).exchanges().push(
                (Exchange {
                    request: Request::Batch { mask: mask_of(mask) },
                    reply: done(result),
                }),
            ),
    ;

    /// Next number in the transaction log of an account.
    fn next_tx_log_id(&mut self, parent_key_id: &Identifier) -> (result: Result<u32, Error>)
        ensures
            final(self).exchanges() == old(self).exchanges().push(
                (Exchange {
                    request: Request::NextTxLogId { parent_key_id: *parent_key_id },
                    reply: match result {
                        Ok(id) => Reply::LogId(id),
                        Err(e) => Reply::Refused(e),
                    },
                }),
            ),
    ;

    /// The output of a key.
    fn get(&mut self, key_id: &Identifier, mmr_index: &Option<u64>) -> (result: Result<
        OutputData,
        Error,
    >)
        ensures
            final(self).exchanges() == old(self).exchanges().push(
                (Exchange {
                    request: Request::Get { key_id: *key_id, mmr_index: *mmr_index },
                    reply: match result {
                        Ok(output) => Reply::Output(output),
                        Err(e) => Reply::Refused(e),
                    },
                }),
            ),
    ;

    /// Saves an output as locked.
    fn lock_output(&mut self, output: &mut OutputData) -> (result: Result<(), Error>)
        ensures
            final(self).exchanges() == old(self).exchanges().push(
                (Exchange {
                    request: Request::LockOutput { output: *old(output) },
                    reply: done(result),
                }),
            ),
    ;

    /// Saves an output.
    fn save(&mut self, output: OutputData) -> (result: Result<(), Error>)
        ensures
            final(self).exchanges() == old(self).exchanges().push(
                (Exchange { request: Request::Save { output }, reply: done(result) }),
            ),
    ;

    /// Saves an entry of the transaction log, stamped with the time.
    fn save_tx_log_entry(&mut self, entry: TxLogEntry, parent_key_id: &Identifier) -> (result:
        Result<(), Error>)
        ensures
            final(self).exchanges() == old(self).exchanges().push(
                (Exchange {
                    request: Request::SaveTxLogEntry {
                        entry: entry@,
                        parent_key_id: *parent_key_id,
                    },
                    reply: done(result),
                }),
            ),
    ;

    /// Writes the batch to the store.
    fn commit(&mut self) -> (result: Result<(), Error>)
        ensures
            final(self).exchanges() == old(self).exchanges().push(
                (Exchange { request: Request::Commit, reply: done(result) }),
            ),
    ;

    /// Stores a transaction under the identifier of its slate.
    fn store_tx(&mut self, id: &String, tx: &Vec<u8>) -> (result: Result<(), Error>)
        ensures
            final(self).exchanges() == old(self).exchanges().push(
                (Exchange {
                    request: Request::StoreTx { id: id@, tx: tx@ },
                    reply: done(result),
                }),
            ),
    ;
}

/// The reply is one that the request asks for, or a refusal.
pub open spec fn fits<K>(exchange: Exchange<K>) -> bool {
    exchange.reply is Refused || match exchange.request {
        Request::CalcCommit { .. } => exchange.reply is Commitment,
        Request::NextChild { .. } => exchange.reply is Key,
        Request::Keychain { .. } => exchange.reply is Keychain,
        Request::NextTxLogId { .. } => exchange.reply is LogId,
        Request::Get { .. } => exchange.reply is Output,
        _ => exchange.reply is Done,
    }
}

/// What was exchanged between two states of a wallet.
pub open spec fn added<K>(before: Seq<Exchange<K>>, after: Seq<Exchange<K>>) -> Seq<Exchange<K>> {
    after.skip(before.len() as int)
}

/// The last request was refused.
pub open spec fn refused<K>(h: Seq<Exchange<K>>) -> bool {
    h.len() > 0 && h.last().reply is Refused
}

/// The last request was refused for the given reason.
pub open spec fn refused_with<K>(h: Seq<Exchange<K>>, error: Error) -> bool {
    h.len() > 0 && h.last().reply == Reply::<K>::Refused(error)
}

/// Every request of `h` is the one that `script` asks for after what went before.
pub open spec fn so_far<K>(
    script: spec_fn(Seq<Exchange<K>>) -> Option<Request>,
    h: Seq<Exchange<K>>,
) -> bool {
    forall|i: int|
        0 <= i < h.len() ==> script(#[trigger] h.take(i)) == Some(h[i].request) && fits(h[i])
}

/// `h` follows `script` to its end.
pub open spec fn conversation<K>(
    script: spec_fn(Seq<Exchange<K>>) -> Option<Request>,
    h: Seq<Exchange<K>>,
) -> bool {
    so_far(script, h) && script(h) is None
}

/// As far as both go, the replies in `g` and in `h` are the same.
pub open spec fn alike<K>(g: Seq<Exchange<K>>, h: Seq<Exchange<K>>) -> bool {
    forall|i: int|
        #![trigger g[i]]
        #![trigger h[i]]
        0 <= i < g.len() && i < h.len() ==> g[i].reply == h[i].reply
}

/// Where a script gets the same replies, it asks for the same.
pub proof fn lemma_alike<K>(
    script: spec_fn(Seq<Exchange<K>>) -> Option<Request>,
    g: Seq<Exchange<K>>,
    h: Seq<Exchange<K>>,
    count: int,
)
    requires
        so_far(script, g),
        so_far(script, h),
        alike(g, h),
        0 <= count <= g.len(),
        count <= h.len(),
    ensures
        g.take(count) == h.take(count),
    decreases count,
{
    if count > 0 {
        let last = count - 1;
        lemma_alike(script, g, h, last);
        assert(script(g.take(last)) == Some(g[last].request));
        assert(script(h.take(last)) == Some(h[last].request));
        assert(g[last] == h[last]);
        assert(g.take(count) =~= g.take(last).push(g[last]));
        assert(h.take(count) =~= h.take(last).push(h[last]));
    } else {
        assert(g.take(count) =~= h.take(count));
    }
}

/// Two conversations that follow the same script and get the same replies are the same.
pub proof fn lemma_same_conversation<K>(
    script: spec_fn(Seq<Exchange<K>>) -> Option<Request>,
    g: Seq<Exchange<K>>,
    h: Seq<Exchange<K>>,
)
    requires
        conversation(script, g),
        conversation(script, h),
        alike(g, h),
    ensures
        g == h,
{
    let count = if g.len() <= h.len() {
        g.len() as int
    } else {
        h.len() as int
    };
    lemma_alike(script, g, h, count);
    assert(g.take(g.len() as int) =~= g);
    assert(h.take(h.len() as int) =~= h);
    if g.len() < h.len() {
        assert(script(h.take(count)) is Some);
    } else if h.len() < g.len() {
        assert(script(g.take(count)) is Some);
    }
}

/// A conversation that began at `start` and went on as `h` goes on with what was last
/// exchanged, where that is what its script asks for.
pub proof fn lemma_asked<K>(
    script: spec_fn(Seq<Exchange<K>>) -> Option<Request>,
    start: Seq<Exchange<K>>,
    h: Seq<Exchange<K>>,
    after: Seq<Exchange<K>>,
)
    requires
        so_far(script, h),
        after == (start + h).push(after.last()),
        script(h) == Some(after.last().request),
        fits(after.last()),
    ensures
        so_far(script, h.push(after.last())),
        after == start + h.push(after.last()),
        added(start, after) == h.push(after.last()),
{
    let longer = h.push(after.last());
    assert forall|i: int| 0 <= i < longer.len() implies script(#[trigger] longer.take(i)) == Some(
        longer[i].request,
    ) && fits(longer[i]) by {
        assert(longer.take(i) =~= h.take(i));
        if i == h.len() {
            assert(h.take(i) =~= h);
        }
    }
    assert(after =~= start + longer);
    assert(added(start, after) =~= longer);
}

/// The next key that is free to use.
pub fn next_available_key<T, K>(wallet: &mut T, keychain_mask: Option<&SecretKey>) -> (result:
    Result<Identifier, Error>) where T: WalletBackend<K>, K: Keychain
    ensures
        final(wallet).outputs() == old(wallet).outputs(),
        final(wallet).exchanges() == old(wallet).exchanges().push(
            (Exchange {
                request: Request::NextChild { mask: mask_of(keychain_mask) },
                reply: match result {
                    Ok(key_id) => Reply::Key(key_id),
                    Err(e) => Reply::Refused(e),
                },
            }),
        ),
{
    wallet.next_child(keychain_mask)
}

} // verus!
