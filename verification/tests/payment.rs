use coin_selection::error::Error;
use coin_selection::lock::lock_tx_context;
use coin_selection::receive::build_recipient_output;
use coin_selection::selection::select_send_tx;
use coin_selection::send::build_send_tx;
use coin_selection::slate::Slate;
use coin_selection::types::{
    BlindingFactor, Commitment, Context, Identifier, OutputData, OutputStatus,
    ParticipantMessageData, PathDepth, PaymentInfo, SecretKey, StoredProofInfo, TxLogEntry,
    TxLogEntryType,
};
use coin_selection::wallet::{next_available_key, Keychain, TxElement, WalletBackend};

/// A keychain that writes down what it is asked to build.
#[derive(Clone)]
struct Keys {
    number: u8,
    blinding: [u8; 32],
    builds: bool,
    excess: bool,
}

impl Keychain for Keys {
    fn build_elements(
        &self,
        slate: &Slate,
        elems: &Vec<TxElement>,
    ) -> Result<(Vec<u8>, BlindingFactor), Error> {
        if !self.builds {
            return Err(Error::Keychain("cannot build".to_owned()));
        }
        let text = format!("{} fee {} {:?}", self.number, slate.fee, elems);
        let mut tx = slate.tx.clone();
        tx.extend_from_slice(text.as_bytes());
        Ok((tx, BlindingFactor { bytes: self.blinding }))
    }

    fn create_secnonce(&self, use_test_rng: bool) -> SecretKey {
        SecretKey { bytes: [if use_test_rng { 1 } else { self.number }; 32] }
    }

    fn kernel_excess(&self, slate: &Slate) -> Result<Commitment, Error> {
        if self.excess {
            Ok(Commitment { bytes: [slate.tx.len() as u8; 33] })
        } else {
            Err(Error::Keychain("no excess".to_owned()))
        }
    }
}

/// What a wallet was asked for.
#[derive(Debug, PartialEq)]
enum Call {
    CalcCommit(Option<SecretKey>, u64, Identifier),
    NextChild(Option<SecretKey>),
    Keychain(Option<SecretKey>),
    Batch(Option<SecretKey>),
    NextTxLogId(Identifier),
    Get(Identifier, Option<u64>),
    Lock(OutputData),
    Save(OutputData),
    SaveEntry(TxLogEntry, Identifier),
    Commit,
    StoreTx(String, Vec<u8>),
}

/// A wallet that writes down its calls, and refuses the one at place `refuse_at`.
struct Wallet {
    outputs: Vec<OutputData>,
    keys: Keys,
    calls: Vec<Call>,
    refuse_at: Option<usize>,
    keys_given: u32,
    same_key: bool,
}

fn refusal() -> Error {
    Error::Backend("refused".to_owned())
}

impl Wallet {
    fn asked(&mut self, call: Call) -> Result<(), Error> {
        self.calls.push(call);
        if self.refuse_at == Some(self.calls.len() - 1) {
            Err(refusal())
        } else {
            Ok(())
        }
    }
}

impl WalletBackend<Keys> for Wallet {
    fn iter(&self) -> Vec<OutputData> {
        self.outputs.clone()
    }

    fn keychain(&mut self, mask: Option<&SecretKey>) -> Result<Keys, Error> {
        self.asked(Call::Keychain(mask.copied()))?;
        Ok(self.keys.clone())
    }

    fn calc_commit_for_cache(
        &mut self,
        mask: Option<&SecretKey>,
        amount: u64,
        key_id: &Identifier,
    ) -> Result<Option<String>, Error> {
        self.asked(Call::CalcCommit(mask.copied(), amount, *key_id))?;
        Ok(Some(commit_of(amount, key_id)))
    }

    fn next_child(&mut self, mask: Option<&SecretKey>) -> Result<Identifier, Error> {
        self.asked(Call::NextChild(mask.copied()))?;
        if self.keys_given == 0 || !self.same_key {
            self.keys_given += 1;
        }
        Ok(key(1000 + self.keys_given))
    }

    fn batch(&mut self, mask: Option<&SecretKey>) -> Result<(), Error> {
        self.asked(Call::Batch(mask.copied()))
    }

    fn next_tx_log_id(&mut self, parent_key_id: &Identifier) -> Result<u32, Error> {
        self.asked(Call::NextTxLogId(*parent_key_id))?;
        Ok(77)
    }

    fn get(&mut self, key_id: &Identifier, mmr_index: &Option<u64>) -> Result<OutputData, Error> {
        self.asked(Call::Get(*key_id, *mmr_index))?;
        for out in &self.outputs {
            if out.key_id == *key_id && out.mmr_index == *mmr_index {
                return Ok(out.clone());
            }
        }
        Err(Error::Backend("no such output".to_owned()))
    }

    fn lock_output(&mut self, output: &mut OutputData) -> Result<(), Error> {
        self.asked(Call::Lock(output.clone()))?;
        output.status = OutputStatus::Locked;
        Ok(())
    }

    fn save(&mut self, output: OutputData) -> Result<(), Error> {
        self.asked(Call::Save(output))
    }

    fn save_tx_log_entry(
        &mut self,
        entry: TxLogEntry,
        parent_key_id: &Identifier,
    ) -> Result<(), Error> {
        self.asked(Call::SaveEntry(entry, *parent_key_id))
    }

    fn commit(&mut self) -> Result<(), Error> {
        self.asked(Call::Commit)
    }

    fn store_tx(&mut self, id: &String, tx: &Vec<u8>) -> Result<(), Error> {
        self.asked(Call::StoreTx(id.clone(), tx.clone()))
    }
}

const MASK: SecretKey = SecretKey { bytes: [9; 32] };

const COIN: u64 = 1_000_000_000;

fn account() -> Identifier {
    Identifier { depth: PathDepth::Two, path: [0, 0, 0, 0] }
}

fn key(n: u32) -> Identifier {
    Identifier { depth: PathDepth::Three, path: [0, 0, n, 0] }
}

fn commit_of(amount: u64, key_id: &Identifier) -> String {
    format!("{} for {}", amount, key_id.path[2])
}

fn coin(n: u32, value: u64) -> OutputData {
    OutputData {
        root_key_id: account(),
        key_id: key(n),
        n_child: n,
        commit: None,
        mmr_index: Some(n as u64),
        value,
        status: OutputStatus::Unspent,
        height: 5,
        lock_height: 0,
        is_coinbase: false,
        tx_log_entry: None,
    }
}

fn pending(n: u32, commit: &str, value: u64) -> OutputData {
    OutputData {
        root_key_id: account(),
        key_id: key(n),
        n_child: n,
        commit: Some(commit.to_owned()),
        mmr_index: None,
        value,
        status: OutputStatus::Unconfirmed,
        height: 100,
        lock_height: 0,
        is_coinbase: false,
        tx_log_entry: Some(77),
    }
}

fn wallet(values: &[u64]) -> Wallet {
    let mut n: u32 = 0;
    let mut outputs = Vec::new();
    for value in values {
        n += 1;
        outputs.push(coin(n, *value));
    }
    Wallet {
        outputs,
        keys: keys(),
        calls: Vec::new(),
        refuse_at: None,
        keys_given: 0,
        same_key: false,
    }
}

fn keys() -> Keys {
    Keys { number: 4, blinding: [7; 32], builds: true, excess: true }
}

fn slate(amount: u64) -> Slate {
    Slate {
        id: "0436430c".to_owned(),
        tx: vec![1, 2, 3],
        amount,
        fee: 0,
        height: 100,
        messages: vec![ParticipantMessageData {
            id: 0,
            public_key: [2; 33],
            message: Some("hello".to_owned()),
            message_sig: None,
        }],
        payment_proof: None,
    }
}

fn send(w: &mut Wallet, s: &mut Slate, parts: usize) -> Result<Context, Error> {
    let keychain = w.keys.clone();
    build_send_tx(w, &keychain, Some(&MASK), s, 10, 500, parts, false, account(), true)
}

fn context() -> Context {
    Context {
        parent_key_id: account(),
        sec_key: SecretKey { bytes: [7; 32] },
        sec_nonce: SecretKey { bytes: [1; 32] },
        output_ids: vec![(key(21), None, 300), (key(22), None, 400)],
        input_ids: vec![(key(1), Some(1), 1000), (key(2), Some(2), 2000)],
        fee: 50,
        payment_proof_derivation_index: None,
        participant_id: 0,
    }
}

fn blank() -> TxLogEntry {
    TxLogEntry::new(account(), TxLogEntryType::TxSent, 77)
}

fn locked(n: u32, value: u64) -> Call {
    Call::Lock(OutputData { tx_log_entry: Some(77), ..coin(n, value) })
}

#[test]
fn next_key_comes_from_the_wallet() {
    let mut w = wallet(&[]);
    assert_eq!(next_available_key(&mut w, Some(&MASK)), Ok(key(1001)));
    assert_eq!(next_available_key(&mut w, None), Ok(key(1002)));
    assert_eq!(w.calls, vec![Call::NextChild(Some(MASK)), Call::NextChild(None)]);
    w.refuse_at = Some(2);
    assert_eq!(next_available_key(&mut w, None), Err(refusal()));
}

#[test]
fn payment_is_started_with_change() {
    let mut w = wallet(&[COIN, 2 * COIN, 3 * COIN]);
    w.outputs[0].is_coinbase = true;
    let mut s = slate(2 * COIN);
    let context = send(&mut w, &mut s, 2).unwrap();

    // two inputs; three outputs and a kernel: 13 - 2 units of weight
    let fee = 11_000_000;
    let change = COIN - fee;
    assert_eq!(s.fee, fee);
    assert_eq!(change % 2, 0);
    let elems = vec![
        TxElement::CoinbaseInput { value: COIN, key_id: key(1) },
        TxElement::Input { value: 2 * COIN, key_id: key(2) },
        TxElement::Output { value: change / 2, key_id: key(1001) },
        TxElement::Output { value: change / 2, key_id: key(1002) },
    ];
    let mut tx = vec![1, 2, 3];
    tx.extend_from_slice(format!("4 fee {} {:?}", fee, elems).as_bytes());
    assert_eq!(s, Slate { tx, fee, ..slate(2 * COIN) });
    assert_eq!(
        context,
        Context {
            parent_key_id: account(),
            sec_key: SecretKey { bytes: [7; 32] },
            sec_nonce: SecretKey { bytes: [1; 32] },
            output_ids: vec![(key(1001), None, change / 2), (key(1002), None, change / 2)],
            input_ids: vec![(key(1), Some(1), COIN), (key(2), Some(2), 2 * COIN)],
            fee,
            payment_proof_derivation_index: None,
            participant_id: 0,
        }
    );
    assert_eq!(
        w.calls,
        vec![
            Call::NextChild(Some(MASK)),
            Call::NextChild(Some(MASK)),
            Call::CalcCommit(Some(MASK), change / 2, key(1001)),
            Call::CalcCommit(Some(MASK), change / 2, key(1002)),
        ]
    );
}

#[test]
fn payment_without_change_asks_the_wallet_for_nothing() {
    let fee = 4_000_000;
    let mut w = wallet(&[COIN + fee]);
    let mut s = slate(COIN);
    let context = send(&mut w, &mut s, 3).unwrap();
    assert_eq!(s.fee, fee);
    assert_eq!(context.input_ids, vec![(key(1), Some(1), COIN + fee)]);
    assert_eq!(context.output_ids, vec![]);
    assert_eq!(w.calls, vec![]);
}

#[test]
fn payment_that_is_too_large_changes_nothing() {
    let mut w = wallet(&[COIN, 2 * COIN]);
    let mut s = slate(3 * COIN);
    assert_eq!(
        send(&mut w, &mut s, 1),
        Err(Error::NotEnoughFunds {
            available: 3_000_000_000,
            available_disp: "3.000000000".to_owned(),
            needed: 3_003_000_000,
            needed_disp: "3.003000000".to_owned(),
        })
    );
    assert_eq!(s, slate(3 * COIN));
    assert_eq!(w.calls, vec![]);
}

#[test]
fn refused_change_key_leaves_the_slate_alone() {
    let mut w = wallet(&[5 * COIN]);
    w.refuse_at = Some(1);
    let mut s = slate(COIN);
    assert_eq!(send(&mut w, &mut s, 2), Err(refusal()));
    assert_eq!(s, slate(COIN));
    assert_eq!(w.calls.len(), 2);
}

#[test]
fn refused_commitment_comes_after_the_transaction_was_built() {
    let mut w = wallet(&[5 * COIN]);
    w.refuse_at = Some(1);
    let mut s = slate(COIN);
    assert_eq!(send(&mut w, &mut s, 1), Err(refusal()));
    assert_eq!(s.fee, 8_000_000);
    assert!(s.tx.len() > 3);
}

#[test]
fn transaction_that_cannot_be_built_leaves_the_fee_on_the_slate() {
    let mut w = wallet(&[5 * COIN]);
    w.keys.builds = false;
    let mut s = slate(COIN);
    assert_eq!(send(&mut w, &mut s, 1), Err(Error::Keychain("cannot build".to_owned())));
    assert_eq!(s, Slate { fee: 8_000_000, ..slate(COIN) });
}

/// The number of secret keys of the curve, zero among them.
fn order() -> [u8; 32] {
    let mut bytes = [0xff; 32];
    bytes[15] = 0xfe;
    let low = [
        0xba, 0xae, 0xdc, 0xe6, 0xaf, 0x48, 0xa0, 0x3b, 0xbf, 0xd2, 0x5e, 0x8c, 0xd0, 0x36, 0x41,
        0x41,
    ];
    bytes[16..].copy_from_slice(&low);
    bytes
}

#[test]
fn blinding_factors_below_the_group_order_are_secret_keys() {
    let mut largest = order();
    largest[31] -= 1;
    let mut one = [0; 32];
    one[31] = 1;
    for bytes in [[0; 32], one, largest] {
        let mut w = wallet(&[5 * COIN]);
        w.keys.blinding = bytes;
        let sent = send(&mut w, &mut slate(COIN), 1).unwrap();
        assert_eq!(sent.sec_key, SecretKey { bytes });
        let received = build_recipient_output(&mut w, None, &mut slate(COIN), account(), true);
        assert_eq!(received.unwrap().1.sec_key, SecretKey { bytes });
    }
}

#[test]
fn blinding_factors_from_the_group_order_on_are_refused() {
    for bytes in [order(), [0xff; 32]] {
        let mut w = wallet(&[5 * COIN]);
        w.keys.blinding = bytes;
        let mut s = slate(COIN);
        assert_eq!(send(&mut w, &mut s, 1), Err(Error::InvalidSecretKey));
        assert_eq!(s.fee, 8_000_000);
        assert_eq!(w.calls, vec![Call::NextChild(Some(MASK))]);

        let mut w = wallet(&[]);
        w.keys.blinding = bytes;
        let received = build_recipient_output(&mut w, None, &mut slate(COIN), account(), true);
        assert_eq!(received, Err(Error::InvalidSecretKey));
        assert_eq!(
            w.calls,
            vec![Call::NextChild(None), Call::Keychain(None), Call::Keychain(None)]
        );
    }
}

#[test]
fn payment_is_recorded() {
    let mut w = wallet(&[1000, 2000]);
    let s = Slate { fee: 50, ..slate(2250) };
    assert_eq!(lock_tx_context(&mut w, Some(&MASK), &s, &context()), Ok(()));
    let entry = TxLogEntry {
        tx_slate_id: Some("0436430c".to_owned()),
        num_inputs: 2,
        num_outputs: 2,
        amount_credited: 700,
        amount_debited: 3000,
        fee: Some(50),
        messages: Some(slate(0).messages),
        stored_tx: Some("0436430c.grintx".to_owned()),
        kernel_excess: Some(Commitment { bytes: [3; 33] }),
        kernel_lookup_min_height: Some(100),
        ..blank()
    };
    assert_eq!(
        w.calls,
        vec![
            Call::CalcCommit(Some(MASK), 300, key(21)),
            Call::CalcCommit(Some(MASK), 400, key(22)),
            Call::Keychain(Some(MASK)),
            Call::Batch(Some(MASK)),
            Call::NextTxLogId(account()),
            Call::Get(key(1), Some(1)),
            locked(1, 1000),
            Call::Get(key(2), Some(2)),
            locked(2, 2000),
            Call::Save(pending(21, "300 for 21", 300)),
            Call::Save(pending(22, "400 for 22", 400)),
            Call::SaveEntry(entry, account()),
            Call::Commit,
            Call::StoreTx("0436430c".to_owned(), vec![1, 2, 3]),
        ]
    );
}

#[test]
fn recording_ends_with_the_first_refusal() {
    for place in 0..14 {
        let mut w = wallet(&[1000, 2000]);
        w.refuse_at = Some(place);
        assert_eq!(lock_tx_context(&mut w, None, &slate(2250), &context()), Err(refusal()));
        assert_eq!(w.calls.len(), place + 1);
    }
}

#[test]
fn unknown_input_is_not_recorded() {
    let mut w = wallet(&[1000]);
    assert_eq!(
        lock_tx_context(&mut w, None, &slate(2250), &context()),
        Err(Error::Backend("no such output".to_owned()))
    );
    assert!(!w.calls.contains(&Call::Commit));
}

#[test]
fn recording_keeps_the_values_that_the_wallet_holds() {
    let mut w = wallet(&[1001, 2000]);
    w.keys.excess = false;
    assert_eq!(lock_tx_context(&mut w, None, &slate(2250), &context()), Ok(()));
    assert_eq!(w.calls[6], locked(1, 1001));
    match &w.calls[11] {
        Call::SaveEntry(entry, _) => {
            assert_eq!(entry.amount_debited, 3001);
            assert_eq!(entry.kernel_excess, None);
        },
        other => panic!("{:?}", other),
    }
}

#[test]
fn inputs_worth_too_much_are_refused() {
    let mut w = wallet(&[u64::MAX, 1]);
    assert_eq!(
        lock_tx_context(&mut w, None, &slate(2250), &context()),
        Err(Error::AmountOverflow)
    );
    assert_eq!(w.calls[7], Call::Get(key(2), Some(2)));
    assert_eq!(w.calls.len(), 8);
}

#[test]
fn change_that_shares_a_key_is_saved_as_its_last_place_says() {
    let mut w = wallet(&[1000, 2000]);
    let shared = Context {
        output_ids: vec![(key(21), None, 300), (key(22), None, 30), (key(21), None, 400)],
        ..context()
    };
    assert_eq!(lock_tx_context(&mut w, None, &slate(2250), &shared), Ok(()));
    assert_eq!(w.calls[10], Call::Save(pending(21, "400 for 21", 400)));
    assert_eq!(w.calls[11], Call::Save(pending(22, "30 for 22", 30)));
    assert_eq!(w.calls[12], Call::Save(pending(21, "400 for 21", 400)));
    match &w.calls[13] {
        Call::SaveEntry(entry, _) => {
            assert_eq!(entry.num_outputs, 3);
            assert_eq!(entry.amount_credited, 830);
        },
        other => panic!("{:?}", other),
    }
}

#[test]
fn payment_proof_is_recorded() {
    let proof = PaymentInfo {
        sender_address: [5; 32],
        receiver_address: [6; 32],
        receiver_signature: Some([8; 64]),
    };
    let s = Slate { payment_proof: Some(proof), ..slate(2250) };
    let with_index = Context { payment_proof_derivation_index: Some(12), ..context() };
    let mut w = wallet(&[1000, 2000]);
    assert_eq!(lock_tx_context(&mut w, None, &s, &with_index), Ok(()));
    match &w.calls[11] {
        Call::SaveEntry(entry, _) => assert_eq!(
            entry.payment_proof,
            Some(StoredProofInfo {
                receiver_address: [6; 32],
                receiver_signature: Some([8; 64]),
                sender_address_path: 12,
                sender_signature: None,
            })
        ),
        other => panic!("{:?}", other),
    }
}

#[test]
fn payment_proof_needs_a_derivation_index() {
    let proof = PaymentInfo {
        sender_address: [5; 32],
        receiver_address: [6; 32],
        receiver_signature: None,
    };
    let s = Slate { payment_proof: Some(proof), ..slate(2250) };
    let mut w = wallet(&[1000, 2000]);
    assert_eq!(
        lock_tx_context(&mut w, None, &s, &context()),
        Err(Error::PaymentProof("Payment proof derivation index required".to_owned()))
    );
    // the inputs were locked in the batch, which was not committed
    assert_eq!(w.calls[8], locked(2, 2000));
    assert_eq!(w.calls.len(), 9);
}

#[test]
fn payment_costs_the_amount_and_the_fee() {
    let mut w = wallet(&[3 * COIN, COIN, 2 * COIN]);
    let mut s = slate(2 * COIN);
    let context = send(&mut w, &mut s, 2).unwrap();
    w.calls = Vec::new();
    assert_eq!(lock_tx_context(&mut w, None, &s, &context), Ok(()));
    for call in &w.calls {
        if let Call::SaveEntry(entry, _) = call {
            assert_eq!(entry.amount_debited, 3 * COIN);
            assert_eq!(entry.amount_debited - entry.amount_credited, s.amount + s.fee);
            assert_eq!(entry.fee, Some(11_000_000));
            return;
        }
    }
    panic!("no entry");
}

#[test]
fn payment_is_received() {
    let mut w = wallet(&[]);
    let mut s = slate(COIN);
    let (key_id, context) =
        build_recipient_output(&mut w, Some(&MASK), &mut s, account(), false).unwrap();
    assert_eq!(key_id, key(1001));
    assert_eq!(
        context,
        Context {
            parent_key_id: account(),
            sec_key: SecretKey { bytes: [7; 32] },
            sec_nonce: SecretKey { bytes: [4; 32] },
            output_ids: vec![(key(1001), None, COIN)],
            input_ids: vec![],
            fee: 0,
            payment_proof_derivation_index: None,
            participant_id: 1,
        }
    );
    let elems = vec![TxElement::Output { value: COIN, key_id }];
    let mut tx = vec![1, 2, 3];
    tx.extend_from_slice(format!("4 fee 0 {:?}", elems).as_bytes());
    let excess = Commitment { bytes: [tx.len() as u8; 33] };
    assert_eq!(s, Slate { tx, ..slate(COIN) });
    let entry = TxLogEntry {
        tx_type: TxLogEntryType::TxReceived,
        tx_slate_id: Some("0436430c".to_owned()),
        num_outputs: 1,
        amount_credited: COIN,
        messages: Some(slate(0).messages),
        kernel_excess: Some(excess),
        kernel_lookup_min_height: Some(100),
        ..blank()
    };
    assert_eq!(
        w.calls,
        vec![
            Call::NextChild(Some(MASK)),
            Call::Keychain(Some(MASK)),
            Call::Keychain(Some(MASK)),
            Call::CalcCommit(Some(MASK), COIN, key_id),
            Call::Batch(Some(MASK)),
            Call::NextTxLogId(account()),
            Call::Save(pending(1001, "1000000000 for 1001", COIN)),
            Call::SaveEntry(entry, account()),
            Call::Commit,
        ]
    );
}

#[test]
fn receiving_ends_with_the_first_refusal() {
    for place in 0..9 {
        let mut w = wallet(&[]);
        w.refuse_at = Some(place);
        let mut s = slate(COIN);
        let result = build_recipient_output(&mut w, None, &mut s, account(), true);
        assert_eq!(result, Err(refusal()));
        assert_eq!(w.calls.len(), place + 1);
        assert_eq!(s.tx.len() > 3, place >= 2);
    }
}

#[test]
fn output_that_cannot_be_built_is_not_received() {
    let mut w = wallet(&[]);
    w.keys.builds = false;
    let mut s = slate(COIN);
    let result = build_recipient_output(&mut w, None, &mut s, account(), true);
    assert_eq!(result, Err(Error::Keychain("cannot build".to_owned())));
    assert_eq!(s, slate(COIN));
    assert_eq!(w.calls.len(), 2);
}

#[test]
fn unknown_excess_is_left_out_of_the_entry() {
    let mut w = wallet(&[]);
    w.keys.excess = false;
    build_recipient_output(&mut w, None, &mut slate(COIN), account(), true).unwrap();
    match &w.calls[7] {
        Call::SaveEntry(entry, _) => assert_eq!(entry.kernel_excess, None),
        other => panic!("{:?}", other),
    }
}

#[test]
fn change_keys_may_repeat() {
    let mut w = wallet(&[5 * COIN]);
    w.same_key = true;
    let context = send(&mut w, &mut slate(COIN), 2).unwrap();
    assert_eq!(context.output_ids.len(), 2);
    assert_eq!(context.output_ids[0].0, context.output_ids[1].0);
}

#[test]
fn context_keeps_what_is_selected() {
    let values = [COIN, 2 * COIN, 3 * COIN];
    let mut w = wallet(&values);
    let (_, coins, change, fee) =
        select_send_tx(&mut w, Some(&MASK), 2 * COIN, 100, 10, 500, 2, false, &account()).unwrap();

    let mut w = wallet(&values);
    let mut s = slate(2 * COIN);
    let context = send(&mut w, &mut s, 2).unwrap();
    let inputs: Vec<_> = coins.iter().map(|c| (c.key_id, c.mmr_index, c.value)).collect();
    let outputs: Vec<_> = change.iter().map(|c| (c.1, c.2, c.0)).collect();
    assert_eq!(context.input_ids, inputs);
    assert_eq!(context.output_ids, outputs);
    assert_eq!((context.fee, s.fee), (fee, fee));
}

#[test]
fn fee_already_on_the_slate_is_ignored() {
    let mut s = slate(2 * COIN);
    let mut other = Slate { fee: 123, ..slate(2 * COIN) };
    let context = send(&mut wallet(&[COIN, 2 * COIN]), &mut s, 2).unwrap();
    let same = send(&mut wallet(&[COIN, 2 * COIN]), &mut other, 2).unwrap();
    assert_eq!(context, same);
    assert_eq!(s, other);
    assert_eq!(s.fee, 11_000_000);
}

#[test]
fn starting_a_payment_leaves_the_outputs_alone() {
    let mut w = wallet(&[COIN, 2 * COIN]);
    let held = w.outputs.clone();
    send(&mut w, &mut slate(2 * COIN), 2).unwrap();
    assert_eq!(w.outputs, held);
    for call in &w.calls {
        assert!(matches!(call, Call::NextChild(_) | Call::CalcCommit(..)));
    }
}

#[test]
fn small_change_adds_up() {
    let fee = 16_000_000;
    let mut w = wallet(&[COIN + fee + 5]);
    let mut s = slate(COIN);
    let context = send(&mut w, &mut s, 3).unwrap();
    assert_eq!(s.fee, fee);
    let amounts: Vec<u64> = context.output_ids.iter().map(|entry| entry.2).collect();
    assert_eq!(amounts, vec![1, 1, 3]);
}
