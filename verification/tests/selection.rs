use coin_selection::error::Error;
use coin_selection::fee::tx_fee;
use coin_selection::selection::{
    inputs_and_change, select_coins, select_coins_and_fee, select_from, select_send_tx,
};
use coin_selection::slate::Slate;
use coin_selection::sort::sort_by_value;
use coin_selection::types::{
    BlindingFactor, Commitment, Identifier, OutputData, OutputStatus, PathDepth, SecretKey,
    TxLogEntry,
};
use coin_selection::wallet::{Keychain, TxElement, WalletBackend};

/// A keychain that is never asked for anything here.
struct NoKeys;

impl Keychain for NoKeys {
    fn build_elements(
        &self,
        _slate: &Slate,
        _elems: &Vec<TxElement>,
    ) -> Result<(Vec<u8>, BlindingFactor), Error> {
        Err(Error::Keychain("no keys".to_owned()))
    }

    fn create_secnonce(&self, _use_test_rng: bool) -> SecretKey {
        SecretKey { bytes: [0; 32] }
    }

    fn kernel_excess(&self, _slate: &Slate) -> Result<Commitment, Error> {
        Err(Error::Keychain("no keys".to_owned()))
    }
}

/// A wallet that holds outputs and gives out keys, as many as it has left.
struct Wallet {
    outputs: Vec<OutputData>,
    keys_given: u32,
    keys_left: u32,
}

fn unused<T>() -> Result<T, Error> {
    Err(Error::Backend("not asked for here".to_owned()))
}

impl WalletBackend<NoKeys> for Wallet {
    fn iter(&self) -> Vec<OutputData> {
        self.outputs.clone()
    }

    fn keychain(&mut self, _mask: Option<&SecretKey>) -> Result<NoKeys, Error> {
        unused()
    }

    fn calc_commit_for_cache(
        &mut self,
        _mask: Option<&SecretKey>,
        _amount: u64,
        _key_id: &Identifier,
    ) -> Result<Option<String>, Error> {
        unused()
    }

    fn next_child(&mut self, _mask: Option<&SecretKey>) -> Result<Identifier, Error> {
        if self.keys_left == 0 {
            return Err(Error::Backend("no key left".to_owned()));
        }
        self.keys_left -= 1;
        self.keys_given += 1;
        Ok(key(1000 + self.keys_given))
    }

    fn batch(&mut self, _mask: Option<&SecretKey>) -> Result<(), Error> {
        unused()
    }

    fn next_tx_log_id(&mut self, _parent_key_id: &Identifier) -> Result<u32, Error> {
        unused()
    }

    fn get(&mut self, _key_id: &Identifier, _mmr_index: &Option<u64>) -> Result<OutputData, Error> {
        unused()
    }

    fn lock_output(&mut self, _output: &mut OutputData) -> Result<(), Error> {
        unused()
    }

    fn save(&mut self, _output: OutputData) -> Result<(), Error> {
        unused()
    }

    fn save_tx_log_entry(
        &mut self,
        _entry: TxLogEntry,
        _parent_key_id: &Identifier,
    ) -> Result<(), Error> {
        unused()
    }

    fn commit(&mut self) -> Result<(), Error> {
        unused()
    }

    fn store_tx(&mut self, _id: &String, _tx: &Vec<u8>) -> Result<(), Error> {
        unused()
    }
}

fn account(n: u32) -> Identifier {
    Identifier { depth: PathDepth::Two, path: [n, 0, 0, 0] }
}

fn key(n: u32) -> Identifier {
    Identifier { depth: PathDepth::Three, path: [0, 0, n, 0] }
}

fn coin(n: u32, value: u64) -> OutputData {
    OutputData {
        root_key_id: account(0),
        key_id: key(n),
        n_child: n,
        commit: Some(format!("commit {}", n)),
        mmr_index: Some(n as u64),
        value,
        status: OutputStatus::Unspent,
        height: 5,
        lock_height: 0,
        is_coinbase: false,
        tx_log_entry: None,
    }
}

fn coins(values: &[u64]) -> Vec<OutputData> {
    let mut n: u32 = 0;
    let mut outputs = Vec::new();
    for value in values {
        n += 1;
        outputs.push(coin(n, *value));
    }
    outputs
}

fn wallet(values: &[u64]) -> Wallet {
    Wallet { outputs: coins(values), keys_given: 0, keys_left: 100 }
}

fn values(outputs: &Vec<OutputData>) -> Vec<u64> {
    outputs.iter().map(|out| out.value).collect()
}

fn select(w: &mut Wallet, amount: u64, max_outputs: usize, all: bool) -> (usize, Vec<u64>) {
    let (available, found) = select_coins(w, amount, 100, 10, max_outputs, all, &account(0));
    (available, values(&found))
}

#[test]
fn fee_of_small_transactions() {
    assert_eq!(tx_fee(1, 1, 1, None), 4_000_000);
    assert_eq!(tx_fee(1, 2, 1, None), 8_000_000);
    assert_eq!(tx_fee(2, 2, 1, None), 7_000_000);
    assert_eq!(tx_fee(3, 4, 1, Some(10)), 140);
}

#[test]
fn fee_is_never_less_than_one_unit_of_weight() {
    assert_eq!(tx_fee(500, 2, 1, None), 1_000_000);
    assert_eq!(tx_fee(9, 2, 1, Some(7)), 7);
    assert_eq!(tx_fee(0, 0, 0, Some(7)), 7);
}

#[test]
fn sorting_keeps_the_order_of_equal_values() {
    let sorted = sort_by_value(coins(&[5, 3, 5, 1, 3]));
    let order: Vec<u32> = sorted.iter().map(|out| out.n_child).collect();
    assert_eq!(values(&sorted), vec![1, 3, 3, 5, 5]);
    assert_eq!(order, vec![4, 2, 5, 1, 3]);
}

#[test]
fn picks_all_or_as_many_as_needed() {
    let all = select_from(6, true, coins(&[1, 2, 3, 4]));
    assert_eq!(values(&all.unwrap()), vec![1, 2, 3, 4]);
    let some = select_from(6, false, coins(&[1, 2, 3, 4]));
    assert_eq!(values(&some.unwrap()), vec![1, 2, 3]);
    let more = select_from(7, false, coins(&[1, 2, 3, 4]));
    assert_eq!(values(&more.unwrap()), vec![1, 2, 3, 4]);
}

#[test]
fn picks_nothing_where_all_is_not_enough() {
    assert!(select_from(11, true, coins(&[1, 2, 3, 4])).is_none());
    assert!(select_from(11, false, coins(&[1, 2, 3, 4])).is_none());
    assert!(select_from(1, false, Vec::new()).is_none());
}

#[test]
fn picks_nothing_for_nothing() {
    assert_eq!(values(&select_from(0, false, coins(&[1, 2])).unwrap()), Vec::<u64>::new());
    assert_eq!(values(&select_from(0, true, coins(&[1, 2])).unwrap()), vec![1, 2]);
}

#[test]
fn spends_smallest_first_and_only_as_many_as_needed() {
    assert_eq!(select(&mut wallet(&[40, 10, 30, 20]), 45, 500, false), (4, vec![10, 20, 30]));
    assert_eq!(select(&mut wallet(&[40, 10, 30, 20]), 60, 500, false), (4, vec![10, 20, 30]));
    assert_eq!(select(&mut wallet(&[40, 10, 30, 20]), 61, 500, false), (4, vec![10, 20, 30, 40]));
}

#[test]
fn spends_all_within_the_limit() {
    assert_eq!(select(&mut wallet(&[40, 10, 30, 20]), 5, 4, true), (4, vec![10, 20, 30, 40]));
    assert_eq!(select(&mut wallet(&[40, 10, 30, 20]), 5, 3, true), (4, vec![10, 20, 30]));
}

#[test]
fn slides_a_window_until_it_is_enough() {
    assert_eq!(select(&mut wallet(&[10, 20, 30, 40, 50]), 75, 2, true), (5, vec![40, 50]));
    assert_eq!(select(&mut wallet(&[10, 20, 30, 40, 50]), 65, 2, true), (5, vec![30, 40]));
    assert_eq!(select(&mut wallet(&[10, 20, 30, 40, 50]), 35, 2, false), (5, vec![20, 30]));
    assert_eq!(select(&mut wallet(&[10, 20, 30, 40, 50]), 8, 2, false), (5, vec![10]));
}

#[test]
fn gives_up_the_limit_where_no_window_is_enough() {
    let extended = (5, vec![10, 20, 30, 40]);
    assert_eq!(select(&mut wallet(&[10, 20, 30, 40, 50]), 95, 2, true), extended);
    let extended = (5, vec![10, 20, 30, 40]);
    assert_eq!(select(&mut wallet(&[10, 20, 30, 40, 50]), 95, 2, false), extended);
}

#[test]
fn shows_the_largest_where_all_is_not_enough() {
    assert_eq!(select(&mut wallet(&[20, 10, 30]), 61, 2, true), (3, vec![30, 20]));
    assert_eq!(select(&mut wallet(&[20, 10, 30]), 61, 500, false), (3, vec![30, 20, 10]));
    assert_eq!(select(&mut wallet(&[]), 1, 500, false), (0, vec![]));
}

#[test]
fn leaves_out_what_cannot_be_spent() {
    let mut w = wallet(&[1, 2, 3, 4, 5, 6, 7, 8, 9]);
    w.outputs[0].root_key_id = account(1);
    w.outputs[1].status = OutputStatus::Spent;
    w.outputs[2].status = OutputStatus::Locked;
    w.outputs[3].status = OutputStatus::Unconfirmed;
    w.outputs[4].lock_height = 101;
    w.outputs[5].height = 92;
    w.outputs[6].height = 91;
    w.outputs[7].height = 101;
    assert_eq!(select(&mut w, 1, 500, true), (2, vec![7, 9]));
}

#[test]
fn unconfirmed_outputs_can_be_spent_where_no_confirmation_is_asked_for() {
    let mut w = wallet(&[1, 2, 3]);
    w.outputs[0].status = OutputStatus::Unconfirmed;
    w.outputs[1].status = OutputStatus::Unconfirmed;
    w.outputs[1].is_coinbase = true;
    w.outputs[2].height = 200;
    let (available, found) = select_coins(&mut w, 1, 100, 0, 500, true, &account(0));
    assert_eq!((available, values(&found)), (2, vec![1, 3]));
    let (available, _) = select_coins(&mut w, 1, 100, 1, 500, true, &account(0));
    assert_eq!(available, 0);
}

#[test]
fn eligibility_at_the_highest_height() {
    let mut old = coin(1, 5);
    old.height = 0;
    assert!(old.eligible_to_spend(u64::MAX, u64::MAX));
    old.height = 1;
    assert!(old.eligible_to_spend(u64::MAX, u64::MAX));
    old.height = 2;
    assert!(!old.eligible_to_spend(u64::MAX, u64::MAX));
}

fn pay(
    w: &mut Wallet,
    amount: u64,
    max_outputs: usize,
    change_outputs: usize,
    all: bool,
) -> Result<(Vec<OutputData>, u64, u64, u64), Error> {
    select_coins_and_fee(w, amount, 100, 10, max_outputs, change_outputs, all, &account(0))
}

#[test]
fn pays_without_change_where_it_comes_out_even() {
    let (found, total, amount, fee) =
        pay(&mut wallet(&[1_004_000_000]), 1_000_000_000, 500, 1, true).unwrap();
    assert_eq!(values(&found), vec![1_004_000_000]);
    assert_eq!((total, amount, fee), (1_004_000_000, 1_000_000_000, 4_000_000));
}

#[test]
fn pays_the_fee_of_a_transaction_with_change() {
    let (found, total, amount, fee) =
        pay(&mut wallet(&[2_000_000_000]), 1_000_000_000, 500, 1, true).unwrap();
    assert_eq!(values(&found), vec![2_000_000_000]);
    assert_eq!((total, amount, fee), (2_000_000_000, 1_000_000_000, 8_000_000));
    let (_, _, _, fee) = pay(&mut wallet(&[2_000_000_000]), 1_000_000_000, 500, 3, true).unwrap();
    assert_eq!(fee, 16_000_000);
}

#[test]
fn chooses_again_where_the_fee_is_not_covered() {
    let mut w = wallet(&[1_000_000_000, 5_000_000_000]);
    let (found, total, amount, fee) = pay(&mut w, 1_000_000_000, 500, 1, false).unwrap();
    assert_eq!(values(&found), vec![1_000_000_000, 5_000_000_000]);
    assert_eq!((total, amount, fee), (6_000_000_000, 1_000_000_000, 7_000_000));
}

#[test]
fn choosing_again_is_not_held_to_the_limit() {
    let mut w = wallet(&[10_000_000, 20_000_000, 30_000_000]);
    let (found, total, _, fee) = pay(&mut w, 50_000_000, 2, 1, false).unwrap();
    assert_eq!(values(&found), vec![10_000_000, 20_000_000, 30_000_000]);
    assert_eq!((total, fee), (60_000_000, 6_000_000));
}

#[test]
fn an_empty_wallet_has_not_enough_funds() {
    match pay(&mut wallet(&[]), 1_000_000_000, 500, 1, true) {
        Err(Error::NotEnoughFunds { available, available_disp, needed, needed_disp }) => {
            assert_eq!(available, 0);
            assert_eq!(available_disp, "0.000000000");
            assert_eq!(needed, 1_005_000_000);
            assert_eq!(needed_disp, "1.005000000");
        }
        _ => panic!("expected a lack of funds"),
    }
}

#[test]
fn all_outputs_may_not_be_enough_even_without_change() {
    match pay(&mut wallet(&[500_000_000, 501_000_000]), 1_000_000_000, 500, 1, true) {
        Err(Error::NotEnoughFunds { available, available_disp, needed, needed_disp }) => {
            assert_eq!(available, 1_001_000_000);
            assert_eq!(available_disp, "1.001000000");
            assert_eq!(needed, 1_003_000_000);
            assert_eq!(needed_disp, "1.003000000");
        }
        _ => panic!("expected a lack of funds"),
    }
}

#[test]
fn all_outputs_may_not_be_enough_with_change() {
    match pay(&mut wallet(&[1_006_000_000]), 1_000_000_000, 500, 1, true) {
        Err(Error::NotEnoughFunds { available, needed, .. }) => {
            assert_eq!((available, needed), (1_006_000_000, 1_008_000_000));
        }
        _ => panic!("expected a lack of funds"),
    }
}

#[test]
fn choosing_again_may_not_be_enough() {
    match pay(&mut wallet(&[100, 1_000_000_000]), 1_000_000_000, 500, 1, false) {
        Err(Error::NotEnoughFunds { available, needed, .. }) => {
            assert_eq!((available, needed), (1_000_000_100, 1_006_000_000 - 3_000_000));
        }
        _ => panic!("expected a lack of funds"),
    }
    match pay(&mut wallet(&[1, 2, 1_000_000_000]), 1_000_000_000, 1, 1, false) {
        Err(Error::NotEnoughFunds { available, needed, .. }) => {
            assert_eq!((available, needed), (1_000_000_003, 1_006_000_000));
        }
        _ => panic!("expected a lack of funds"),
    }
}

#[test]
fn a_payment_of_nothing_chooses_nothing_and_is_refused() {
    match pay(&mut wallet(&[1_000_000_000]), 0, 500, 1, false) {
        Err(Error::NotEnoughFunds { available, needed, .. }) => {
            assert_eq!((available, needed), (0, 5_000_000));
        }
        _ => panic!("expected a lack of funds"),
    }
}

#[test]
fn the_change_is_what_the_amount_and_the_fee_leave() {
    let mut w = wallet(&[]);
    let (parts, change) =
        inputs_and_change(&coins(&[10_000]), &mut w, None, 1_000, 80, 1).unwrap();
    assert_eq!(change, vec![(8_920, key(1001), None)]);
    assert_eq!(
        parts,
        vec![
            TxElement::Input { value: 10_000, key_id: key(1) },
            TxElement::Output { value: 8_920, key_id: key(1001) },
        ]
    );
}

#[test]
fn the_last_change_output_takes_the_remainder() {
    let mut w = wallet(&[]);
    let (parts, change) = inputs_and_change(&coins(&[4, 17]), &mut w, None, 10, 1, 3).unwrap();
    assert_eq!(change, vec![(3, key(1001), None), (3, key(1002), None), (4, key(1003), None)]);
    assert_eq!(parts.len(), 5);
    assert_eq!(w.keys_given, 3);
}

#[test]
fn a_remainder_larger_than_a_share_is_not_lost() {
    let mut w = wallet(&[]);
    let (_, change) = inputs_and_change(&coins(&[5]), &mut w, None, 0, 0, 3).unwrap();
    assert_eq!(change, vec![(1, key(1001), None), (1, key(1002), None), (3, key(1003), None)]);

    let mut w = wallet(&[]);
    let (_, change) = inputs_and_change(&coins(&[1_090]), &mut w, None, 1_000, 80, 4).unwrap();
    let amounts: Vec<u64> = change.iter().map(|entry| entry.0).collect();
    assert_eq!(amounts, vec![2, 2, 2, 4]);
}

#[test]
fn there_is_no_change_where_it_comes_out_even() {
    let mut w = wallet(&[]);
    let mut inputs = coins(&[60, 40]);
    inputs[1].is_coinbase = true;
    let (parts, change) = inputs_and_change(&inputs, &mut w, None, 90, 10, 0).unwrap();
    assert_eq!(change, vec![]);
    assert_eq!(
        parts,
        vec![
            TxElement::Input { value: 60, key_id: key(1) },
            TxElement::CoinbaseInput { value: 40, key_id: key(2) },
        ]
    );
    assert_eq!(w.keys_given, 0);
}

#[test]
fn a_refused_key_ends_the_change() {
    let mut w = wallet(&[]);
    w.keys_left = 1;
    let refused = inputs_and_change(&coins(&[100]), &mut w, None, 10, 0, 3);
    assert_eq!(refused.err(), Some(Error::Backend("no key left".to_owned())));
    assert_eq!(w.keys_given, 1);
}

#[test]
fn a_transaction_to_send_balances() {
    let mut w = wallet(&[700_000_000, 600_000_000, 9_000_000_000]);
    let (parts, inputs, change, fee) =
        select_send_tx(&mut w, None, 1_000_000_000, 100, 10, 500, 2, false, &account(0)).unwrap();
    assert_eq!(values(&inputs), vec![600_000_000, 700_000_000]);
    assert_eq!(fee, 11_000_000);
    assert_eq!(change, vec![(144_500_000, key(1001), None), (144_500_000, key(1002), None)]);
    assert_eq!(
        parts,
        vec![
            TxElement::Input { value: 600_000_000, key_id: key(2) },
            TxElement::Input { value: 700_000_000, key_id: key(1) },
            TxElement::Output { value: 144_500_000, key_id: key(1001) },
            TxElement::Output { value: 144_500_000, key_id: key(1002) },
        ]
    );
    assert_eq!(600_000_000u64 + 700_000_000, 1_000_000_000 + fee + 2 * 144_500_000);
}

#[test]
fn nothing_is_asked_for_where_funds_are_lacking() {
    let mut w = wallet(&[5]);
    let refused = select_send_tx(&mut w, None, 1_000, 100, 10, 500, 2, true, &account(0));
    assert!(matches!(refused, Err(Error::NotEnoughFunds { available: 5, .. })));
    assert_eq!(w.keys_given, 0);
}

#[test]
fn the_last_step_of_a_path() {
    let mut id = Identifier { depth: PathDepth::Zero, path: [1, 2, 3, 4] };
    assert_eq!(id.last_path_index(), 0);
    id.depth = PathDepth::One;
    assert_eq!(id.last_path_index(), 1);
    id.depth = PathDepth::Two;
    assert_eq!(id.last_path_index(), 2);
    id.depth = PathDepth::Three;
    assert_eq!(id.last_path_index(), 3);
    id.depth = PathDepth::Four;
    assert_eq!(id.last_path_index(), 4);
    assert!(id == id);
    assert!(id != Identifier { depth: PathDepth::Four, path: [1, 2, 3, 5] });
    assert!(id != Identifier { depth: PathDepth::Three, path: [1, 2, 3, 4] });
}

#[test]
fn the_largest_amounts_are_sent() {
    let mut w = wallet(&[u64::MAX]);
    let amount = u64::MAX - 9_000_000;
    let (parts, inputs, change, fee) =
        select_send_tx(&mut w, None, amount, 100, 10, 500, 1, false, &account(0)).unwrap();
    assert_eq!(fee, 8_000_000);
    assert_eq!(values(&inputs), vec![u64::MAX]);
    assert_eq!(change, vec![(1_000_000, key(1001), None)]);
    assert_eq!(
        parts,
        vec![
            TxElement::Input { value: u64::MAX, key_id: key(1) },
            TxElement::Output { value: 1_000_000, key_id: key(1001) },
        ]
    );
}

#[test]
fn selecting_at_once_is_selecting_step_by_step() {
    let values = [3_000_000_000, 700_000_001, 2_000_000_000];
    let mut w = wallet(&values);
    let (found, sum, amount, fee) =
        select_coins_and_fee(&mut w, 650_000_000, 100, 10, 500, 3, false, &account(0)).unwrap();
    assert_eq!(sum, 700_000_001);
    assert_eq!(fee, 16_000_000);
    let (parts, change) = inputs_and_change(&found, &mut w, None, amount, fee, 3).unwrap();

    let mut w = wallet(&values);
    let at_once =
        select_send_tx(&mut w, None, 650_000_000, 100, 10, 500, 3, false, &account(0)).unwrap();
    assert_eq!(at_once, (parts, found, change, fee));
}
