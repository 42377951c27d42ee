//! Which calls may be made: all those whose sums fit in 64 bits, and whose change can be
//! split.
use crate::choice::{
    candidates, eligible, has_window, is_first_window, lemma_total_window, sums_fit,
};
use crate::error::Error;
use crate::lock::lock_tx_context;
use crate::payment_laws::{lemma_credit_distinct, sum};
use crate::receive::build_recipient_output;
use crate::selection::{
    inputs_and_change, select_coins, select_coins_and_fee, select_from, select_send_tx,
};
use crate::send::build_send_tx;
use crate::slate::Slate;
use crate::sort::lemma_by_value_sorts;
use crate::totals::{lemma_total_same, total};
use crate::types::{Context, Identifier, OutputData, SecretKey};
use crate::wallet::{Keychain, WalletBackend};
use vstd::prelude::*;

verus! {

/// Outputs can be picked from whatever fits in 64 bits.
pub proof fn law_can_pick(amount: u64, select_all: bool, outputs: Vec<OutputData>)
    requires
        total(outputs@) <= u64::MAX,
    ensures
        call_requires(select_from, (amount, select_all, outputs)),
{
}

/// What an account can spend.
pub open spec fn spendable_total(
    outputs: Seq<OutputData>,
    account: Identifier,
    height: u64,
    confirmations: u64,
) -> nat {
    total(
        outputs.filter(
            |out: OutputData| out.root_key_id == account && out.spendable(height, confirmations),
        ),
    )
}

/// The sums by which outputs are chosen fit where all that can be spent fits.
proof fn lemma_all_fits(
    outputs: Seq<OutputData>,
    account: Identifier,
    height: u64,
    confirmations: u64,
    amount: nat,
    max_outputs: int,
)
    requires
        0 <= max_outputs,
        spendable_total(outputs, account, height, confirmations) <= u64::MAX,
    ensures
        ({
            let s = candidates(outputs, account, height, confirmations);
            &&& total(s) <= u64::MAX
            &&& sums_fit(amount, max_outputs, s)
        }),
{
    let e = eligible(outputs, account, height, confirmations);
    let s = candidates(outputs, account, height, confirmations);
    assert(e =~= outputs.filter(
        |out: OutputData| out.root_key_id == account && out.spendable(height, confirmations),
    ));
    lemma_by_value_sorts(e);
    lemma_total_same(s, e);
    if has_window(amount, max_outputs, s) {
        let start = choose|k: int| is_first_window(amount, max_outputs, s, k);
        lemma_total_window(s, max_outputs, start);
    }
}

/// Outputs can be chosen for any amount, as long as all that can be spent fits in 64 bits
/// and the limit is not zero.
pub proof fn law_can_choose<T, K>(
    wallet: &mut T,
    amount: u64,
    height: u64,
    confirmations: u64,
    max_outputs: usize,
    select_all: bool,
    account: &Identifier,
) where T: WalletBackend<K>, K: Keychain
    requires
        max_outputs > 0,
        spendable_total(old(wallet).outputs(), *account, height, confirmations) <= u64::MAX,
    ensures
        call_requires(
            select_coins::<T, K>,
            (wallet, amount, height, confirmations, max_outputs, select_all, account),
        ),
{
    lemma_all_fits(
        old(wallet).outputs(),
        *account,
        height,
        confirmations,
        amount as nat,
        max_outputs as int,
    );
}

/// Outputs and a fee can be chosen where, besides, the amount and the fee of a transaction
/// that adds all the change outputs and spends nothing fit in 64 bits.
pub proof fn law_can_choose_with_fee<T, K>(
    wallet: &mut T,
    amount: u64,
    height: u64,
    confirmations: u64,
    max_outputs: usize,
    change_outputs: usize,
    select_all: bool,
    account: &Identifier,
) where T: WalletBackend<K>, K: Keychain
    requires
        max_outputs > 0,
        change_outputs < usize::MAX,
        spendable_total(old(wallet).outputs(), *account, height, confirmations) <= u64::MAX,
        amount + (4 * (change_outputs + 1) + 1) * 1_000_000 <= u64::MAX,
    ensures
        call_requires(
            select_coins_and_fee::<T, K>,
            (
                wallet,
                amount,
                height,
                confirmations,
                max_outputs,
                change_outputs,
                select_all,
                account,
            ),
        ),
{
    lemma_all_fits(
        old(wallet).outputs(),
        *account,
        height,
        confirmations,
        amount as nat,
        max_outputs as int,
    );
}

/// Change can be made of outputs that cover the amount and the fee, whenever none of the
/// change outputs would be empty.
pub proof fn law_can_make_change<T, K>(
    coins: &Vec<OutputData>,
    wallet: &mut T,
    keychain_mask: Option<&SecretKey>,
    amount: u64,
    fee: u64,
    count: usize,
) where T: WalletBackend<K>, K: Keychain
    requires
        amount + fee <= total(coins@) <= u64::MAX,
        total(coins@) == amount + fee || 0 < count <= total(coins@) - amount - fee,
    ensures
        call_requires(
            inputs_and_change::<T, K>,
            (coins, wallet, keychain_mask, amount, fee, count),
        ),
{
}

/// A payment can be selected and started wherever its outputs and its fee can be chosen,
/// and what these leave, if anything, can be split among the change outputs.
pub proof fn law_can_start<T, K>(
    wallet: &mut T,
    keychain: &K,
    keychain_mask: Option<&SecretKey>,
    slate: &mut Slate,
    confirmations: u64,
    max_outputs: usize,
    change_outputs: usize,
    select_all: bool,
    account: Identifier,
    use_test_nonce: bool,
    fee_wallet: &mut T,
    found: Result<(Vec<OutputData>, u64, u64, u64), Error>,
) where T: WalletBackend<K>, K: Keychain
    requires
        max_outputs > 0,
        change_outputs < usize::MAX,
        spendable_total(old(wallet).outputs(), account, old(slate).height, confirmations)
            <= u64::MAX,
        old(slate).amount + (4 * (change_outputs + 1) + 1) * 1_000_000 <= u64::MAX,
        call_ensures(
            select_coins_and_fee::<T, K>,
            (
                fee_wallet,
                old(slate).amount,
                old(slate).height,
                confirmations,
                max_outputs,
                change_outputs,
                select_all,
                &account,
            ),
            found,
        ),
        old(fee_wallet).outputs() == old(wallet).outputs(),
        found matches Ok(paid) ==> {
            let left = paid.1 - paid.2 - paid.3;
            left == 0 || 0 < change_outputs <= left
        },
    ensures
        call_requires(
            select_send_tx::<T, K>,
            (
                wallet,
                keychain_mask,
                old(slate).amount,
                old(slate).height,
                confirmations,
                max_outputs,
                change_outputs,
                select_all,
                &account,
            ),
        ),
        call_requires(
            build_send_tx::<T, K>,
            (
                wallet,
                keychain,
                keychain_mask,
                slate,
                confirmations,
                max_outputs,
                change_outputs,
                select_all,
                account,
                use_test_nonce,
            ),
        ),
{
    lemma_all_fits(
        old(wallet).outputs(),
        account,
        old(slate).height,
        confirmations,
        old(slate).amount as nat,
        max_outputs as int,
    );
}

/// A payment can be recorded where its change outputs have keys of their own and fit in 64
/// bits together.
pub proof fn law_can_record<T, K>(
    wallet: &mut T,
    keychain_mask: Option<&SecretKey>,
    slate: &Slate,
    context: &Context,
) where T: WalletBackend<K>, K: Keychain
    requires
        forall|i: int, j: int|
            0 <= i < j < context.output_ids@.len() ==> (#[trigger] context.output_ids@[i]).0 != (
            #[trigger] context.output_ids@[j]).0,
        sum(Seq::new(context.output_ids@.len(), |i: int| context.output_ids@[i].2)) <= u64::MAX,
    ensures
        call_requires(lock_tx_context::<T, K>, (wallet, keychain_mask, slate, context)),
{
    let amounts = Seq::new(context.output_ids@.len(), |i: int| context.output_ids@[i].2);
    lemma_credit_distinct(context.output_ids@, amounts, amounts.len() as int);
    assert(amounts.take(amounts.len() as int) =~= amounts);
}

/// A payment can always be received.
pub proof fn law_can_receive<T, K>(
    wallet: &mut T,
    keychain_mask: Option<&SecretKey>,
    slate: &mut Slate,
    parent_key_id: Identifier,
    use_test_rng: bool,
) where T: WalletBackend<K>, K: Keychain
    ensures
        call_requires(
            build_recipient_output::<T, K>,
            (wallet, keychain_mask, slate, parent_key_id, use_test_rng),
        ),
{
}

} // verus!
