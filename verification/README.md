# coin_selection

How a wallet pays: which of its outputs it spends, what fee the transaction owes, how the
change is split, and what the wallet records about a payment it makes or receives.

The library under `src/` is verified with Verus. Each function states what it returns, when
it fails and with which error, and what it asks of the wallet store, in which order. The laws
in `laws.rs`, `payment_laws.rs` and `step_laws.rs` follow from those contracts: a selection
covers the amount, nothing is spent that is not spendable, the change outputs add up to the
change and the parts of a transaction balance. A payment is recorded as a whole, and costs the
account the amount and the fee where its change outputs have keys of their own and its inputs
kept their values.

Outside the proofs stand:

* three calls into `grin_core` and `grin_keychain`: how an amount is shown, what a transaction
  weighs, and which secret key a blinding factor stands for;
* the wallet store and the keychain, which implement the traits of `wallet.rs`.

`app/` has a keychain that is backed by `grin_keychain`; `tests/` runs the library on concrete
wallets.
