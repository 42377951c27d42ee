//! The data of a wallet: outputs, log entries and the context of a payment.
use vstd::prelude::*;
use vstd::std_specs::cmp::PartialEqSpecImpl;

verus! {

/// How many steps of a derivation path are in use.
#[derive(Debug, Clone, Copy, PartialEq, Eq, Structural)]
pub enum PathDepth {
    Zero,
    One,
    Two,
    Three,
    Four,
}

/// Identifier of a key: its derivation path.
#[derive(Debug, Clone, Copy, Eq)]
pub struct Identifier {
    /// How many of the steps in `path` lead to the key.
    pub depth: PathDepth,
    /// The child number taken at each step.
    pub path: [u32; 4],
}

impl PartialEq for Identifier {
    fn eq(&self, other: &Self) -> (equal: bool) {
        let equal = self.depth == other.depth && self.path[0] == other.path[0] && self.path[1]
            == other.path[1] && self.path[2] == other.path[2] && self.path[3] == other.path[3];
        proof {
            assert(equal ==> self.path =~= other.path);
        }
        equal
    }
}

impl PartialEqSpecImpl for Identifier {
    open spec fn obeys_eq_spec() -> bool {
        true
    }

    open spec fn eq_spec(&self, other: &Self) -> bool {
        *self == *other
    }
}

impl Identifier {
    /// The child number of the last step of the path, 0 for the root.
    pub open spec fn last_index(self) -> u32 {
        match self.depth {
            PathDepth::Zero => 0,
            PathDepth::One => self.path[0],
            PathDepth::Two => self.path[1],
            PathDepth::Three => self.path[2],
            PathDepth::Four => self.path[3],
        }
    }

    /// Last part of the path.
    pub fn last_path_index(&self) -> (index: u32)
        ensures
            index == self.last_index(),
    {
        match self.depth {
            PathDepth::Zero => 0,
            PathDepth::One => self.path[0],
            PathDepth::Two => self.path[1],
            PathDepth::Three => self.path[2],
            PathDepth::Four => self.path[3],
        }
    }
}

/// A secret key, or the mask that hides one.
#[derive(Debug, Clone, Copy, PartialEq, Eq)]
pub struct SecretKey {
    pub bytes: [u8; 32],
}

/// The sum of the blinding factors of a transaction.
#[derive(Debug, Clone, Copy, PartialEq, Eq)]
pub struct BlindingFactor {
    pub bytes: [u8; 32],
}

/// A commitment to a value.
#[derive(Debug, Clone, Copy, PartialEq, Eq)]
pub struct Commitment {
    pub bytes: [u8; 33],
}

/// What is known of an output of the wallet.
#[derive(Debug, Clone, Copy, PartialEq, Eq, Structural)]
pub enum OutputStatus {
    /// Not yet seen on the chain.
    Unconfirmed,
    /// On the chain and free to be spent.
    Unspent,
    /// Set aside for a payment.
    Locked,
    /// Spent.
    Spent,
}

/// An output that the wallet owns.
#[derive(Debug, PartialEq, Eq)]
pub struct OutputData {
    /// Account that the output belongs to.
    pub root_key_id: Identifier,
    /// Key of the output.
    pub key_id: Identifier,
    /// Last step of the path of the key.
    pub n_child: u32,
    /// Commitment of the output, if it was computed.
    pub commit: Option<String>,
    /// Position in the output set, if known.
    pub mmr_index: Option<u64>,
    /// Value of the output.
    pub value: u64,
    /// What is known of the output.
    pub status: OutputStatus,
    /// Height of the block that holds the output.
    pub height: u64,
    /// Height up to which the output cannot be spent.
    pub lock_height: u64,
    /// Whether the output is a block reward.
    pub is_coinbase: bool,
    /// Log entry of the payment that the output belongs to.
    pub tx_log_entry: Option<u32>,
}

impl Clone for OutputData {
    fn clone(&self) -> (copy: Self)
        ensures
            copy == *self,
    {
        let commit = match &self.commit {
            Some(commit) => Some(commit.clone()),
            None => None,
        };
        OutputData {
            root_key_id: self.root_key_id,
            key_id: self.key_id,
            n_child: self.n_child,
            commit,
            mmr_index: self.mmr_index,
            value: self.value,
            status: self.status,
            height: self.height,
            lock_height: self.lock_height,
            is_coinbase: self.is_coinbase,
            tx_log_entry: self.tx_log_entry,
        }
    }
}

impl OutputData {
    /// How many blocks confirm the output, its own among them.
    pub open spec fn confirmations(self, current_height: u64) -> nat {
        if self.status == OutputStatus::Unconfirmed || self.height > current_height {
            0
        } else {
            (1 + current_height - self.height) as nat
        }
    }

    /// Whether the output can be spent at `current_height`.
    pub open spec fn spendable(self, current_height: u64, minimum_confirmations: u64) -> bool {
        &&& self.lock_height <= current_height
        &&& match self.status {
            OutputStatus::Unspent => self.confirmations(current_height) >= minimum_confirmations,
            OutputStatus::Unconfirmed => !self.is_coinbase && minimum_confirmations == 0,
            OutputStatus::Locked => false,
            OutputStatus::Spent => false,
        }
    }

    /// Check if output is eligible to spend based on state and height and
    /// confirmations.
    pub fn eligible_to_spend(&self, current_height: u64, minimum_confirmations: u64) -> (eligible:
        bool)
        ensures
            eligible == self.spendable(current_height, minimum_confirmations),
    {
        if self.lock_height > current_height {
            return false;
        }
        match self.status {
            OutputStatus::Unspent => {
                minimum_confirmations == 0 || (self.height <= current_height && current_height
                    - self.height >= minimum_confirmations - 1)
            },
            OutputStatus::Unconfirmed => !self.is_coinbase && minimum_confirmations == 0,
            OutputStatus::Locked => false,
            OutputStatus::Spent => false,
        }
    }
}

/// An output that a payment adds to the wallet: not on the chain yet, and marked with
/// the log entry of the payment.
pub open spec fn pending_output(
    parent_key_id: Identifier,
    key_id: Identifier,
    commit: Option<String>,
    value: u64,
    height: u64,
    log_id: u32,
) -> OutputData {
    OutputData {
        root_key_id: parent_key_id,
        key_id,
        n_child: key_id.last_index(),
        commit,
        mmr_index: None,
        value,
        status: OutputStatus::Unconfirmed,
        height,
        lock_height: 0,
        is_coinbase: false,
        tx_log_entry: Some(log_id),
    }
}

/// An input or an output of a payment: its key, its position in the output set if
/// known, and its value.
pub type ContextEntry = (Identifier, Option<u64>, u64);

/// What the wallet keeps to itself about a payment between its rounds.
#[derive(Debug, PartialEq, Eq)]
pub struct Context {
    /// Account that pays or receives.
    pub parent_key_id: Identifier,
    /// Secret key, the excess of our part of the transaction.
    pub sec_key: SecretKey,
    /// Secret nonce.
    pub sec_nonce: SecretKey,
    /// Outputs that we add.
    pub output_ids: Vec<ContextEntry>,
    /// Inputs that we spend.
    pub input_ids: Vec<ContextEntry>,
    /// Fee of the transaction, where we set it.
    pub fee: u64,
    /// Where the address of the sender is derived, for a payment proof.
    pub payment_proof_derivation_index: Option<u32>,
    /// Our position among the participants.
    pub participant_id: usize,
}

impl Context {
    /// The inputs and outputs are still to be added.
    pub open spec fn is_fresh(self) -> bool {
        &&& self.output_ids@ == Seq::<ContextEntry>::empty()
        &&& self.input_ids@ == Seq::<ContextEntry>::empty()
        &&& self.fee == 0
        &&& self.payment_proof_derivation_index is None
    }

    /// Create a new context with the given keys and without inputs or outputs.
    pub fn new(
        sec_key: SecretKey,
        sec_nonce: SecretKey,
        parent_key_id: &Identifier,
        participant_id: usize,
    ) -> (context: Self)
        ensures
            context.is_fresh(),
            context.sec_key == sec_key,
            context.sec_nonce == sec_nonce,
            context.parent_key_id == *parent_key_id,
            context.participant_id == participant_id,
    {
        Context {
            parent_key_id: *parent_key_id,
            sec_key,
            sec_nonce,
            output_ids: Vec::new(),
            input_ids: Vec::new(),
            fee: 0,
            payment_proof_derivation_index: None,
            participant_id,
        }
    }

    /// Tracks an output that we add.
    pub fn add_output(&mut self, output_id: &Identifier, mmr_index: &Option<u64>, amount: u64)
        ensures
            final(self).output_ids@ == old(self).output_ids@.push((*output_id, *mmr_index, amount)),
            *final(self) == (Context { output_ids: final(self).output_ids, ..*old(self) }),
    {
        self.output_ids.push((*output_id, *mmr_index, amount));
    }

    /// Tracks an input that we spend.
    pub fn add_input(&mut self, input_id: &Identifier, mmr_index: &Option<u64>, amount: u64)
        ensures
            final(self).input_ids@ == old(self).input_ids@.push((*input_id, *mmr_index, amount)),
            *final(self) == (Context { input_ids: final(self).input_ids, ..*old(self) }),
    {
        self.input_ids.push((*input_id, *mmr_index, amount));
    }
}

/// What a participant of a payment said to the others.
#[derive(Debug, PartialEq, Eq)]
pub struct ParticipantMessageData {
    /// Position of the participant.
    pub id: u64,
    /// Public key of the participant.
    pub public_key: [u8; 33],
    /// The message, if there is one.
    pub message: Option<String>,
    /// Signature of the message, if there is one.
    pub message_sig: Option<[u8; 64]>,
}

impl Clone for ParticipantMessageData {
    fn clone(&self) -> (copy: Self)
        ensures
            copy == *self,
    {
        let message = match &self.message {
            Some(message) => Some(message.clone()),
            None => None,
        };
        ParticipantMessageData {
            id: self.id,
            public_key: self.public_key,
            message,
            message_sig: self.message_sig,
        }
    }
}

/// What a slate holds of a payment proof.
#[derive(Debug, Clone, Copy, PartialEq, Eq)]
pub struct PaymentInfo {
    pub sender_address: [u8; 32],
    pub receiver_address: [u8; 32],
    pub receiver_signature: Option<[u8; 64]>,
}

/// What the wallet keeps of a payment proof.
#[derive(Debug, Clone, Copy, PartialEq, Eq)]
pub struct StoredProofInfo {
    pub receiver_address: [u8; 32],
    pub receiver_signature: Option<[u8; 64]>,
    /// Where the address of the sender is derived.
    pub sender_address_path: u32,
    pub sender_signature: Option<[u8; 64]>,
}

/// What a log entry is about.
#[derive(Debug, Clone, Copy, PartialEq, Eq, Structural)]
pub enum TxLogEntryType {
    /// A payment that we receive.
    TxReceived,
    /// A payment that we make.
    TxSent,
}

/// An entry of the transaction log.
#[derive(Debug, PartialEq, Eq)]
pub struct TxLogEntry {
    /// Account that the entry belongs to.
    pub parent_key_id: Identifier,
    /// Number of the entry.
    pub id: u32,
    /// Identifier of the slate.
    pub tx_slate_id: Option<String>,
    /// What the entry is about.
    pub tx_type: TxLogEntryType,
    /// Number of inputs that we spend.
    pub num_inputs: usize,
    /// Number of outputs that we add.
    pub num_outputs: usize,
    /// What the account gains.
    pub amount_credited: u64,
    /// What the account spends.
    pub amount_debited: u64,
    /// Fee, where we set it.
    pub fee: Option<u64>,
    /// Messages of the participants.
    pub messages: Option<Vec<ParticipantMessageData>>,
    /// Name of the file that holds the transaction.
    pub stored_tx: Option<String>,
    /// Excess of the kernel, by which it is found on the chain.
    pub kernel_excess: Option<Commitment>,
    /// Height from which on the kernel is looked for.
    pub kernel_lookup_min_height: Option<u64>,
    /// Payment proof, if one was asked for.
    pub payment_proof: Option<StoredProofInfo>,
}

/// What a log entry says.
#[verifier::ext_equal]
pub struct TxLogEntryView {
    pub parent_key_id: Identifier,
    pub id: u32,
    pub tx_slate_id: Option<Seq<char>>,
    pub tx_type: TxLogEntryType,
    pub num_inputs: nat,
    pub num_outputs: nat,
    pub amount_credited: nat,
    pub amount_debited: nat,
    pub fee: Option<u64>,
    pub messages: Option<Seq<ParticipantMessageData>>,
    pub stored_tx: Option<Seq<char>>,
    pub kernel_excess: Option<Commitment>,
    pub kernel_lookup_min_height: Option<u64>,
    pub payment_proof: Option<StoredProofInfo>,
}

impl View for TxLogEntry {
    type V = TxLogEntryView;

    open spec fn view(&self) -> TxLogEntryView {
        TxLogEntryView {
            parent_key_id: self.parent_key_id,
            id: self.id,
            tx_slate_id: match self.tx_slate_id {
                Some(id) => Some(id@),
                None => None,
            },
            tx_type: self.tx_type,
            num_inputs: self.num_inputs as nat,
            num_outputs: self.num_outputs as nat,
            amount_credited: self.amount_credited as nat,
            amount_debited: self.amount_debited as nat,
            fee: self.fee,
            messages: match self.messages {
                Some(messages) => Some(messages@),
                None => None,
            },
            stored_tx: match self.stored_tx {
                Some(name) => Some(name@),
                None => None,
            },
            kernel_excess: self.kernel_excess,
            kernel_lookup_min_height: self.kernel_lookup_min_height,
            payment_proof: self.payment_proof,
        }
    }
}

/// An entry that says nothing yet but what it is about.
pub open spec fn blank_entry(
    parent_key_id: Identifier,
    tx_type: TxLogEntryType,
    id: u32,
) -> TxLogEntryView {
    TxLogEntryView {
        parent_key_id,
        id,
        tx_slate_id: None,
        tx_type,
        num_inputs: 0,
        num_outputs: 0,
        amount_credited: 0,
        amount_debited: 0,
        fee: None,
        messages: None,
        stored_tx: None,
        kernel_excess: None,
        kernel_lookup_min_height: None,
        payment_proof: None,
    }
}

impl TxLogEntry {
    /// Return a new blank with given type and number.
    pub fn new(parent_key_id: Identifier, tx_type: TxLogEntryType, id: u32) -> (entry: Self)
        ensures
            entry@ == blank_entry(parent_key_id, tx_type, id),
    {
        TxLogEntry {
            parent_key_id,
            id,
            tx_slate_id: None,
            tx_type,
            num_inputs: 0,
            num_outputs: 0,
            amount_credited: 0,
            amount_debited: 0,
            fee: None,
            messages: None,
            stored_tx: None,
            kernel_excess: None,
            kernel_lookup_min_height: None,
            payment_proof: None,
        }
    }
}

} // verus!
