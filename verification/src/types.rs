use vstd::prelude::*;

verus! {

/// A monetary amount carried by a transaction output.
pub type Value = u128;

/// A 256-bit digest, stored as raw bytes. Identifies a UTXO by the hash of its
/// creating transaction's signed content, and doubles as a public key holder.
pub type H256 = [u8; 32];

/// A 512-bit signature, stored as raw bytes.
pub type H512 = [u8; 64];

/// Single transaction input that refers to one UTXO.
#[derive(Clone, Copy, Debug)]
pub struct TransactionInput {
    /// Reference to a UTXO to be spent.
    pub outpoint: H256,
    /// Proof that the transaction owner is authorized to spend the referred UTXO
    /// and that the entire transaction is untampered.
    pub sigscript: H512,
}

/// Single transaction output to create upon transaction dispatch.
#[derive(Clone, Copy, Debug)]
pub struct TransactionOutput {
    /// Value associated with this output.
    pub value: Value,
    /// Public key associated with this output.
    pub pubkey: H256,
}

/// A transaction: a bounded list of inputs to consume and outputs to create.
#[derive(Clone, Debug)]
pub struct Transaction {
    /// UTXOs to be used as inputs for the current transaction.
    pub inputs: Vec<TransactionInput>,
    /// UTXOs to be created as a result of the current transaction dispatch.
    pub outputs: Vec<TransactionOutput>,
}

/// Both part lists of a transaction are bounded by `MAX_TRANSACTION_PARTS`.
pub open spec fn tx_wf(tx: Transaction) -> bool {
    &&& tx.inputs@.len() <= crate::MAX_TRANSACTION_PARTS
    &&& tx.outputs@.len() <= crate::MAX_TRANSACTION_PARTS
}

/// The byte content of an input: what equality of inputs means.
pub open spec fn input_view(x: TransactionInput) -> (Seq<u8>, Seq<u8>) {
    (x.outpoint@, x.sigscript@)
}

/// The byte content of an output: what equality of outputs means.
pub open spec fn output_view(x: TransactionOutput) -> (Value, Seq<u8>) {
    (x.value, x.pubkey@)
}

/// The views of a list of 256-bit hashes.
pub open spec fn views32(s: Seq<H256>) -> Seq<Seq<u8>> {
    s.map_values(|h: H256| h@)
}

/// Whether two 256-bit values hold the same bytes.
pub fn bytes32_eq(a: &H256, b: &H256) -> (r: bool)
    ensures
        r == (a@ == b@),
{
    let mut i: usize = 0;
    while i < 32
        invariant
            0 <= i <= 32,
            forall|j: int| 0 <= j < i ==> a@[j] == b@[j],
        decreases 32 - i,
    {
        if a[i] != b[i] {
            return false;
        }
        i = i + 1;
    }
    proof {
        assert(a@ =~= b@);
    }
    true
}

/// Whether two 512-bit values hold the same bytes.
pub fn bytes64_eq(a: &H512, b: &H512) -> (r: bool)
    ensures
        r == (a@ == b@),
{
    let mut i: usize = 0;
    while i < 64
        invariant
            0 <= i <= 64,
            forall|j: int| 0 <= j < i ==> a@[j] == b@[j],
        decreases 64 - i,
    {
        if a[i] != b[i] {
            return false;
        }
        i = i + 1;
    }
    proof {
        assert(a@ =~= b@);
    }
    true
}

/// Every way a transaction can be rejected.
#[derive(Clone, Copy, PartialEq, Eq, Structural, Debug)]
pub enum Error {
    /// No inputs provided.
    NoInputs,
    /// No outputs provided.
    NoOutputs,
    /// Input used multiple times.
    DuplicateInput,
    /// Output defined multiple times.
    DuplicateOutput,
    /// Value overflow.
    ValueOverflow,
    /// Missing input UTXO.
    MissingInputUtxo,
    /// Invalid signature.
    InvalidSignature,
    /// Zero value output.
    ZeroValueOutput,
    /// Output already exists.
    OutputAlreadyExists,
    /// Reward calculation error.
    RewardError,
    /// Output total exceeds input total.
    OutputExceedsInput,
    /// Output index overflow.
    OutputIndexOverflow,
}

/// Validity descriptor of a transaction, kept for the host's pool logic.
/// `required` lists the outpoints of inputs absent from the UTXO set; a
/// transaction is executable on-chain only when it is empty.
pub struct ValidTransaction {
    /// Outpoints that must exist before the transaction can execute.
    pub required: Vec<H256>,
    /// Hashes of the outputs the transaction would create.
    pub provides: Vec<H256>,
    /// The fee, truncated to 64 bits, used by the pool to order transactions.
    pub priority: u64,
}

/// The mathematical content of a successful validation.
#[verifier::ext_equal]
pub struct ValidModel {
    /// Views of the outpoints absent from the UTXO set.
    pub required: Seq<Seq<u8>>,
    /// Views of the hashes of the outputs the transaction would create.
    pub provides: Seq<Seq<u8>>,
    /// The fee truncated to 64 bits.
    pub priority: u64,
    /// Total input value minus total output value, or zero when inputs are missing.
    pub fee: Value,
    /// Sum of the values of the inputs found in the UTXO set.
    pub total_input: Value,
    /// Sum of the values of the outputs.
    pub total_output: Value,
}

/// Events the UTXO engine reports to the host.
#[derive(Clone, Debug)]
pub enum Event {
    /// Transaction was executed successfully.
    TransactionSuccess { transaction: Transaction },
    /// Rewards were issued.
    RewardsIssued { amount: Value, utxo_hash: H256 },
    /// Rewards were wasted.
    RewardsWasted,
}

} // verus!
