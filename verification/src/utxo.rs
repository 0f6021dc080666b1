use vstd::prelude::*;
use crate::codec::{
    get_simple_transaction, output_hash, spec_le_bytes, spec_output_hash, spec_signing_payload,
};
use crate::crypto::{blake2_of, sr25519_ok, sr25519_verify};
use crate::store::UtxoStore;
use crate::types::{
    bytes32_eq, bytes64_eq, input_view, output_view, tx_wf, views32, Error, Transaction,
    TransactionInput, TransactionOutput, ValidModel, ValidTransaction, Value, H256,
};
use crate::types::Event;

verus! {

/// Two inputs share the same (outpoint, sigscript) pair.
pub open spec fn has_dup_inputs(s: Seq<TransactionInput>) -> bool {
    exists|i: int, j: int| 0 <= i < j < s.len() && input_view(s[i]) == input_view(s[j])
}

/// Two outputs are byte-equal.
pub open spec fn has_dup_outputs(s: Seq<TransactionOutput>) -> bool {
    exists|i: int, j: int| 0 <= i < j < s.len() && output_view(s[i]) == output_view(s[j])
}

fn has_duplicate_inputs(inputs: &Vec<TransactionInput>) -> (r: bool)
    ensures
        r == has_dup_inputs(inputs@),
{
    if inputs.len() == 0 {
        return false;
    }
    let mut i: usize = 1;
    while i < inputs.len()
        invariant
            1 <= i <= inputs@.len(),
            !has_dup_inputs(inputs@.take(i as int)),
        decreases inputs@.len() - i,
    {
        let mut j: usize = 0;
        while j < i
            invariant
                0 <= j <= i < inputs@.len(),
                forall|k: int|
                    0 <= k < j ==> input_view(inputs@[k]) != input_view(inputs@[i as int]),
            decreases i - j,
        {
            if bytes32_eq(&inputs[j].outpoint, &inputs[i].outpoint) && bytes64_eq(
                &inputs[j].sigscript,
                &inputs[i].sigscript,
            ) {
                proof {
                    assert(input_view(inputs@[j as int]) == input_view(inputs@[i as int]));
                }
                return true;
            }
            j = j + 1;
        }
        proof {
            assert(!has_dup_inputs(inputs@.take(i + 1))) by {
                if has_dup_inputs(inputs@.take(i + 1)) {
                    let (a, b) = choose|a: int, b: int|
                        0 <= a < b < i + 1 && #[trigger] input_view(inputs@.take(i + 1)[a])
                            == #[trigger] input_view(inputs@.take(i + 1)[b]);
                    if b < i {
                        assert(input_view(inputs@.take(i as int)[a]) == input_view(
                            inputs@.take(i as int)[b],
                        ));
                    }
                }
            };
        }
        i = i + 1;
    }
    proof {
        assert(inputs@.take(inputs@.len() as int) =~= inputs@);
    }
    false
}

fn has_duplicate_outputs(outputs: &Vec<TransactionOutput>) -> (r: bool)
    ensures
        r == has_dup_outputs(outputs@),
{
    if outputs.len() == 0 {
        return false;
    }
    let mut i: usize = 1;
    while i < outputs.len()
        invariant
            1 <= i <= outputs@.len(),
            !has_dup_outputs(outputs@.take(i as int)),
        decreases outputs@.len() - i,
    {
        let mut j: usize = 0;
        while j < i
            invariant
                0 <= j <= i < outputs@.len(),
                forall|k: int|
                    0 <= k < j ==> output_view(outputs@[k]) != output_view(outputs@[i as int]),
            decreases i - j,
        {
            if outputs[j].value == outputs[i].value && bytes32_eq(
                &outputs[j].pubkey,
                &outputs[i].pubkey,
            ) {
                proof {
                    assert(output_view(outputs@[j as int]) == output_view(outputs@[i as int]));
                }
                return true;
            }
            j = j + 1;
        }
        proof {
            assert(!has_dup_outputs(outputs@.take(i + 1))) by {
                if has_dup_outputs(outputs@.take(i + 1)) {
                    let (a, b) = choose|a: int, b: int|
                        0 <= a < b < i + 1 && #[trigger] output_view(outputs@.take(i + 1)[a])
                            == #[trigger] output_view(outputs@.take(i + 1)[b]);
                    if b < i {
                        assert(output_view(outputs@.take(i as int)[a]) == output_view(
                            outputs@.take(i as int)[b],
                        ));
                    }
                }
            };
        }
        i = i + 1;
    }
    proof {
        assert(outputs@.take(outputs@.len() as int) =~= outputs@);
    }
    false
}

/// Outcome of walking the inputs in order: the first failure, or the summed
/// value of the inputs found in the store and the outpoints of those absent.
pub enum InScan {
    Fail(Error),
    Done { total: Value, missing: Seq<Seq<u8>> },
}

/// Outcome of walking the outputs in order: the first failure, or the summed
/// output value and the hashes of the outputs to be created.
pub enum OutScan {
    Fail(Error),
    Done { total: Value, provides: Seq<Seq<u8>> },
}

/// Walk the inputs in order. An input whose outpoint is in the store must carry
/// a valid signature over the signing payload and contributes its value to the
/// total; an absent outpoint is recorded as missing. The first failure wins.
pub open spec fn scan_inputs(
    m: Map<Seq<u8>, TransactionOutput>,
    payload: Seq<u8>,
    s: Seq<TransactionInput>,
    total: Value,
    missing: Seq<Seq<u8>>,
) -> InScan
    decreases s.len(),
{
    if s.len() == 0 {
        InScan::Done { total, missing }
    } else if m.contains_key(s[0].outpoint@) {
        let utxo = m[s[0].outpoint@];
        if !sr25519_ok(s[0].sigscript@, payload, utxo.pubkey@) {
            InScan::Fail(Error::InvalidSignature)
        } else if total + utxo.value > Value::MAX {
            InScan::Fail(Error::ValueOverflow)
        } else {
            scan_inputs(m, payload, s.drop_first(), (total + utxo.value) as Value, missing)
        }
    } else {
        scan_inputs(m, payload, s.drop_first(), total, missing.push(s[0].outpoint@))
    }
}

/// Walk the outputs in order. Each must carry a positive value and hash to an
/// identifier not already in the store. The first failure wins.
pub open spec fn scan_outputs(
    m: Map<Seq<u8>, TransactionOutput>,
    tx: Transaction,
    s: Seq<TransactionOutput>,
    index: u64,
    total: Value,
    provides: Seq<Seq<u8>>,
) -> OutScan
    decreases s.len(),
{
    if s.len() == 0 {
        OutScan::Done { total, provides }
    } else if s[0].value == 0 {
        OutScan::Fail(Error::ZeroValueOutput)
    } else {
        let h = spec_output_hash(tx, index as nat);
        if m.contains_key(h) {
            OutScan::Fail(Error::OutputAlreadyExists)
        } else if total + s[0].value > Value::MAX {
            OutScan::Fail(Error::ValueOverflow)
        } else if index == u64::MAX {
            OutScan::Fail(Error::OutputIndexOverflow)
        } else {
            scan_outputs(
                m,
                tx,
                s.drop_first(),
                (index + 1) as u64,
                (total + s[0].value) as Value,
                provides.push(h),
            )
        }
    }
}

/// What validation returns for a transaction against a given UTXO mapping:
/// the checks of the validator in their fixed order, first failure wins.
pub open spec fn spec_validate(m: Map<Seq<u8>, TransactionOutput>, tx: Transaction) -> Result<
    ValidModel,
    Error,
> {
    if tx.inputs@.len() == 0 {
        Err(Error::NoInputs)
    } else if tx.outputs@.len() == 0 {
        Err(Error::NoOutputs)
    } else if has_dup_inputs(tx.inputs@) {
        Err(Error::DuplicateInput)
    } else if has_dup_outputs(tx.outputs@) {
        Err(Error::DuplicateOutput)
    } else {
        let payload = spec_signing_payload(tx);
        match scan_inputs(m, payload, tx.inputs@, 0, Seq::empty()) {
            InScan::Fail(e) => Err(e),
            InScan::Done { total: total_input, missing } => match scan_outputs(
                m,
                tx,
                tx.outputs@,
                0,
                0,
                Seq::empty(),
            ) {
                OutScan::Fail(e) => Err(e),
                OutScan::Done { total: total_output, provides } => {
                    if missing.len() == 0 {
                        if total_input < total_output {
                            Err(Error::OutputExceedsInput)
                        } else {
                            Ok(
                                ValidModel {
                                    required: missing,
                                    provides,
                                    priority: (total_input - total_output) as u64,
                                    fee: (total_input - total_output) as Value,
                                    total_input,
                                    total_output,
                                },
                            )
                        }
                    } else {
                        Ok(
                            ValidModel {
                                required: missing,
                                provides,
                                priority: 0,
                                fee: 0,
                                total_input,
                                total_output,
                            },
                        )
                    }
                },
            },
        }
    }
}

/// Validate a transaction and also return the exact fee it pays.
pub(crate) fn validate_with_fee(store: &UtxoStore, transaction: &Transaction) -> (r: Result<
    (ValidTransaction, Value),
    Error,
>)
    requires
        store.wf(),
        tx_wf(*transaction),
    ensures
        match r {
            Ok(pair) => spec_validate(store.spec_map(), *transaction) matches Ok(model)
                && views32(pair.0.required@) == model.required && views32(pair.0.provides@)
                == model.provides && pair.0.priority == model.priority && pair.1 == model.fee,
            Err(e) => spec_validate(store.spec_map(), *transaction) == Err::<ValidModel, Error>(e),
        },
{
    let ghost m = store.spec_map();
    if transaction.inputs.len() == 0 {
        return Err(Error::NoInputs);
    }
    if transaction.outputs.len() == 0 {
        return Err(Error::NoOutputs);
    }
    if has_duplicate_inputs(&transaction.inputs) {
        return Err(Error::DuplicateInput);
    }
    if has_duplicate_outputs(&transaction.outputs) {
        return Err(Error::DuplicateOutput);
    }
    let payload = get_simple_transaction(transaction);

    let mut total_input: Value = 0;
    let mut missing: Vec<H256> = Vec::new();
    let mut i: usize = 0;
    proof {
        assert(transaction.inputs@.skip(0) =~= transaction.inputs@);
        assert(views32(missing@) =~= Seq::<Seq<u8>>::empty());
    }
    while i < transaction.inputs.len()
        invariant
            0 <= i <= transaction.inputs@.len(),
            scan_inputs(m, payload@, transaction.inputs@.skip(i as int), total_input, views32(
                missing@,
            )) == scan_inputs(m, payload@, transaction.inputs@, 0, Seq::empty()),
        decreases transaction.inputs@.len() - i,
    {
        let ghost rest = transaction.inputs@.skip(i as int);
        proof {
            assert(rest[0] == transaction.inputs@[i as int]);
            assert(rest.drop_first() =~= transaction.inputs@.skip(i + 1));
        }
        match store.get(&transaction.inputs[i].outpoint) {
            Some(input_utxo) => {
                if !sr25519_verify(&transaction.inputs[i].sigscript, &payload, &input_utxo.pubkey)
                {
                    return Err(Error::InvalidSignature);
                }
                if input_utxo.value > Value::MAX - total_input {
                    return Err(Error::ValueOverflow);
                }
                total_input = total_input + input_utxo.value;
            },
            None => {
                let ghost prev_missing = missing@;
                missing.push(transaction.inputs[i].outpoint);
                proof {
                    assert(views32(missing@) =~= views32(prev_missing).push(
                        transaction.inputs@[i as int].outpoint@,
                    ));
                }
            },
        }
        i = i + 1;
    }
    proof {
        assert(transaction.inputs@.skip(transaction.inputs@.len() as int)
            =~= Seq::<TransactionInput>::empty());
    }

    let mut total_output: Value = 0;
    let mut provides: Vec<H256> = Vec::new();
    let mut j: usize = 0;
    proof {
        assert(transaction.outputs@.skip(0) =~= transaction.outputs@);
        assert(views32(provides@) =~= Seq::<Seq<u8>>::empty());
    }
    while j < transaction.outputs.len()
        invariant
            0 <= j <= transaction.outputs@.len(),
            scan_outputs(
                m,
                *transaction,
                transaction.outputs@.skip(j as int),
                j as u64,
                total_output,
                views32(provides@),
            ) == scan_outputs(m, *transaction, transaction.outputs@, 0, 0, Seq::empty()),
        decreases transaction.outputs@.len() - j,
    {
        let ghost rest = transaction.outputs@.skip(j as int);
        proof {
            assert(rest[0] == transaction.outputs@[j as int]);
            assert(rest.drop_first() =~= transaction.outputs@.skip(j + 1));
        }
        if transaction.outputs[j].value == 0 {
            return Err(Error::ZeroValueOutput);
        }
        let h = output_hash(transaction, j as u64);
        if store.contains(&h) {
            return Err(Error::OutputAlreadyExists);
        }
        if transaction.outputs[j].value > Value::MAX - total_output {
            return Err(Error::ValueOverflow);
        }
        total_output = total_output + transaction.outputs[j].value;
        let ghost prev_provides = provides@;
        provides.push(h);
        proof {
            assert(views32(provides@) =~= views32(prev_provides).push(h@));
        }
        j = j + 1;
    }
    proof {
        assert(transaction.outputs@.skip(transaction.outputs@.len() as int)
            =~= Seq::<TransactionOutput>::empty());
    }

    if missing.len() == 0 {
        proof {
            assert(views32(missing@) =~= Seq::<Seq<u8>>::empty());
            assert(views32(missing@).len() == 0);
        }
        if total_input < total_output {
            return Err(Error::OutputExceedsInput);
        }
        let fee = total_input - total_output;
        let v = ValidTransaction { required: missing, provides, priority: fee as u64 };
        Ok((v, fee))
    } else {
        proof {
            assert(views32(missing@).len() == missing@.len());
        }
        let v = ValidTransaction { required: missing, provides, priority: 0 };
        Ok((v, 0))
    }
}

/// Validate a transaction for validity, errors, and race conditions.
///
/// The returned descriptor lists in `required` the outpoints absent from the
/// UTXO set, in `provides` the output hashes the transaction would create, and
/// in `priority` the fee truncated to 64 bits.
pub fn validate_transaction(store: &UtxoStore, transaction: &Transaction) -> (r: Result<
    ValidTransaction,
    Error,
>)
    requires
        store.wf(),
        tx_wf(*transaction),
    ensures
        match r {
            Ok(v) => spec_validate(store.spec_map(), *transaction) matches Ok(model) && views32(
                v.required@,
            ) == model.required && views32(v.provides@) == model.provides && v.priority
                == model.priority,
            Err(e) => spec_validate(store.spec_map(), *transaction) == Err::<ValidModel, Error>(e),
        },
{
    match validate_with_fee(store, transaction) {
        Ok((v, _fee)) => Ok(v),
        Err(e) => Err(e),
    }
}

/// The mapping after every input's outpoint has been removed, in order.
pub open spec fn spec_remove_inputs(
    m: Map<Seq<u8>, TransactionOutput>,
    s: Seq<TransactionInput>,
) -> Map<Seq<u8>, TransactionOutput>
    decreases s.len(),
{
    if s.len() == 0 {
        m
    } else {
        spec_remove_inputs(m.remove(s[0].outpoint@), s.drop_first())
    }
}

/// The mapping after the outputs from `index` on have been inserted under
/// their output hashes, in order.
pub open spec fn spec_insert_outputs(
    m: Map<Seq<u8>, TransactionOutput>,
    tx: Transaction,
    index: nat,
) -> Map<Seq<u8>, TransactionOutput>
    decreases tx.outputs@.len() - index,
{
    if index >= tx.outputs@.len() {
        m
    } else {
        spec_insert_outputs(
            m.insert(spec_output_hash(tx, index), tx.outputs@[index as int]),
            tx,
            index + 1,
        )
    }
}

/// The mapping after a transaction is applied: inputs removed, outputs inserted.
pub open spec fn spec_apply(m: Map<Seq<u8>, TransactionOutput>, tx: Transaction) -> Map<
    Seq<u8>,
    TransactionOutput,
> {
    spec_insert_outputs(spec_remove_inputs(m, tx.inputs@), tx, 0)
}

/// Update storage to reflect the changes made by a transaction: accrue the fee
/// into the reward pool, remove the spent UTXOs, insert the created ones.
/// Fails, changing nothing, only when the pool would overflow.
pub fn update_storage(
    store: &mut UtxoStore,
    reward_total: &mut Value,
    transaction: &Transaction,
    reward: Value,
) -> (r: Result<(), Error>)
    requires
        old(store).wf(),
        tx_wf(*transaction),
    ensures
        final(store).wf(),
        match r {
            Ok(_) => *final(reward_total) == *old(reward_total) + reward
                && final(store).spec_map() == spec_apply(old(store).spec_map(), *transaction),
            Err(e) => e == Error::RewardError && *old(reward_total) + reward > Value::MAX
                && *final(store) == *old(store) && *final(reward_total) == *old(reward_total),
        },
{
    if reward > Value::MAX - *reward_total {
        return Err(Error::RewardError);
    }
    *reward_total = *reward_total + reward;

    let ghost m0 = store.spec_map();
    let mut i: usize = 0;
    proof {
        assert(transaction.inputs@.skip(0) =~= transaction.inputs@);
    }
    while i < transaction.inputs.len()
        invariant
            0 <= i <= transaction.inputs@.len(),
            store.wf(),
            spec_remove_inputs(store.spec_map(), transaction.inputs@.skip(i as int))
                == spec_remove_inputs(m0, transaction.inputs@),
        decreases transaction.inputs@.len() - i,
    {
        let ghost rest = transaction.inputs@.skip(i as int);
        proof {
            assert(rest[0] == transaction.inputs@[i as int]);
            assert(rest.drop_first() =~= transaction.inputs@.skip(i + 1));
        }
        store.remove(&transaction.inputs[i].outpoint);
        i = i + 1;
    }
    proof {
        assert(transaction.inputs@.skip(transaction.inputs@.len() as int)
            =~= Seq::<TransactionInput>::empty());
    }

    let ghost m1 = store.spec_map();
    let mut j: usize = 0;
    while j < transaction.outputs.len()
        invariant
            0 <= j <= transaction.outputs@.len(),
            store.wf(),
            spec_insert_outputs(store.spec_map(), *transaction, j as nat) == spec_insert_outputs(
                m1,
                *transaction,
                0,
            ),
        decreases transaction.outputs@.len() - j,
    {
        let h = output_hash(transaction, j as u64);
        store.insert(h, transaction.outputs[j]);
        j = j + 1;
    }
    Ok(())
}

/// Dispatch a transaction from a signed origin: validate it, demand that no
/// input is missing, then apply it. On any failure nothing changes.
pub fn spend(store: &mut UtxoStore, reward_total: &mut Value, transaction: &Transaction) -> (r:
    Result<(), Error>)
    requires
        old(store).wf(),
        tx_wf(*transaction),
    ensures
        final(store).wf(),
        match r {
            Ok(_) => spec_validate(old(store).spec_map(), *transaction) matches Ok(model)
                && model.required.len() == 0 && *final(reward_total) == *old(reward_total)
                + model.fee && final(store).spec_map() == spec_apply(
                old(store).spec_map(),
                *transaction,
            ),
            Err(e) => *final(store) == *old(store) && *final(reward_total) == *old(reward_total)
                && ({
                ||| spec_validate(old(store).spec_map(), *transaction) == Err::<
                    ValidModel,
                    Error,
                >(e)
                ||| (e == Error::MissingInputUtxo && (spec_validate(
                    old(store).spec_map(),
                    *transaction,
                ) matches Ok(model) && model.required.len() > 0))
                ||| (e == Error::RewardError && (spec_validate(
                    old(store).spec_map(),
                    *transaction,
                ) matches Ok(model) && model.required.len() == 0 && *old(reward_total) + model.fee
                    > Value::MAX))
            }),
        },
{
    let validity = validate_with_fee(store, transaction);
    match validity {
        Err(e) => Err(e),
        Ok((v, fee)) => {
            if v.required.len() > 0 {
                proof {
                    assert(views32(v.required@).len() == v.required@.len());
                }
                return Err(Error::MissingInputUtxo);
            }
            proof {
                assert(views32(v.required@).len() == v.required@.len());
            }
            update_storage(store, reward_total, transaction, fee)
        },
    }
}

/// Saturating addition on values.
pub open spec fn spec_saturating_add(a: Value, b: Value) -> Value {
    if a + b > Value::MAX {
        Value::MAX
    } else {
        (a + b) as Value
    }
}

/// The UTXO that pays a block's reward: the drained pool plus the issuance,
/// owed to the block author.
pub open spec fn spec_reward_utxo(pool: Value, issuance: Value, author: H256) -> TransactionOutput {
    TransactionOutput { value: spec_saturating_add(pool, issuance), pubkey: author }
}

/// Where the reward UTXO is stored: the digest of its encoding followed by the
/// block number, which keeps consecutive rewards to one author distinct.
pub open spec fn spec_reward_hash(utxo: TransactionOutput, block_number: u64) -> Seq<u8> {
    blake2_of(crate::codec::spec_encode_output(utxo) + spec_le_bytes(block_number as nat, 8))
}

/// Redistribute the accumulated fees plus the issuance to the block author as
/// a freshly stored UTXO, draining the reward pool.
pub fn disperse_reward(
    store: &mut UtxoStore,
    reward_total: &mut Value,
    author: &H256,
    issuance: Value,
    block_number: u64,
) -> (ev: Event)
    requires
        old(store).wf(),
    ensures
        final(store).wf(),
        *final(reward_total) == 0,
        ({
            let utxo = spec_reward_utxo(*old(reward_total), issuance, *author);
            let h = spec_reward_hash(utxo, block_number);
            final(store).spec_map() == old(store).spec_map().insert(h, utxo) && (ev matches
            Event::RewardsIssued { amount, utxo_hash } && amount == utxo.value && utxo_hash@ == h)
        }),
{
    let reward = if issuance > Value::MAX - *reward_total {
        Value::MAX
    } else {
        *reward_total + issuance
    };
    *reward_total = 0;
    let utxo = TransactionOutput { value: reward, pubkey: *author };
    let mut buf: Vec<u8> = Vec::new();
    crate::codec::push_output(&mut buf, &utxo);
    crate::codec::push_le_bytes(&mut buf, block_number as u128, 8);
    let hash = crate::crypto::blake2_256_digest(&buf);
    store.insert(hash, utxo);
    Event::RewardsIssued { amount: reward, utxo_hash: hash }
}

/// The block-finalization hook of the UTXO engine: pay the reward to the block
/// author if the oracle knows one, otherwise leave the pool for a later block.
pub fn on_finalize(
    store: &mut UtxoStore,
    reward_total: &mut Value,
    block_author: Option<H256>,
    issuance: Value,
    block_number: u64,
) -> (ev: Event)
    requires
        old(store).wf(),
    ensures
        final(store).wf(),
        match block_author {
            None => ev is RewardsWasted && *final(store) == *old(store) && *final(reward_total)
                == *old(reward_total),
            Some(author) => *final(reward_total) == 0 && ({
                let utxo = spec_reward_utxo(*old(reward_total), issuance, author);
                let h = spec_reward_hash(utxo, block_number);
                final(store).spec_map() == old(store).spec_map().insert(h, utxo) && (ev matches
                Event::RewardsIssued { amount, utxo_hash } && amount == utxo.value && utxo_hash@
                    == h)
            }),
        },
{
    match block_author {
        None => Event::RewardsWasted,
        Some(author) => disperse_reward(store, reward_total, &author, issuance, block_number),
    }
}

/// The mapping after the genesis outputs are stored, each under the digest of
/// its own encoding.
pub open spec fn spec_genesis_map(
    m: Map<Seq<u8>, TransactionOutput>,
    s: Seq<TransactionOutput>,
) -> Map<Seq<u8>, TransactionOutput>
    decreases s.len(),
{
    if s.len() == 0 {
        m
    } else {
        spec_genesis_map(
            m.insert(blake2_of(crate::codec::spec_encode_output(s[0])), s[0]),
            s.drop_first(),
        )
    }
}

/// The outputs that seed the UTXO set at genesis.
pub struct GenesisConfig {
    pub genesis_utxos: Vec<TransactionOutput>,
}

impl Default for GenesisConfig {
    /// An empty genesis: no seeded UTXOs.
    fn default() -> (r: Self)
        ensures
            r.genesis_utxos@.len() == 0,
    {
        GenesisConfig { genesis_utxos: Vec::new() }
    }
}

impl GenesisConfig {
    /// Seed the UTXO set: store every genesis output under the digest of its
    /// own encoding.
    pub fn build(&self, store: &mut UtxoStore)
        requires
            old(store).wf(),
        ensures
            final(store).wf(),
            final(store).spec_map() == spec_genesis_map(
                old(store).spec_map(),
                self.genesis_utxos@,
            ),
    {
        let ghost m0 = store.spec_map();
        let mut i: usize = 0;
        proof {
            assert(self.genesis_utxos@.skip(0) =~= self.genesis_utxos@);
        }
        while i < self.genesis_utxos.len()
            invariant
                0 <= i <= self.genesis_utxos@.len(),
                store.wf(),
                spec_genesis_map(store.spec_map(), self.genesis_utxos@.skip(i as int))
                    == spec_genesis_map(m0, self.genesis_utxos@),
            decreases self.genesis_utxos@.len() - i,
        {
            let ghost rest = self.genesis_utxos@.skip(i as int);
            proof {
                assert(rest[0] == self.genesis_utxos@[i as int]);
                assert(rest.drop_first() =~= self.genesis_utxos@.skip(i + 1));
            }
            let utxo = self.genesis_utxos[i];
            let mut buf: Vec<u8> = Vec::new();
            crate::codec::push_output(&mut buf, &utxo);
            let hash = crate::crypto::blake2_256_digest(&buf);
            store.insert(hash, utxo);
            i = i + 1;
        }
        proof {
            assert(self.genesis_utxos@.skip(self.genesis_utxos@.len() as int)
                =~= Seq::<TransactionOutput>::empty());
        }
    }
}

/// The outpoints of the inputs of a transaction that are absent from the store,
/// in input order.
pub open spec fn spec_missing_utxos(
    m: Map<Seq<u8>, TransactionOutput>,
    s: Seq<TransactionInput>,
) -> Seq<Seq<u8>>
    decreases s.len(),
{
    if s.len() == 0 {
        Seq::empty()
    } else if m.contains_key(s[0].outpoint@) {
        spec_missing_utxos(m, s.drop_first())
    } else {
        seq![s[0].outpoint@] + spec_missing_utxos(m, s.drop_first())
    }
}

/// Helper for checking missing UTXOs: which outpoints a transaction refers to
/// that are not currently in the store.
pub fn get_missing_utxos(store: &UtxoStore, transaction: &Transaction) -> (r: Vec<H256>)
    requires
        store.wf(),
    ensures
        views32(r@) == spec_missing_utxos(store.spec_map(), transaction.inputs@),
{
    let mut missing: Vec<H256> = Vec::new();
    let mut i: usize = 0;
    proof {
        assert(transaction.inputs@.skip(0) =~= transaction.inputs@);
        assert(views32(missing@) =~= Seq::<Seq<u8>>::empty());
    }
    while i < transaction.inputs.len()
        invariant
            0 <= i <= transaction.inputs@.len(),
            views32(missing@) + spec_missing_utxos(
                store.spec_map(),
                transaction.inputs@.skip(i as int),
            ) == spec_missing_utxos(store.spec_map(), transaction.inputs@),
        decreases transaction.inputs@.len() - i,
    {
        let ghost rest = transaction.inputs@.skip(i as int);
        proof {
            assert(rest[0] == transaction.inputs@[i as int]);
            assert(rest.drop_first() =~= transaction.inputs@.skip(i + 1));
        }
        if store.get(&transaction.inputs[i].outpoint).is_none() {
            let ghost prev_missing = missing@;
            missing.push(transaction.inputs[i].outpoint);
            proof {
                assert(views32(missing@) =~= views32(prev_missing).push(
                    transaction.inputs@[i as int].outpoint@,
                ));
                assert(views32(missing@) + spec_missing_utxos(
                    store.spec_map(),
                    transaction.inputs@.skip(i + 1),
                ) =~= views32(prev_missing) + (seq![
                    transaction.inputs@[i as int].outpoint@,
                ] + spec_missing_utxos(store.spec_map(), transaction.inputs@.skip(i + 1))));
            }
        }
        i = i + 1;
    }
    proof {
        assert(transaction.inputs@.skip(transaction.inputs@.len() as int)
            =~= Seq::<TransactionInput>::empty());
        assert(views32(missing@) + Seq::<Seq<u8>>::empty() =~= views32(missing@));
    }
    missing
}

} // verus!
