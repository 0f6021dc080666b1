use sp_core::crypto::Pair as PairTrait;
use sp_core::sr25519::Pair;
use utxo_pow::codec::{get_simple_transaction, output_hash, push_le_bytes, push_output};
use utxo_pow::crypto::blake2_256_digest;
use utxo_pow::store::UtxoStore;
use utxo_pow::types::{Error, Event, Transaction, TransactionInput, TransactionOutput};
use utxo_pow::utxo::{get_missing_utxos, on_finalize, spend, validate_transaction, GenesisConfig};

fn alice() -> Pair {
    Pair::from_string("//Alice", None).unwrap()
}

fn bob() -> Pair {
    Pair::from_string("//Bob", None).unwrap()
}

fn genesis_hash(utxo: &TransactionOutput) -> [u8; 32] {
    let mut buf = Vec::new();
    push_output(&mut buf, utxo);
    blake2_256_digest(&buf)
}

fn sign_all_inputs(tx: &mut Transaction, pair: &Pair) {
    let payload = get_simple_transaction(tx);
    let sig = pair.sign(&payload);
    for input in tx.inputs.iter_mut() {
        input.sigscript = sig.0;
    }
}

/// A store seeded with one UTXO of the given value owned by Alice.
fn setup_alice(value: u128) -> (UtxoStore, [u8; 32], Pair) {
    let pair = alice();
    let utxo = TransactionOutput { value, pubkey: pair.public().0 };
    let h0 = genesis_hash(&utxo);
    let mut store = UtxoStore::new();
    let genesis = GenesisConfig { genesis_utxos: vec![utxo] };
    genesis.build(&mut store);
    (store, h0, pair)
}

#[test]
fn test_simple_transaction() {
    let (mut store, h0, pair) = setup_alice(100);
    let mut tx = Transaction {
        inputs: vec![TransactionInput { outpoint: h0, sigscript: [0; 64] }],
        outputs: vec![TransactionOutput { value: 50, pubkey: bob().public().0 }],
    };
    sign_all_inputs(&mut tx, &pair);
    let mut reward: u128 = 0;
    let result = spend(&mut store, &mut reward, &tx);
    assert!(result.is_ok());
    assert_eq!(reward, 50);
    assert!(store.get(&h0).is_none());
    let created = output_hash(&tx, 0);
    assert!(store.get(&created).is_some());
    assert_eq!(store.get(&created).unwrap().value, 50);
}

#[test]
fn test_invalid_transaction() {
    let mut store = UtxoStore::new();
    let mut reward: u128 = 0;
    let tx = Transaction {
        inputs: vec![TransactionInput { outpoint: [7; 32], sigscript: [0; 64] }],
        outputs: vec![TransactionOutput { value: 50, pubkey: bob().public().0 }],
    };
    let result = spend(&mut store, &mut reward, &tx);
    assert_eq!(result, Err(Error::MissingInputUtxo));
}

#[test]
fn test_duplicate_input() {
    let (mut store, h0, pair) = setup_alice(100);
    let mut tx = Transaction {
        inputs: vec![
            TransactionInput { outpoint: h0, sigscript: [0; 64] },
            TransactionInput { outpoint: h0, sigscript: [0; 64] },
        ],
        outputs: vec![TransactionOutput { value: 50, pubkey: bob().public().0 }],
    };
    sign_all_inputs(&mut tx, &pair);
    let mut reward: u128 = 0;
    let result = spend(&mut store, &mut reward, &tx);
    assert_eq!(result, Err(Error::DuplicateInput));
}

#[test]
fn test_output_exceeds_input() {
    let (mut store, h0, pair) = setup_alice(100);
    let mut tx = Transaction {
        inputs: vec![TransactionInput { outpoint: h0, sigscript: [0; 64] }],
        outputs: vec![TransactionOutput { value: 150, pubkey: bob().public().0 }],
    };
    sign_all_inputs(&mut tx, &pair);
    let mut reward: u128 = 0;
    let result = spend(&mut store, &mut reward, &tx);
    assert_eq!(result, Err(Error::OutputExceedsInput));
}

#[test]
fn test_zero_value_output() {
    let (mut store, h0, pair) = setup_alice(100);
    let mut tx = Transaction {
        inputs: vec![TransactionInput { outpoint: h0, sigscript: [0; 64] }],
        outputs: vec![TransactionOutput { value: 0, pubkey: bob().public().0 }],
    };
    sign_all_inputs(&mut tx, &pair);
    let mut reward: u128 = 0;
    let result = spend(&mut store, &mut reward, &tx);
    assert_eq!(result, Err(Error::ZeroValueOutput));
}

#[test]
fn test_reward_dispersion() {
    let mut store = UtxoStore::new();
    let mut reward: u128 = 100;
    let author: [u8; 32] = [0; 32];
    let height: u64 = 0;
    let event = on_finalize(&mut store, &mut reward, Some(author), 100, height);
    assert_eq!(reward, 0);
    let utxo = TransactionOutput { value: 200, pubkey: author };
    let mut buf = Vec::new();
    push_output(&mut buf, &utxo);
    push_le_bytes(&mut buf, height as u128, 8);
    let expected_hash = blake2_256_digest(&buf);
    match event {
        Event::RewardsIssued { amount, utxo_hash } => {
            assert_eq!(amount, 200);
            assert_eq!(utxo_hash, expected_hash);
        },
        _ => panic!("expected RewardsIssued"),
    }
    let stored = store.get(&expected_hash).unwrap();
    assert_eq!(stored.value, 200);
    assert_eq!(stored.pubkey, author);
}

#[test]
fn rewards_wasted_keeps_pool() {
    let mut store = UtxoStore::new();
    let mut reward: u128 = 77;
    let event = on_finalize(&mut store, &mut reward, None, 100, 5);
    assert!(matches!(event, Event::RewardsWasted));
    assert_eq!(reward, 77);
    assert_eq!(store.len(), 0);
}

#[test]
fn no_inputs_rejected() {
    let mut store = UtxoStore::new();
    let mut reward: u128 = 0;
    let tx = Transaction {
        inputs: vec![],
        outputs: vec![TransactionOutput { value: 1, pubkey: [1; 32] }],
    };
    assert_eq!(spend(&mut store, &mut reward, &tx), Err(Error::NoInputs));
}

#[test]
fn no_outputs_rejected() {
    let mut store = UtxoStore::new();
    let mut reward: u128 = 0;
    let tx = Transaction {
        inputs: vec![TransactionInput { outpoint: [1; 32], sigscript: [0; 64] }],
        outputs: vec![],
    };
    assert_eq!(spend(&mut store, &mut reward, &tx), Err(Error::NoOutputs));
}

#[test]
fn duplicate_output_rejected() {
    let (mut store, h0, pair) = setup_alice(100);
    let mut tx = Transaction {
        inputs: vec![TransactionInput { outpoint: h0, sigscript: [0; 64] }],
        outputs: vec![
            TransactionOutput { value: 50, pubkey: bob().public().0 },
            TransactionOutput { value: 50, pubkey: bob().public().0 },
        ],
    };
    sign_all_inputs(&mut tx, &pair);
    let mut reward: u128 = 0;
    assert_eq!(spend(&mut store, &mut reward, &tx), Err(Error::DuplicateOutput));
}

#[test]
fn tampered_signature_rejected() {
    let (mut store, h0, pair) = setup_alice(100);
    let mut tx = Transaction {
        inputs: vec![TransactionInput { outpoint: h0, sigscript: [0; 64] }],
        outputs: vec![TransactionOutput { value: 50, pubkey: bob().public().0 }],
    };
    sign_all_inputs(&mut tx, &pair);
    tx.inputs[0].sigscript[10] ^= 0xff;
    let mut reward: u128 = 0;
    assert_eq!(spend(&mut store, &mut reward, &tx), Err(Error::InvalidSignature));
    // Nothing changed: the genesis UTXO is still spendable.
    assert!(store.get(&h0).is_some());
    assert_eq!(reward, 0);
}

#[test]
fn wrong_signer_rejected() {
    let (mut store, h0, _pair) = setup_alice(100);
    let mut tx = Transaction {
        inputs: vec![TransactionInput { outpoint: h0, sigscript: [0; 64] }],
        outputs: vec![TransactionOutput { value: 50, pubkey: bob().public().0 }],
    };
    sign_all_inputs(&mut tx, &bob());
    let mut reward: u128 = 0;
    assert_eq!(spend(&mut store, &mut reward, &tx), Err(Error::InvalidSignature));
}

#[test]
fn value_overflow_rejected() {
    let pair = alice();
    let big = TransactionOutput { value: u128::MAX, pubkey: pair.public().0 };
    let one = TransactionOutput { value: 1, pubkey: pair.public().0 };
    let mut store = UtxoStore::new();
    let genesis = GenesisConfig { genesis_utxos: vec![big, one] };
    genesis.build(&mut store);
    let mut tx = Transaction {
        inputs: vec![
            TransactionInput { outpoint: genesis_hash(&big), sigscript: [0; 64] },
            TransactionInput { outpoint: genesis_hash(&one), sigscript: [0; 64] },
        ],
        outputs: vec![TransactionOutput { value: 50, pubkey: bob().public().0 }],
    };
    sign_all_inputs(&mut tx, &pair);
    let mut reward: u128 = 0;
    assert_eq!(spend(&mut store, &mut reward, &tx), Err(Error::ValueOverflow));
}

#[test]
fn output_already_exists_rejected() {
    let (mut store, h0, pair) = setup_alice(100);
    let mut tx = Transaction {
        inputs: vec![TransactionInput { outpoint: h0, sigscript: [0; 64] }],
        outputs: vec![TransactionOutput { value: 50, pubkey: bob().public().0 }],
    };
    sign_all_inputs(&mut tx, &pair);
    // Occupy the slot the transaction's first output would take.
    let clash = output_hash(&tx, 0);
    store.insert(clash, TransactionOutput { value: 9, pubkey: [9; 32] });
    let mut reward: u128 = 0;
    assert_eq!(spend(&mut store, &mut reward, &tx), Err(Error::OutputAlreadyExists));
}

#[test]
fn reward_pool_overflow_rejected() {
    let (mut store, h0, pair) = setup_alice(100);
    let mut tx = Transaction {
        inputs: vec![TransactionInput { outpoint: h0, sigscript: [0; 64] }],
        outputs: vec![TransactionOutput { value: 50, pubkey: bob().public().0 }],
    };
    sign_all_inputs(&mut tx, &pair);
    let mut reward: u128 = u128::MAX;
    assert_eq!(spend(&mut store, &mut reward, &tx), Err(Error::RewardError));
    // The failed dispatch left both cells untouched.
    assert_eq!(reward, u128::MAX);
    assert!(store.get(&h0).is_some());
}

#[test]
fn validate_reports_descriptor() {
    let (store, h0, pair) = setup_alice(100);
    let mut tx = Transaction {
        inputs: vec![TransactionInput { outpoint: h0, sigscript: [0; 64] }],
        outputs: vec![TransactionOutput { value: 30, pubkey: bob().public().0 }],
    };
    sign_all_inputs(&mut tx, &pair);
    let v = validate_transaction(&store, &tx).unwrap();
    assert!(v.required.is_empty());
    assert_eq!(v.provides, vec![output_hash(&tx, 0)]);
    assert_eq!(v.priority, 70);
}

#[test]
fn pool_descriptor_lists_missing_inputs() {
    let (store, h0, pair) = setup_alice(100);
    let absent: [u8; 32] = [0xaa; 32];
    let mut tx = Transaction {
        inputs: vec![
            TransactionInput { outpoint: h0, sigscript: [0; 64] },
            TransactionInput { outpoint: absent, sigscript: [1; 64] },
        ],
        outputs: vec![TransactionOutput { value: 30, pubkey: bob().public().0 }],
    };
    sign_all_inputs(&mut tx, &pair);
    // Distinguish the two inputs again after the shared signature.
    tx.inputs[1].sigscript = [1; 64];
    let missing = get_missing_utxos(&store, &tx);
    assert_eq!(missing, vec![absent]);
    // A not-yet-executable transaction validates with priority zero and is
    // refused by on-chain dispatch.
    let payload = get_simple_transaction(&tx);
    let sig = pair.sign(&payload);
    tx.inputs[0].sigscript = sig.0;
    let v = validate_transaction(&store, &tx).unwrap();
    assert_eq!(v.required, vec![absent]);
    assert_eq!(v.priority, 0);
    let mut store2 = store;
    let mut reward: u128 = 0;
    assert_eq!(spend(&mut store2, &mut reward, &tx), Err(Error::MissingInputUtxo));
}

#[test]
fn fee_accumulates_across_spends() {
    let pair = alice();
    let a = TransactionOutput { value: 100, pubkey: pair.public().0 };
    let b = TransactionOutput { value: 40, pubkey: pair.public().0 };
    let mut store = UtxoStore::new();
    GenesisConfig { genesis_utxos: vec![a, b] }.build(&mut store);
    let mut reward: u128 = 0;

    let mut tx1 = Transaction {
        inputs: vec![TransactionInput { outpoint: genesis_hash(&a), sigscript: [0; 64] }],
        outputs: vec![TransactionOutput { value: 90, pubkey: bob().public().0 }],
    };
    sign_all_inputs(&mut tx1, &pair);
    assert!(spend(&mut store, &mut reward, &tx1).is_ok());
    let mut tx2 = Transaction {
        inputs: vec![TransactionInput { outpoint: genesis_hash(&b), sigscript: [0; 64] }],
        outputs: vec![TransactionOutput { value: 25, pubkey: bob().public().0 }],
    };
    sign_all_inputs(&mut tx2, &pair);
    assert!(spend(&mut store, &mut reward, &tx2).is_ok());
    assert_eq!(reward, 10 + 15);
}

#[test]
fn store_insert_overwrites_equal_key() {
    let mut store = UtxoStore::new();
    let h: [u8; 32] = [3; 32];
    store.insert(h, TransactionOutput { value: 1, pubkey: [1; 32] });
    store.insert(h, TransactionOutput { value: 2, pubkey: [2; 32] });
    assert_eq!(store.len(), 1);
    assert_eq!(store.get(&h).unwrap().value, 2);
    store.remove(&h);
    assert!(store.get(&h).is_none());
    assert_eq!(store.len(), 0);
}

#[test]
fn largest_transaction_accepted() {
    let (mut store, h0, pair) = setup_alice(100);
    let mut outputs = Vec::new();
    for i in 0..100u8 {
        // 100 pairwise distinct outputs, one value unit each.
        let mut pk = [0u8; 32];
        pk[0] = i;
        outputs.push(TransactionOutput { value: 1, pubkey: pk });
    }
    let mut tx = Transaction {
        inputs: vec![TransactionInput { outpoint: h0, sigscript: [0; 64] }],
        outputs,
    };
    sign_all_inputs(&mut tx, &pair);
    let mut reward: u128 = 0;
    assert!(spend(&mut store, &mut reward, &tx).is_ok());
    assert_eq!(reward, 0);
    assert_eq!(store.len(), 100);
    for i in 0..100u64 {
        assert_eq!(store.get(&output_hash(&tx, i)).unwrap().value, 1);
    }
}

#[test]
fn reward_utxo_is_spendable_next_block() {
    // Block 0: a fee-paying spend, then finalization pays the author.
    let (mut store, h0, pair) = setup_alice(100);
    let mut reward: u128 = 0;
    let mut tx = Transaction {
        inputs: vec![TransactionInput { outpoint: h0, sigscript: [0; 64] }],
        outputs: vec![TransactionOutput { value: 70, pubkey: bob().public().0 }],
    };
    sign_all_inputs(&mut tx, &pair);
    assert!(spend(&mut store, &mut reward, &tx).is_ok());
    assert_eq!(reward, 30);

    let author = pair.public().0;
    let event = on_finalize(&mut store, &mut reward, Some(author), 20, 0);
    assert_eq!(reward, 0);
    let reward_hash = match event {
        Event::RewardsIssued { amount, utxo_hash } => {
            assert_eq!(amount, 50);
            utxo_hash
        },
        _ => panic!("expected RewardsIssued"),
    };
    assert_eq!(store.get(&reward_hash).unwrap().value, 50);

    // Block 1: the author spends the freshly minted reward UTXO.
    let mut tx2 = Transaction {
        inputs: vec![TransactionInput { outpoint: reward_hash, sigscript: [0; 64] }],
        outputs: vec![TransactionOutput { value: 45, pubkey: bob().public().0 }],
    };
    sign_all_inputs(&mut tx2, &pair);
    assert!(spend(&mut store, &mut reward, &tx2).is_ok());
    assert_eq!(reward, 5);
    assert!(store.get(&reward_hash).is_none());

    // This block's author is unknown: the pool is kept, not burned.
    let wasted = on_finalize(&mut store, &mut reward, None, 20, 1);
    assert!(matches!(wasted, Event::RewardsWasted));
    assert_eq!(reward, 5);
}
