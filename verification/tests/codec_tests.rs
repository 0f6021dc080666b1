use sp_core::crypto::Pair as PairTrait;
use sp_core::sr25519::Pair;
use utxo_pow::codec::{
    get_simple_transaction, output_hash, push_compact_u32, push_le_bytes, push_output,
};
use utxo_pow::crypto::{blake2_256_digest, sr25519_verify};
use utxo_pow::types::{Transaction, TransactionInput, TransactionOutput};
use utxo_pow::wide::{wide_add_u128, wide_div_u128, wide_from_u128, wide_mul_u128, Wide};

#[test]
fn le_bytes_layout() {
    let mut out = Vec::new();
    push_le_bytes(&mut out, 0x0102, 2);
    assert_eq!(out, vec![0x02, 0x01]);
    let mut out16 = Vec::new();
    push_le_bytes(&mut out16, 5, 16);
    let mut expected = vec![5u8];
    expected.extend(std::iter::repeat(0u8).take(15));
    assert_eq!(out16, expected);
}

#[test]
fn compact_length_modes() {
    let mut a = Vec::new();
    push_compact_u32(&mut a, 1);
    assert_eq!(a, vec![4]);
    let mut b = Vec::new();
    push_compact_u32(&mut b, 63);
    assert_eq!(b, vec![252]);
    let mut c = Vec::new();
    push_compact_u32(&mut c, 100);
    // 100 * 4 + 1 = 401 = 0x0191, little endian.
    assert_eq!(c, vec![0x91, 0x01]);
    let mut d = Vec::new();
    push_compact_u32(&mut d, 16384);
    // 16384 * 4 + 2 = 0x1_0002, little endian over four bytes.
    assert_eq!(d, vec![0x02, 0x00, 0x01, 0x00]);
}

#[test]
fn signing_payload_layout() {
    let tx = Transaction {
        inputs: vec![TransactionInput { outpoint: [1; 32], sigscript: [2; 64] }],
        outputs: vec![TransactionOutput { value: 5, pubkey: [3; 32] }],
    };
    let payload = get_simple_transaction(&tx);
    let mut expected = vec![4u8];
    expected.extend([1u8; 32]);
    expected.extend([0u8; 64]);
    expected.push(4u8);
    expected.push(5u8);
    expected.extend([0u8; 15]);
    expected.extend([3u8; 32]);
    assert_eq!(payload, expected);
}

#[test]
fn output_encoding_layout() {
    let mut out = Vec::new();
    push_output(&mut out, &TransactionOutput { value: 258, pubkey: [9; 32] });
    let mut expected = vec![2u8, 1u8];
    expected.extend([0u8; 14]);
    expected.extend([9u8; 32]);
    assert_eq!(out, expected);
}

#[test]
fn hash_ignores_sigscripts() {
    // Re-signing a transaction must not move its output hashes.
    let t1 = Transaction {
        inputs: vec![TransactionInput { outpoint: [1; 32], sigscript: [2; 64] }],
        outputs: vec![TransactionOutput { value: 5, pubkey: [3; 32] }],
    };
    let mut t2 = t1.clone();
    t2.inputs[0].sigscript = [0xee; 64];
    assert_eq!(get_simple_transaction(&t1), get_simple_transaction(&t2));
    assert_eq!(output_hash(&t1, 0), output_hash(&t2, 0));
    // A different outpoint does move them.
    let mut t3 = t1.clone();
    t3.inputs[0].outpoint = [4; 32];
    assert_ne!(output_hash(&t1, 0), output_hash(&t3, 0));
    // And so does the output index.
    assert_ne!(output_hash(&t1, 0), output_hash(&t1, 1));
}

#[test]
fn blake2_known_digest() {
    // blake2b-256 of the empty string, a published test vector.
    let digest = blake2_256_digest(&Vec::new());
    let expected: [u8; 32] = [
        0x0e, 0x57, 0x51, 0xc0, 0x26, 0xe5, 0x43, 0xb2, 0xe8, 0xab, 0x2e, 0xb0, 0x60, 0x99,
        0xda, 0xa1, 0xd1, 0xe5, 0xdf, 0x47, 0x77, 0x8f, 0x77, 0x87, 0xfa, 0xab, 0x45, 0xcd,
        0xf1, 0x2f, 0xe3, 0xa8,
    ];
    assert_eq!(digest, expected);
}

#[test]
fn sr25519_roundtrip_and_tamper() {
    let pair = Pair::from_string("//Alice", None).unwrap();
    let msg = vec![1u8, 2, 3];
    let sig = pair.sign(&msg).0;
    assert!(sr25519_verify(&sig, &msg, &pair.public().0));
    let mut bad = sig;
    bad[0] ^= 1;
    assert!(!sr25519_verify(&bad, &msg, &pair.public().0));
    let other = vec![1u8, 2, 4];
    assert!(!sr25519_verify(&sig, &other, &pair.public().0));
}

#[test]
fn wide_arithmetic_crosses_the_halfword() {
    let w = wide_from_u128(1u128 << 127);
    let p = wide_mul_u128(&w, 4);
    assert_eq!(p.hi, 2);
    assert_eq!(p.lo, 0);
    let q = wide_div_u128(&p, 3);
    assert_eq!(q.hi, 0);
    assert_eq!(q.lo, 226854911280625642308916404954512140970);
    let s = wide_add_u128(&Wide { hi: 0, lo: u128::MAX }, 2);
    assert_eq!(s.hi, 1);
    assert_eq!(s.lo, 1);
}
