use vstd::prelude::*;
use crate::crypto::{blake2_256_digest, blake2_of};
use crate::types::{tx_wf, Transaction, TransactionInput, TransactionOutput, H256};

verus! {

// Canonical binary encoding: compact length-prefixed lists, little-endian
// fixed-width scalars, struct fields in order. Output identifiers and signing
// payloads are digests of this encoding, so it must be byte-identical on every
// node.

/// The `n` least-significant bytes of `v`, least-significant first.
pub open spec fn spec_le_bytes(v: nat, n: nat) -> Seq<u8>
    decreases n,
{
    if n == 0 {
        Seq::empty()
    } else {
        seq![(v % 256) as u8] + spec_le_bytes(v / 256, (n - 1) as nat)
    }
}

/// Compact length encoding: two mode bits in the lowest byte select the width.
pub open spec fn spec_compact_u32(n: nat) -> Seq<u8> {
    if n < 64 {
        seq![(n * 4) as u8]
    } else if n < 16384 {
        spec_le_bytes(n * 4 + 1, 2)
    } else if n < 1073741824 {
        spec_le_bytes(n * 4 + 2, 4)
    } else {
        seq![3u8] + spec_le_bytes(n, 4)
    }
}

/// The all-zero 512-bit signature that replaces every sigscript in the signing payload.
pub open spec fn zero_sig() -> Seq<u8> {
    Seq::new(64, |i: int| 0u8)
}

/// Encoding of one input as it appears in a full transaction.
pub open spec fn spec_encode_input(x: TransactionInput) -> Seq<u8> {
    x.outpoint@ + x.sigscript@
}

/// Encoding of one input with its sigscript replaced by the all-zero signature.
pub open spec fn spec_encode_input_stripped(x: TransactionInput) -> Seq<u8> {
    x.outpoint@ + zero_sig()
}

/// Encoding of one output: little-endian value, then the public key.
pub open spec fn spec_encode_output(x: TransactionOutput) -> Seq<u8> {
    spec_le_bytes(x.value as nat, 16) + x.pubkey@
}

/// Concatenated encodings of the inputs, sigscripts zeroed.
pub open spec fn spec_encode_inputs_stripped(s: Seq<TransactionInput>) -> Seq<u8>
    decreases s.len(),
{
    if s.len() == 0 {
        Seq::empty()
    } else {
        spec_encode_inputs_stripped(s.drop_last()) + spec_encode_input_stripped(s.last())
    }
}

/// Concatenated encodings of the outputs.
pub open spec fn spec_encode_outputs(s: Seq<TransactionOutput>) -> Seq<u8>
    decreases s.len(),
{
    if s.len() == 0 {
        Seq::empty()
    } else {
        spec_encode_outputs(s.drop_last()) + spec_encode_output(s.last())
    }
}

/// The signing payload: the canonical encoding of the transaction with every
/// sigscript replaced by the all-zero signature. Signatures are verified over
/// this payload, and output hashes are derived from it, so neither depends on
/// the sigscripts themselves.
pub open spec fn spec_signing_payload(tx: Transaction) -> Seq<u8> {
    spec_compact_u32(tx.inputs@.len()) + spec_encode_inputs_stripped(tx.inputs@)
        + spec_compact_u32(tx.outputs@.len()) + spec_encode_outputs(tx.outputs@)
}

/// The identifier of the `index`-th output of a transaction: the digest of the
/// signing payload followed by the little-endian output index.
pub open spec fn spec_output_hash(tx: Transaction, index: nat) -> Seq<u8> {
    blake2_of(spec_signing_payload(tx) + spec_le_bytes(index, 8))
}

/// Append the `n`-byte little-endian encoding of `v`.
pub fn push_le_bytes(out: &mut Vec<u8>, v: u128, n: usize)
    ensures
        final(out)@ == old(out)@ + spec_le_bytes(v as nat, n as nat),
{
    let mut x = v;
    let mut i: usize = 0;
    while i < n
        invariant
            0 <= i <= n,
            out@ + spec_le_bytes(x as nat, (n - i) as nat) == old(out)@ + spec_le_bytes(
                v as nat,
                n as nat,
            ),
        decreases n - i,
    {
        out.push((x % 256) as u8);
        x = x / 256;
        i = i + 1;
    }
    proof {
        assert(out@ + spec_le_bytes(x as nat, 0) =~= out@);
    }
}

/// Append the compact encoding of a list length.
pub fn push_compact_u32(out: &mut Vec<u8>, n: u32)
    ensures
        final(out)@ == old(out)@ + spec_compact_u32(n as nat),
{
    if n < 64 {
        out.push((n * 4) as u8);
        proof {
            assert(out@ =~= old(out)@ + spec_compact_u32(n as nat));
        }
    } else if n < 16384 {
        push_le_bytes(out, (n * 4 + 1) as u128, 2);
    } else if n < 1073741824 {
        push_le_bytes(out, (n * 4 + 2) as u128, 4);
    } else {
        out.push(3u8);
        push_le_bytes(out, n as u128, 4);
        proof {
            assert(out@ =~= old(out)@ + spec_compact_u32(n as nat));
        }
    }
}

/// Append all 32 bytes of a hash.
pub fn push_bytes_32(out: &mut Vec<u8>, h: &H256)
    ensures
        final(out)@ == old(out)@ + h@,
{
    let mut i: usize = 0;
    while i < 32
        invariant
            0 <= i <= 32,
            out@ == old(out)@ + h@.take(i as int),
        decreases 32 - i,
    {
        out.push(h[i]);
        proof {
            assert(h@.take(i + 1) =~= h@.take(i as int).push(h@[i as int]));
        }
        i = i + 1;
    }
    proof {
        assert(h@.take(32) =~= h@);
    }
}

/// Append 64 zero bytes: the stripped form of a sigscript.
pub fn push_zero_sig(out: &mut Vec<u8>)
    ensures
        final(out)@ == old(out)@ + zero_sig(),
{
    let mut i: usize = 0;
    while i < 64
        invariant
            0 <= i <= 64,
            out@ == old(out)@ + zero_sig().take(i as int),
        decreases 64 - i,
    {
        out.push(0u8);
        proof {
            assert(zero_sig().take(i + 1) =~= zero_sig().take(i as int).push(0u8));
        }
        i = i + 1;
    }
    proof {
        assert(zero_sig().take(64) =~= zero_sig());
    }
}

/// Append the encoding of one output.
pub fn push_output(out: &mut Vec<u8>, x: &TransactionOutput)
    ensures
        final(out)@ == old(out)@ + spec_encode_output(*x),
{
    push_le_bytes(out, x.value, 16);
    push_bytes_32(out, &x.pubkey);
}

/// Strips a transaction of its signature fields and encodes it: the signing
/// payload, which every sigscript must sign and output hashes derive from.
pub fn get_simple_transaction(transaction: &Transaction) -> (r: Vec<u8>)
    requires
        tx_wf(*transaction),
    ensures
        r@ == spec_signing_payload(*transaction),
{
    let mut out: Vec<u8> = Vec::new();
    push_compact_u32(&mut out, transaction.inputs.len() as u32);
    let mut i: usize = 0;
    while i < transaction.inputs.len()
        invariant
            0 <= i <= transaction.inputs@.len(),
            out@ == spec_compact_u32(transaction.inputs@.len()) + spec_encode_inputs_stripped(
                transaction.inputs@.take(i as int),
            ),
        decreases transaction.inputs@.len() - i,
    {
        push_bytes_32(&mut out, &transaction.inputs[i].outpoint);
        push_zero_sig(&mut out);
        proof {
            assert(transaction.inputs@.take(i + 1).drop_last() =~= transaction.inputs@.take(
                i as int,
            ));
        }
        i = i + 1;
    }
    proof {
        assert(transaction.inputs@.take(transaction.inputs@.len() as int)
            =~= transaction.inputs@);
    }
    push_compact_u32(&mut out, transaction.outputs.len() as u32);
    let mut j: usize = 0;
    while j < transaction.outputs.len()
        invariant
            0 <= j <= transaction.outputs@.len(),
            out@ == spec_compact_u32(transaction.inputs@.len()) + spec_encode_inputs_stripped(
                transaction.inputs@,
            ) + spec_compact_u32(transaction.outputs@.len()) + spec_encode_outputs(
                transaction.outputs@.take(j as int),
            ),
        decreases transaction.outputs@.len() - j,
    {
        push_output(&mut out, &transaction.outputs[j]);
        proof {
            assert(transaction.outputs@.take(j + 1).drop_last() =~= transaction.outputs@.take(
                j as int,
            ));
        }
        j = j + 1;
    }
    proof {
        assert(transaction.outputs@.take(transaction.outputs@.len() as int)
            =~= transaction.outputs@);
    }
    out
}

/// The identifier of the `index`-th output of a transaction.
pub fn output_hash(transaction: &Transaction, index: u64) -> (r: H256)
    requires
        tx_wf(*transaction),
    ensures
        r@ == spec_output_hash(*transaction, index as nat),
{
    let mut buf = get_simple_transaction(transaction);
    push_le_bytes(&mut buf, index as u128, 8);
    blake2_256_digest(&buf)
}

} // verus!
