use vstd::prelude::*;
use crate::types::{H256, H512};

verus! {

/// The 256-bit digest that the hashing primitive assigns to a byte string.
/// The digest is a function of the input bytes alone.
pub uninterp spec fn blake2_of(data: Seq<u8>) -> Seq<u8>;

/// Whether a 64-byte sr25519 signature over a message is valid under a 32-byte
/// public key. Verification is a function of the three arguments alone.
pub uninterp spec fn sr25519_ok(sig: Seq<u8>, msg: Seq<u8>, pubkey: Seq<u8>) -> bool;

/// Relies on sp_crypto_hashing::blake2_256: the 32-byte blake2b digest of the
/// input, a deterministic function of the input bytes alone.
#[verifier::external_body]
pub fn blake2_256_digest(data: &Vec<u8>) -> (r: H256)
    ensures
        r@ == blake2_of(data@),
{
    sp_crypto_hashing::blake2_256(data.as_slice())
}

/// Relies on sp_core::sr25519::Pair::verify (schnorrkel's verify_simple under
/// the signing context the host uses): deterministic signature verification of
/// `msg` under `pubkey`. Returns false rather than failing on malformed bytes.
#[verifier::external_body]
pub fn sr25519_verify(sig: &H512, msg: &Vec<u8>, pubkey: &H256) -> (r: bool)
    ensures
        r == sr25519_ok(sig@, msg@, pubkey@),
{
    let s = sp_core::sr25519::Signature::from_raw(*sig);
    let p = sp_core::sr25519::Public::from_raw(*pubkey);
    <sp_core::sr25519::Pair as sp_core::crypto::Pair>::verify(&s, msg.as_slice(), &p)
}

} // verus!
