use vstd::prelude::*;

verus! {

/// 2^128, the weight of the high half of a 256-bit value.
pub open spec fn pow2_128() -> nat {
    0x100000000000000000000000000000000nat
}

/// 2^256, the first value a 256-bit integer cannot hold.
pub open spec fn pow2_256() -> nat {
    0x10000000000000000000000000000000000000000000000000000000000000000nat
}

/// A 256-bit unsigned integer held as two 128-bit halves. The difficulty
/// retargeting arithmetic runs in this width so that it cannot overflow at
/// maximum difficulty.
#[derive(Clone, Copy, Debug)]
pub struct Wide {
    pub hi: u128,
    pub lo: u128,
}

impl Wide {
    /// The number a `Wide` stands for.
    pub open spec fn val(self) -> nat {
        (self.hi as nat) * pow2_128() + (self.lo as nat)
    }
}

/// The zero 256-bit value.
pub fn wide_zero() -> (r: Wide)
    ensures
        r.val() == 0,
{
    Wide { hi: 0, lo: 0 }
}

/// A 128-bit value widened to 256 bits.
pub fn wide_from_u128(x: u128) -> (r: Wide)
    ensures
        r.val() == x,
{
    Wide { hi: 0, lo: x }
}

/// 256-bit addition of a 128-bit value, verified on the two halves.
pub fn wide_add_u128(w: &Wide, x: u128) -> (r: Wide)
    requires
        w.val() + x < pow2_256(),
    ensures
        r.val() == w.val() + x,
{
    if x <= u128::MAX - w.lo {
        Wide { hi: w.hi, lo: w.lo + x }
    } else {
        proof {
            assert(w.hi < u128::MAX) by {
                if w.hi == u128::MAX {
                    assert(w.val() + x >= (u128::MAX as nat) * pow2_128() + w.lo + x);
                    assert(w.lo + x >= pow2_128());
                }
            };
        }
        let rest = x - (u128::MAX - w.lo) - 1;
        proof {
            assert(((w.hi + 1) as nat) * pow2_128() == (w.hi as nat) * pow2_128() + pow2_128()) by (nonlinear_arith);
        }
        Wide { hi: w.hi + 1, lo: rest }
    }
}

/// Whether a 256-bit value exceeds a 128-bit one.
pub fn wide_gt_u128(w: &Wide, x: u128) -> (r: bool)
    ensures
        r == (w.val() > x),
{
    proof {
        if w.hi >= 1 {
            assert((w.hi as nat) * pow2_128() >= pow2_128()) by (nonlinear_arith)
                requires
                    w.hi >= 1,
            ;
        }
    }
    w.hi > 0 || w.lo > x
}

/// Whether a 256-bit value is below a 128-bit one.
pub fn wide_lt_u128(w: &Wide, x: u128) -> (r: bool)
    ensures
        r == (w.val() < x),
{
    proof {
        if w.hi >= 1 {
            assert((w.hi as nat) * pow2_128() >= pow2_128()) by (nonlinear_arith)
                requires
                    w.hi >= 1,
            ;
        }
    }
    w.hi == 0 && w.lo < x
}

/// A 256-bit value that fits in 128 bits, narrowed.
pub fn wide_to_u128(w: &Wide) -> (r: u128)
    requires
        w.val() <= u128::MAX,
    ensures
        r == w.val(),
{
    proof {
        if w.hi >= 1 {
            assert((w.hi as nat) * pow2_128() >= pow2_128()) by (nonlinear_arith)
                requires
                    w.hi >= 1,
            ;
        }
    }
    w.lo
}

/// Relies on sp_core::U256::checked_mul: the 256-bit product of the operands;
/// the caller rules overflow out, so the checked product is always there.
#[verifier::external_body]
pub fn wide_mul_u128(w: &Wide, x: u128) -> (r: Wide)
    requires
        w.val() * x < pow2_256(),
    ensures
        r.val() == w.val() * x,
{
    let mut bytes = [0u8; 32];
    bytes[..16].copy_from_slice(&w.lo.to_le_bytes());
    bytes[16..].copy_from_slice(&w.hi.to_le_bytes());
    let a = sp_core::U256::from_little_endian(&bytes);
    let p = a.checked_mul(sp_core::U256::from(x)).expect("caller rules overflow out");
    let out = p.to_little_endian();
    let lo = u128::from_le_bytes(out[..16].try_into().expect("16 bytes"));
    let hi = u128::from_le_bytes(out[16..].try_into().expect("16 bytes"));
    Wide { hi, lo }
}

/// Relies on sp_core::U256::checked_div: the floor quotient of a 256-bit value
/// by a nonzero 128-bit divisor.
#[verifier::external_body]
pub fn wide_div_u128(w: &Wide, d: u128) -> (r: Wide)
    requires
        d >= 1,
    ensures
        r.val() == w.val() / (d as nat),
{
    let mut bytes = [0u8; 32];
    bytes[..16].copy_from_slice(&w.lo.to_le_bytes());
    bytes[16..].copy_from_slice(&w.hi.to_le_bytes());
    let a = sp_core::U256::from_little_endian(&bytes);
    let q = a.checked_div(sp_core::U256::from(d)).expect("caller rules a zero divisor out");
    let out = q.to_little_endian();
    let lo = u128::from_le_bytes(out[..16].try_into().expect("16 bytes"));
    let hi = u128::from_le_bytes(out[16..].try_into().expect("16 bytes"));
    Wide { hi, lo }
}

} // verus!
