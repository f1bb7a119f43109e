//! Galois-field arithmetic over a byte range, used only to fill the S-box
//! tables: carry-less multiplication with XOR-based reduction, and
//! exponentiation to the cipher's fixed power of 7.
use vstd::prelude::*;

use crate::bitops::lemma_low_bit;
use crate::bitops::lemma_shr1_lt;
use crate::bitops::lemma_xor_assoc;
use crate::bitops::lemma_xor_zero;

verus! {

/// One doubling step of the carry-less multiplication: shift `a` left and,
/// when it leaves the byte range, fold it back by XORing the modulus in.
pub open spec fn gf_double(a: u32, m: u32) -> u32 {
    if (a << 1) >= 256 {
        (a << 1) ^ m
    } else {
        a << 1
    }
}

/// Carry-less multiplication of `a` by `b` under the modulus `m`: XOR the
/// running `a` into the result wherever `b` has a set bit, consuming `b`
/// from its low end and doubling `a` (with fold-back) at each step.
pub open spec fn spec_gf_mult(a: u32, b: u32, m: u32) -> u32
    decreases b via spec_gf_mult_decreases
{
    if b == 0 {
        0u32
    } else if b & 1 == 1 {
        a ^ spec_gf_mult(gf_double(a, m), b >> 1, m)
    } else {
        spec_gf_mult(gf_double(a, m), b >> 1, m)
    }
}

#[via_fn]
proof fn spec_gf_mult_decreases(a: u32, b: u32, m: u32) {
    assert(b != 0 ==> b >> 1 < b) by (bit_vector);
}

/// `b` raised to the power 7 under the modulus `m`, by three chained
/// multiplications; 0 stays 0.
pub open spec fn spec_gf_exp7(b: u32, m: u32) -> u32 {
    if b == 0 {
        0u32
    } else {
        let b2 = spec_gf_mult(b, b, m);
        let b3 = spec_gf_mult(b, b2, m);
        let b6 = spec_gf_mult(b3, b3, m);
        spec_gf_mult(b, b6, m)
    }
}

/// Galois-field multiplication of `a` by `b`, modulo `m`; additions and
/// subtractions of ordinary multiplication are replaced by XOR.
pub fn gf_mult(a: u32, b: u32, m: u32) -> (res: u32)
    ensures
        res == spec_gf_mult(a, b, m),
{
    let mut res: u32 = 0;
    let mut av = a;
    let mut bv = b;

    proof {
        lemma_xor_zero(spec_gf_mult(a, b, m));
    }
    while bv != 0
        invariant
            spec_gf_mult(a, b, m) == res ^ spec_gf_mult(av, bv, m),
        decreases bv,
    {
        proof {
            lemma_low_bit(bv);
            lemma_shr1_lt(bv);
            lemma_xor_assoc(res, av, spec_gf_mult(gf_double(av, m), bv >> 1, m));
        }
        if bv & 1 != 0 {
            res ^= av;
        }

        av <<= 1;
        bv >>= 1;

        if av >= 256 {
            av ^= m;
        }
    }
    proof {
        lemma_xor_zero(res);
    }
    res
}

/// Galois-field exponentiation: raise `b` to the power of 7, modulo `m`.
pub fn gf_exp7(b: u32, m: u32) -> (res: u32)
    ensures
        res == spec_gf_exp7(b, m),
{
    if b == 0 {
        return 0;
    }
    let mut x = gf_mult(b, b, m);
    x = gf_mult(b, x, m);
    x = gf_mult(x, x, m);
    gf_mult(b, x, m)
}

} // verus!
