//! The fixed 32-bit P-box permutation: every set bit of the input turns on
//! one fixed single-bit mask in the output, so the whole thing is a
//! data-independent rearrangement of the 32 bit positions.
use vstd::prelude::*;

use crate::bitops::lemma_low_bit;

verus! {

/// The mask that input bit position `i` contributes to the permuted word.
pub open spec fn spec_pbox(i: int) -> u32 {
    if i == 0 {
        0x00000001u32
    } else if i == 1 {
        0x00000080u32
    } else if i == 2 {
        0x00000400u32
    } else if i == 3 {
        0x00002000u32
    } else if i == 4 {
        0x00080000u32
    } else if i == 5 {
        0x00200000u32
    } else if i == 6 {
        0x01000000u32
    } else if i == 7 {
        0x40000000u32
    } else if i == 8 {
        0x00000008u32
    } else if i == 9 {
        0x00000020u32
    } else if i == 10 {
        0x00000100u32
    } else if i == 11 {
        0x00004000u32
    } else if i == 12 {
        0x00010000u32
    } else if i == 13 {
        0x00800000u32
    } else if i == 14 {
        0x04000000u32
    } else if i == 15 {
        0x20000000u32
    } else if i == 16 {
        0x00000004u32
    } else if i == 17 {
        0x00000010u32
    } else if i == 18 {
        0x00000200u32
    } else if i == 19 {
        0x00008000u32
    } else if i == 20 {
        0x00020000u32
    } else if i == 21 {
        0x00400000u32
    } else if i == 22 {
        0x08000000u32
    } else if i == 23 {
        0x10000000u32
    } else if i == 24 {
        0x00000002u32
    } else if i == 25 {
        0x00000040u32
    } else if i == 26 {
        0x00000800u32
    } else if i == 27 {
        0x00001000u32
    } else if i == 28 {
        0x00040000u32
    } else if i == 29 {
        0x00100000u32
    } else if i == 30 {
        0x02000000u32
    } else if i == 31 {
        0x80000000u32
    } else {
        0u32
    }
}

/// The permutation restricted to the lowest `n` bit positions of `x`.
pub open spec fn spec_perm32_upto(x: u32, n: nat) -> u32
    decreases n,
{
    if n == 0 {
        0u32
    } else {
        let prev = spec_perm32_upto(x, (n - 1) as nat);
        if (x >> ((n - 1) as u32)) & 1 == 1 {
            prev | spec_pbox(n - 1)
        } else {
            prev
        }
    }
}

/// The P-box permutation of all 32 bits of `x`.
pub open spec fn spec_perm32(x: u32) -> u32 {
    spec_perm32_upto(x, 32)
}

/// The fixed mask table entry for bit position `i`.
fn pbox_mask(i: u32) -> (mask: u32)
    requires
        i < 32,
    ensures
        mask == spec_pbox(i as int),
{
    match i {
        0 => 0x00000001,
        1 => 0x00000080,
        2 => 0x00000400,
        3 => 0x00002000,
        4 => 0x00080000,
        5 => 0x00200000,
        6 => 0x01000000,
        7 => 0x40000000,
        8 => 0x00000008,
        9 => 0x00000020,
        10 => 0x00000100,
        11 => 0x00004000,
        12 => 0x00010000,
        13 => 0x00800000,
        14 => 0x04000000,
        15 => 0x20000000,
        16 => 0x00000004,
        17 => 0x00000010,
        18 => 0x00000200,
        19 => 0x00008000,
        20 => 0x00020000,
        21 => 0x00400000,
        22 => 0x08000000,
        23 => 0x10000000,
        24 => 0x00000002,
        25 => 0x00000040,
        26 => 0x00000800,
        27 => 0x00001000,
        28 => 0x00040000,
        29 => 0x00100000,
        30 => 0x02000000,
        _ => 0x80000000,
    }
}

/// Carry out the 32-bit P-box permutation of `x`.
pub fn ice_perm32(x: u32) -> (res: u32)
    ensures
        res == spec_perm32(x),
{
    let mut res: u32 = 0;
    let mut idx: u32 = 0;

    while idx < 32
        invariant
            idx <= 32,
            res == spec_perm32_upto(x, idx as nat),
        decreases 32 - idx,
    {
        proof {
            lemma_low_bit(x >> idx);
        }
        if (x >> idx) & 1 != 0 {
            res = res | pbox_mask(idx);
        }
        idx = idx + 1;
    }
    res
}

} // verus!
