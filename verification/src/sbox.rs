//! The four 1024-entry S-box tables. Each entry is a pure function of fixed
//! constants: a Galois-field power of the (column XOR row-constant) byte,
//! shifted into the table's byte lane and run through the P-box. The tables
//! never depend on the key, so one build serves every context.
use vstd::prelude::*;

use crate::bitops::lemma_row_bound;
use crate::gf::gf_exp7;
use crate::gf::spec_gf_exp7;
use crate::pbox::ice_perm32;
use crate::pbox::spec_perm32;

verus! {

/// The fixed modulus for output table `t`, row `r`.
pub open spec fn spec_smod(t: int, r: int) -> u32 {
    if t == 0 {
        if r == 0 {
            333u32
        } else if r == 1 {
            313u32
        } else if r == 2 {
            505u32
        } else {
            369u32
        }
    } else if t == 1 {
        if r == 0 {
            379u32
        } else if r == 1 {
            375u32
        } else if r == 2 {
            319u32
        } else {
            391u32
        }
    } else if t == 2 {
        if r == 0 {
            361u32
        } else if r == 1 {
            445u32
        } else if r == 2 {
            451u32
        } else {
            397u32
        }
    } else {
        if r == 0 {
            397u32
        } else if r == 1 {
            425u32
        } else if r == 2 {
            395u32
        } else {
            505u32
        }
    }
}

/// The fixed XOR constant for output table `t`, row `r`.
pub open spec fn spec_sxor(t: int, r: int) -> u32 {
    if t == 0 {
        if r == 0 {
            0x83u32
        } else if r == 1 {
            0x85u32
        } else if r == 2 {
            0x9bu32
        } else {
            0xcdu32
        }
    } else if t == 1 {
        if r == 0 {
            0xccu32
        } else if r == 1 {
            0xa7u32
        } else if r == 2 {
            0xadu32
        } else {
            0x41u32
        }
    } else if t == 2 {
        if r == 0 {
            0x4bu32
        } else if r == 1 {
            0x2eu32
        } else if r == 2 {
            0xd4u32
        } else {
            0x33u32
        }
    } else {
        if r == 0 {
            0xeau32
        } else if r == 1 {
            0xcbu32
        } else if r == 2 {
            0x2eu32
        } else {
            0x04u32
        }
    }
}

/// How far table `t`'s byte lane sits from the low end of the word.
pub open spec fn spec_sbox_shift(t: int) -> u32 {
    if t == 0 {
        24u32
    } else if t == 1 {
        16u32
    } else if t == 2 {
        8u32
    } else {
        0u32
    }
}

/// Entry `i` of S-box table `t`: split `i` into its column byte and its
/// two-bit row selector, raise (column XOR row constant) to the 7th power
/// under the row's modulus, move the byte into table `t`'s lane, and permute.
pub open spec fn spec_sbox_entry(t: int, i: u32) -> u32 {
    let col = (i >> 1) & 0xff;
    let row = (i & 1) | ((i & 0x200) >> 8);
    spec_perm32(spec_gf_exp7(col ^ spec_sxor(t, row as int), spec_smod(t, row as int)) << spec_sbox_shift(t))
}

fn smod(t: usize, r: usize) -> (m: u32)
    requires
        t < 4,
        r < 4,
    ensures
        m == spec_smod(t as int, r as int),
{
    match (t, r) {
        (0, 0) => 333,
        (0, 1) => 313,
        (0, 2) => 505,
        (0, _) => 369,
        (1, 0) => 379,
        (1, 1) => 375,
        (1, 2) => 319,
        (1, _) => 391,
        (2, 0) => 361,
        (2, 1) => 445,
        (2, 2) => 451,
        (2, _) => 397,
        (_, 0) => 397,
        (_, 1) => 425,
        (_, 2) => 395,
        (_, _) => 505,
    }
}

fn sxor(t: usize, r: usize) -> (x: u32)
    requires
        t < 4,
        r < 4,
    ensures
        x == spec_sxor(t as int, r as int),
{
    match (t, r) {
        (0, 0) => 0x83,
        (0, 1) => 0x85,
        (0, 2) => 0x9b,
        (0, _) => 0xcd,
        (1, 0) => 0xcc,
        (1, 1) => 0xa7,
        (1, 2) => 0xad,
        (1, _) => 0x41,
        (2, 0) => 0x4b,
        (2, 1) => 0x2e,
        (2, 2) => 0xd4,
        (2, _) => 0x33,
        (_, 0) => 0xea,
        (_, 1) => 0xcb,
        (_, 2) => 0x2e,
        (_, _) => 0x04,
    }
}

/// The four S-box tables, kept as plain word vectors.
pub struct SboxTable {
    pub t0: Vec<u32>,
    pub t1: Vec<u32>,
    pub t2: Vec<u32>,
    pub t3: Vec<u32>,
}

impl SboxTable {
    /// Every table holds its full 1024 entries and each entry is exactly the
    /// constant-derived value `spec_sbox_entry` states.
    pub open spec fn wf(&self) -> bool {
        &&& self.t0@.len() == 1024
        &&& self.t1@.len() == 1024
        &&& self.t2@.len() == 1024
        &&& self.t3@.len() == 1024
        &&& forall|i: int| 0 <= i < 1024 ==> self.t0@[i] == spec_sbox_entry(0, i as u32)
        &&& forall|i: int| 0 <= i < 1024 ==> self.t1@[i] == spec_sbox_entry(1, i as u32)
        &&& forall|i: int| 0 <= i < 1024 ==> self.t2@[i] == spec_sbox_entry(2, i as u32)
        &&& forall|i: int| 0 <= i < 1024 ==> self.t3@[i] == spec_sbox_entry(3, i as u32)
    }

    /// Initialise the four S-box tables from the fixed constants.
    pub fn build() -> (s: SboxTable)
        ensures
            s.wf(),
    {
        SboxTable {
            t0: build_sbox_table(0),
            t1: build_sbox_table(1),
            t2: build_sbox_table(2),
            t3: build_sbox_table(3),
        }
    }
}

fn build_sbox_table(t: usize) -> (v: Vec<u32>)
    requires
        t < 4,
    ensures
        v@.len() == 1024,
        forall|j: int| 0 <= j < 1024 ==> v@[j] == spec_sbox_entry(t as int, j as u32),
{
    let shift: u32 = (24 - 8 * t) as u32;
    assert(shift == spec_sbox_shift(t as int));

    let mut v: Vec<u32> = Vec::new();
    let mut i: usize = 0;
    while i < 1024
        invariant
            t < 4,
            i <= 1024,
            shift == spec_sbox_shift(t as int),
            v@.len() == i,
            forall|j: int| 0 <= j < i ==> v@[j] == spec_sbox_entry(t as int, j as u32),
        decreases 1024 - i,
    {
        let iu = i as u32;
        let col = (iu >> 1) & 0xff;
        let row = (iu & 1) | ((iu & 0x200) >> 8);
        proof {
            lemma_row_bound(iu);
        }
        let x = gf_exp7(col ^ sxor(t, row as usize), smod(t, row as usize));
        v.push(ice_perm32(x << shift));
        i = i + 1;
    }
    v
}

} // verus!
