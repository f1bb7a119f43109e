//! The key schedule: the round subkeys derived from the raw key bytes.
//!
//! Each 8-byte key segment is split into four 16-bit half-words, loaded in
//! reverse order. Eight rounds at a time are then filled by a bit-recycling
//! network: fifteen times over, four bits are pulled from the low ends of
//! the half-words (picked in a round-specific rotation) and shifted into one
//! of the round's three subkey words, while each consumed half-word is
//! right-rotated with the complement of the extracted bit pushed in at the
//! top. Levels past thin ice run a second, backward pass over the evolved
//! half-words with a second rotation table.
use vstd::prelude::*;

use crate::bitops::lemma_and3;

verus! {

/// One round's subkey: three 32-bit words.
#[derive(Clone, Copy, Debug)]
pub struct IceSubkey {
    pub val0: u32,
    pub val1: u32,
    pub val2: u32,
}

/// The all-zero subkey every schedule slot starts from.
pub open spec fn spec_zero_subkey() -> IceSubkey {
    IceSubkey { val0: 0, val1: 0, val2: 0 }
}

/// The fixed rotation tables: which half-word the bit network starts from
/// in each of the eight rounds of a pass. `half` 0 is the forward table,
/// `half` 1 the backward one.
pub open spec fn spec_keyrot(half: int, i: int) -> u32 {
    if half == 0 {
        if i == 0 {
            0u32
        } else if i == 1 {
            1u32
        } else if i == 2 {
            2u32
        } else if i == 3 {
            3u32
        } else if i == 4 {
            2u32
        } else if i == 5 {
            1u32
        } else if i == 6 {
            3u32
        } else {
            0u32
        }
    } else {
        if i == 0 {
            1u32
        } else if i == 1 {
            3u32
        } else if i == 2 {
            2u32
        } else if i == 3 {
            0u32
        } else if i == 4 {
            3u32
        } else if i == 5 {
            1u32
        } else if i == 6 {
            0u32
        } else {
            2u32
        }
    }
}

/// Pull the low bit of half-word `idx` into `w`, and right-rotate that
/// half-word with the complement of the extracted bit entering at bit 15.
pub open spec fn spec_ks_step(kb: Seq<u16>, w: u32, idx: int) -> (Seq<u16>, u32) {
    let h = kb[idx];
    let bit = h & 1;
    (kb.update(idx, (h >> 1) | ((bit ^ 1) << 15)), (w << 1) | (bit as u32))
}

/// Four bit-pulls in a row, walking the half-words from `kr` onward.
pub open spec fn spec_ks_quad(kb: Seq<u16>, w: u32, kr: u32, k: nat) -> (Seq<u16>, u32)
    decreases 4 - k,
{
    if k >= 4 {
        (kb, w)
    } else {
        let idx = (((kr + (k as u32)) as u32) & 3) as int;
        let (kb1, w1) = spec_ks_step(kb, w, idx);
        spec_ks_quad(kb1, w1, kr, k + 1)
    }
}

/// The fifteen passes that fill one round's three subkey words, the target
/// word cycling with the pass index.
pub open spec fn spec_ks_round15(kb: Seq<u16>, w0: u32, w1: u32, w2: u32, kr: u32, j: nat) -> (
    Seq<u16>,
    u32,
    u32,
    u32,
)
    decreases 15 - j,
{
    if j >= 15 {
        (kb, w0, w1, w2)
    } else if j % 3 == 0 {
        let (kb1, w) = spec_ks_quad(kb, w0, kr, 0);
        spec_ks_round15(kb1, w, w1, w2, kr, j + 1)
    } else if j % 3 == 1 {
        let (kb1, w) = spec_ks_quad(kb, w1, kr, 0);
        spec_ks_round15(kb1, w0, w, w2, kr, j + 1)
    } else {
        let (kb1, w) = spec_ks_quad(kb, w2, kr, 0);
        spec_ks_round15(kb1, w0, w1, w, kr, j + 1)
    }
}

/// One round of the schedule: the subkey its bit network produces, and the
/// half-words as the network leaves them.
pub open spec fn spec_ks_build_round(kb: Seq<u16>, kr: u32) -> (Seq<u16>, IceSubkey) {
    let (kb1, w0, w1, w2) = spec_ks_round15(kb, 0, 0, 0, kr, 0);
    (kb1, IceSubkey { val0: w0, val1: w1, val2: w2 })
}

/// One pass: eight consecutive schedule slots starting at `n`, written with
/// rotation table `half`, threading the half-words from round to round.
pub open spec fn spec_build8(
    kb: Seq<u16>,
    sched: Seq<IceSubkey>,
    n: int,
    half: int,
    i: nat,
) -> (Seq<u16>, Seq<IceSubkey>)
    decreases 8 - i,
{
    if i >= 8 {
        (kb, sched)
    } else {
        let (kb1, sk) = spec_ks_build_round(kb, spec_keyrot(half, i as int));
        spec_build8(kb1, sched.update(n + i, sk), n, half, i + 1)
    }
}

/// The four half-words loaded from 8-byte key segment `seg`: slot `3 - j`
/// takes the big-endian pair at byte offsets `2j`, `2j + 1`.
pub open spec fn spec_kb_init(key: Seq<u8>, seg: int) -> Seq<u16> {
    Seq::new(4, |p: int| (((key[8 * seg + 2 * (3 - p)] as u16) << 8) | (key[8 * seg + 2 * (3 - p)
        + 1] as u16)))
}

/// The segment loop for levels past thin ice: segment `i` writes a forward
/// pass at slot `8i` and a backward pass at slot `rounds - 8 - 8i`, the
/// second continuing from the half-words the first left behind.
pub open spec fn spec_segments(
    key: Seq<u8>,
    size: int,
    rounds: int,
    i: nat,
    sched: Seq<IceSubkey>,
) -> Seq<IceSubkey>
    decreases size - i,
{
    if i >= size {
        sched
    } else {
        let kb0 = spec_kb_init(key, i as int);
        let (kb1, s1) = spec_build8(kb0, sched, 8 * (i as int), 0, 0);
        let (kb2, s2) = spec_build8(kb1, s1, rounds - 8 - 8 * (i as int), 1, 0);
        spec_segments(key, size, rounds, i + 1, s2)
    }
}

/// The full key schedule for a cipher of `size` 8-byte key segments and
/// `rounds` rounds. Thin ice (8 rounds) runs a single forward pass.
pub open spec fn spec_key_schedule(key: Seq<u8>, size: int, rounds: int) -> Seq<IceSubkey> {
    let zeroed = Seq::new(rounds as nat, |r: int| spec_zero_subkey());
    if rounds == 8 {
        spec_build8(spec_kb_init(key, 0), zeroed, 0, 0, 0).1
    } else {
        spec_segments(key, size, rounds, 0, zeroed)
    }
}

fn keyrot(half: usize, i: usize) -> (kr: u32)
    requires
        half < 2,
        i < 8,
    ensures
        kr == spec_keyrot(half as int, i as int),
        kr < 4,
{
    match (half, i) {
        (0, 0) => 0,
        (0, 1) => 1,
        (0, 2) => 2,
        (0, 3) => 3,
        (0, 4) => 2,
        (0, 5) => 1,
        (0, 6) => 3,
        (0, _) => 0,
        (_, 0) => 1,
        (_, 1) => 3,
        (_, 2) => 2,
        (_, 3) => 0,
        (_, 4) => 3,
        (_, 5) => 1,
        (_, 6) => 0,
        (_, _) => 2,
    }
}

/// Four bit-pulls into `w`, walking the half-words from `kr` onward.
fn ks_quad(kb: &mut Vec<u16>, w: u32, kr: u32) -> (w_out: u32)
    requires
        old(kb)@.len() == 4,
        kr < 4,
    ensures
        final(kb)@.len() == 4,
        (final(kb)@, w_out) == spec_ks_quad(old(kb)@, w, kr, 0),
{
    let mut wv = w;
    let mut k: u32 = 0;
    while k < 4
        invariant
            kb@.len() == 4,
            k <= 4,
            kr < 4,
            spec_ks_quad(old(kb)@, w, kr, 0) == spec_ks_quad(kb@, wv, kr, k as nat),
        decreases 4 - k,
    {
        proof {
            lemma_and3((kr + k) as u32);
        }
        let idx = ((kr + k) & 3) as usize;
        let h = kb[idx];
        let bit = h & 1;

        wv = (wv << 1) | (bit as u32);
        kb[idx] = (h >> 1) | ((bit ^ 1) << 15);
        k = k + 1;
    }
    wv
}

/// Build one round's subkey and advance the half-words.
fn ks_round(kb: &mut Vec<u16>, kr: u32) -> (sk: IceSubkey)
    requires
        old(kb)@.len() == 4,
        kr < 4,
    ensures
        final(kb)@.len() == 4,
        (final(kb)@, sk) == spec_ks_build_round(old(kb)@, kr),
{
    let mut w0: u32 = 0;
    let mut w1: u32 = 0;
    let mut w2: u32 = 0;
    let mut j: u32 = 0;
    while j < 15
        invariant
            kb@.len() == 4,
            j <= 15,
            kr < 4,
            spec_ks_round15(old(kb)@, 0, 0, 0, kr, 0) == spec_ks_round15(
                kb@,
                w0,
                w1,
                w2,
                kr,
                j as nat,
            ),
        decreases 15 - j,
    {
        if j % 3 == 0 {
            w0 = ks_quad(kb, w0, kr);
        } else if j % 3 == 1 {
            w1 = ks_quad(kb, w1, kr);
        } else {
            w2 = ks_quad(kb, w2, kr);
        }
        j = j + 1;
    }
    IceSubkey { val0: w0, val1: w1, val2: w2 }
}

/// Set eight rounds of the schedule starting at slot `n`, using rotation
/// table `half`.
fn key_sched_build(sched: &mut Vec<IceSubkey>, kb: &mut Vec<u16>, n: usize, half: usize)
    requires
        old(kb)@.len() == 4,
        half < 2,
        n + 8 <= old(sched)@.len(),
    ensures
        final(kb)@.len() == 4,
        final(sched)@.len() == old(sched)@.len(),
        (final(kb)@, final(sched)@) == spec_build8(
            old(kb)@,
            old(sched)@,
            n as int,
            half as int,
            0,
        ),
{
    let slots = sched.len();
    let mut i: usize = 0;
    while i < 8
        invariant
            kb@.len() == 4,
            sched@.len() == old(sched)@.len(),
            sched@.len() == slots,
            n + 8 <= sched@.len(),
            half < 2,
            i <= 8,
            spec_build8(old(kb)@, old(sched)@, n as int, half as int, 0) == spec_build8(
                kb@,
                sched@,
                n as int,
                half as int,
                i as nat,
            ),
        decreases 8 - i,
    {
        let kr = keyrot(half, i);
        let sk = ks_round(kb, kr);
        sched[n + i] = sk;
        i = i + 1;
    }
}

/// Load the four half-words of key segment `seg`, in reverse slot order.
fn kb_init(key: &[u8], seg: usize) -> (kb: Vec<u16>)
    requires
        8 * seg + 8 <= key@.len(),
    ensures
        kb@.len() == 4,
        kb@ == spec_kb_init(key@, seg as int),
{
    let keylen = key.len();
    assert(8 * seg + 8 <= keylen);
    let base = 8 * seg;
    let mut kb: Vec<u16> = Vec::new();
    kb.push(((key[base + 6] as u16) << 8) | (key[base + 7] as u16));
    kb.push(((key[base + 4] as u16) << 8) | (key[base + 5] as u16));
    kb.push(((key[base + 2] as u16) << 8) | (key[base + 3] as u16));
    kb.push(((key[base] as u16) << 8) | (key[base + 1] as u16));
    proof {
        assert(kb@ =~= spec_kb_init(key@, seg as int));
    }
    kb
}

/// Derive the whole schedule from the raw key bytes: one forward pass for
/// thin ice, otherwise a forward and a backward pass per key segment.
pub fn build_schedule(key: &[u8], size: usize, rounds: usize) -> (v: Vec<IceSubkey>)
    requires
        rounds == 8 ==> size == 1 && key@.len() == 8,
        rounds != 8 ==> size >= 1 && rounds == 16 * size && key@.len() == 8 * size,
    ensures
        v@.len() == rounds,
        v@ == spec_key_schedule(key@, size as int, rounds as int),
{
    let zero = IceSubkey { val0: 0, val1: 0, val2: 0 };
    let mut sched: Vec<IceSubkey> = vec![zero; rounds];
    proof {
        assert(sched@ =~= Seq::new(rounds as nat, |r: int| spec_zero_subkey()));
    }

    if rounds == 8 {
        let mut kb = kb_init(key, 0);
        key_sched_build(&mut sched, &mut kb, 0, 0);
        return sched;
    }

    let ghost zeroed = Seq::new(rounds as nat, |r: int| spec_zero_subkey());
    let mut i: usize = 0;
    while i < size
        invariant
            i <= size,
            size >= 1,
            rounds == 16 * size,
            key@.len() == 8 * size,
            sched@.len() == rounds,
            spec_segments(key@, size as int, rounds as int, 0, zeroed) == spec_segments(
                key@,
                size as int,
                rounds as int,
                i as nat,
                sched@,
            ),
        decreases size - i,
    {
        let mut kb = kb_init(key, i);
        key_sched_build(&mut sched, &mut kb, 8 * i, 0);
        key_sched_build(&mut sched, &mut kb, rounds - 8 - 8 * i, 1);
        i = i + 1;
    }
    sched
}

} // verus!
