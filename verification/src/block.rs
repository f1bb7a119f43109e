//! The mathematical model of the cipher: the Feistel round function, the
//! round-pair recursions for encryption and decryption, the 8-byte block
//! transforms with their big-endian, swapped-halves layout, the blockwise
//! buffer transforms, and the proofs that decryption inverts encryption.
use vstd::prelude::*;

use crate::bitops::lemma_xor_cancel;
use crate::keysched::IceSubkey;
use crate::sbox::spec_sbox_entry;

verus! {

/// The Feistel round function F: expand the 32-bit half-block into two
/// 20-bit values, salt them under the subkey's third word, XOR in the first
/// two subkey words, and combine four S-box lookups.
pub open spec fn spec_ice_f(p: u32, sk: IceSubkey) -> u32 {
    let tl = ((p >> 16) & 0x3ff) | (((p >> 14) | (p << 18)) & 0xffc00);
    let tr = (p & 0x3ff) | ((p << 2) & 0xffc00);
    let salt = sk.val2 & (tl ^ tr);
    let al = (salt ^ tl) ^ sk.val0;
    let ar = (salt ^ tr) ^ sk.val1;
    spec_sbox_entry(0, (al >> 10) & 0x3ff) | spec_sbox_entry(1, al & 0x3ff) | spec_sbox_entry(
        2,
        (ar >> 10) & 0x3ff,
    ) | spec_sbox_entry(3, ar & 0x3ff)
}

/// How many round pairs a schedule drives.
pub open spec fn spec_num_pairs(ks: Seq<IceSubkey>) -> nat {
    ks.len() / 2
}

/// One encryption round pair `p`: mix F of the right half under subkey `2p`
/// into the left half, then F of the new left half under subkey `2p + 1`
/// into the right half.
pub open spec fn spec_enc_pair(ks: Seq<IceSubkey>, l: u32, r: u32, p: int) -> (u32, u32) {
    let l1 = l ^ spec_ice_f(r, ks[2 * p]);
    (l1, r ^ spec_ice_f(l1, ks[2 * p + 1]))
}

/// One decryption round pair `p`: the exact mirror, using subkey `2p + 1`
/// first and `2p` second.
pub open spec fn spec_dec_pair(ks: Seq<IceSubkey>, l: u32, r: u32, p: int) -> (u32, u32) {
    let l1 = l ^ spec_ice_f(r, ks[2 * p + 1]);
    (l1, r ^ spec_ice_f(l1, ks[2 * p]))
}

/// The halves after running encryption round pairs `i` up to the end of the
/// schedule, in ascending order.
pub open spec fn spec_enc_pairs(ks: Seq<IceSubkey>, l: u32, r: u32, i: nat) -> (u32, u32)
    decreases spec_num_pairs(ks) - i,
{
    if i >= spec_num_pairs(ks) {
        (l, r)
    } else {
        let (l1, r1) = spec_enc_pair(ks, l, r, i as int);
        spec_enc_pairs(ks, l1, r1, i + 1)
    }
}

/// The halves after running decryption round pairs `hi - 1` down to `lo`,
/// in descending order.
pub open spec fn spec_dec_pairs(ks: Seq<IceSubkey>, l: u32, r: u32, hi: nat, lo: nat) -> (
    u32,
    u32,
)
    decreases hi - lo,
{
    if hi <= lo {
        (l, r)
    } else {
        let (l1, r1) = spec_dec_pair(ks, l, r, hi - 1);
        spec_dec_pairs(ks, l1, r1, (hi - 1) as nat, lo)
    }
}

/// A 32-bit word from four bytes, big-endian.
pub open spec fn spec_be32(b0: u8, b1: u8, b2: u8, b3: u8) -> u32 {
    ((b0 as u32) << 24) | ((b1 as u32) << 16) | ((b2 as u32) << 8) | (b3 as u32)
}

/// The four big-endian bytes of a 32-bit word.
pub open spec fn spec_be_bytes(x: u32) -> Seq<u8> {
    seq![(x >> 24) as u8, (x >> 16) as u8, (x >> 8) as u8, x as u8]
}

/// Encrypt one 8-byte block: read the halves big-endian, run the round
/// pairs forward, and write the halves back swapped — right half first.
/// The swap is part of the cipher's defined output format.
pub open spec fn spec_block_enc(ks: Seq<IceSubkey>, s: Seq<u8>) -> Seq<u8> {
    let l = spec_be32(s[0], s[1], s[2], s[3]);
    let r = spec_be32(s[4], s[5], s[6], s[7]);
    let (le, re) = spec_enc_pairs(ks, l, r, 0);
    spec_be_bytes(re) + spec_be_bytes(le)
}

/// Decrypt one 8-byte block: read the halves big-endian, run the round
/// pairs backward, and write the halves back with the same swap.
pub open spec fn spec_block_dec(ks: Seq<IceSubkey>, s: Seq<u8>) -> Seq<u8> {
    let l = spec_be32(s[0], s[1], s[2], s[3]);
    let r = spec_be32(s[4], s[5], s[6], s[7]);
    let (ld, rd) = spec_dec_pairs(ks, l, r, spec_num_pairs(ks), 0);
    spec_be_bytes(rd) + spec_be_bytes(ld)
}

/// Encrypt a whole aligned buffer: every 8-byte block independently.
pub open spec fn spec_buffer_enc(ks: Seq<IceSubkey>, s: Seq<u8>) -> Seq<u8> {
    Seq::new(s.len(), |i: int| spec_block_enc(ks, s.subrange(8 * (i / 8), 8 * (i / 8) + 8))[i % 8])
}

/// Decrypt a whole aligned buffer: every 8-byte block independently.
pub open spec fn spec_buffer_dec(ks: Seq<IceSubkey>, s: Seq<u8>) -> Seq<u8> {
    Seq::new(s.len(), |i: int| spec_block_dec(ks, s.subrange(8 * (i / 8), 8 * (i / 8) + 8))[i % 8])
}

/// One block transform, either direction.
pub open spec fn spec_block_xform(ks: Seq<IceSubkey>, s: Seq<u8>, decrypting: bool) -> Seq<u8> {
    if decrypting {
        spec_block_dec(ks, s)
    } else {
        spec_block_enc(ks, s)
    }
}

/// One whole-buffer transform, either direction.
pub open spec fn spec_buffer_xform(ks: Seq<IceSubkey>, s: Seq<u8>, decrypting: bool) -> Seq<u8> {
    if decrypting {
        spec_buffer_dec(ks, s)
    } else {
        spec_buffer_enc(ks, s)
    }
}

/// An offset that is a multiple of 8 is exactly 8 times its block index.
pub proof fn lemma_mul_div8(i: int)
    requires
        0 <= i,
        i % 8 == 0,
    ensures
        8 * (i / 8) == i,
{
    assert(8 * (i / 8) == i) by (nonlinear_arith)
        requires
            0 <= i,
            i % 8 == 0,
    ;
}

/// Running the descending pair recursion is the same as first running it
/// down to `lo + 1` and then applying pair `lo` to what comes out.
proof fn lemma_dec_pairs_unfold_low(ks: Seq<IceSubkey>, l: u32, r: u32, hi: nat, lo: nat)
    requires
        lo < hi,
    ensures
        spec_dec_pairs(ks, l, r, hi, lo) == {
            let (a, b) = spec_dec_pairs(ks, l, r, hi, lo + 1);
            spec_dec_pair(ks, a, b, lo as int)
        },
    decreases hi - lo,
{
    if hi == lo + 1 {
        let (l1, r1) = spec_dec_pair(ks, l, r, lo as int);
        assert(spec_dec_pairs(ks, l, r, hi, lo) == spec_dec_pairs(ks, l1, r1, lo, lo));
        assert(spec_dec_pairs(ks, l1, r1, lo, lo) == (l1, r1));
        assert(spec_dec_pairs(ks, l, r, hi, lo + 1) == (l, r));
    } else {
        let (l1, r1) = spec_dec_pair(ks, l, r, hi - 1);
        lemma_dec_pairs_unfold_low(ks, l1, r1, (hi - 1) as nat, lo);
        assert(spec_dec_pairs(ks, l, r, hi, lo + 1) == spec_dec_pairs(
            ks,
            l1,
            r1,
            (hi - 1) as nat,
            lo + 1,
        ));
        assert(spec_dec_pairs(ks, l, r, hi, lo) == spec_dec_pairs(ks, l1, r1, (hi - 1) as nat, lo));
    }
}

/// Decrypting undoes encrypting: running the descending pairs on the
/// swapped output of the ascending pairs gives the swapped input back.
proof fn lemma_enc_then_dec(ks: Seq<IceSubkey>, l: u32, r: u32, i: nat)
    requires
        i <= spec_num_pairs(ks),
    ensures
        ({
            let (le, re) = spec_enc_pairs(ks, l, r, i);
            spec_dec_pairs(ks, re, le, spec_num_pairs(ks), i) == (r, l)
        }),
    decreases spec_num_pairs(ks) - i,
{
    let n = spec_num_pairs(ks);
    if i == n {
    } else {
        let (l1, r1) = spec_enc_pair(ks, l, r, i as int);
        let (le, re) = spec_enc_pairs(ks, l1, r1, i + 1);
        lemma_enc_then_dec(ks, l1, r1, i + 1);
        lemma_dec_pairs_unfold_low(ks, re, le, n, i);
        lemma_xor_cancel(r, spec_ice_f(l1, ks[2 * (i as int) + 1]));
        lemma_xor_cancel(l, spec_ice_f(r, ks[2 * (i as int)]));
    }
}

/// Encrypting undoes decrypting: running the ascending pairs on the
/// swapped output of the descending pairs gives the swapped input back.
proof fn lemma_dec_then_enc(ks: Seq<IceSubkey>, l: u32, r: u32, i: nat)
    requires
        i <= spec_num_pairs(ks),
    ensures
        ({
            let (ld, rd) = spec_dec_pairs(ks, l, r, spec_num_pairs(ks), i);
            spec_enc_pairs(ks, rd, ld, i) == (r, l)
        }),
    decreases spec_num_pairs(ks) - i,
{
    let n = spec_num_pairs(ks);
    if i == n {
    } else {
        let (a, b) = spec_dec_pairs(ks, l, r, n, i + 1);
        lemma_dec_then_enc(ks, l, r, i + 1);
        lemma_dec_pairs_unfold_low(ks, l, r, n, i);
        let a1 = a ^ spec_ice_f(b, ks[2 * (i as int) + 1]);
        lemma_xor_cancel(b, spec_ice_f(a1, ks[2 * (i as int)]));
        lemma_xor_cancel(a, spec_ice_f(b, ks[2 * (i as int) + 1]));
    }
}

/// Round trip on one block, both ways: for any schedule and any 8-byte
/// block, decrypting an encrypted block gives the block back, and
/// encrypting a decrypted block does too.
pub proof fn lemma_block_round_trip(ks: Seq<IceSubkey>, s: Seq<u8>)
    requires
        s.len() == 8,
    ensures
        spec_block_dec(ks, spec_block_enc(ks, s)) == s,
        spec_block_enc(ks, spec_block_dec(ks, s)) == s,
{
    let l = spec_be32(s[0], s[1], s[2], s[3]);
    let r = spec_be32(s[4], s[5], s[6], s[7]);
    let n = spec_num_pairs(ks);

    // Decrypting the encryption of s.
    let (le, re) = spec_enc_pairs(ks, l, r, 0);
    let enc = spec_block_enc(ks, s);
    crate::bitops::lemma_be32_of_bytes_of(re);
    crate::bitops::lemma_be32_of_bytes_of(le);
    assert(spec_be32(enc[0], enc[1], enc[2], enc[3]) == re);
    assert(spec_be32(enc[4], enc[5], enc[6], enc[7]) == le);
    lemma_enc_then_dec(ks, l, r, 0);
    assert(spec_dec_pairs(ks, re, le, n, 0) == (r, l));
    crate::bitops::lemma_bytes_of_be32(s[0], s[1], s[2], s[3]);
    crate::bitops::lemma_bytes_of_be32(s[4], s[5], s[6], s[7]);
    assert(spec_block_dec(ks, enc) =~= s);

    // Encrypting the decryption of s.
    let (ld, rd) = spec_dec_pairs(ks, l, r, n, 0);
    let dec = spec_block_dec(ks, s);
    crate::bitops::lemma_be32_of_bytes_of(rd);
    crate::bitops::lemma_be32_of_bytes_of(ld);
    assert(spec_be32(dec[0], dec[1], dec[2], dec[3]) == rd);
    assert(spec_be32(dec[4], dec[5], dec[6], dec[7]) == ld);
    lemma_dec_then_enc(ks, l, r, 0);
    assert(spec_enc_pairs(ks, rd, ld, 0) == (r, l));
    assert(spec_block_enc(ks, dec) =~= s);
}

/// Inside an aligned buffer, the transform of block `b` is the block
/// transform of the corresponding 8 input bytes.
pub proof fn lemma_buffer_enc_block(ks: Seq<IceSubkey>, s: Seq<u8>, b: int)
    requires
        0 <= b,
        8 * b + 8 <= s.len(),
    ensures
        spec_buffer_enc(ks, s).subrange(8 * b, 8 * b + 8) == spec_block_enc(
            ks,
            s.subrange(8 * b, 8 * b + 8),
        ),
{
    assert forall|i: int| 8 * b <= i < 8 * b + 8 implies #[trigger] spec_buffer_enc(ks, s)[i]
        == spec_block_enc(ks, s.subrange(8 * b, 8 * b + 8))[i - 8 * b] by {
        assert(i / 8 == b && i % 8 == i - 8 * b) by (nonlinear_arith)
            requires
                8 * b <= i < 8 * b + 8,
                0 <= b,
        ;
    }
    assert(spec_buffer_enc(ks, s).subrange(8 * b, 8 * b + 8) =~= spec_block_enc(
        ks,
        s.subrange(8 * b, 8 * b + 8),
    ));
}

/// The decryption counterpart of `lemma_buffer_enc_block`.
pub proof fn lemma_buffer_dec_block(ks: Seq<IceSubkey>, s: Seq<u8>, b: int)
    requires
        0 <= b,
        8 * b + 8 <= s.len(),
    ensures
        spec_buffer_dec(ks, s).subrange(8 * b, 8 * b + 8) == spec_block_dec(
            ks,
            s.subrange(8 * b, 8 * b + 8),
        ),
{
    assert forall|i: int| 8 * b <= i < 8 * b + 8 implies #[trigger] spec_buffer_dec(ks, s)[i]
        == spec_block_dec(ks, s.subrange(8 * b, 8 * b + 8))[i - 8 * b] by {
        assert(i / 8 == b && i % 8 == i - 8 * b) by (nonlinear_arith)
            requires
                8 * b <= i < 8 * b + 8,
                0 <= b,
        ;
    }
    assert(spec_buffer_dec(ks, s).subrange(8 * b, 8 * b + 8) =~= spec_block_dec(
        ks,
        s.subrange(8 * b, 8 * b + 8),
    ));
}

/// `lemma_buffer_enc_block` and `lemma_buffer_dec_block` in one statement,
/// for either direction.
pub proof fn lemma_buffer_xform_block(ks: Seq<IceSubkey>, s: Seq<u8>, b: int, decrypting: bool)
    requires
        0 <= b,
        8 * b + 8 <= s.len(),
    ensures
        spec_buffer_xform(ks, s, decrypting).subrange(8 * b, 8 * b + 8) == spec_block_xform(
            ks,
            s.subrange(8 * b, 8 * b + 8),
            decrypting,
        ),
{
    if decrypting {
        lemma_buffer_dec_block(ks, s, b);
    } else {
        lemma_buffer_enc_block(ks, s, b);
    }
}

/// Dual-lane equivalence: on a 16-byte buffer, the whole-buffer transform
/// is exactly the single-block transform of each 8-byte half, one after
/// the other — which is also, verbatim, what the interleaved two-lane
/// block transform is specified to produce.
pub proof fn lemma_dual_lane(ks: Seq<IceSubkey>, s: Seq<u8>)
    requires
        s.len() == 16,
    ensures
        spec_buffer_enc(ks, s) == spec_block_enc(ks, s.subrange(0, 8)) + spec_block_enc(
            ks,
            s.subrange(8, 16),
        ),
        spec_buffer_dec(ks, s) == spec_block_dec(ks, s.subrange(0, 8)) + spec_block_dec(
            ks,
            s.subrange(8, 16),
        ),
{
    lemma_buffer_enc_block(ks, s, 0);
    lemma_buffer_enc_block(ks, s, 1);
    lemma_buffer_dec_block(ks, s, 0);
    lemma_buffer_dec_block(ks, s, 1);
    assert(spec_buffer_enc(ks, s) =~= spec_block_enc(ks, s.subrange(0, 8)) + spec_block_enc(
        ks,
        s.subrange(8, 16),
    ));
    assert(spec_buffer_dec(ks, s) =~= spec_block_dec(ks, s.subrange(0, 8)) + spec_block_dec(
        ks,
        s.subrange(8, 16),
    ));
}

/// What the parallel driver leaves behind is the whole-buffer transform:
/// if the super-block pass turned every aligned 8-byte block of the
/// leading 16-aligned area into its block transform while keeping the
/// remainder bytes, and the tail pass then transformed the one trailing
/// 8-byte block when there was one, the buffer as a whole is transformed.
#[verifier::rlimit(50)]
pub proof fn lemma_par_glue(
    ks: Seq<IceSubkey>,
    orig: Seq<u8>,
    mid: Seq<u8>,
    fin: Seq<u8>,
    decrypting: bool,
)
    requires
        orig.len() % 8 == 0,
        mid.len() == orig.len(),
        fin.len() == orig.len(),
        forall|b: int|
            0 <= b && 8 * b + 8 <= 16 * (orig.len() as int / 16) ==> #[trigger] mid.subrange(
                8 * b,
                8 * b + 8,
            ) == spec_block_xform(ks, orig.subrange(8 * b, 8 * b + 8), decrypting),
        forall|j: int|
            16 * (orig.len() as int / 16) <= j < orig.len() ==> #[trigger] mid[j] == orig[j],
        orig.len() % 16 == 0 ==> fin == mid,
        orig.len() % 16 != 0 ==> (forall|j: int|
            0 <= j < orig.len() - 8 ==> fin[j] == mid[j]) && fin.subrange(
            orig.len() - 8,
            orig.len() as int,
        ) == spec_block_xform(ks, mid.subrange(orig.len() - 8, orig.len() as int), decrypting),
    ensures
        fin == spec_buffer_xform(ks, orig, decrypting),
{
    let ln = orig.len() as int;
    let area = 16 * (ln / 16);
    assert(0 <= area <= ln && ln - area == ln % 16 && (ln % 16 == 0 || ln % 16 == 8) && area % 8
        == 0) by (nonlinear_arith)
        requires
            0 <= ln,
            ln % 8 == 0,
            area == 16 * (ln / 16),
    ;
    if ln % 16 != 0 {
        assert(mid.subrange(ln - 8, ln) =~= orig.subrange(ln - 8, ln));
    }
    assert forall|k: int| 0 <= k < ln implies #[trigger] fin[k] == spec_buffer_xform(
        ks,
        orig,
        decrypting,
    )[k] by {
        let b = k / 8;
        assert(0 <= b && 8 * b <= k < 8 * b + 8 && k % 8 == k - 8 * b && 8 * b + 8 <= ln && (8 * b
            + 8 <= area || 8 * b >= area)) by (nonlinear_arith)
            requires
                0 <= k < ln,
                ln % 8 == 0,
                b == k / 8,
                area % 8 == 0,
                0 <= area <= ln,
        ;
        lemma_buffer_xform_block(ks, orig, b, decrypting);
        if 8 * b + 8 <= area {
            assert(mid[k] == mid.subrange(8 * b, 8 * b + 8)[k - 8 * b]);
            assert(fin[k] == mid[k]);
        } else {
            assert(ln % 16 == 8 && 8 * b == area && area == ln - 8);
            assert(fin[k] == fin.subrange(ln - 8, ln)[k - (ln - 8)]);
        }
    }
    assert(fin =~= spec_buffer_xform(ks, orig, decrypting));
}

/// Round trip on a whole aligned buffer, both ways: for any schedule, any
/// key level, and any buffer whose length is a multiple of 8, decrypting an
/// encrypted buffer gives the buffer back, and the other way around.
#[verifier::rlimit(100)]
pub proof fn lemma_buffer_round_trip(ks: Seq<IceSubkey>, s: Seq<u8>)
    requires
        s.len() % 8 == 0,
    ensures
        spec_buffer_dec(ks, spec_buffer_enc(ks, s)) == s,
        spec_buffer_enc(ks, spec_buffer_dec(ks, s)) == s,
{
    let enc = spec_buffer_enc(ks, s);
    let dec = spec_buffer_dec(ks, s);
    assert forall|i: int| 0 <= i < s.len() implies #[trigger] spec_buffer_dec(ks, enc)[i]
        == s[i] by {
        let b = i / 8;
        assert(0 <= b && 8 * b <= i < 8 * b + 8 && i % 8 == i - 8 * b && 8 * b + 8 <= s.len())
            by (nonlinear_arith)
            requires
                0 <= i < s.len(),
                s.len() % 8 == 0,
                b == i / 8,
        ;
        lemma_buffer_enc_block(ks, s, b);
        lemma_block_round_trip(ks, s.subrange(8 * b, 8 * b + 8));
        lemma_buffer_dec_block(ks, enc, b);
        assert(spec_buffer_dec(ks, enc)[i] == spec_block_dec(ks, enc.subrange(8 * b, 8 * b + 8))[i
            - 8 * b]);
    }
    assert forall|i: int| 0 <= i < s.len() implies #[trigger] spec_buffer_enc(ks, dec)[i]
        == s[i] by {
        let b = i / 8;
        assert(0 <= b && 8 * b <= i < 8 * b + 8 && i % 8 == i - 8 * b && 8 * b + 8 <= s.len())
            by (nonlinear_arith)
            requires
                0 <= i < s.len(),
                s.len() % 8 == 0,
                b == i / 8,
        ;
        lemma_buffer_dec_block(ks, s, b);
        lemma_block_round_trip(ks, s.subrange(8 * b, 8 * b + 8));
        lemma_buffer_enc_block(ks, dec, b);
        assert(spec_buffer_enc(ks, dec)[i] == spec_block_enc(ks, dec.subrange(8 * b, 8 * b + 8))[i
            - 8 * b]);
    }
    assert(spec_buffer_dec(ks, enc) =~= s);
    assert(spec_buffer_enc(ks, dec) =~= s);
}

} // verus!
