//! The cipher context and the executable transforms: construction from a
//! level and raw key bytes, the Feistel round function over the built
//! S-boxes, single-block and dual-lane block transforms, and the in-place
//! buffer drivers, serial and parallel.
use vstd::prelude::*;

use rayon::prelude::ParallelIterator;
use rayon::prelude::ParallelSliceMut;

use crate::bitops::lemma_ten_bits;
use crate::block::lemma_par_glue;
use crate::block::lemma_buffer_xform_block;
use crate::block::lemma_mul_div8;
use crate::block::spec_block_dec;
use crate::block::spec_block_enc;
use crate::block::spec_block_xform;
use crate::block::spec_buffer_dec;
use crate::block::spec_buffer_enc;
use crate::block::spec_buffer_xform;
use crate::block::spec_dec_pairs;
use crate::block::spec_enc_pairs;
use crate::block::spec_ice_f;
use crate::block::spec_num_pairs;
use vstd::slice::slice_subrange;

use crate::keysched::build_schedule;
use crate::keysched::spec_key_schedule;
use crate::keysched::IceSubkey;
use crate::sbox::SboxTable;
use crate::IceError;

verus! {

/// The key length, in bytes, that a given level calls for: 8 for thin ice
/// (level 0), 8 per segment otherwise.
pub open spec fn spec_required_key_len(level: int) -> int {
    if level < 1 {
        8
    } else {
        8 * level
    }
}

/// The key-dependent half of a context: how many 8-byte key segments it
/// was built from, how many rounds it runs, and the derived subkeys.
pub struct IceKeyStruct {
    pub size: usize,
    pub rounds: usize,
    pub keysched: Vec<IceSubkey>,
}

/// A cipher context: the key schedule plus the constant S-box tables.
/// Built once from a level and a key, then read-only.
pub struct Ice {
    pub key: IceKeyStruct,
    pub sbox: SboxTable,
}

impl Ice {
    /// Structural validity: the S-boxes hold their constant-derived
    /// entries, and the round count matches the schedule length and the
    /// level shape — 8 rounds for thin ice, 16 per key segment otherwise.
    pub open spec fn wf(&self) -> bool {
        &&& self.sbox.wf()
        &&& self.key.keysched@.len() == self.key.rounds
        &&& self.key.size >= 1
        &&& (self.key.rounds == 8 && self.key.size == 1) || self.key.rounds == 16 * self.key.size
        &&& self.key.rounds % 2 == 0
    }

    /// Build a context for the given strength level: level 0 is thin ice
    /// (8 rounds, an 8-byte key), level `n >= 1` runs `16n` rounds from an
    /// `8n`-byte key. A key of any other length is refused outright, and
    /// nothing of the context is built from it.
    pub fn new(level: usize, key: &[u8]) -> (res: Result<Ice, IceError>)
        requires
            level <= usize::MAX / 16,
        ensures
            match res {
                Ok(ice) => {
                    &&& key@.len() == spec_required_key_len(level as int)
                    &&& ice.wf()
                    &&& ice.key.size == if level < 1 {
                        1int
                    } else {
                        level as int
                    }
                    &&& ice.key.rounds == if level < 1 {
                        8int
                    } else {
                        16 * level as int
                    }
                    &&& ice.key.keysched@ == spec_key_schedule(
                        key@,
                        ice.key.size as int,
                        ice.key.rounds as int,
                    )
                },
                Err(e) => {
                    &&& e == IceError::ConfigurationError
                    &&& key@.len() != spec_required_key_len(level as int)
                },
            },
    {
        let (size, rounds): (usize, usize) = if level < 1 {
            (1, 8)
        } else {
            proof {
                assert(16 * (usize::MAX as int / 16) <= usize::MAX as int) by (nonlinear_arith);
            }
            (level, 16 * level)
        };

        if key.len() != 8 * size {
            return Err(IceError::ConfigurationError);
        }

        let keysched = build_schedule(key, size, rounds);
        Ok(Ice { key: IceKeyStruct { size, rounds, keysched }, sbox: SboxTable::build() })
    }

    /// Re-derive the key schedule from fresh key bytes, keeping the level
    /// shape and the S-boxes.
    pub fn key_set(&mut self, key: &[u8])
        requires
            old(self).wf(),
            key@.len() == 8 * old(self).key.size,
        ensures
            final(self).wf(),
            final(self).key.size == old(self).key.size,
            final(self).key.rounds == old(self).key.rounds,
            final(self).sbox == old(self).sbox,
            final(self).key.keysched@ == spec_key_schedule(
                key@,
                old(self).key.size as int,
                old(self).key.rounds as int,
            ),
    {
        self.key.keysched = build_schedule(key, self.key.size, self.key.rounds);
    }

    /// The fixed 8-byte block size.
    pub fn block_size(&self) -> (n: usize)
        ensures
            n == 8,
    {
        8
    }

    /// The key size in bytes: 8 per key segment.
    pub fn key_size(&self) -> (n: usize)
        requires
            self.wf(),
        ensures
            n == 8 * self.key.size,
    {
        8 * self.key.size
    }

    /// The single-round Feistel function over the built S-box tables.
    fn ice_f(&self, p: u32, sk: &IceSubkey) -> (r: u32)
        requires
            self.sbox.wf(),
        ensures
            r == spec_ice_f(p, *sk),
    {
        /* Expanded 2x20-bit values */
        let tl = ((p >> 16) & 0x3ff) | (((p >> 14) | (p << 18)) & 0xffc00);
        let tr = (p & 0x3ff) | ((p << 2) & 0xffc00);

        /* Perform the salt permutation */
        let mut al = sk.val2 & (tl ^ tr);
        let mut ar = al ^ tr;
        al ^= tl;

        /* XOR with the subkey */
        al ^= sk.val0;
        ar ^= sk.val1;

        proof {
            lemma_ten_bits(al >> 10);
            lemma_ten_bits(al);
            lemma_ten_bits(ar >> 10);
            lemma_ten_bits(ar);
        }

        /* S-box lookup and permutation */
        self.sbox.t0[((al >> 10) & 0x3ff) as usize] | self.sbox.t1[(al & 0x3ff) as usize]
            | self.sbox.t2[((ar >> 10) & 0x3ff) as usize] | self.sbox.t3[(ar & 0x3ff) as usize]
    }

    /// Encrypt one 8-byte block, out of place: big-endian halves in, the
    /// round pairs forward, swapped halves out.
    pub fn encrypt_block8(&self, block: &[u8]) -> (out: Vec<u8>)
        requires
            self.wf(),
            block@.len() == 8,
        ensures
            out@.len() == 8,
            out@ == spec_block_enc(self.key.keysched@, block@),
    {
        let ghost ks = self.key.keysched@;
        let mut l: u32 = ((block[0] as u32) << 24) | ((block[1] as u32) << 16) | ((block[2]
            as u32) << 8) | (block[3] as u32);
        let mut r: u32 = ((block[4] as u32) << 24) | ((block[5] as u32) << 16) | ((block[6]
            as u32) << 8) | (block[7] as u32);
        let ghost l0 = l;
        let ghost r0 = r;

        let n = self.key.rounds / 2;
        assert(2 * n == self.key.rounds);
        let mut p: usize = 0;
        while p < n
            invariant
                self.wf(),
                ks == self.key.keysched@,
                n == spec_num_pairs(ks),
                2 * n == self.key.rounds,
                p <= n,
                spec_enc_pairs(ks, l0, r0, 0) == spec_enc_pairs(ks, l, r, p as nat),
            decreases n - p,
        {
            l = l ^ self.ice_f(r, &self.key.keysched[2 * p]);
            r = r ^ self.ice_f(l, &self.key.keysched[2 * p + 1]);
            p = p + 1;
        }

        let mut out: Vec<u8> = Vec::new();
        out.push((r >> 24) as u8);
        out.push((r >> 16) as u8);
        out.push((r >> 8) as u8);
        out.push(r as u8);
        out.push((l >> 24) as u8);
        out.push((l >> 16) as u8);
        out.push((l >> 8) as u8);
        out.push(l as u8);
        proof {
            assert(out@ =~= spec_block_enc(ks, block@));
        }
        out
    }

    /// Decrypt one 8-byte block, out of place: the exact round-pair mirror
    /// of `encrypt_block8`, with the same swapped write-back.
    pub fn decrypt_block8(&self, block: &[u8]) -> (out: Vec<u8>)
        requires
            self.wf(),
            block@.len() == 8,
        ensures
            out@.len() == 8,
            out@ == spec_block_dec(self.key.keysched@, block@),
    {
        let ghost ks = self.key.keysched@;
        let mut l: u32 = ((block[0] as u32) << 24) | ((block[1] as u32) << 16) | ((block[2]
            as u32) << 8) | (block[3] as u32);
        let mut r: u32 = ((block[4] as u32) << 24) | ((block[5] as u32) << 16) | ((block[6]
            as u32) << 8) | (block[7] as u32);
        let ghost l0 = l;
        let ghost r0 = r;

        let n = self.key.rounds / 2;
        assert(2 * n == self.key.rounds);
        let mut p: usize = n;
        while p > 0
            invariant
                self.wf(),
                ks == self.key.keysched@,
                n == spec_num_pairs(ks),
                2 * n == self.key.rounds,
                p <= n,
                spec_dec_pairs(ks, l0, r0, n as nat, 0) == spec_dec_pairs(ks, l, r, p as nat, 0),
            decreases p,
        {
            p = p - 1;
            l = l ^ self.ice_f(r, &self.key.keysched[2 * p + 1]);
            r = r ^ self.ice_f(l, &self.key.keysched[2 * p]);
        }

        let mut out: Vec<u8> = Vec::new();
        out.push((r >> 24) as u8);
        out.push((r >> 16) as u8);
        out.push((r >> 8) as u8);
        out.push(r as u8);
        out.push((l >> 24) as u8);
        out.push((l >> 16) as u8);
        out.push((l >> 8) as u8);
        out.push(l as u8);
        proof {
            assert(out@ =~= spec_block_dec(ks, block@));
        }
        out
    }

    /// Encrypt two independent 8-byte blocks read from one 16-byte region,
    /// interleaving the two lanes inside each round pair so the S-box
    /// lookups of both lanes can overlap. Output is byte-identical to
    /// running `encrypt_block8` on each half on its own — the interleaving
    /// is a throughput device, never a semantic one.
    pub fn encrypt_block16(&self, block: &[u8]) -> (out: Vec<u8>)
        requires
            self.wf(),
            block@.len() == 16,
        ensures
            out@.len() == 16,
            out@ == spec_block_enc(self.key.keysched@, block@.subrange(0, 8)) + spec_block_enc(
                self.key.keysched@,
                block@.subrange(8, 16),
            ),
    {
        let ghost ks = self.key.keysched@;
        let mut l1: u32 = ((block[0] as u32) << 24) | ((block[1] as u32) << 16) | ((block[2]
            as u32) << 8) | (block[3] as u32);
        let mut r1: u32 = ((block[4] as u32) << 24) | ((block[5] as u32) << 16) | ((block[6]
            as u32) << 8) | (block[7] as u32);
        let mut l2: u32 = ((block[8] as u32) << 24) | ((block[9] as u32) << 16) | ((block[10]
            as u32) << 8) | (block[11] as u32);
        let mut r2: u32 = ((block[12] as u32) << 24) | ((block[13] as u32) << 16) | ((block[14]
            as u32) << 8) | (block[15] as u32);
        let ghost l10 = l1;
        let ghost r10 = r1;
        let ghost l20 = l2;
        let ghost r20 = r2;

        let n = self.key.rounds / 2;
        assert(2 * n == self.key.rounds);
        let mut p: usize = 0;
        while p < n
            invariant
                self.wf(),
                ks == self.key.keysched@,
                n == spec_num_pairs(ks),
                2 * n == self.key.rounds,
                p <= n,
                spec_enc_pairs(ks, l10, r10, 0) == spec_enc_pairs(ks, l1, r1, p as nat),
                spec_enc_pairs(ks, l20, r20, 0) == spec_enc_pairs(ks, l2, r2, p as nat),
            decreases n - p,
        {
            l1 = l1 ^ self.ice_f(r1, &self.key.keysched[2 * p]);
            l2 = l2 ^ self.ice_f(r2, &self.key.keysched[2 * p]);
            r1 = r1 ^ self.ice_f(l1, &self.key.keysched[2 * p + 1]);
            r2 = r2 ^ self.ice_f(l2, &self.key.keysched[2 * p + 1]);
            p = p + 1;
        }

        let mut out: Vec<u8> = Vec::new();
        out.push((r1 >> 24) as u8);
        out.push((r1 >> 16) as u8);
        out.push((r1 >> 8) as u8);
        out.push(r1 as u8);
        out.push((l1 >> 24) as u8);
        out.push((l1 >> 16) as u8);
        out.push((l1 >> 8) as u8);
        out.push(l1 as u8);
        out.push((r2 >> 24) as u8);
        out.push((r2 >> 16) as u8);
        out.push((r2 >> 8) as u8);
        out.push(r2 as u8);
        out.push((l2 >> 24) as u8);
        out.push((l2 >> 16) as u8);
        out.push((l2 >> 8) as u8);
        out.push(l2 as u8);
        proof {
            assert(out@ =~= spec_block_enc(ks, block@.subrange(0, 8)) + spec_block_enc(
                ks,
                block@.subrange(8, 16),
            ));
        }
        out
    }

    /// Decrypt two independent 8-byte blocks read from one 16-byte region,
    /// the exact round-pair mirror of `encrypt_block16`.
    pub fn decrypt_block16(&self, block: &[u8]) -> (out: Vec<u8>)
        requires
            self.wf(),
            block@.len() == 16,
        ensures
            out@.len() == 16,
            out@ == spec_block_dec(self.key.keysched@, block@.subrange(0, 8)) + spec_block_dec(
                self.key.keysched@,
                block@.subrange(8, 16),
            ),
    {
        let ghost ks = self.key.keysched@;
        let mut l1: u32 = ((block[0] as u32) << 24) | ((block[1] as u32) << 16) | ((block[2]
            as u32) << 8) | (block[3] as u32);
        let mut r1: u32 = ((block[4] as u32) << 24) | ((block[5] as u32) << 16) | ((block[6]
            as u32) << 8) | (block[7] as u32);
        let mut l2: u32 = ((block[8] as u32) << 24) | ((block[9] as u32) << 16) | ((block[10]
            as u32) << 8) | (block[11] as u32);
        let mut r2: u32 = ((block[12] as u32) << 24) | ((block[13] as u32) << 16) | ((block[14]
            as u32) << 8) | (block[15] as u32);
        let ghost l10 = l1;
        let ghost r10 = r1;
        let ghost l20 = l2;
        let ghost r20 = r2;

        let n = self.key.rounds / 2;
        assert(2 * n == self.key.rounds);
        let mut p: usize = n;
        while p > 0
            invariant
                self.wf(),
                ks == self.key.keysched@,
                n == spec_num_pairs(ks),
                2 * n == self.key.rounds,
                p <= n,
                spec_dec_pairs(ks, l10, r10, n as nat, 0) == spec_dec_pairs(ks, l1, r1, p as nat, 0),
                spec_dec_pairs(ks, l20, r20, n as nat, 0) == spec_dec_pairs(ks, l2, r2, p as nat, 0),
            decreases p,
        {
            p = p - 1;
            l1 = l1 ^ self.ice_f(r1, &self.key.keysched[2 * p + 1]);
            l2 = l2 ^ self.ice_f(r2, &self.key.keysched[2 * p + 1]);
            r1 = r1 ^ self.ice_f(l1, &self.key.keysched[2 * p]);
            r2 = r2 ^ self.ice_f(l2, &self.key.keysched[2 * p]);
        }

        let mut out: Vec<u8> = Vec::new();
        out.push((r1 >> 24) as u8);
        out.push((r1 >> 16) as u8);
        out.push((r1 >> 8) as u8);
        out.push(r1 as u8);
        out.push((l1 >> 24) as u8);
        out.push((l1 >> 16) as u8);
        out.push((l1 >> 8) as u8);
        out.push(l1 as u8);
        out.push((r2 >> 24) as u8);
        out.push((r2 >> 16) as u8);
        out.push((r2 >> 8) as u8);
        out.push(r2 as u8);
        out.push((l2 >> 24) as u8);
        out.push((l2 >> 16) as u8);
        out.push((l2 >> 8) as u8);
        out.push(l2 as u8);
        proof {
            assert(out@ =~= spec_block_dec(ks, block@.subrange(0, 8)) + spec_block_dec(
                ks,
                block@.subrange(8, 16),
            ));
        }
        out
    }

    /// The serial buffer driver: as many 16-byte super-blocks as fit, then
    /// the trailing 8-byte block if one remains.
    #[verifier::rlimit(100)]
    fn transform_serial(&self, data: &mut Vec<u8>, decrypting: bool)
        requires
            self.wf(),
            old(data)@.len() % 8 == 0,
        ensures
            final(data)@ == spec_buffer_xform(self.key.keysched@, old(data)@, decrypting),
    {
        let ghost ks = self.key.keysched@;
        let ghost orig = old(data)@;
        let len = data.len();
        let mut i: usize = 0;
        while len - i >= 16
            invariant
                self.wf(),
                ks == self.key.keysched@,
                orig.len() == len,
                data@.len() == len,
                len % 8 == 0,
                i <= len,
                i % 8 == 0,
                forall|j: int|
                    0 <= j < i ==> data@[j] == spec_buffer_xform(ks, orig, decrypting)[j],
                forall|j: int| i <= j < len ==> data@[j] == orig[j],
            decreases len - i,
        {
            let block = slice_subrange(data.as_slice(), i, i + 16);
            proof {
                assert(block@ =~= orig.subrange(i as int, i as int + 16));
            }
            let out = if decrypting {
                self.decrypt_block16(block)
            } else {
                self.encrypt_block16(block)
            };
            proof {
                let b = i as int / 8;
                lemma_mul_div8(i as int);
                lemma_buffer_xform_block(ks, orig, b, decrypting);
                lemma_buffer_xform_block(ks, orig, b + 1, decrypting);
                assert(block@.subrange(0, 8) =~= orig.subrange(8 * b, 8 * b + 8));
                assert(block@.subrange(8, 16) =~= orig.subrange(8 * (b + 1), 8 * (b + 1) + 8));
            }
            write_back(data, i, &out);
            proof {
                let b = i as int / 8;
                assert forall|j: int| 0 <= j < i + 16 implies data@[j] == spec_buffer_xform(
                    ks,
                    orig,
                    decrypting,
                )[j] by {
                    if i <= j < i + 8 {
                        assert(data@[j] == out@[j - i]);
                        assert(out@[j - i] == spec_block_xform(
                            ks,
                            orig.subrange(8 * b, 8 * b + 8),
                            decrypting,
                        )[j - 8 * b]);
                    } else if i + 8 <= j < i + 16 {
                        assert(data@[j] == out@[j - i]);
                        assert(out@[j - i] == spec_block_xform(
                            ks,
                            orig.subrange(8 * (b + 1), 8 * (b + 1) + 8),
                            decrypting,
                        )[j - 8 * (b + 1)]);
                    }
                }
                assert((i + 16) % 8 == 0) by (nonlinear_arith)
                    requires
                        i % 8 == 0,
                ;
            }
            i = i + 16;
        }

        if len - i >= 8 {
            let block = slice_subrange(data.as_slice(), i, i + 8);
            proof {
                assert(block@ =~= orig.subrange(i as int, i as int + 8));
            }
            let out = if decrypting {
                self.decrypt_block8(block)
            } else {
                self.encrypt_block8(block)
            };
            proof {
                let b = i as int / 8;
                lemma_mul_div8(i as int);
                lemma_buffer_xform_block(ks, orig, b, decrypting);
            }
            write_back(data, i, &out);
            proof {
                let b = i as int / 8;
                assert forall|j: int| 0 <= j < i + 8 implies data@[j] == spec_buffer_xform(
                    ks,
                    orig,
                    decrypting,
                )[j] by {
                    if i <= j < i + 8 {
                        assert(data@[j] == out@[j - i]);
                        assert(out@[j - i] == spec_block_xform(
                            ks,
                            orig.subrange(8 * b, 8 * b + 8),
                            decrypting,
                        )[j - 8 * b]);
                    }
                }
                assert((i + 8) % 8 == 0) by (nonlinear_arith)
                    requires
                        i % 8 == 0,
                ;
            }
            i = i + 8;
        }

        proof {
            assert((len - i) % 8 == 0) by (nonlinear_arith)
                requires
                    len % 8 == 0,
                    i % 8 == 0,
                    i <= len,
            ;
            assert(i == len);
            assert(data@ =~= spec_buffer_xform(ks, orig, decrypting));
        }
    }

    /// Fan the 16-byte super-block encryption pass out across rayon's
    /// worker pool. Every aligned 8-byte block inside the leading
    /// 16-aligned area comes back encrypted; the remainder bytes stay.
    ///
    /// Relies on rayon's `par_chunks_exact_mut(16)` with `for_each`: the
    /// closure runs on every disjoint, non-overlapping 16-byte chunk of the
    /// buffer exactly once, in place, and elements past the last full chunk
    /// are omitted. The closure only calls the verified `encrypt_block16`
    /// and copies its result over the chunk.
    #[verifier::external_body]
    fn par_encrypt_super_blocks(&self, data: &mut Vec<u8>)
        requires
            self.wf(),
        ensures
            final(data)@.len() == old(data)@.len(),
            forall|b: int|
                0 <= b && 8 * b + 8 <= 16 * (old(data)@.len() as int / 16)
                    ==> #[trigger] final(data)@.subrange(8 * b, 8 * b + 8) == spec_block_enc(
                    self.key.keysched@,
                    old(data)@.subrange(8 * b, 8 * b + 8),
                ),
            forall|j: int|
                16 * (old(data)@.len() as int / 16) <= j < old(data)@.len()
                    ==> #[trigger] final(data)@[j] == old(data)@[j],
    {
        data.as_mut_slice().par_chunks_exact_mut(16).for_each(|chunk| {
            let out = self.encrypt_block16(chunk);
            chunk.copy_from_slice(&out);
        });
    }

    /// The decryption counterpart of `par_encrypt_super_blocks`.
    ///
    /// Relies on rayon's `par_chunks_exact_mut(16)` with `for_each`, as
    /// above; the closure only calls the verified `decrypt_block16` and
    /// copies its result over the chunk.
    #[verifier::external_body]
    fn par_decrypt_super_blocks(&self, data: &mut Vec<u8>)
        requires
            self.wf(),
        ensures
            final(data)@.len() == old(data)@.len(),
            forall|b: int|
                0 <= b && 8 * b + 8 <= 16 * (old(data)@.len() as int / 16)
                    ==> #[trigger] final(data)@.subrange(8 * b, 8 * b + 8) == spec_block_dec(
                    self.key.keysched@,
                    old(data)@.subrange(8 * b, 8 * b + 8),
                ),
            forall|j: int|
                16 * (old(data)@.len() as int / 16) <= j < old(data)@.len()
                    ==> #[trigger] final(data)@[j] == old(data)@[j],
    {
        data.as_mut_slice().par_chunks_exact_mut(16).for_each(|chunk| {
            let out = self.decrypt_block16(chunk);
            chunk.copy_from_slice(&out);
        });
    }

    /// The tail of the parallel drivers: after the super-block pass, carry
    /// the one trailing 8-byte block over the single-block transform, and
    /// tie the whole buffer to its transform.
    fn par_finish(&self, data: &mut Vec<u8>, Ghost(orig): Ghost<Seq<u8>>, decrypting: bool)
        requires
            self.wf(),
            orig.len() % 8 == 0,
            old(data)@.len() == orig.len(),
            forall|b: int|
                0 <= b && 8 * b + 8 <= 16 * (orig.len() as int / 16) ==> #[trigger] old(
                    data,
                )@.subrange(8 * b, 8 * b + 8) == spec_block_xform(
                    self.key.keysched@,
                    orig.subrange(8 * b, 8 * b + 8),
                    decrypting,
                ),
            forall|j: int|
                16 * (orig.len() as int / 16) <= j < orig.len() ==> #[trigger] old(data)@[j]
                    == orig[j],
        ensures
            final(data)@ == spec_buffer_xform(self.key.keysched@, orig, decrypting),
    {
        let ghost ks = self.key.keysched@;
        let ghost mid = data@;
        let len = data.len();
        if len % 16 != 0 {
            proof {
                assert(len % 16 == 8 && len >= 8) by (nonlinear_arith)
                    requires
                        len % 8 == 0,
                        len % 16 != 0,
                        len >= 0,
                ;
            }
            let i = len - 8;
            let block = slice_subrange(data.as_slice(), i, len);
            let out = if decrypting {
                self.decrypt_block8(block)
            } else {
                self.encrypt_block8(block)
            };
            write_back(data, i, &out);
            proof {
                assert(data@.subrange(len - 8, len as int) =~= out@);
                assert(block@ =~= mid.subrange(len - 8, len as int));
            }
        }
        proof {
            lemma_par_glue(ks, orig, mid, data@, decrypting);
        }
    }

    /// Encrypt the buffer in place like `encrypt`, but with the
    /// super-block pass spread across rayon workers. Each worker owns a
    /// disjoint slice and the context is read-only, so the result is the
    /// same as the serial path's, byte for byte.
    pub fn encrypt_par(&self, data: &mut Vec<u8>) -> (res: Result<(), IceError>)
        requires
            self.wf(),
        ensures
            match res {
                Ok(_) => {
                    &&& old(data)@.len() % 8 == 0
                    &&& final(data)@ == spec_buffer_enc(self.key.keysched@, old(data)@)
                },
                Err(e) => {
                    &&& e == IceError::AlignmentError
                    &&& old(data)@.len() % 8 != 0
                    &&& final(data)@ == old(data)@
                },
            },
    {
        if data.len() % 8 != 0 {
            return Err(IceError::AlignmentError);
        }
        let ghost orig = data@;
        self.par_encrypt_super_blocks(data);
        self.par_finish(data, Ghost(orig), false);
        Ok(())
    }

    /// Decrypt the buffer in place like `decrypt`, but with the
    /// super-block pass spread across rayon workers.
    pub fn decrypt_par(&self, data: &mut Vec<u8>) -> (res: Result<(), IceError>)
        requires
            self.wf(),
        ensures
            match res {
                Ok(_) => {
                    &&& old(data)@.len() % 8 == 0
                    &&& final(data)@ == spec_buffer_dec(self.key.keysched@, old(data)@)
                },
                Err(e) => {
                    &&& e == IceError::AlignmentError
                    &&& old(data)@.len() % 8 != 0
                    &&& final(data)@ == old(data)@
                },
            },
    {
        if data.len() % 8 != 0 {
            return Err(IceError::AlignmentError);
        }
        let ghost orig = data@;
        self.par_decrypt_super_blocks(data);
        self.par_finish(data, Ghost(orig), true);
        Ok(())
    }

    /// Encrypt the buffer in place, block by block. An empty buffer is a
    /// valid no-op; a length that is not a multiple of 8 is refused with an
    /// alignment error and the buffer is left untouched.
    pub fn encrypt(&self, data: &mut Vec<u8>) -> (res: Result<(), IceError>)
        requires
            self.wf(),
        ensures
            match res {
                Ok(_) => {
                    &&& old(data)@.len() % 8 == 0
                    &&& final(data)@ == spec_buffer_enc(self.key.keysched@, old(data)@)
                },
                Err(e) => {
                    &&& e == IceError::AlignmentError
                    &&& old(data)@.len() % 8 != 0
                    &&& final(data)@ == old(data)@
                },
            },
    {
        if data.len() % 8 != 0 {
            return Err(IceError::AlignmentError);
        }
        self.transform_serial(data, false);
        Ok(())
    }

    /// Decrypt the buffer in place, block by block, under the same
    /// alignment policy as `encrypt`.
    pub fn decrypt(&self, data: &mut Vec<u8>) -> (res: Result<(), IceError>)
        requires
            self.wf(),
        ensures
            match res {
                Ok(_) => {
                    &&& old(data)@.len() % 8 == 0
                    &&& final(data)@ == spec_buffer_dec(self.key.keysched@, old(data)@)
                },
                Err(e) => {
                    &&& e == IceError::AlignmentError
                    &&& old(data)@.len() % 8 != 0
                    &&& final(data)@ == old(data)@
                },
            },
    {
        if data.len() % 8 != 0 {
            return Err(IceError::AlignmentError);
        }
        self.transform_serial(data, true);
        Ok(())
    }
}

/// Determinism: two contexts of the same shape whose schedules were both
/// derived from the same key bytes — as `Ice::new` guarantees of every
/// context it builds — encrypt and decrypt every buffer identically.
pub proof fn lemma_context_deterministic(c1: &Ice, c2: &Ice, key: Seq<u8>, s: Seq<u8>)
    requires
        c1.key.size == c2.key.size,
        c1.key.rounds == c2.key.rounds,
        c1.key.keysched@ == spec_key_schedule(key, c1.key.size as int, c1.key.rounds as int),
        c2.key.keysched@ == spec_key_schedule(key, c2.key.size as int, c2.key.rounds as int),
    ensures
        spec_buffer_enc(c1.key.keysched@, s) == spec_buffer_enc(c2.key.keysched@, s),
        spec_buffer_dec(c1.key.keysched@, s) == spec_buffer_dec(c2.key.keysched@, s),
{
}

/// Parallel/serial equivalence: the serial drivers pin the buffer they
/// leave behind to `spec_buffer_xform` of what they found, and the
/// parallel drivers pin theirs to the very same value, so the two paths
/// agree on every valid-length input.
pub proof fn lemma_parallel_serial_agree(
    ks: Seq<IceSubkey>,
    s: Seq<u8>,
    serial_out: Seq<u8>,
    parallel_out: Seq<u8>,
    decrypting: bool,
)
    requires
        serial_out == spec_buffer_xform(ks, s, decrypting),
        parallel_out == spec_buffer_xform(ks, s, decrypting),
    ensures
        serial_out == parallel_out,
{
}

/// Replace the bytes at `off .. off + out.len()` with `out`, leaving the
/// rest of the buffer alone.
fn write_back(data: &mut Vec<u8>, off: usize, out: &Vec<u8>)
    requires
        off + out@.len() <= old(data)@.len(),
    ensures
        final(data)@.len() == old(data)@.len(),
        forall|j: int|
            0 <= j < old(data)@.len() ==> final(data)@[j] == (if off <= j < off + out@.len() {
                out@[j - off]
            } else {
                old(data)@[j]
            }),
{
    let count = out.len();
    let dlen = data.len();
    let mut k: usize = 0;
    while k < count
        invariant
            count == out@.len(),
            dlen == old(data)@.len(),
            off + count <= dlen,
            data@.len() == old(data)@.len(),
            k <= count,
            forall|j: int| off <= j < off + k ==> data@[j] == out@[j - off],
            forall|j: int|
                0 <= j < old(data)@.len() && !(off <= j < off + k) ==> data@[j] == old(data)@[j],
        decreases count - k,
    {
        data[off + k] = out[k];
        k = k + 1;
    }
}

} // verus!
