//! The ICE block cipher: a 64-bit-block Feistel network with a bit-level key
//! schedule, Galois-field S-boxes, and a buffer driver that interleaves two
//! blocks per pass and can fan the work out across rayon workers.
use vstd::prelude::*;

pub mod bitops;
pub mod block;
pub mod cipher;
pub mod gf;
pub mod keysched;
pub mod pbox;
pub mod sbox;

verus! {

/// The ways a caller can misuse the cipher: a key whose length does not match
/// the requested level, or a buffer whose length is not a multiple of the
/// 8-byte block size.
#[derive(Clone, Copy, Debug, PartialEq, Eq, Structural)]
pub enum IceError {
    ConfigurationError,
    AlignmentError,
}

} // verus!
