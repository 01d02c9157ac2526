//! Flow parameters and the outcomes that are not a success.

use vstd::prelude::*;

verus! {

/// The first stage accepts values strictly above this bound.
pub const F1_THRESHOLD: u32 = 100;

/// The second stage accepts values strictly below this bound.
pub const F2_THRESHOLD: u32 = 200;

/// Width of a digest in bytes.
pub const DIGEST_LEN: usize = 32;

/// Length in bytes of the message that is hashed, and that the hash program
/// takes from the stack: the input and the two halves of the nonce.
pub const HASH_MESSAGE_LEN: usize = 12;

/// Width in bytes of a limb of that message.
pub const HASH_LIMB_LEN: u8 = 4;

/// Number of nibbles that the hash program leaves on the stack.
pub const HASH_NIBBLES: usize = 64;

/// How many times the expected number of attempts a search may take.
pub const SEARCH_SAFETY_FACTOR: u64 = 100;

/// Whether a prefix width `b_bits` and a set size exponent `l_bits` go together:
/// the width is a whole number of bytes, at most 32 bits, and the accepted set
/// is no larger than the prefix space.
pub open spec fn valid_widths(b_bits: nat, l_bits: nat) -> bool {
    &&& b_bits <= 32
    &&& b_bits % 8 == 0
    &&& l_bits <= b_bits
}

/// Decides [`valid_widths`].
pub fn check_widths(b_bits: usize, l_bits: usize) -> (ok: bool)
    ensures
        ok == valid_widths(b_bits as nat, l_bits as nat),
{
    b_bits <= 32 && b_bits % 8 == 0 && l_bits <= b_bits
}

/// Parameters of a ColliderVM instance.
#[derive(Debug, Clone, Copy)]
pub struct ColliderVmConfig {
    /// Number of signers.
    pub n: usize,
    /// Number of operators.
    pub m: usize,
    /// Exponent of the accepted set size: `2^l` flows.
    pub l: usize,
    /// Width of the hash prefix in bits.
    pub b: usize,
    /// Number of sub-functions of a flow.
    pub k: usize,
}

impl ColliderVmConfig {
    /// The widths of this configuration go together.
    pub open spec fn well_formed(&self) -> bool {
        valid_widths(self.b as nat, self.l as nat)
    }

    /// Decides [`Self::well_formed`].
    pub fn is_well_formed(&self) -> (ok: bool)
        ensures
            ok == self.well_formed(),
    {
        check_widths(self.b, self.l)
    }
}

/// Why a derivation or a search gave no flow.
#[derive(Debug, Clone, Copy, PartialEq, Eq, Structural)]
pub enum FlowError {
    /// The nonce leads to `index`, which is not below `limit`, the size of the
    /// accepted set.
    OutOfRange { index: u32, limit: u64 },
    /// No nonce was accepted among the `attempts` that were tried, where
    /// `expected` would have been the expected number.
    SearchExhausted { attempts: u64, expected: u64 },
    /// The widths do not go together.
    InvalidParameters,
}

} // verus!
