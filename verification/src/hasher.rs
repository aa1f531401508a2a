//! A deliberately degenerate hash function.
//!
//! The differential runs configure the container under test with a seeded,
//! high-collision hasher so that collision resolution and resizing are
//! exercised under adversarial but fully deterministic conditions.  The
//! reference model never consults this hasher.

use vstd::prelude::*;

verus! {

/// The modulus that keeps every digest in a tiny range, all but guaranteeing
/// collisions for any realistic number of keys.
pub const HASH_VALUE_MODULUS: u8 = 8;

/// The accumulator update applied for one `write` call: the first byte of the
/// written slice is folded into the running value by wrap-around addition,
/// reduced into `0 .. HASH_VALUE_MODULUS`; later bytes of the slice are
/// deliberately ignored.
pub open spec fn spec_fold_byte(acc: u8, byte: u8) -> u8 {
    (((acc + byte) % 256) % (HASH_VALUE_MODULUS as int)) as u8
}

/// A hasher that is very bad at its job, on purpose.
///
/// The state is a single byte, seeded at construction.  Every `write` folds
/// in exactly one byte of its input via [`spec_fold_byte`], so the digest
/// always lies in `0 .. HASH_VALUE_MODULUS` and collisions are near-certain.
pub struct TrulyAwfulHasher {
    hash_value: u8,
}

impl TrulyAwfulHasher {
    /// The current accumulator value.
    pub closed spec fn spec_value(self) -> u8 {
        self.hash_value
    }

    /// Construct a hasher whose accumulator starts at `seed`.
    pub fn new(seed: u8) -> (r: Self)
        ensures
            r.spec_value() == seed,
    {
        Self { hash_value: seed }
    }
}

impl core::hash::Hasher for TrulyAwfulHasher {
    /// Fold the first byte of `bytes` into the accumulator; an empty write
    /// leaves the state unchanged.
    fn write(&mut self, bytes: &[u8])
        ensures
            final(self).spec_value() == if bytes@.len() > 0 {
                spec_fold_byte(old(self).spec_value(), bytes@[0])
            } else {
                old(self).spec_value()
            },
    {
        if bytes.len() > 0 {
            let byte = bytes[0];
            self.hash_value = self.hash_value.wrapping_add(byte) % HASH_VALUE_MODULUS;
        }
    }

    /// The digest is the accumulator widened to `u64`.
    fn finish(&self) -> (r: u64)
        ensures
            r == self.spec_value() as u64,
    {
        self.hash_value as u64
    }
}

/// Builds a [`TrulyAwfulHasher`] from a one-byte seed.
///
/// This type exists only to anchor the hashing configuration of a container
/// under test; it has no mechanism of its own.
pub struct BuildTrulyAwfulHasher {
    seed: u8,
}

impl BuildTrulyAwfulHasher {
    /// The seed every built hasher starts from.
    pub closed spec fn spec_seed(self) -> u8 {
        self.seed
    }

    /// Construct a builder that seeds every hasher with `seed`.
    pub fn new(seed: u8) -> (r: Self)
        ensures
            r.spec_seed() == seed,
    {
        Self { seed }
    }
}

impl core::hash::BuildHasher for BuildTrulyAwfulHasher {
    type Hasher = TrulyAwfulHasher;

    /// Every built hasher starts at the configured seed, so hashing is a pure
    /// function of the seed and the write sequence.
    fn build_hasher(&self) -> (r: TrulyAwfulHasher)
        ensures
            r.spec_value() == self.spec_seed(),
    {
        TrulyAwfulHasher::new(self.seed)
    }
}

} // verus!
