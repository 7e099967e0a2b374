//! The key hash and its two projections.

use vstd::prelude::*;

verus! {

/// The value the hash starts from, before any key byte is mixed in.
pub const STARTING_HASH: u32 = 5381;

/// Number of entries in the primary table.
pub const MAIN_TABLE_SIZE: usize = 256;

/// One round of the hash: `((h << 5) + h) xor b`, with 32-bit wrap-around.
pub open spec fn hash_step(h: u32, b: u8) -> u32 {
    (((h as int * 33) % 0x1_0000_0000) as u32) ^ (b as u32)
}

/// The hash of a key: `hash_step` folded over its bytes from left to right,
/// starting at `STARTING_HASH`.
pub open spec fn hash_of(key: Seq<u8>) -> u32
    decreases key.len(),
{
    if key.len() == 0 {
        STARTING_HASH
    } else {
        hash_step(hash_of(key.drop_last()), key.last())
    }
}

/// The primary-table entry a hash selects.
pub open spec fn table_of(h: u32) -> int {
    h as int % 256
}

/// The slot at which probing for a hash starts in a table of `num_ents` slots.
pub open spec fn slot_of(h: u32, num_ents: int) -> int
    recommends
        num_ents > 0,
{
    (h as int / 256) % num_ents
}

/// The slot visited by probe number `i` for a hash in a table of `num_ents`
/// slots: probing starts at the slot the hash prefers and goes on slot by
/// slot, from the last slot back to the first.
pub open spec fn probe_slot(h: u32, i: int, num_ents: int) -> int
    recommends
        num_ents > 0,
        i >= 0,
{
    (slot_of(h, num_ents) + i) % num_ents
}

/// The 32-bit fingerprint of a key.
#[derive(Copy, Clone, Debug, PartialEq, Eq, Structural)]
pub struct CDBHash(pub u32);

/// Shifting left by five and adding, each with wrap-around, multiplies by 33
/// modulo 2^32.
proof fn lemma_step(h: u32)
    ensures
        vstd::wrapping::u32_specs::wrapping_add(
            vstd::wrapping::u32_specs::wrapping_shl(h, 5),
            h,
        ) == ((h as int * 33) % 0x1_0000_0000) as u32,
{
    assert((h << 5u32) as u64 == ((h as u64) * 32) % 0x1_0000_0000) by (bit_vector);
}

impl CDBHash {
    /// Hashes a key.
    pub fn new(bytes: &[u8]) -> (r: CDBHash)
        ensures
            r.0 == hash_of(bytes@),
    {
        let mut h: u32 = STARTING_HASH;
        let mut i: usize = 0;
        while i < bytes.len()
            invariant
                i <= bytes@.len(),
                h == hash_of(bytes@.take(i as int)),
            decreases bytes@.len() - i,
        {
            proof {
                assert(bytes@.take(i + 1).drop_last() =~= bytes@.take(i as int));
                lemma_step(h);
            }
            h = h.wrapping_shl(5).wrapping_add(h) ^ (bytes[i] as u32);
            i += 1;
        }
        proof {
            assert(bytes@.take(i as int) =~= bytes@);
        }
        CDBHash(h)
    }

    /// The primary-table entry this hash selects.
    pub fn table(&self) -> (r: usize)
        ensures
            r == table_of(self.0),
    {
        self.0 as usize % MAIN_TABLE_SIZE
    }

    /// The slot at which probing starts in a table of `num_ents` slots.
    pub fn slot(&self, num_ents: usize) -> (r: usize)
        requires
            num_ents > 0,
        ensures
            r == slot_of(self.0, num_ents as int),
    {
        let h: u32 = self.0;
        let q: u32 = h >> 8;
        assert(q == h / 256) by (bit_vector)
            requires
                q == h >> 8u32,
        ;
        q as usize % num_ents
    }

    /// The fingerprint as a plain integer.
    pub fn inner(&self) -> (r: u32)
        ensures
            r == self.0,
    {
        self.0
    }
}

} // verus!
