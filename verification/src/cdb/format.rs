//! The layout of a database: a primary table of 256 entries, then the
//! records, then one secondary table for each primary entry in use.

use crate::cdb::codec::u32_at;
use crate::cdb::hash::CDBHash;
use vstd::prelude::*;

verus! {

/// Bytes taken by the primary table at the start of the file.
pub const MAIN_TABLE_SIZE_BYTES: usize = 2048;

/// Bytes taken by one slot of a secondary table.
pub const END_TABLE_ENTRY_SIZE: usize = 8;

/// Bytes taken by the two length fields in front of a record.
pub const INDEX_ENTRY_SIZE: usize = 8;

/// One entry of the primary table: where a secondary table starts and how
/// many slots it has.
#[derive(Copy, Clone, Debug)]
pub struct Bucket {
    pub ptr: u32,
    pub num_ents: u32,
}

/// One slot of a secondary table: the hash of a key and the offset of its
/// record. A slot whose `ptr` is zero is empty.
#[derive(Copy, Clone, Debug)]
pub struct IndexEntry {
    pub hash: CDBHash,
    pub ptr: u32,
}

/// The offset of a slot in the file.
#[derive(Copy, Clone, Debug)]
pub struct IndexEntryPos(pub u64);

impl Default for IndexEntry {
    fn default() -> (e: IndexEntry)
        ensures
            e == empty_slot(),
    {
        IndexEntry { hash: CDBHash(0), ptr: 0 }
    }
}

/// The slot that holds nothing.
pub open spec fn empty_slot() -> IndexEntry {
    IndexEntry { hash: CDBHash(0), ptr: 0 }
}

/// Entry `idx` of the primary table of `data`, unless it runs past the end.
pub open spec fn bucket_at(data: Seq<u8>, idx: int) -> Option<Bucket> {
    if idx < 0 || 8 * idx + 8 > data.len() {
        None
    } else {
        Some(Bucket { ptr: u32_at(data, 8 * idx), num_ents: u32_at(data, 8 * idx + 4) })
    }
}

/// The slot at offset `pos` of `data`, unless it lies in the primary table
/// or runs past the end.
pub open spec fn entry_at(data: Seq<u8>, pos: int) -> Option<IndexEntry> {
    if pos < 2048 || pos + 8 > data.len() {
        None
    } else {
        Some(IndexEntry { hash: CDBHash(u32_at(data, pos)), ptr: u32_at(data, pos + 4) })
    }
}

/// The key and value of the record at offset `ptr` of `data`, unless its
/// header or its body runs past the end.
pub open spec fn record_at(data: Seq<u8>, ptr: int) -> Option<(Seq<u8>, Seq<u8>)> {
    if ptr < 0 || ptr + 8 > data.len() {
        None
    } else {
        let kstart = ptr + 8;
        let vstart = kstart + u32_at(data, ptr);
        let vend = vstart + u32_at(data, ptr + 4);
        if vend > data.len() {
            None
        } else {
            Some((data.subrange(kstart, vstart), data.subrange(vstart, vend)))
        }
    }
}

/// The offset of slot `n` of a secondary table.
pub open spec fn slot_pos(bucket: Bucket, n: int) -> int {
    bucket.ptr + 8 * n
}

impl Bucket {
    /// The offset in the file of slot `n` of this bucket's table.
    pub fn entry_n_pos(&self, n: usize) -> (pos: IndexEntryPos)
        requires
            n < self.num_ents,
        ensures
            pos.0 == slot_pos(*self, n as int),
    {
        let size: u64 = END_TABLE_ENTRY_SIZE as u64;
        assert(n * size == 8 * n) by (nonlinear_arith)
            requires
                size == 8,
        ;
        IndexEntryPos(self.ptr as u64 + (n as u64 * size))
    }
}

} // verus!
