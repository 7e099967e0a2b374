//! Point lookups over the bytes of a database.

use crate::cdb::codec::get_u32_le;
use crate::cdb::errors::CDBError;
use crate::cdb::format::{
    bucket_at, entry_at, record_at, slot_pos, Bucket, IndexEntry, IndexEntryPos,
    INDEX_ENTRY_SIZE, MAIN_TABLE_SIZE_BYTES,
};
use crate::cdb::hash::{hash_of, probe_slot, slot_of, table_of, CDBHash};
use vstd::prelude::*;

verus! {

/// A key and its value, borrowed from the bytes of a database.
#[derive(Clone, Debug)]
pub struct KVRef<'a> {
    pub k: &'a [u8],
    pub v: &'a [u8],
}

/// What probing a secondary table yields from probe number `i` on: the value
/// of the first record reached whose key is `key`, nothing if an empty slot
/// or the end of the table comes first, `Corrupt` if a slot or a record that
/// has to be read is not inside `data`.
pub open spec fn probe(data: Seq<u8>, key: Seq<u8>, bucket: Bucket, i: int) -> Result<
    Option<Seq<u8>>,
    CDBError,
>
    decreases bucket.num_ents - i,
{
    let n = bucket.num_ents as int;
    let h = hash_of(key);
    if i < 0 || i >= n {
        Ok(None)
    } else {
        match entry_at(data, slot_pos(bucket, probe_slot(h, i, n))) {
            None => Err(CDBError::Corrupt),
            Some(e) => if e.ptr == 0 {
                Ok(None)
            } else if e.hash.0 != h {
                probe(data, key, bucket, i + 1)
            } else {
                match record_at(data, e.ptr as int) {
                    None => Err(CDBError::Corrupt),
                    Some(kv) => if kv.0 == key {
                        Ok(Some(kv.1))
                    } else {
                        probe(data, key, bucket, i + 1)
                    },
                }
            },
        }
    }
}

/// What looking `key` up in `data` yields: its value, nothing, or `Corrupt`.
pub open spec fn lookup(data: Seq<u8>, key: Seq<u8>) -> Result<Option<Seq<u8>>, CDBError> {
    match bucket_at(data, table_of(hash_of(key))) {
        None => Err(CDBError::Corrupt),
        Some(bucket) => if bucket.num_ents == 0 {
            Ok(None)
        } else {
            probe(data, key, bucket, 0)
        },
    }
}

/// The number of bytes copied from a source of `src` bytes into a
/// destination of `dst` bytes.
pub open spec fn copy_len(dst: int, src: int) -> int {
    if dst <= src {
        dst
    } else {
        src
    }
}

/// The destination after as much of `src` as fits was copied to its front.
pub open spec fn copied(dst: Seq<u8>, src: Seq<u8>) -> Seq<u8> {
    let n = copy_len(dst.len() as int, src.len() as int);
    src.take(n) + dst.skip(n)
}

/// Copies as much of `src` as fits to the front of `dst`. Returns the number of
/// bytes copied.
pub fn copy_slice(dst: &mut [u8], src: &[u8]) -> (n: usize)
    ensures
        n == copy_len(old(dst)@.len() as int, src@.len() as int),
        final(dst)@ == copied(old(dst)@, src@),
{
    let n: usize = if dst.len() <= src.len() {
        dst.len()
    } else {
        src.len()
    };
    let mut i: usize = 0;
    while i < n
        invariant
            i <= n,
            n <= src@.len(),
            n <= dst@.len(),
            dst@.len() == old(dst)@.len(),
            dst@ == src@.take(i as int) + old(dst)@.skip(i as int),
        decreases n - i,
    {
        dst[i] = src[i];
        i += 1;
        assert(dst@ =~= src@.take(i as int) + old(dst)@.skip(i as int));
    }
    n
}

/// A reader over the bytes of a database.
#[derive(Debug)]
pub struct Reader<'a> {
    data: &'a [u8],
}

impl<'a> Reader<'a> {
    /// The bytes this reader looks keys up in.
    pub closed spec fn view(&self) -> Seq<u8> {
        self.data@
    }

    /// A reader over `data`. Nothing is checked here: malformed bytes show
    /// when a lookup runs into them.
    pub fn new(data: &'a [u8]) -> (r: Reader<'a>)
        ensures
            r@ == data@,
    {
        Reader { data }
    }

    /// Entry `idx` of the primary table.
    pub fn bucket_at(&self, idx: usize) -> (r: Result<Bucket, CDBError>)
        requires
            idx < 256,
        ensures
            match bucket_at(self@, idx as int) {
                Some(b) => r == Ok::<Bucket, CDBError>(b),
                None => r == Err::<Bucket, CDBError>(CDBError::Corrupt),
            },
    {
        let off: usize = 8 * idx;
        if off + 8 > self.data.len() {
            return Err(CDBError::Corrupt);
        }
        let ptr = get_u32_le(&self.data[off..off + 4]);
        let num_ents = get_u32_le(&self.data[off + 4..off + 8]);
        Ok(Bucket { ptr, num_ents })
    }

    /// The slot at offset `pos` of the file.
    pub fn index_entry_at(&self, pos: IndexEntryPos) -> (r: Result<IndexEntry, CDBError>)
        ensures
            match entry_at(self@, pos.0 as int) {
                Some(e) => r == Ok::<IndexEntry, CDBError>(e),
                None => r == Err::<IndexEntry, CDBError>(CDBError::Corrupt),
            },
    {
        let len: u64 = self.data.len() as u64;
        if pos.0 < MAIN_TABLE_SIZE_BYTES as u64 || len < 8 || pos.0 > len - 8 {
            return Err(CDBError::Corrupt);
        }
        let pos: usize = pos.0 as usize;
        let hash = CDBHash(get_u32_le(&self.data[pos..pos + 4]));
        let ptr = get_u32_le(&self.data[pos + 4..pos + 8]);
        Ok(IndexEntry { hash, ptr })
    }

    /// The key and value of the record a slot points to.
    pub fn get_kv_ref(&self, ie: IndexEntry) -> (r: Result<KVRef<'a>, CDBError>)
        ensures
            match record_at(self@, ie.ptr as int) {
                Some(kv) => r is Ok && r->Ok_0.k@ == kv.0 && r->Ok_0.v@ == kv.1,
                None => r == Err::<KVRef<'a>, CDBError>(CDBError::Corrupt),
            },
    {
        let len: u64 = self.data.len() as u64;
        if ie.ptr as u64 + INDEX_ENTRY_SIZE as u64 > len {
            return Err(CDBError::Corrupt);
        }
        let ptr: usize = ie.ptr as usize;
        let ksize: u64 = get_u32_le(&self.data[ptr..ptr + 4]) as u64;
        let vsize: u64 = get_u32_le(&self.data[ptr + 4..ptr + 8]) as u64;

        let kstart: u64 = ie.ptr as u64 + INDEX_ENTRY_SIZE as u64;
        let vstart: u64 = kstart + ksize;
        if vstart + vsize > len {
            return Err(CDBError::Corrupt);
        }
        let k = &self.data[kstart as usize..vstart as usize];
        let v = &self.data[vstart as usize..(vstart + vsize) as usize];
        Ok(KVRef { k, v })
    }

    /// Looks `key` up. When a record with this key is reached, as much of its
    /// value as fits is copied to the front of `buf` and the number of bytes
    /// copied is returned; otherwise `buf` is left as it was.
    pub fn get(&self, key: &[u8], buf: &mut [u8]) -> (r: Result<Option<usize>, CDBError>)
        ensures
            match lookup(self@, key@) {
                Ok(Some(value)) => {
                    &&& r == Ok::<Option<usize>, CDBError>(
                        Some(copy_len(old(buf)@.len() as int, value.len() as int) as usize),
                    )
                    &&& final(buf)@ == copied(old(buf)@, value)
                },
                Ok(None) => r == Ok::<Option<usize>, CDBError>(None) && final(buf)@ == old(buf)@,
                Err(e) => r == Err::<Option<usize>, CDBError>(e) && final(buf)@ == old(buf)@,
            },
    {
        let hash = CDBHash::new(key);
        let bucket = match self.bucket_at(hash.table()) {
            Ok(b) => b,
            Err(e) => {
                return Err(e);
            },
        };

        if bucket.num_ents == 0 {
            return Ok(None);
        }
        let slot: usize = hash.slot(bucket.num_ents as usize);

        let mut x: u32 = 0;
        while x < bucket.num_ents
            invariant
                x <= bucket.num_ents,
                bucket.num_ents > 0,
                hash.0 == hash_of(key@),
                slot == slot_of(hash.0, bucket.num_ents as int),
                buf@ == old(buf)@,
                lookup(self@, key@) == probe(self@, key@, bucket, x as int),
            decreases bucket.num_ents - x,
        {
            let n: usize = ((x as u64 + slot as u64) % (bucket.num_ents as u64)) as usize;
            let idx_ent = match self.index_entry_at(bucket.entry_n_pos(n)) {
                Ok(e) => e,
                Err(e) => {
                    return Err(e);
                },
            };

            if idx_ent.ptr == 0 {
                return Ok(None);
            } else if idx_ent.hash == hash {
                let kv = match self.get_kv_ref(idx_ent) {
                    Ok(kv) => kv,
                    Err(e) => {
                        return Err(e);
                    },
                };
                if same_bytes(kv.k, key) {
                    return Ok(Some(copy_slice(buf, kv.v)));
                }
            }
            x += 1;
        }

        Ok(None)
    }
}

/// Whether two byte strings are equal.
pub fn same_bytes(a: &[u8], b: &[u8]) -> (r: bool)
    ensures
        r == (a@ == b@),
{
    if a.len() != b.len() {
        return false;
    }
    let mut i: usize = 0;
    while i < a.len()
        invariant
            i <= a@.len(),
            a@.len() == b@.len(),
            a@.take(i as int) == b@.take(i as int),
        decreases a@.len() - i,
    {
        if a[i] != b[i] {
            return false;
        }
        i += 1;
        assert(a@.take(i as int) =~= a@.take(i - 1).push(a@[i - 1]));
        assert(b@.take(i as int) =~= b@.take(i - 1).push(b@[i - 1]));
    }
    assert(a@.take(i as int) =~= a@);
    assert(b@.take(i as int) =~= b@);
    true
}

} // verus!
