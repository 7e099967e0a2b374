//! Building a database: records are appended one by one, and at the end the
//! secondary tables and the primary table are laid out.

use crate::cdb::codec::{into_vec, put_u32_le, ready_buf, room, u32_le, written};
use crate::cdb::format::{empty_slot, Bucket, IndexEntry, MAIN_TABLE_SIZE_BYTES};
use crate::cdb::hash::{hash_of, probe_slot, slot_of, table_of, CDBHash, MAIN_TABLE_SIZE};
use vstd::prelude::*;

verus! {

/// The low 32 bits of a length or an offset: what a 32-bit field of the file
/// holds of it.
pub open spec fn low32(n: nat) -> u32 {
    (n % 0x1_0000_0000) as u32
}

/// A record: the two lengths, then the key, then the value.
pub open spec fn record_bytes(key: Seq<u8>, value: Seq<u8>) -> Seq<u8> {
    u32_le(low32(key.len())) + u32_le(low32(value.len())) + key + value
}

/// The records of `entries`, one after the other in the order given.
pub open spec fn records_bytes(entries: Seq<(Seq<u8>, Seq<u8>)>) -> Seq<u8>
    decreases entries.len(),
{
    if entries.len() == 0 {
        Seq::empty()
    } else {
        records_bytes(entries.drop_last()) + record_bytes(entries.last().0, entries.last().1)
    }
}

/// The offset in the file at which record number `i` of `entries` starts.
pub open spec fn record_offset(entries: Seq<(Seq<u8>, Seq<u8>)>, i: int) -> nat {
    2048 + records_bytes(entries.take(i)).len()
}

/// The slots owed to primary entry `b`: one for each record whose key hashes
/// there, in the order of the records.
pub open spec fn bucket_list(entries: Seq<(Seq<u8>, Seq<u8>)>, b: int) -> Seq<IndexEntry>
    decreases entries.len(),
{
    if entries.len() == 0 {
        Seq::empty()
    } else {
        let before = entries.drop_last();
        let h = hash_of(entries.last().0);
        if table_of(h) == b {
            bucket_list(before, b).push(
                IndexEntry { hash: CDBHash(h), ptr: low32(2048 + records_bytes(before).len()) },
            )
        } else {
            bucket_list(before, b)
        }
    }
}

/// The first empty slot of `table` met when probing for hash `h`, counting
/// from probe number `i`.
pub open spec fn free_slot(table: Seq<IndexEntry>, h: u32, i: int) -> Option<int>
    decreases table.len() - i,
{
    if i < 0 || i >= table.len() {
        None
    } else {
        let j = probe_slot(h, i, table.len() as int);
        if table[j].ptr == 0 {
            Some(j)
        } else {
            free_slot(table, h, i + 1)
        }
    }
}

/// `table` with `e` put into the first empty slot at or after the one its
/// hash prefers, wrapping round at the end.
pub open spec fn place(table: Seq<IndexEntry>, e: IndexEntry) -> Seq<IndexEntry> {
    match free_slot(table, e.hash.0, 0) {
        Some(j) => table.update(j, e),
        None => table,
    }
}

/// A table of `n` slots into which the entries of `list` were placed one
/// after the other.
pub open spec fn place_all(list: Seq<IndexEntry>, n: nat) -> Seq<IndexEntry>
    decreases list.len(),
{
    if list.len() == 0 {
        Seq::new(n, |j: int| empty_slot())
    } else {
        place(place_all(list.drop_last(), n), list.last())
    }
}

/// The number of slots in the table for `k` entries: twice as many.
pub open spec fn num_ents(k: nat) -> u32 {
    low32(2 * k)
}

/// The secondary table for the entries of `list`.
pub open spec fn secondary_table(list: Seq<IndexEntry>) -> Seq<IndexEntry> {
    place_all(list, num_ents(list.len()) as nat)
}

/// The bytes of a secondary table: hash and offset of each slot in turn.
pub open spec fn table_bytes(table: Seq<IndexEntry>) -> Seq<u8>
    decreases table.len(),
{
    if table.len() == 0 {
        Seq::empty()
    } else {
        table_bytes(table.drop_last()) + u32_le(table.last().hash.0) + u32_le(table.last().ptr)
    }
}

/// The secondary tables of primary entries `0` to `upto - 1`, one after the
/// other.
pub open spec fn secondary_bytes(entries: Seq<(Seq<u8>, Seq<u8>)>, upto: int) -> Seq<u8>
    decreases upto,
{
    if upto <= 0 {
        Seq::empty()
    } else {
        secondary_bytes(entries, upto - 1) + table_bytes(
            secondary_table(bucket_list(entries, upto - 1)),
        )
    }
}

/// Primary entry `b`: zero and zero where no key hashes to `b`, else the
/// offset of its secondary table and the number of slots there.
pub open spec fn primary_entry(entries: Seq<(Seq<u8>, Seq<u8>)>, b: int) -> Bucket {
    let n = num_ents(bucket_list(entries, b).len());
    if n == 0 {
        Bucket { ptr: 0, num_ents: 0 }
    } else {
        Bucket {
            ptr: low32(
                2048 + records_bytes(entries).len() + secondary_bytes(entries, b).len(),
            ),
            num_ents: n,
        }
    }
}

/// The bytes of primary entries `0` to `upto - 1`.
pub open spec fn primary_bytes(entries: Seq<(Seq<u8>, Seq<u8>)>, upto: int) -> Seq<u8>
    decreases upto,
{
    if upto <= 0 {
        Seq::empty()
    } else {
        primary_bytes(entries, upto - 1) + u32_le(primary_entry(entries, upto - 1).ptr) + u32_le(
            primary_entry(entries, upto - 1).num_ents,
        )
    }
}

/// The whole file for `entries`: primary table, records, secondary tables.
pub open spec fn image(entries: Seq<(Seq<u8>, Seq<u8>)>) -> Seq<u8> {
    primary_bytes(entries, 256) + records_bytes(entries) + secondary_bytes(entries, 256)
}

/// A table has eight bytes for each slot.
pub proof fn lemma_table_bytes_len(table: Seq<IndexEntry>)
    ensures
        table_bytes(table).len() == 8 * table.len(),
    decreases table.len(),
{
    if table.len() > 0 {
        lemma_table_bytes_len(table.drop_last());
    }
}

/// Every probe visits a slot of the table.
pub proof fn lemma_probe_slot_range(h: u32, i: int, n: int)
    requires
        n > 0,
        i >= 0,
    ensures
        0 <= probe_slot(h, i, n) < n,
{
    vstd::arithmetic::div_mod::lemma_mod_pos_bound(slot_of(h, n) + i, n);
}

/// A slot found free is a slot of the table, and empty.
pub proof fn lemma_free_slot(table: Seq<IndexEntry>, h: u32, i: int)
    requires
        0 <= i,
    ensures
        match free_slot(table, h, i) {
            Some(j) => 0 <= j < table.len() && table[j].ptr == 0,
            None => true,
        },
    decreases table.len() - i,
{
    if i < table.len() {
        lemma_probe_slot_range(h, i, table.len() as int);
        lemma_free_slot(table, h, i + 1);
    }
}

/// Placing an entry keeps the number of slots.
pub proof fn lemma_place_len(table: Seq<IndexEntry>, e: IndexEntry)
    ensures
        place(table, e).len() == table.len(),
{
    lemma_free_slot(table, e.hash.0, 0);
}

/// Placing entries keeps the number of slots.
pub proof fn lemma_place_all_len(list: Seq<IndexEntry>, n: nat)
    ensures
        place_all(list, n).len() == n,
    decreases list.len(),
{
    if list.len() > 0 {
        lemma_place_all_len(list.drop_last(), n);
        lemma_place_len(place_all(list.drop_last(), n), list.last());
    }
}

/// A number that fits in 32 bits is its own low 32 bits.
pub proof fn lemma_low32_small(n: nat)
    requires
        n <= u32::MAX,
    ensures
        low32(n) == n,
{
}

/// The low 32 bits of a sum come from the low 32 bits of its terms.
pub proof fn lemma_low32_add(a: nat, b: nat)
    ensures
        vstd::wrapping::u32_specs::wrapping_add(low32(a), low32(b)) == low32(a + b),
{
}

/// The two 32-bit integers `a` and `b`, little-endian, one after the other.
pub(crate) fn encode_pair(a: u32, b: u32) -> (bytes: Vec<u8>)
    ensures
        bytes@ == u32_le(a) + u32_le(b),
{
    let mut buf = ready_buf(8);
    put_u32_le(&mut buf, a);
    put_u32_le(&mut buf, b);
    into_vec(buf)
}

/// The low 32 bits of a length or an offset.
pub(crate) fn trunc32(n: u64) -> (r: u32)
    ensures
        r == low32(n as nat),
{
    let r: u32 = #[verifier::truncate] (n as u32);
    assert(r == n % 0x1_0000_0000) by (bit_vector)
        requires
            r == n as u32,
    ;
    r
}

/// The low 32 bits of a length.
pub(crate) fn len32(n: usize) -> (r: u32)
    ensures
        r == low32(n as nat),
{
    trunc32(n as u64)
}

/// Lays out the secondary table for the entries of `list`: twice as many
/// slots as entries, each entry in the first empty slot at or after the one
/// its hash prefers.
pub fn lay_out(list: &Vec<IndexEntry>) -> (table: Vec<IndexEntry>)
    ensures
        table@ == secondary_table(list@),
{
    let length: u32 = trunc32(2 * (len32(list.len()) as u64));
    let mut ordered: Vec<IndexEntry> = vec![IndexEntry::default(); length as usize];
    assert(ordered@ =~= place_all(list@.take(0), length as nat));
    let mut t: usize = 0;
    while t < list.len()
        invariant
            t <= list@.len(),
            length == num_ents(list@.len()),
            ordered@.len() == length,
            ordered@ == place_all(list@.take(t as int), length as nat),
        decreases list@.len() - t,
    {
        let idx_ent = list[t];
        let ghost before = ordered@;
        if length > 0 {
            let slot: usize = idx_ent.hash.slot(length as usize);
            let mut i: u32 = 0;
            let mut placed = false;
            while i < length && !placed
                invariant
                    i <= length,
                    length > 0,
                    before.len() == length,
                    ordered@.len() == length,
                    slot == slot_of(idx_ent.hash.0, length as int),
                    !placed ==> ordered@ == before && free_slot(before, idx_ent.hash.0, 0)
                        == free_slot(before, idx_ent.hash.0, i as int),
                    placed ==> ordered@ == place(before, idx_ent),
                decreases length - i + (if placed { 0int } else { 1int }),
            {
                let j: usize = ((i as u64 + slot as u64) % (length as u64)) as usize;
                if ordered[j].ptr == 0 {
                    ordered[j] = idx_ent;
                    placed = true;
                } else {
                    i += 1;
                }
            }
        }
        t += 1;
        proof {
            assert(list@.take(t as int).drop_last() =~= list@.take(t - 1));
        }
    }
    assert(list@.take(t as int) =~= list@);
    ordered
}

/// Appends the bytes of a secondary table to `out`.
pub fn encode_table(table: &Vec<IndexEntry>, out: &mut Vec<u8>)
    ensures
        final(out)@ == old(out)@ + table_bytes(table@),
{
    let mut s: usize = 0;
    assert(table@.take(0) =~= Seq::<IndexEntry>::empty());
    assert(out@ =~= old(out)@ + table_bytes(table@.take(0)));
    while s < table.len()
        invariant
            s <= table@.len(),
            out@ == old(out)@ + table_bytes(table@.take(s as int)),
        decreases table@.len() - s,
    {
        let idx_ent = table[s];
        let slot = encode_pair(idx_ent.hash.inner(), idx_ent.ptr);
        out.extend_from_slice(slot.as_slice());
        s += 1;
        proof {
            assert(table@.take(s as int).drop_last() =~= table@.take(s - 1));
            assert(out@ =~= old(out)@ + table_bytes(table@.take(s as int)));
        }
    }
    assert(table@.take(s as int) =~= table@);
}

/// What finishing a database yields.
pub struct Tables {
    /// The secondary tables, to be appended after the last record.
    pub secondary: Vec<u8>,
    /// The primary table, to be written over the first 2048 bytes.
    pub primary: Vec<u8>,
}

/// Collects the records of a database and lays out its tables.
pub struct Writer {
    index: Vec<Vec<IndexEntry>>,
    pos: u32,
    entries: Ghost<Seq<(Seq<u8>, Seq<u8>)>>,
}

impl Writer {
    /// Whether the slots collected are those owed to the records put so far.
    /// Every writer made by `new` and changed by `put` alone is.
    pub closed spec fn wf(&self) -> bool {
        &&& self.index@.len() == 256
        &&& forall|b: int|
            0 <= b < 256 ==> (#[trigger] self.index@[b])@ == bucket_list(self.entries@, b)
        &&& self.pos == low32(2048 + records_bytes(self.entries@).len())
    }

    /// The keys and values put so far, in order.
    pub closed spec fn view(&self) -> Seq<(Seq<u8>, Seq<u8>)> {
        self.entries@
    }

    /// A writer with no records.
    pub fn new() -> (w: Writer)
        ensures
            w.wf(),
            w@ == Seq::<(Seq<u8>, Seq<u8>)>::empty(),
    {
        let mut index: Vec<Vec<IndexEntry>> = Vec::new();
        let mut b: usize = 0;
        while b < MAIN_TABLE_SIZE
            invariant
                b <= 256,
                index@.len() == b,
                forall|c: int| 0 <= c < b ==> (#[trigger] index@[c])@ == Seq::<IndexEntry>::empty(),
            decreases 256 - b,
        {
            index.push(Vec::new());
            b += 1;
        }
        Writer { index, pos: 2048, entries: Ghost(Seq::empty()) }
    }

    /// The bytes that hold the place of the primary table until the
    /// database is finished: 2048 zeros.
    pub fn placeholder() -> (bytes: Vec<u8>)
        ensures
            bytes@ == Seq::new(2048, |i: int| 0u8),
    {
        let mut bytes: Vec<u8> = Vec::new();
        let mut i: usize = 0;
        while i < MAIN_TABLE_SIZE_BYTES
            invariant
                i <= 2048,
                bytes@ == Seq::new(i as nat, |i: int| 0u8),
            decreases 2048 - i,
        {
            bytes.push(0u8);
            i += 1;
            assert(bytes@ =~= Seq::new(i as nat, |i: int| 0u8));
        }
        bytes
    }

    /// Adds a record. Returns its bytes, to be appended to the file.
    pub fn put(&mut self, key: &[u8], value: &[u8]) -> (record: Vec<u8>)
        requires
            old(self).wf(),
        ensures
            final(self).wf(),
            final(self)@ == old(self)@.push((key@, value@)),
            record@ == record_bytes(key@, value@),
    {
        let ptr: u32 = self.pos;
        let klen: u32 = len32(key.len());
        let vlen: u32 = len32(value.len());
        let mut record = encode_pair(klen, vlen);
        record.extend_from_slice(key);
        record.extend_from_slice(value);
        assert(record@ =~= record_bytes(key@, value@));

        let hash = CDBHash::new(key);
        let b: usize = hash.table();
        self.index[b].push(IndexEntry { hash, ptr });
        self.pos = ptr.wrapping_add(8).wrapping_add(klen).wrapping_add(vlen);
        proof {
            let before = self.entries@;
            let after = before.push((key@, value@));
            assert(after.drop_last() =~= before);
            let done = 2048 + records_bytes(before).len();
            lemma_low32_add(done as nat, 8);
            lemma_low32_add((done + 8) as nat, key@.len());
            lemma_low32_add((done + 8 + key@.len()) as nat, value@.len());
            assert(records_bytes(after).len() == records_bytes(before).len() + 8 + key@.len()
                + value@.len());
        }
        self.entries = Ghost(self.entries@.push((key@, value@)));
        record
    }

    /// Lays out the secondary tables and the primary table for the records
    /// put so far.
    pub fn finalize(&self) -> (tables: Tables)
        requires
            self.wf(),
        ensures
            tables.secondary@ == secondary_bytes(self@, 256),
            tables.primary@ == primary_bytes(self@, 256),
            tables.primary@.len() == 2048,
    {
        let mut secondary: Vec<u8> = Vec::new();
        let mut primary = ready_buf(MAIN_TABLE_SIZE_BYTES);
        let mut off: u32 = self.pos;
        let mut b: usize = 0;
        while b < MAIN_TABLE_SIZE
            invariant
                self.wf(),
                b <= 256,
                secondary@ == secondary_bytes(self@, b as int),
                written(primary) == primary_bytes(self@, b as int),
                written(primary).len() == 8 * b,
                room(primary) == 2048,
                off == low32(2048 + records_bytes(self@).len() + secondary@.len()),
            decreases 256 - b,
        {
            let ordered = lay_out(&self.index[b]);
            let length: u32 = len32(ordered.len());
            let ghost list = bucket_list(self@, b as int);
            let ghost done = 2048 + records_bytes(self@).len() + secondary@.len();
            proof {
                assert(self.index@[b as int]@ == list);
                lemma_place_all_len(list, num_ents(list.len()) as nat);
                lemma_table_bytes_len(ordered@);
                assert(length == num_ents(list.len()));
                assert(primary_entry(self@, b as int) == if length == 0 {
                    Bucket { ptr: 0, num_ents: 0 }
                } else {
                    Bucket { ptr: off, num_ents: length }
                });
            }
            if length == 0 {
                put_u32_le(&mut primary, 0);
                put_u32_le(&mut primary, 0);
            } else {
                put_u32_le(&mut primary, off);
                put_u32_le(&mut primary, length);
            }
            encode_table(&ordered, &mut secondary);
            let step: u32 = trunc32(8 * (length as u64));
            proof {
                lemma_low32_add(done, 8 * ordered@.len());
            }
            off = off.wrapping_add(step);
            b += 1;
            proof {
                assert(written(primary) =~= primary_bytes(self@, b as int));
            }
        }
        Tables { secondary, primary: into_vec(primary) }
    }
}

} // verus!
