//! Where the parts of a database sit in its bytes: each record, each primary
//! entry and each slot of each secondary table is read back from the offset
//! at which the writer put it.

use crate::cdb::codec::{lemma_le_u32_of_u32_le, u32_at, u32_le};
use crate::cdb::format::{bucket_at, entry_at, record_at, IndexEntry};
use crate::cdb::writer::{
    bucket_list, image, lemma_table_bytes_len, low32, primary_bytes, primary_entry, record_bytes,
    record_offset, records_bytes, secondary_bytes, secondary_table, table_bytes,
};
use vstd::prelude::*;

verus! {

/// The offset in the file at which the secondary table of primary entry `b`
/// starts.
pub open spec fn table_offset(entries: Seq<(Seq<u8>, Seq<u8>)>, b: int) -> nat {
    2048 + records_bytes(entries).len() + secondary_bytes(entries, b).len()
}

/// Record `i` ends where record `i + 1` starts.
pub proof fn lemma_record_offset_step(entries: Seq<(Seq<u8>, Seq<u8>)>, i: int)
    requires
        0 <= i < entries.len(),
    ensures
        record_offset(entries, i + 1) == record_offset(entries, i) + 8 + entries[i].0.len()
            + entries[i].1.len(),
{
    assert(entries.take(i + 1).drop_last() =~= entries.take(i));
    assert(entries.take(i + 1).last() == entries[i]);
}

/// Records lie one behind the other: a later one starts no earlier.
pub proof fn lemma_record_offset_grows(entries: Seq<(Seq<u8>, Seq<u8>)>, i: int, j: int)
    requires
        0 <= i <= j <= entries.len(),
    ensures
        record_offset(entries, i) + 8 * (j - i) <= record_offset(entries, j),
    decreases j - i,
{
    if i < j {
        lemma_record_offset_grows(entries, i, j - 1);
        lemma_record_offset_step(entries, j - 1);
    }
}

/// The last record ends where the record region ends.
pub proof fn lemma_record_offset_end(entries: Seq<(Seq<u8>, Seq<u8>)>)
    ensures
        record_offset(entries, entries.len() as int) == 2048 + records_bytes(entries).len(),
{
    assert(entries.take(entries.len() as int) =~= entries);
}

/// The records of a prefix of the entries are a prefix of the records.
pub proof fn lemma_records_prefix(entries: Seq<(Seq<u8>, Seq<u8>)>, i: int)
    requires
        0 <= i <= entries.len(),
    ensures
        records_bytes(entries.take(i)).len() <= records_bytes(entries).len(),
        records_bytes(entries).take(records_bytes(entries.take(i)).len() as int) == records_bytes(
            entries.take(i),
        ),
    decreases entries.len(),
{
    if i == entries.len() {
        assert(entries.take(i) =~= entries);
        assert(records_bytes(entries).take(records_bytes(entries).len() as int) =~= records_bytes(
            entries,
        ));
    } else {
        let before = entries.drop_last();
        lemma_records_prefix(before, i);
        assert(before.take(i) =~= entries.take(i));
        let n = records_bytes(entries.take(i)).len() as int;
        assert(records_bytes(entries).take(n) =~= records_bytes(before).take(n));
    }
}

/// Record `i` stands in the record region at its offset.
pub proof fn lemma_record_in_records(entries: Seq<(Seq<u8>, Seq<u8>)>, i: int)
    requires
        0 <= i < entries.len(),
    ensures
        record_offset(entries, i + 1) <= 2048 + records_bytes(entries).len(),
        records_bytes(entries).subrange(
            record_offset(entries, i) - 2048,
            record_offset(entries, i + 1) - 2048,
        ) == record_bytes(entries[i].0, entries[i].1),
{
    lemma_records_prefix(entries, i + 1);
    lemma_record_offset_step(entries, i);
    assert(entries.take(i + 1).drop_last() =~= entries.take(i));
    assert(entries.take(i + 1).last() == entries[i]);
    let lo = record_offset(entries, i) - 2048;
    let hi = record_offset(entries, i + 1) - 2048;
    assert(records_bytes(entries).subrange(lo, hi) =~= records_bytes(entries).take(hi).subrange(
        lo,
        hi,
    ));
    assert(records_bytes(entries.take(i + 1)).subrange(lo, hi) =~= record_bytes(
        entries[i].0,
        entries[i].1,
    ));
}

/// The primary table takes eight bytes for each entry.
pub proof fn lemma_primary_len(entries: Seq<(Seq<u8>, Seq<u8>)>, upto: int)
    requires
        0 <= upto,
    ensures
        primary_bytes(entries, upto).len() == 8 * upto,
    decreases upto,
{
    if upto > 0 {
        lemma_primary_len(entries, upto - 1);
    }
}

/// Primary entry `b` stands at offset `8 * b` of the primary table.
pub proof fn lemma_primary_entry_bytes(entries: Seq<(Seq<u8>, Seq<u8>)>, upto: int, b: int)
    requires
        0 <= b < upto,
    ensures
        primary_bytes(entries, upto).subrange(8 * b, 8 * b + 8) == u32_le(
            primary_entry(entries, b).ptr,
        ) + u32_le(primary_entry(entries, b).num_ents),
    decreases upto,
{
    lemma_primary_len(entries, upto);
    lemma_primary_len(entries, upto - 1);
    if b < upto - 1 {
        lemma_primary_entry_bytes(entries, upto - 1, b);
        assert(primary_bytes(entries, upto).subrange(8 * b, 8 * b + 8) =~= primary_bytes(
            entries,
            upto - 1,
        ).subrange(8 * b, 8 * b + 8));
    } else {
        assert(primary_bytes(entries, upto).subrange(8 * b, 8 * b + 8) =~= u32_le(
            primary_entry(entries, b).ptr,
        ) + u32_le(primary_entry(entries, b).num_ents));
    }
}

/// Two integers written one behind the other are read back from the place
/// where they stand.
pub proof fn lemma_pair_at(data: Seq<u8>, off: int, a: u32, b: u32)
    requires
        0 <= off,
        off + 8 <= data.len(),
        data.subrange(off, off + 8) == u32_le(a) + u32_le(b),
    ensures
        u32_at(data, off) == a,
        u32_at(data, off + 4) == b,
{
    lemma_le_u32_of_u32_le(a);
    lemma_le_u32_of_u32_le(b);
    assert(data.subrange(off, off + 4) =~= data.subrange(off, off + 8).subrange(0, 4));
    assert(data.subrange(off + 4, off + 8) =~= data.subrange(off, off + 8).subrange(4, 8));
    assert((u32_le(a) + u32_le(b)).subrange(0, 4) =~= u32_le(a));
    assert((u32_le(a) + u32_le(b)).subrange(4, 8) =~= u32_le(b));
}

/// Reading primary entry `b` of the file gives the entry the writer laid
/// out.
pub proof fn lemma_bucket_at_image(entries: Seq<(Seq<u8>, Seq<u8>)>, b: int)
    requires
        0 <= b < 256,
    ensures
        bucket_at(image(entries), b) == Some(primary_entry(entries, b)),
{
    let data = image(entries);
    lemma_primary_len(entries, 256);
    lemma_primary_entry_bytes(entries, 256, b);
    assert(data.subrange(8 * b, 8 * b + 8) =~= primary_bytes(entries, 256).subrange(
        8 * b,
        8 * b + 8,
    ));
    lemma_pair_at(
        data,
        8 * b,
        primary_entry(entries, b).ptr,
        primary_entry(entries, b).num_ents,
    );
}

/// Slot `j` of a table stands at offset `8 * j` of its bytes.
pub proof fn lemma_table_slot_bytes(table: Seq<IndexEntry>, j: int)
    requires
        0 <= j < table.len(),
    ensures
        table_bytes(table).subrange(8 * j, 8 * j + 8) == u32_le(table[j].hash.0) + u32_le(
            table[j].ptr,
        ),
    decreases table.len(),
{
    lemma_table_bytes_len(table);
    lemma_table_bytes_len(table.drop_last());
    if j < table.len() - 1 {
        lemma_table_slot_bytes(table.drop_last(), j);
        assert(table_bytes(table).subrange(8 * j, 8 * j + 8) =~= table_bytes(
            table.drop_last(),
        ).subrange(8 * j, 8 * j + 8));
    } else {
        assert(table_bytes(table).subrange(8 * j, 8 * j + 8) =~= u32_le(table[j].hash.0) + u32_le(
            table[j].ptr,
        ));
    }
}

/// The secondary tables lie one behind the other: the table of primary
/// entry `b` stands in the bytes of the tables `0` to `upto - 1` behind
/// those of the entries before it.
pub proof fn lemma_table_in_secondary(entries: Seq<(Seq<u8>, Seq<u8>)>, upto: int, b: int)
    requires
        0 <= b < upto,
    ensures
        secondary_bytes(entries, b + 1).len() <= secondary_bytes(entries, upto).len(),
        secondary_bytes(entries, upto).subrange(
            secondary_bytes(entries, b).len() as int,
            secondary_bytes(entries, b + 1).len() as int,
        ) == table_bytes(secondary_table(bucket_list(entries, b))),
    decreases upto,
{
    let lo = secondary_bytes(entries, b).len() as int;
    let hi = secondary_bytes(entries, b + 1).len() as int;
    if b < upto - 1 {
        lemma_table_in_secondary(entries, upto - 1, b);
        assert(secondary_bytes(entries, upto).subrange(lo, hi) =~= secondary_bytes(
            entries,
            upto - 1,
        ).subrange(lo, hi));
    } else {
        assert(secondary_bytes(entries, upto).subrange(lo, hi) =~= table_bytes(
            secondary_table(bucket_list(entries, b)),
        ));
    }
}

/// Reading slot `j` of the secondary table of primary entry `b` from the
/// file gives the slot the writer laid out.
pub proof fn lemma_entry_at_image(entries: Seq<(Seq<u8>, Seq<u8>)>, b: int, j: int)
    requires
        0 <= b < 256,
        0 <= j < secondary_table(bucket_list(entries, b)).len(),
    ensures
        entry_at(image(entries), table_offset(entries, b) + 8 * j) == Some(
            secondary_table(bucket_list(entries, b))[j],
        ),
{
    let data = image(entries);
    let table = secondary_table(bucket_list(entries, b));
    let base = 2048 + records_bytes(entries).len();
    let lo = secondary_bytes(entries, b).len() as int;
    let hi = secondary_bytes(entries, b + 1).len() as int;
    lemma_primary_len(entries, 256);
    lemma_table_in_secondary(entries, 256, b);
    lemma_table_bytes_len(table);
    lemma_table_slot_bytes(table, j);
    let pos = base + lo + 8 * j;
    assert(data.subrange(pos, pos + 8) =~= secondary_bytes(entries, 256).subrange(lo, hi).subrange(
        8 * j,
        8 * j + 8,
    ));
    lemma_pair_at(data, pos, table[j].hash.0, table[j].ptr);
}

/// Three byte strings written one behind the other are found again at
/// their places.
pub proof fn lemma_three_parts(data: Seq<u8>, off: int, a: Seq<u8>, b: Seq<u8>, c: Seq<u8>)
    requires
        0 <= off,
        off + a.len() + b.len() + c.len() <= data.len(),
        data.subrange(off, off + a.len() + b.len() + c.len()) == a + b + c,
    ensures
        data.subrange(off, off + a.len()) == a,
        data.subrange(off + a.len(), off + a.len() + b.len()) == b,
        data.subrange(off + a.len() + b.len(), off + a.len() + b.len() + c.len()) == c,
{
    let whole = a + b + c;
    let x = a.len() as int;
    let y = x + b.len();
    let z = y + c.len();
    assert(data.subrange(off, off + x) =~= data.subrange(off, off + z).subrange(0, x));
    assert(whole.subrange(0, x) =~= a);
    assert(data.subrange(off + x, off + y) =~= data.subrange(off, off + z).subrange(x, y));
    assert(whole.subrange(x, y) =~= b);
    assert(data.subrange(off + y, off + z) =~= data.subrange(off, off + z).subrange(y, z));
    assert(whole.subrange(y, z) =~= c);
}

/// A record is read back from wherever it stands in a byte string, provided
/// the lengths of its key and value fit in 32 bits.
pub proof fn lemma_record_at(data: Seq<u8>, off: int, key: Seq<u8>, value: Seq<u8>)
    requires
        0 <= off,
        off + 8 + key.len() + value.len() <= data.len(),
        data.subrange(off, off + 8 + key.len() + value.len()) == record_bytes(key, value),
        key.len() <= u32::MAX,
        value.len() <= u32::MAX,
    ensures
        record_at(data, off) == Some((key, value)),
{
    let head = u32_le(low32(key.len())) + u32_le(low32(value.len()));
    assert(head.len() == 8);
    lemma_three_parts(data, off, head, key, value);
    lemma_pair_at(data, off, low32(key.len()), low32(value.len()));
}

/// Reading the record at the offset of record `i` gives its key and value,
/// provided their lengths fit in 32 bits.
pub proof fn lemma_record_at_image(entries: Seq<(Seq<u8>, Seq<u8>)>, i: int)
    requires
        0 <= i < entries.len(),
        entries[i].0.len() <= u32::MAX,
        entries[i].1.len() <= u32::MAX,
    ensures
        record_at(image(entries), record_offset(entries, i) as int) == Some(entries[i]),
{
    let data = image(entries);
    let off = record_offset(entries, i) as int;
    let end = record_offset(entries, i + 1) as int;
    lemma_primary_len(entries, 256);
    lemma_record_in_records(entries, i);
    lemma_record_offset_step(entries, i);
    assert(data.subrange(off, end) =~= records_bytes(entries).subrange(off - 2048, end - 2048));
    lemma_record_at(data, off, entries[i].0, entries[i].1);
}

} // verus!
