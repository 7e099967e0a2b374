//! What a reader finds in the file a writer laid out.

use crate::cdb::errors::CDBError;
use crate::cdb::format::{bucket_at, entry_at, record_at, slot_pos, Bucket, IndexEntry};
use crate::cdb::hash::{hash_of, probe_slot, table_of, CDBHash};
use crate::cdb::layout::{
    lemma_bucket_at_image, lemma_entry_at_image, lemma_primary_len, lemma_record_at_image,
    lemma_record_in_records, lemma_record_offset_end, lemma_record_offset_grows,
    lemma_record_offset_step, lemma_table_in_secondary, table_offset,
};
use crate::cdb::reader::{copied, copy_len, lookup, probe};
use crate::cdb::tables::{
    found_by_probing, lemma_place_all_settled, occupied, one_slot_each, reached, settled,
};
use crate::cdb::writer::{
    bucket_list, image, lemma_low32_small, lemma_probe_slot_range, lemma_table_bytes_len, low32,
    num_ents,
    primary_bytes, primary_entry, record_offset, records_bytes, secondary_bytes, secondary_table,
};
use vstd::prelude::*;

verus! {

/// The slot the writer keeps for record `i`: the hash of its key and the
/// offset at which the record starts.
pub open spec fn entry_of(entries: Seq<(Seq<u8>, Seq<u8>)>, i: int) -> IndexEntry {
    IndexEntry { hash: CDBHash(hash_of(entries[i].0)), ptr: low32(record_offset(entries, i)) }
}

/// Whether every offset that the file for `entries` stores fits the 32 bits
/// it is stored in: each secondary table that holds an entry starts below
/// 2^32. The records, and with them their lengths, lie before the tables.
pub open spec fn addressable(entries: Seq<(Seq<u8>, Seq<u8>)>) -> bool {
    forall|b: int|
        0 <= b < 256 && (#[trigger] bucket_list(entries, b)).len() > 0 ==> table_offset(entries, b)
            <= u32::MAX
}

/// Whether no key occurs twice among `entries`.
pub open spec fn distinct_keys(entries: Seq<(Seq<u8>, Seq<u8>)>) -> bool {
    forall|i: int, j: int|
        0 <= i < j < entries.len() ==> (#[trigger] entries[i]).0 != (#[trigger] entries[j]).0
}

/// Whether `key` is the key of none of `entries`.
pub open spec fn absent(entries: Seq<(Seq<u8>, Seq<u8>)>, key: Seq<u8>) -> bool {
    forall|i: int| 0 <= i < entries.len() ==> (#[trigger] entries[i]).0 != key
}

/// A file of at most 2^32 bytes is addressable.
pub proof fn lemma_short_file_is_addressable(entries: Seq<(Seq<u8>, Seq<u8>)>)
    requires
        image(entries).len() <= 0x1_0000_0000,
    ensures
        addressable(entries),
{
    lemma_primary_len(entries, 256);
    assert forall|b: int|
        0 <= b < 256 && (#[trigger] bucket_list(entries, b)).len() > 0 implies table_offset(
        entries,
        b,
    ) <= u32::MAX by {
        let list = bucket_list(entries, b);
        let slots = num_ents(list.len()) as nat;
        lemma_table_in_secondary(entries, 256, b);
        crate::cdb::writer::lemma_place_all_len(list, slots);
        lemma_table_bytes_len(secondary_table(list));
        // Were the table empty, twice the number of its entries would be a
        // multiple of 2^32, and the records alone would take more than 2^32
        // bytes.
        if slots == 0 {
            lemma_bucket_list_len(entries, b);
            lemma_record_offset_grows(entries, 0, entries.len() as int);
            lemma_record_offset_end(entries);
            assert(entries.take(0) =~= Seq::<(Seq<u8>, Seq<u8>)>::empty());
        }
    }
}

/// The slot of a record stays the same when more records follow.
proof fn lemma_entry_of_prefix(entries: Seq<(Seq<u8>, Seq<u8>)>, i: int)
    requires
        0 <= i < entries.len() - 1,
    ensures
        entry_of(entries.drop_last(), i) == entry_of(entries, i),
{
    assert(entries.drop_last().take(i) =~= entries.take(i));
}

/// The slot of the last record is the one the writer adds for it.
proof fn lemma_entry_of_last(entries: Seq<(Seq<u8>, Seq<u8>)>)
    requires
        entries.len() > 0,
    ensures
        entry_of(entries, entries.len() - 1) == (IndexEntry {
            hash: CDBHash(hash_of(entries.last().0)),
            ptr: low32(2048 + records_bytes(entries.drop_last()).len()),
        }),
{
    assert(entries.take(entries.len() - 1) =~= entries.drop_last());
}

/// No list of slots is longer than the list of records.
pub proof fn lemma_bucket_list_len(entries: Seq<(Seq<u8>, Seq<u8>)>, b: int)
    ensures
        bucket_list(entries, b).len() <= entries.len(),
    decreases entries.len(),
{
    if entries.len() > 0 {
        lemma_bucket_list_len(entries.drop_last(), b);
    }
}

/// Each slot owed to primary entry `b` is the slot of a record whose key
/// hashes to `b`.
pub proof fn lemma_bucket_list_source(entries: Seq<(Seq<u8>, Seq<u8>)>, b: int, t: int) -> (i: int)
    requires
        0 <= t < bucket_list(entries, b).len(),
    ensures
        0 <= i < entries.len(),
        table_of(hash_of(entries[i].0)) == b,
        bucket_list(entries, b)[t] == entry_of(entries, i),
    decreases entries.len(),
{
    let before = entries.drop_last();
    if table_of(hash_of(entries.last().0)) == b && t == bucket_list(before, b).len() {
        lemma_entry_of_last(entries);
        entries.len() - 1
    } else {
        let i = lemma_bucket_list_source(before, b, t);
        lemma_entry_of_prefix(entries, i);
        i
    }
}

/// The slots owed to a primary entry stand in the order of their records.
pub proof fn lemma_bucket_list_order(entries: Seq<(Seq<u8>, Seq<u8>)>, b: int, t: int, u: int) -> (r:
    (int, int))
    requires
        0 <= t < u < bucket_list(entries, b).len(),
    ensures
        0 <= r.0 < r.1 < entries.len(),
        bucket_list(entries, b)[t] == entry_of(entries, r.0),
        bucket_list(entries, b)[u] == entry_of(entries, r.1),
    decreases entries.len(),
{
    let before = entries.drop_last();
    if table_of(hash_of(entries.last().0)) == b && u == bucket_list(before, b).len() {
        lemma_entry_of_last(entries);
        let i = lemma_bucket_list_source(before, b, t);
        lemma_entry_of_prefix(entries, i);
        (i, entries.len() - 1)
    } else {
        let r = lemma_bucket_list_order(before, b, t, u);
        lemma_entry_of_prefix(entries, r.0);
        lemma_entry_of_prefix(entries, r.1);
        r
    }
}

/// The slot of each record is among those owed to the primary entry its
/// key hashes to.
pub proof fn lemma_bucket_list_index(entries: Seq<(Seq<u8>, Seq<u8>)>, i: int) -> (t: int)
    requires
        0 <= i < entries.len(),
    ensures
        0 <= t < bucket_list(entries, table_of(hash_of(entries[i].0))).len(),
        bucket_list(entries, table_of(hash_of(entries[i].0)))[t] == entry_of(entries, i),
    decreases entries.len(),
{
    let before = entries.drop_last();
    let b = table_of(hash_of(entries[i].0));
    if i == entries.len() - 1 {
        lemma_entry_of_last(entries);
        bucket_list(before, b).len() as int
    } else {
        let t = lemma_bucket_list_index(before, i);
        lemma_entry_of_prefix(entries, i);
        t
    }
}

/// In an addressable file every record ends below 2^32.
pub proof fn lemma_record_fits(entries: Seq<(Seq<u8>, Seq<u8>)>, i: int)
    requires
        addressable(entries),
        0 <= i < entries.len(),
    ensures
        2048 <= record_offset(entries, i),
        record_offset(entries, i) + 8 + entries[i].0.len() + entries[i].1.len() <= u32::MAX,
        entry_of(entries, i).ptr == record_offset(entries, i),
{
    let b = table_of(hash_of(entries[i].0));
    let off = record_offset(entries, i);
    let end = record_offset(entries, i + 1);
    assert(table_offset(entries, b) <= u32::MAX) by {
        let t = lemma_bucket_list_index(entries, i);
        assert(bucket_list(entries, b).len() > 0);
    }
    assert(end <= 2048 + records_bytes(entries).len()) by {
        lemma_record_in_records(entries, i);
    }
    assert(end == off + 8 + entries[i].0.len() + entries[i].1.len()) by {
        lemma_record_offset_step(entries, i);
    }
    lemma_low32_small(off);
}

/// In an addressable file twice the number of entries of a secondary table
/// fits in 32 bits.
pub proof fn lemma_bucket_fits(entries: Seq<(Seq<u8>, Seq<u8>)>, b: int)
    requires
        addressable(entries),
        0 <= b < 256,
    ensures
        num_ents(bucket_list(entries, b).len()) == 2 * bucket_list(entries, b).len(),
{
    if bucket_list(entries, b).len() > 0 {
        assert(table_offset(entries, b) <= u32::MAX);
        lemma_bucket_list_len(entries, b);
        lemma_record_offset_grows(entries, 0, entries.len() as int);
        lemma_record_offset_end(entries);
        assert(entries.take(0) =~= Seq::<(Seq<u8>, Seq<u8>)>::empty());
    }
}

/// In an addressable file each secondary table has twice as many slots as
/// entries and is settled: it holds its entries and nothing else, each
/// reached by probing for its hash.
pub proof fn lemma_table_settled(entries: Seq<(Seq<u8>, Seq<u8>)>, b: int)
    requires
        addressable(entries),
        0 <= b < 256,
    ensures
        secondary_table(bucket_list(entries, b)).len() == 2 * bucket_list(entries, b).len(),
        settled(secondary_table(bucket_list(entries, b)), bucket_list(entries, b)),
{
    let list = bucket_list(entries, b);
    lemma_bucket_fits(entries, b);
    crate::cdb::writer::lemma_place_all_len(list, num_ents(list.len()) as nat);
    if list.len() > 0 {
        assert forall|t: int| 0 <= t < list.len() implies (#[trigger] list[t]).ptr != 0 by {
            let i = lemma_bucket_list_source(entries, b, t);
            lemma_record_fits(entries, i);
        }
        assert forall|t: int, u: int| 0 <= t < u < list.len() implies (#[trigger] list[t]).ptr != (
        #[trigger] list[u]).ptr by {
            let r = lemma_bucket_list_order(entries, b, t, u);
            lemma_record_fits(entries, r.0);
            lemma_record_fits(entries, r.1);
            lemma_record_offset_grows(entries, r.0, r.1);
        }
        lemma_place_all_settled(list, num_ents(list.len()) as nat);
    }
}

/// In an addressable file, reading slot `j` of the table that primary entry
/// `b` points to gives the slot the writer laid out.
pub proof fn lemma_slot_read(entries: Seq<(Seq<u8>, Seq<u8>)>, b: int, j: int)
    requires
        addressable(entries),
        0 <= b < 256,
        0 <= j < secondary_table(bucket_list(entries, b)).len(),
    ensures
        entry_at(image(entries), slot_pos(primary_entry(entries, b), j)) == Some(
            secondary_table(bucket_list(entries, b))[j],
        ),
{
    let list = bucket_list(entries, b);
    lemma_bucket_fits(entries, b);
    crate::cdb::writer::lemma_place_all_len(list, num_ents(list.len()) as nat);
    assert(list.len() > 0);
    let start = table_offset(entries, b);
    assert(start <= u32::MAX);
    lemma_low32_small(start);
    assert(primary_entry(entries, b).ptr == start);
    assert(slot_pos(primary_entry(entries, b), j) == start + 8 * j);
    lemma_entry_at_image(entries, b, j);
}

/// Probing for a key that was written, from any probe up to the one that
/// reaches the slot of record `i`, finds the value of a record with that
/// key.
proof fn lemma_probe_finds(entries: Seq<(Seq<u8>, Seq<u8>)>, i: int, m: int, last: int) -> (j:
    int)
    requires
        addressable(entries),
        0 <= i < entries.len(),
        0 <= m <= last,
        reached(
            secondary_table(bucket_list(entries, table_of(hash_of(entries[i].0)))),
            entry_of(entries, i),
            last,
        ),
    ensures
        0 <= j < entries.len(),
        entries[j].0 == entries[i].0,
        probe(
            image(entries),
            entries[i].0,
            primary_entry(entries, table_of(hash_of(entries[i].0))),
            m,
        ) == Ok::<Option<Seq<u8>>, CDBError>(Some(entries[j].1)),
    decreases last - m,
{
    let key = entries[i].0;
    let h = hash_of(key);
    let b = table_of(h);
    let list = bucket_list(entries, b);
    let table = secondary_table(list);
    let bucket = primary_entry(entries, b);
    let n = table.len() as int;
    lemma_table_settled(entries, b);
    lemma_bucket_fits(entries, b);
    lemma_probe_slot_range(h, m, n);
    let spot = probe_slot(h, m, n);
    let e = table[spot];
    lemma_slot_read(entries, b, spot);
    assert(bucket.num_ents == n);
    if m == last {
        lemma_record_fits(entries, i);
        lemma_record_at_image(entries, i);
        i
    } else {
        assert(e.ptr != 0);
        assert(list.contains(e));
        let t = choose|t: int| 0 <= t < list.len() && list[t] == e;
        let src = lemma_bucket_list_source(entries, b, t);
        lemma_record_fits(entries, src);
        lemma_record_at_image(entries, src);
        if e.hash.0 == h && entries[src].0 == key {
            src
        } else {
            lemma_probe_finds(entries, i, m + 1, last)
        }
    }
}

/// Probing for a key that was not written finds nothing, from whichever
/// probe it starts.
proof fn lemma_probe_misses(entries: Seq<(Seq<u8>, Seq<u8>)>, key: Seq<u8>, m: int)
    requires
        addressable(entries),
        absent(entries, key),
        0 <= m,
    ensures
        probe(image(entries), key, primary_entry(entries, table_of(hash_of(key))), m) == Ok::<
            Option<Seq<u8>>,
            CDBError,
        >(None),
    decreases primary_entry(entries, table_of(hash_of(key))).num_ents - m,
{
    let h = hash_of(key);
    let b = table_of(h);
    let list = bucket_list(entries, b);
    let table = secondary_table(list);
    let bucket = primary_entry(entries, b);
    let n = bucket.num_ents as int;
    lemma_table_settled(entries, b);
    lemma_bucket_fits(entries, b);
    if m < n {
        assert(table.len() == n);
        lemma_probe_slot_range(h, m, n);
        let spot = probe_slot(h, m, n);
        let e = table[spot];
        lemma_slot_read(entries, b, spot);
        if e.ptr != 0 {
            assert(list.contains(e));
            let t = choose|t: int| 0 <= t < list.len() && list[t] == e;
            let src = lemma_bucket_list_source(entries, b, t);
            lemma_record_fits(entries, src);
            lemma_record_at_image(entries, src);
            assert(entries[src].0 != key);
            lemma_probe_misses(entries, key, m + 1);
        }
    }
}

/// Looking up the key of a record that was written yields the value of a
/// record with that key, whether or not the key was written more than once.
pub proof fn law_written_key_found(entries: Seq<(Seq<u8>, Seq<u8>)>, i: int) -> (j: int)
    requires
        addressable(entries),
        0 <= i < entries.len(),
    ensures
        0 <= j < entries.len(),
        entries[j].0 == entries[i].0,
        lookup(image(entries), entries[i].0) == Ok::<Option<Seq<u8>>, CDBError>(
            Some(entries[j].1),
        ),
{
    let key = entries[i].0;
    let b = table_of(hash_of(key));
    let list = bucket_list(entries, b);
    let table = secondary_table(list);
    lemma_bucket_at_image(entries, b);
    lemma_table_settled(entries, b);
    lemma_bucket_fits(entries, b);
    let t = lemma_bucket_list_index(entries, i);
    assert(found_by_probing(table, list[t]));
    let last = choose|m: int| reached(table, entry_of(entries, i), m);
    lemma_probe_finds(entries, i, 0, last)
}

/// Round trip: in a file written from records with distinct keys, looking
/// up the key of any record yields the value written with it.
pub proof fn law_round_trip(entries: Seq<(Seq<u8>, Seq<u8>)>, i: int)
    requires
        addressable(entries),
        distinct_keys(entries),
        0 <= i < entries.len(),
    ensures
        lookup(image(entries), entries[i].0) == Ok::<Option<Seq<u8>>, CDBError>(
            Some(entries[i].1),
        ),
{
    let j = law_written_key_found(entries, i);
    if j < i {
        assert(entries[j].0 != entries[i].0);
    } else if i < j {
        assert(entries[i].0 != entries[j].0);
    }
}

/// Absence: looking up a key that was not written yields nothing.
pub proof fn law_absent_key_not_found(entries: Seq<(Seq<u8>, Seq<u8>)>, key: Seq<u8>)
    requires
        addressable(entries),
        absent(entries, key),
    ensures
        lookup(image(entries), key) == Ok::<Option<Seq<u8>>, CDBError>(None),
{
    let b = table_of(hash_of(key));
    lemma_bucket_at_image(entries, b);
    lemma_probe_misses(entries, key, 0);
}

/// Slots: in an addressable file every slot in use of a secondary table is
/// the slot of a record whose key selects the table. Its hash selects the
/// same primary entry, and it points at or behind byte 2048, to the place
/// where that record is read.
pub proof fn law_slots_point_to_records(entries: Seq<(Seq<u8>, Seq<u8>)>, b: int, j: int) -> (i:
    int)
    requires
        addressable(entries),
        0 <= b < 256,
        0 <= j < secondary_table(bucket_list(entries, b)).len(),
        secondary_table(bucket_list(entries, b))[j].ptr != 0,
    ensures
        0 <= i < entries.len(),
        secondary_table(bucket_list(entries, b))[j] == entry_of(entries, i),
        table_of(secondary_table(bucket_list(entries, b))[j].hash.0) == b,
        secondary_table(bucket_list(entries, b))[j].ptr == record_offset(entries, i),
        secondary_table(bucket_list(entries, b))[j].ptr >= 2048,
        record_at(image(entries), secondary_table(bucket_list(entries, b))[j].ptr as int) == Some(
            entries[i],
        ),
{
    let list = bucket_list(entries, b);
    let table = secondary_table(list);
    lemma_table_settled(entries, b);
    assert(list.contains(table[j]));
    let t = choose|t: int| 0 <= t < list.len() && list[t] == table[j];
    let i = lemma_bucket_list_source(entries, b, t);
    lemma_record_fits(entries, i);
    lemma_record_at_image(entries, i);
    i
}

/// Slots: in an addressable file no two slots of a secondary table point to
/// the same record.
pub proof fn law_one_slot_for_each_record(entries: Seq<(Seq<u8>, Seq<u8>)>, b: int)
    requires
        addressable(entries),
        0 <= b < 256,
    ensures
        one_slot_each(secondary_table(bucket_list(entries, b))),
{
    lemma_table_settled(entries, b);
}

/// The file as it comes to be: the placeholder, the records and the
/// secondary tables one behind the other, and then the primary table
/// written over the placeholder.
pub proof fn law_file_is_image(entries: Seq<(Seq<u8>, Seq<u8>)>)
    ensures
        primary_bytes(entries, 256).len() == 2048,
        primary_bytes(entries, 256) + (Seq::new(2048, |i: int| 0u8) + records_bytes(entries)
            + secondary_bytes(entries, 256)).skip(2048) == image(entries),
{
    lemma_primary_len(entries, 256);
    let appended = Seq::new(2048, |i: int| 0u8) + records_bytes(entries) + secondary_bytes(
        entries,
        256,
    );
    assert(primary_bytes(entries, 256) + appended.skip(2048) =~= image(entries));
}

/// Collision: two records with distinct keys that select the same primary
/// entry are both found.
pub proof fn law_collision(entries: Seq<(Seq<u8>, Seq<u8>)>, i: int, j: int)
    requires
        addressable(entries),
        distinct_keys(entries),
        0 <= i < entries.len(),
        0 <= j < entries.len(),
        i != j,
        table_of(hash_of(entries[i].0)) == table_of(hash_of(entries[j].0)),
    ensures
        lookup(image(entries), entries[i].0) == Ok::<Option<Seq<u8>>, CDBError>(
            Some(entries[i].1),
        ),
        lookup(image(entries), entries[j].0) == Ok::<Option<Seq<u8>>, CDBError>(
            Some(entries[j].1),
        ),
{
    law_round_trip(entries, i);
    law_round_trip(entries, j);
}

/// Empty key and empty value: a record whose key or value has no bytes is
/// found like any other, and an empty value comes back empty.
pub proof fn law_empty_key_or_value(entries: Seq<(Seq<u8>, Seq<u8>)>, i: int)
    requires
        addressable(entries),
        distinct_keys(entries),
        0 <= i < entries.len(),
        entries[i].0.len() == 0 || entries[i].1.len() == 0,
    ensures
        lookup(image(entries), entries[i].0) == Ok::<Option<Seq<u8>>, CDBError>(
            Some(entries[i].1),
        ),
        entries[i].1.len() == 0 ==> lookup(image(entries), entries[i].0) == Ok::<
            Option<Seq<u8>>,
            CDBError,
        >(Some(Seq::<u8>::empty())),
{
    law_round_trip(entries, i);
    if entries[i].1.len() == 0 {
        assert(entries[i].1 =~= Seq::<u8>::empty());
    }
}

/// A destination at least as long as the value takes the whole value at its
/// front and keeps the rest of what it held.
pub proof fn law_value_fits(dst: Seq<u8>, value: Seq<u8>)
    requires
        dst.len() >= value.len(),
    ensures
        copy_len(dst.len() as int, value.len() as int) == value.len(),
        copied(dst, value).len() == dst.len(),
        copied(dst, value).take(value.len() as int) == value,
        copied(dst, value).skip(value.len() as int) == dst.skip(value.len() as int),
{
    let n = value.len() as int;
    assert(value.take(n) =~= value);
    assert(copied(dst, value).take(n) =~= value);
    assert(copied(dst, value).skip(n) =~= dst.skip(n));
}

/// Truncation: a destination shorter than the value is filled with the
/// front of the value.
pub proof fn law_value_truncated(dst: Seq<u8>, value: Seq<u8>)
    requires
        dst.len() < value.len(),
    ensures
        copy_len(dst.len() as int, value.len() as int) == dst.len(),
        copied(dst, value) == value.take(dst.len() as int),
{
    assert(copied(dst, value) =~= value.take(dst.len() as int));
}

/// Primary table: the first 2048 bytes of a file are its primary table, and
/// each of its 256 entries reads back as the writer laid it out.
pub proof fn law_primary_table_decodes(entries: Seq<(Seq<u8>, Seq<u8>)>, b: int)
    requires
        0 <= b < 256,
    ensures
        primary_bytes(entries, 256).len() == 2048,
        image(entries).take(2048) == primary_bytes(entries, 256),
        bucket_at(image(entries), b) == Some(primary_entry(entries, b)),
{
    lemma_primary_len(entries, 256);
    lemma_bucket_at_image(entries, b);
    assert(image(entries).take(2048) =~= primary_bytes(entries, 256));
}

/// Primary table: in an addressable file a primary entry is zero and zero
/// where no key selects it, and else points at or behind byte 2048, to the
/// place where its secondary table starts.
pub proof fn law_primary_table_pointers(entries: Seq<(Seq<u8>, Seq<u8>)>, b: int)
    requires
        addressable(entries),
        0 <= b < 256,
    ensures
        bucket_list(entries, b).len() == 0 ==> primary_entry(entries, b) == (Bucket {
            ptr: 0,
            num_ents: 0,
        }),
        bucket_list(entries, b).len() > 0 ==> primary_entry(entries, b).ptr == table_offset(
            entries,
            b,
        ),
        primary_entry(entries, b).ptr != 0 ==> primary_entry(entries, b).ptr >= 2048,
{
    lemma_bucket_fits(entries, b);
    if bucket_list(entries, b).len() > 0 {
        let start = table_offset(entries, b);
        assert(start <= u32::MAX);
        lemma_low32_small(start);
    }
}

/// Load factor: the number of slots that a primary entry gives is even,
/// whatever the size of the file.
pub proof fn law_slot_count_is_even(entries: Seq<(Seq<u8>, Seq<u8>)>, b: int)
    ensures
        primary_entry(entries, b).num_ents % 2 == 0,
{
}

/// Load factor: in an addressable file the number of slots of each
/// secondary table is even, and twice the number of slots in use, which is
/// the number of records whose key selects the table.
pub proof fn law_load_factor(entries: Seq<(Seq<u8>, Seq<u8>)>, b: int)
    requires
        addressable(entries),
        0 <= b < 256,
    ensures
        primary_entry(entries, b).num_ents == secondary_table(bucket_list(entries, b)).len(),
        primary_entry(entries, b).num_ents % 2 == 0,
        primary_entry(entries, b).num_ents == 2 * occupied(
            secondary_table(bucket_list(entries, b)),
        ),
        occupied(secondary_table(bucket_list(entries, b))) == bucket_list(entries, b).len(),
{
    lemma_table_settled(entries, b);
    lemma_bucket_fits(entries, b);
}

} // verus!
