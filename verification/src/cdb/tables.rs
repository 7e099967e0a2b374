//! What holds of a secondary table once its entries are placed: every entry
//! sits where probing for its hash reaches it before any empty slot.

use crate::cdb::format::{empty_slot, IndexEntry};
use crate::cdb::hash::{probe_slot, slot_of};
use crate::cdb::writer::{free_slot, lemma_free_slot, lemma_probe_slot_range, place, place_all};
use vstd::prelude::*;

verus! {

/// The number of slots of `table` that are not empty.
pub open spec fn occupied(table: Seq<IndexEntry>) -> nat
    decreases table.len(),
{
    if table.len() == 0 {
        0
    } else {
        occupied(table.drop_last()) + if table.last().ptr != 0 {
            1nat
        } else {
            0nat
        }
    }
}

/// Whether probe number `m` for the hash of `e` finds `e` in `table`, no
/// earlier probe having met an empty slot.
pub open spec fn reached(table: Seq<IndexEntry>, e: IndexEntry, m: int) -> bool {
    let n = table.len() as int;
    &&& 0 <= m < n
    &&& table[probe_slot(e.hash.0, m, n)] == e
    &&& forall|k: int| 0 <= k < m ==> table[#[trigger] probe_slot(e.hash.0, k, n)].ptr != 0
}

/// Whether probing for the hash of `e` finds `e` in `table` before it meets
/// an empty slot.
pub open spec fn found_by_probing(table: Seq<IndexEntry>, e: IndexEntry) -> bool {
    exists|m: int| reached(table, e, m)
}

/// Whether no two slots in use of `table` point to the same record.
pub open spec fn one_slot_each(table: Seq<IndexEntry>) -> bool {
    forall|j: int, k: int|
        0 <= j < k < table.len() && (#[trigger] table[j]).ptr != 0 ==> table[j].ptr != (
        #[trigger] table[k]).ptr
}

/// Whether `table` holds the entries of `list` and nothing else, each one
/// once and reached by probing for its hash. No entry of `list` looks like
/// an empty slot.
pub open spec fn settled(table: Seq<IndexEntry>, list: Seq<IndexEntry>) -> bool {
    &&& one_slot_each(table)
    &&& forall|t: int| 0 <= t < list.len() ==> (#[trigger] list[t]).ptr != 0
    &&& forall|j: int|
        0 <= j < table.len() && (#[trigger] table[j]).ptr != 0 ==> list.contains(table[j])
    &&& forall|t: int| 0 <= t < list.len() ==> found_by_probing(table, #[trigger] list[t])
    &&& occupied(table) == list.len()
}

/// No more slots are occupied than there are.
pub proof fn lemma_occupied_bound(table: Seq<IndexEntry>)
    ensures
        occupied(table) <= table.len(),
    decreases table.len(),
{
    if table.len() > 0 {
        lemma_occupied_bound(table.drop_last());
    }
}

/// A table without an empty slot is occupied throughout.
pub proof fn lemma_occupied_full(table: Seq<IndexEntry>)
    requires
        forall|j: int| 0 <= j < table.len() ==> (#[trigger] table[j]).ptr != 0,
    ensures
        occupied(table) == table.len(),
    decreases table.len(),
{
    if table.len() > 0 {
        let init = table.drop_last();
        assert forall|j: int| 0 <= j < init.len() implies (#[trigger] init[j]).ptr != 0 by {
            assert(init[j] == table[j]);
        }
        lemma_occupied_full(init);
    }
}

/// A table of empty slots has none occupied.
pub proof fn lemma_occupied_empty(n: nat)
    ensures
        occupied(Seq::new(n, |j: int| empty_slot())) == 0,
    decreases n,
{
    if n > 0 {
        assert(Seq::new(n, |j: int| empty_slot()).drop_last() =~= Seq::new(
            (n - 1) as nat,
            |j: int| empty_slot(),
        ));
        lemma_occupied_empty((n - 1) as nat);
    }
}

/// Filling an empty slot occupies one slot more.
pub proof fn lemma_occupied_update(table: Seq<IndexEntry>, j: int, e: IndexEntry)
    requires
        0 <= j < table.len(),
        table[j].ptr == 0,
        e.ptr != 0,
    ensures
        occupied(table.update(j, e)) == occupied(table) + 1,
    decreases table.len(),
{
    let after = table.update(j, e);
    if j == table.len() - 1 {
        assert(after.drop_last() =~= table.drop_last());
    } else {
        assert(after.drop_last() =~= table.drop_last().update(j, e));
        lemma_occupied_update(table.drop_last(), j, e);
    }
}

/// Probing visits every slot: slot `j` is visited by a probe below the
/// number of slots.
pub proof fn lemma_probe_covers(h: u32, j: int, n: int) -> (m: int)
    requires
        0 <= j < n,
    ensures
        0 <= m < n,
        probe_slot(h, m, n) == j,
{
    let start = slot_of(h, n);
    vstd::arithmetic::div_mod::lemma_mod_pos_bound(h as int / 256, n);
    if j >= start {
        vstd::arithmetic::div_mod::lemma_small_mod(j as nat, n as nat);
        j - start
    } else {
        vstd::arithmetic::div_mod::lemma_mod_add_multiples_vanish(j, n);
        vstd::arithmetic::div_mod::lemma_small_mod(j as nat, n as nat);
        j + n - start
    }
}

/// What `free_slot` finds from probe number `i` on is the slot of the first
/// probe that meets an empty slot; it finds nothing only if no probe does.
pub proof fn lemma_free_slot_first(table: Seq<IndexEntry>, h: u32, i: int) -> (m: int)
    requires
        0 <= i <= table.len(),
    ensures
        free_slot(table, h, i) is Some ==> {
            &&& i <= m < table.len()
            &&& free_slot(table, h, i) == Some(probe_slot(h, m, table.len() as int))
        },
        free_slot(table, h, i) is None ==> m == table.len(),
        forall|k: int| i <= k < m ==> table[#[trigger] probe_slot(h, k, table.len() as int)].ptr != 0,
    decreases table.len() - i,
{
    if i >= table.len() {
        i
    } else if table[probe_slot(h, i, table.len() as int)].ptr == 0 {
        i
    } else {
        lemma_free_slot_first(table, h, i + 1)
    }
}

/// A table with fewer entries than slots has a free slot for any hash.
pub proof fn lemma_free_slot_exists(table: Seq<IndexEntry>, h: u32)
    requires
        occupied(table) < table.len(),
    ensures
        free_slot(table, h, 0) is Some,
{
    let n = table.len() as int;
    if free_slot(table, h, 0) is None {
        let end = lemma_free_slot_first(table, h, 0);
        assert forall|j: int| 0 <= j < n implies (#[trigger] table[j]).ptr != 0 by {
            let m = lemma_probe_covers(h, j, n);
            assert(table[probe_slot(h, m, n)].ptr != 0);
        }
        lemma_occupied_full(table);
    }
}

/// Placing one more entry, which points to a record of its own, in a table
/// that has room keeps it settled.
pub proof fn lemma_place_settled(table: Seq<IndexEntry>, list: Seq<IndexEntry>, e: IndexEntry)
    requires
        settled(table, list),
        list.len() < table.len(),
        e.ptr != 0,
        forall|t: int| 0 <= t < list.len() ==> (#[trigger] list[t]).ptr != e.ptr,
    ensures
        settled(place(table, e), list.push(e)),
{
    let n = table.len() as int;
    let h = e.hash.0;
    lemma_free_slot_exists(table, h);
    lemma_free_slot(table, h, 0);
    let m = lemma_free_slot_first(table, h, 0);
    let spot = probe_slot(h, m, n);
    lemma_probe_slot_range(h, m, n);
    let after = place(table, e);
    let longer = list.push(e);
    assert(after == table.update(spot, e));
    assert forall|j: int| 0 <= j < after.len() && (#[trigger] after[j]).ptr != 0 implies longer.contains(
        after[j],
    ) by {
        if j == spot {
            assert(longer[list.len() as int] == e);
        } else {
            assert(table[j].ptr != 0);
            let t = choose|t: int| 0 <= t < list.len() && list[t] == table[j];
            assert(longer[t] == table[j]);
        }
    }
    assert forall|t: int| 0 <= t < longer.len() implies found_by_probing(
        after,
        #[trigger] longer[t],
    ) by {
        if t < list.len() {
            let x = list[t];
            assert(longer[t] == x);
            assert(found_by_probing(table, list[t]));
            let mx = choose|mx: int| reached(table, x, mx);
            assert(reached(table, x, mx));
            lemma_probe_slot_range(x.hash.0, mx, n);
            assert(x.ptr != 0);
            assert(after[probe_slot(x.hash.0, mx, n)] == x);
            assert forall|k: int| 0 <= k < mx implies after[#[trigger] probe_slot(
                x.hash.0,
                k,
                n,
            )].ptr != 0 by {
                lemma_probe_slot_range(x.hash.0, k, n);
            }
            assert(reached(after, x, mx));
        } else {
            assert(longer[t] == e);
            assert forall|k: int| 0 <= k < m implies after[#[trigger] probe_slot(h, k, n)].ptr
                != 0 by {
                lemma_probe_slot_range(h, k, n);
            }
            assert(reached(after, e, m));
        }
    }
    assert forall|j: int, k: int|
        0 <= j < k < after.len() && (#[trigger] after[j]).ptr != 0 implies after[j].ptr != (
    #[trigger] after[k]).ptr by {
        if j == spot {
            if table[k].ptr != 0 {
                assert(list.contains(table[k]));
                let t = choose|t: int| 0 <= t < list.len() && list[t] == table[k];
                assert(list[t].ptr != e.ptr);
            }
        } else if k == spot {
            assert(list.contains(table[j]));
            let t = choose|t: int| 0 <= t < list.len() && list[t] == table[j];
            assert(list[t].ptr != e.ptr);
        } else {
            assert(table[j].ptr != table[k].ptr);
        }
    }
    lemma_occupied_update(table, spot, e);
    assert(occupied(after) == longer.len());
    assert forall|t: int| 0 <= t < longer.len() implies (#[trigger] longer[t]).ptr != 0 by {
        if t < list.len() {
            assert(longer[t] == list[t]);
        }
    }
}

/// Placing the entries of a list, each of which points to a record of its
/// own, in a table with more slots than entries leaves it settled.
pub proof fn lemma_place_all_settled(list: Seq<IndexEntry>, n: nat)
    requires
        list.len() < n,
        forall|t: int| 0 <= t < list.len() ==> (#[trigger] list[t]).ptr != 0,
        forall|t: int, u: int|
            0 <= t < u < list.len() ==> (#[trigger] list[t]).ptr != (#[trigger] list[u]).ptr,
    ensures
        place_all(list, n).len() == n,
        settled(place_all(list, n), list),
    decreases list.len(),
{
    crate::cdb::writer::lemma_place_all_len(list, n);
    if list.len() == 0 {
        lemma_occupied_empty(n);
    } else {
        let init = list.drop_last();
        assert forall|t: int| 0 <= t < init.len() implies (#[trigger] init[t]).ptr
            != list.last().ptr by {
            assert(init[t] == list[t]);
            assert(list[t].ptr != list[list.len() - 1].ptr);
        }
        assert forall|t: int, u: int| 0 <= t < u < init.len() implies (#[trigger] init[t]).ptr != (
        #[trigger] init[u]).ptr by {
            assert(init[t] == list[t] && init[u] == list[u]);
        }
        lemma_place_all_settled(init, n);
        lemma_place_settled(place_all(init, n), init, list.last());
        assert(init.push(list.last()) =~= list);
    }
}

} // verus!
