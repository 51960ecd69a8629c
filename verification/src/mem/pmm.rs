use vstd::prelude::*;

use crate::mem::addr::{AlignedTo, PhysAddr};
use crate::mem::backing::{
    flat_size_ok, MemoryTable, TableFlat, LVL1_TABLE, LVL2_TABLE, LVL3_TABLE, LVL4_TABLE,
    TABLE_SIZE,
};
use crate::mem::page::PhysPage;
use crate::mem::phys::{PhysMemoryEntry, PhysMemoryKind};
use crate::mem::MemoryError;
use crate::util::spec_align_up;

verus! {

/// The element size of the top table for `total` bytes of memory: the smallest of the
/// sizes whose table spans more than `total`, else the largest.
pub open spec fn opt_table_for(total: int) -> int {
    if total < LVL1_TABLE * 512 {
        LVL1_TABLE as int
    } else if total < LVL2_TABLE * 512 {
        LVL2_TABLE as int
    } else if total < LVL3_TABLE * 512 {
        LVL3_TABLE as int
    } else {
        LVL4_TABLE as int
    }
}

/// The page manager takes the free memory from 1 MiB up.
pub open spec fn usable(e: PhysMemoryEntry) -> bool {
    e.kind == PhysMemoryKind::Free && e.start >= 1048576
}

/// The whole pages of an entry: its start rounded up, its end rounded down.
pub open spec fn page_start(e: PhysMemoryEntry) -> int {
    spec_align_up(e.start as int, 4096)
}

pub open spec fn page_end(e: PhysMemoryEntry) -> int {
    e.end - e.end % 4096
}

/// Every entry the page manager takes holds at least one whole page, within the span of a
/// top table of `el`-byte entries.
pub open spec fn entries_fit(entries: Seq<PhysMemoryEntry>, el: int) -> bool {
    forall|k: int|
        0 <= k < entries.len() && usable(#[trigger] entries[k]) ==> page_start(entries[k])
            < page_end(entries[k]) <= TABLE_SIZE * el
}

/// What giving an entry to a top table of `el`-byte entries fails with: an entry the page
/// manager takes that holds no whole page, or whose pages reach past the table's span.
pub open spec fn entry_error(e: PhysMemoryEntry, el: int) -> Option<MemoryError> {
    if !usable(e) {
        None
    } else if page_start(e) >= page_end(e) {
        Some(MemoryError::EntrySizeIsNegative)
    } else if page_end(e) > TABLE_SIZE * el {
        Some(MemoryError::InvalidSize)
    } else {
        None
    }
}

/// Whether the page manager can be made for `total_real_memory` bytes and these entries:
/// the top table's span fits a `usize`, and every entry it takes holds a whole page within
/// that span.
pub fn entries_fit_table(total_real_memory: u64, entries: &[PhysMemoryEntry]) -> (r: bool)
    ensures
        r == (opt_table_for(total_real_memory as int) * 512 <= usize::MAX && entries_fit(
            entries@,
            opt_table_for(total_real_memory as int),
        )),
{
    let el: u64 = if total_real_memory < (LVL1_TABLE as u64) * 512 {
        LVL1_TABLE as u64
    } else if total_real_memory < (LVL2_TABLE as u64) * 512 {
        LVL2_TABLE as u64
    } else if total_real_memory < LVL3_TABLE * 512 {
        LVL3_TABLE
    } else {
        LVL4_TABLE
    };
    let span: u64 = el * 512;
    if span as u128 > usize::MAX as u128 {
        return false;
    }
    let mut k: usize = 0;
    while k < entries.len()
        invariant
            k <= entries@.len(),
            el == opt_table_for(total_real_memory as int),
            span == TABLE_SIZE * el,
            forall|j: int|
                0 <= j < k && usable(#[trigger] entries@[j]) ==> page_start(entries@[j])
                    < page_end(entries@[j]) <= TABLE_SIZE * el,
        decreases entries@.len() - k,
    {
        let e = &entries[k];
        if matches!(e.kind, PhysMemoryKind::Free) && e.start >= 1048576 {
            let start: u128 = if e.start % 4096 == 0 {
                e.start as u128
            } else {
                e.start as u128 + (4096 - e.start % 4096) as u128
            };
            let end: u128 = (e.end - e.end % 4096) as u128;
            if !(start < end && end <= span as u128) {
                return false;
            }
        }
        k = k + 1;
    }
    true
}

/// The entries the page manager takes come in address order and do not overlap.
pub open spec fn entries_ordered(entries: Seq<PhysMemoryEntry>) -> bool {
    forall|j: int, k: int|
        0 <= j < k < entries.len() && usable(#[trigger] entries[j]) && usable(#[trigger] entries[k])
            ==> page_end(entries[j]) <= page_start(entries[k])
}

/// The tables the page manager goes through while it is made: a new table, then, for each
/// entry, the table after the entry's whole pages were given to it (where it takes the entry).
pub open spec fn built_by(
    steps: Seq<MemoryTable<TableFlat>>,
    entries: Seq<PhysMemoryEntry>,
    el: int,
) -> bool {
    &&& steps.len() == entries.len() + 1
    &&& steps[0].is_blank()
    &&& forall|k: int| 0 <= k < steps.len() ==> (#[trigger] steps[k]).element_size() == el
    &&& forall|k: int|
        0 <= k < entries.len() ==> if usable(#[trigger] entries[k]) {
            &&& steps[k + 1].available() == steps[k].available_after(
                page_start(entries[k]),
                page_end(entries[k]),
            )
            &&& steps[k + 1].held() == steps[k].held_after(
                page_start(entries[k]),
                page_end(entries[k]),
            )
            &&& steps[k + 1].owned() == steps[k].owned_after(
                page_start(entries[k]),
                page_end(entries[k]),
            )
        } else {
            steps[k + 1] == steps[k]
        }
}

/// The physical page manager: one table of tables over all of physical memory.
pub struct Pmm {
    table: Box<MemoryTable<TableFlat>>,
}

impl Pmm {
    /// The table of the page manager.
    pub closed spec fn table(&self) -> MemoryTable<TableFlat> {
        *self.table
    }

    /// Make the page manager for `total_real_memory` bytes of memory, described by the
    /// entries of the memory map: a top table just large enough, given the whole pages of
    /// each free entry from 1 MiB up, in order.
    pub fn new(total_real_memory: u64, entries: &[PhysMemoryEntry]) -> (r: Result<
        Self,
        MemoryError,
    >)
        requires
            opt_table_for(total_real_memory as int) * 512 <= usize::MAX,
        ensures
            r is Ok <==> entries_fit(entries@, opt_table_for(total_real_memory as int)),
            r is Err ==> exists|k: int|
                0 <= k < entries@.len() && entry_error(
                    #[trigger] entries@[k],
                    opt_table_for(total_real_memory as int),
                ) == Some(r->Err_0) && forall|j: int|
                    0 <= j < k ==> entry_error(
                        #[trigger] entries@[j],
                        opt_table_for(total_real_memory as int),
                    ) is None,
            r is Ok ==> r->Ok_0.table().inv(),
            r is Ok ==> r->Ok_0.table().element_size() == opt_table_for(total_real_memory as int),
            r is Ok ==> exists|steps: Seq<MemoryTable<TableFlat>>|
                #[trigger] built_by(steps, entries@, opt_table_for(total_real_memory as int))
                    && steps.last() == r->Ok_0.table(),
            r is Ok && entries_ordered(entries@) ==> r->Ok_0.table().tidy(),
    {
        let ghost el = opt_table_for(total_real_memory as int);
        let mut opt_table: u64 = LVL4_TABLE;
        if total_real_memory < (LVL1_TABLE as u64) * 512 {
            opt_table = LVL1_TABLE as u64;
        } else if total_real_memory < (LVL2_TABLE as u64) * 512 {
            opt_table = LVL2_TABLE as u64;
        } else if total_real_memory < LVL3_TABLE * 512 {
            opt_table = LVL3_TABLE;
        }
        assert(opt_table == el);
        let el_size = opt_table as usize;
        let span: u64 = opt_table * 512;
        assert(flat_size_ok(el_size as int));
        let mut table = Box::new(MemoryTable::<TableFlat>::new(el_size));
        let ghost mut steps: Seq<MemoryTable<TableFlat>> = seq![*table];
        let ghost mut last: int = -1;
        let ghost mut last_end: int = 0;
        let mut k: usize = 0;
        while k < entries.len()
            invariant
                k <= entries@.len(),
                el == el_size,
                flat_size_ok(el),
                span == TABLE_SIZE * el,
                el == opt_table_for(total_real_memory as int),
                forall|j: int| 0 <= j < k ==> entry_error(#[trigger] entries@[j], el) is None,
                table.inv(),
                table.element_size() == el_size,
                steps.len() == k + 1,
                steps[0].is_blank(),
                steps.last() == *table,
                last < k,
                last >= 0 ==> usable(entries@[last]) && last_end == page_end(entries@[last]),
                last < 0 ==> last_end == 0,
                entries_ordered(entries@) ==> table.tidy() && table.ready_after(last_end),
                forall|j: int| 0 <= j < steps.len() ==> (#[trigger] steps[j]).element_size() == el,
                forall|j: int|
                    0 <= j < k ==> if usable(#[trigger] entries@[j]) {
                        &&& steps[j + 1].available() == steps[j].available_after(
                            page_start(entries@[j]),
                            page_end(entries@[j]),
                        )
                        &&& steps[j + 1].held() == steps[j].held_after(
                            page_start(entries@[j]),
                            page_end(entries@[j]),
                        )
                        &&& steps[j + 1].owned() == steps[j].owned_after(
                            page_start(entries@[j]),
                            page_end(entries@[j]),
                        )
                    } else {
                        steps[j + 1] == steps[j]
                    },
            decreases entries@.len() - k,
        {
            let entry = entries[k];
            if entry.kind == PhysMemoryKind::Free && entry.start >= 1048576 {
                if entry.start > 18446744073709547520u64 {
                    proof {
                        assert(page_start(entry) > u64::MAX);
                        assert(entry_error(entries@[k as int], el) == Some(MemoryError::EntrySizeIsNegative));
                        assert(0 <= k < entries@.len());
                    }
                    return Err(MemoryError::EntrySizeIsNegative);
                }
                let start = crate::util::align_to(entry.start, 4096);
                let end = entry.end - entry.end % 4096;
                if start >= end {
                    proof {
                        assert(entry_error(entries@[k as int], el) == Some(MemoryError::EntrySizeIsNegative));
                        assert(0 <= k < entries@.len());
                    }
                    return Err(MemoryError::EntrySizeIsNegative);
                }
                if end > span {
                    proof {
                        assert(entry_error(entries@[k as int], el) == Some(MemoryError::InvalidSize));
                        assert(0 <= k < entries@.len());
                    }
                    return Err(MemoryError::InvalidSize);
                }
                let s = start as usize;
                let e = end as usize;
                assert(s & 4095 == 0) by (bit_vector)
                    requires
                        s % 4096 == 0,
                ;
                assert(e & 4095 == 0) by (bit_vector)
                    requires
                        e % 4096 == 0,
                ;
                proof {
                    if entries_ordered(entries@) {
                        if last >= 0 {
                            assert(usable(entries@[last]) && usable(entries@[k as int]));
                        }
                        crate::mem::backing::lemma_ready_fits(*table, last_end, s as int, e as int);
                    }
                }
                let _ = table.populate_with(PhysAddr::try_new(s), PhysAddr::try_new(e));
                proof {
                    last = k as int;
                    last_end = e as int;
                }
            }
            proof {
                steps = steps.push(*table);
            }
            k = k + 1;
        }
        proof {
            assert(built_by(steps, entries@, el));
            assert forall|j: int| 0 <= j < entries@.len() && usable(#[trigger] entries@[j]) implies page_start(entries@[j])
                < page_end(entries@[j]) <= TABLE_SIZE * el by {
                assert(entry_error(entries@[j], el) is None);
            }
        }
        Ok(Self { table })
    }

    /// Hand out the lowest free physical page.
    pub fn allocate_page(&mut self) -> (r: Result<PhysPage, MemoryError>)
        requires
            old(self).table().inv(),
        ensures
            final(self).table().inv(),
            final(self).table().element_size() == old(self).table().element_size(),
            r is Err ==> {
                &&& r == Err::<PhysPage, MemoryError>(MemoryError::OutOfAllocMemory)
                &&& final(self).table().available() == old(self).table().available()
                &&& final(self).table().held() == old(self).table().held()
                &&& final(self).table().owned() == old(self).table().owned()
            },
            r is Ok ==> {
                let p = r->Ok_0@ as int;
                &&& old(self).table().available().contains(p)
                &&& forall|q: int| old(self).table().available().contains(q) ==> p <= q
                &&& final(self).table().available().subset_of(
                    old(self).table().available().remove(p),
                )
                &&& final(self).table().held() == old(self).table().held().remove(p)
                &&& final(self).table().owned() == old(self).table().owned()
            },
            old(self).table().tidy() ==> {
                &&& (r is Ok <==> !old(self).table().available().is_empty())
                &&& final(self).table().tidy()
                &&& r is Ok ==> final(self).table().available() == old(self).table().available().remove(r->Ok_0@ as int)
            },
    {
        self.table.request_page()
    }

    /// Whether `page` lies within the span of the table, so that it can be handed back.
    pub fn covers(&self, page: PhysPage) -> (r: bool)
        requires
            self.table().inv(),
        ensures
            r == (page@ * 4096 < TABLE_SIZE * self.table().element_size()),
    {
        let span = self.table.span_bytes();
        let id = page.page();
        if id > usize::MAX / 4096 {
            return false;
        }
        id * 4096 < span
    }

    /// Take back a physical page.
    pub fn free_page(&mut self, page: PhysPage) -> (r: Result<(), MemoryError>)
        requires
            old(self).table().inv(),
            page@ * 4096 < TABLE_SIZE * old(self).table().element_size(),
        ensures
            final(self).table().inv(),
            final(self).table().element_size() == old(self).table().element_size(),
            final(self).table().owned() == old(self).table().owned(),
            r is Err ==> *final(self) == *old(self),
            r is Ok ==> final(self).table().held() == old(self).table().held().insert(page@ as int)
                && final(self).table().available() == if old(self).table().marked(page@ as int) {
                old(self).table().available().insert(page@ as int)
            } else {
                old(self).table().available()
            },
            ({
                let p = page@ as int;
                let t = old(self).table();
                &&& !t.owned().contains(p) ==> r == Err::<(), MemoryError>(
                    MemoryError::NotPhysicalPage,
                )
                &&& t.owned().contains(p) && t.held().contains(p) ==> r == Err::<(), MemoryError>(
                    MemoryError::DoubleFree,
                )
                &&& t.owned().contains(p) && !t.held().contains(p) && t.count_full(p) ==> r
                    == Err::<(), MemoryError>(MemoryError::OutOfAllocMemory)
                &&& t.owned().contains(p) && !t.held().contains(p) && !t.count_full(p) ==> r
                    == Ok::<(), MemoryError>(())
            }),
    {
        self.table.free_page(page)
    }

    /// The number of free 4 KiB pages, as the table counts them.
    pub fn pages_free(&self) -> (r: Result<usize, MemoryError>)
        requires
            self.table().inv(),
            self.table().counted() <= usize::MAX,
        ensures
            r == Ok::<usize, MemoryError>(self.table().counted() as usize),
    {
        self.table.pages_free()
    }
}

} // verus!
