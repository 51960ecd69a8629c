use vstd::prelude::*;

use crate::mem::MemoryError;
use crate::mem::addr::{AlignedTo, PhysAddr};
use crate::mem::page::PhysPage;

verus! {

/// Number of entries in one table.
pub const TABLE_SIZE: usize = 512;

/// Bytes covered by one entry of a table of each level.
pub const LVL0_TABLE: usize = 4096;

pub const LVL1_TABLE: usize = 2097152;

pub const LVL2_TABLE: usize = 1073741824;

/// (Wider than a 32-bit `usize`, so held as `u64`.)
pub const LVL3_TABLE: u64 = 549755813888;

/// (Wider than a 32-bit `usize`, so held as `u64`.)
pub const LVL4_TABLE: u64 = 281474976710656;

/// The element sizes a top table may be made with, smallest first.
pub const OPT_TABLES: [u64; 4] = [2097152, 1073741824, LVL3_TABLE, LVL4_TABLE];

/// The page a request handed out, and how much the table that served it has left.
#[derive(Clone, Copy, Debug)]
pub struct AllocationResult {
    pub page: PhysPage,
    pub new_size: usize,
}

/// A table of page frames.
pub trait TableImpl: Sized {
    /// The table is in a usable state for entries of `el_size` bytes.
    spec fn inv(&self, el_size: usize) -> bool;

    /// The table can be used with entries of `el_size` bytes.
    spec fn element_size_ok(el_size: usize) -> bool;

    /// What populating asks of the range `[start, end)`.
    spec fn range_ok(el_size: usize, start: usize, end: usize) -> bool;

    /// What freeing asks of the page.
    spec fn page_ok(el_size: usize, page: usize) -> bool;

    /// What counting the free pages asks of the table.
    spec fn count_ok(&self, el_size: usize) -> bool;

    fn empty() -> (r: Self)
        ensures
            forall|el: usize| Self::element_size_ok(el) ==> #[trigger] r.inv(el),
    ;

    /// Hand the pages of `[start_ptr, end_ptr)` (relative to the table) to the table.
    fn populate_with(
        &mut self,
        el_size: usize,
        start_ptr: PhysAddr<AlignedTo<4096>>,
        end_ptr: PhysAddr<AlignedTo<4096>>,
    ) -> (r: Result<usize, MemoryError>)
        requires
            Self::element_size_ok(el_size),
            old(self).inv(el_size),
            Self::range_ok(el_size, start_ptr@, end_ptr@),
        ensures
            final(self).inv(el_size),
    ;

    fn request_page(&mut self, el_size: usize) -> (r: Result<AllocationResult, MemoryError>)
        requires
            Self::element_size_ok(el_size),
            old(self).inv(el_size),
        ensures
            final(self).inv(el_size),
    ;

    fn free_page(&mut self, page: PhysPage, el_size: usize) -> (r: Result<
        AllocationResult,
        MemoryError,
    >)
        requires
            Self::element_size_ok(el_size),
            old(self).inv(el_size),
            Self::page_ok(el_size, page@),
        ensures
            final(self).inv(el_size),
    ;

    fn pages_free(&self, el_size: usize) -> (r: Result<usize, MemoryError>)
        requires
            Self::element_size_ok(el_size),
            self.inv(el_size),
            self.count_ok(el_size),
    ;
}

/// The lowest-level table: one flag per page frame.
pub struct TableBits {
    table: Vec<bool>,
    real_pages: Vec<bool>,
    atom_size: usize,
}

/// The entries of `[0, TABLE_SIZE)` whose flag is set.
pub open spec fn flagged(s: Seq<bool>) -> Set<int> {
    Set::new(|i: int| 0 <= i < TABLE_SIZE && i < s.len() && s[i])
}

impl TableBits {
    /// Pages the table may still hand out.
    pub closed spec fn available(&self) -> Set<int> {
        flagged(self.table@)
    }

    /// Pages that belong to the table.
    pub closed spec fn owned(&self) -> Set<int> {
        flagged(self.real_pages@)
    }

    /// The table's count of free pages.
    pub closed spec fn atoms(&self) -> nat {
        self.atom_size as nat
    }

    fn flag(v: &Vec<bool>, i: usize) -> (r: bool)
        requires
            v@.len() == TABLE_SIZE,
        ensures
            r == flagged(v@).contains(i as int),
    {
        if i < v.len() {
            v[i]
        } else {
            false
        }
    }
}

impl TableImpl for TableBits {
    closed spec fn inv(&self, el_size: usize) -> bool {
        &&& self.table@.len() == TABLE_SIZE
        &&& self.real_pages@.len() == TABLE_SIZE
        &&& forall|i: int| 0 <= i < TABLE_SIZE && self.table@[i] ==> self.real_pages@[i]
    }

    open spec fn element_size_ok(el_size: usize) -> bool {
        &&& el_size > 0
        &&& el_size * TABLE_SIZE <= usize::MAX
    }

    open spec fn range_ok(el_size: usize, start: usize, end: usize) -> bool {
        true
    }

    open spec fn page_ok(el_size: usize, page: usize) -> bool {
        true
    }

    open spec fn count_ok(&self, el_size: usize) -> bool {
        self.atoms() * (el_size / 4096) <= usize::MAX
    }

    fn empty() -> (r: Self)
        ensures
            forall|el: usize| r.inv(el),
            r.available() == Set::<int>::empty(),
            r.owned() == Set::<int>::empty(),
            r.atoms() == 0,
    {
        let mut table: Vec<bool> = Vec::new();
        let mut real_pages: Vec<bool> = Vec::new();
        let mut i: usize = 0;
        while i < TABLE_SIZE
            invariant
                i <= TABLE_SIZE,
                table@.len() == i,
                real_pages@.len() == i,
                forall|j: int| 0 <= j < i ==> !table@[j] && !real_pages@[j],
            decreases TABLE_SIZE - i,
        {
            table.push(false);
            real_pages.push(false);
            i = i + 1;
        }
        let r = Self { table, real_pages, atom_size: 0 };
        assert(r.available() =~= Set::<int>::empty());
        assert(r.owned() =~= Set::<int>::empty());
        r
    }

    /// Mark the pages `[start_ptr / el_size, end_ptr / el_size)` as free and owned.
    fn populate_with(
        &mut self,
        el_size: usize,
        start_ptr: PhysAddr<AlignedTo<4096>>,
        end_ptr: PhysAddr<AlignedTo<4096>>,
    ) -> (r: Result<usize, MemoryError>)
        ensures
            start_ptr@ >= end_ptr@ ==> r == Err::<usize, MemoryError>(
                MemoryError::EntrySizeIsNegative,
            ) && *final(self) == *old(self),
            start_ptr@ < end_ptr@ && end_ptr@ > TABLE_SIZE * el_size ==> r == Err::<
                usize,
                MemoryError,
            >(MemoryError::InvalidSize) && *final(self) == *old(self),
            start_ptr@ < end_ptr@ && end_ptr@ <= TABLE_SIZE * el_size && old(self).atoms() + (
            end_ptr@ / el_size - start_ptr@ / el_size) > usize::MAX ==> r == Err::<
                usize,
                MemoryError,
            >(MemoryError::OutOfAllocMemory) && *final(self) == *old(self),
            start_ptr@ < end_ptr@ && end_ptr@ <= TABLE_SIZE * el_size && old(self).atoms() + (
            end_ptr@ / el_size - start_ptr@ / el_size) <= usize::MAX ==> {
                &&& r == Ok::<usize, MemoryError>(
                    (end_ptr@ / el_size - start_ptr@ / el_size) as usize,
                )
                &&& final(self).available() == old(self).available().union(
                    page_range((start_ptr@ / el_size) as int, (end_ptr@ / el_size) as int),
                )
                &&& final(self).owned() == old(self).owned().union(
                    page_range((start_ptr@ / el_size) as int, (end_ptr@ / el_size) as int),
                )
                &&& final(self).atoms() == old(self).atoms() + (end_ptr@ / el_size
                    - start_ptr@ / el_size)
            },
    {
        if start_ptr.addr() >= end_ptr.addr() {
            return Err(MemoryError::EntrySizeIsNegative);
        }
        if end_ptr.addr() > TABLE_SIZE * el_size {
            return Err(MemoryError::InvalidSize);
        }
        let start = start_ptr.addr() / el_size;
        let end = end_ptr.addr() / el_size;
        assert(start <= end) by (nonlinear_arith)
            requires
                start == start_ptr@ / el_size,
                end == end_ptr@ / el_size,
                start_ptr@ < end_ptr@,
                el_size > 0,
        ;
        assert(end <= TABLE_SIZE) by (nonlinear_arith)
            requires
                end == end_ptr@ / el_size,
                end_ptr@ <= TABLE_SIZE * el_size,
                el_size > 0,
        ;
        if self.atom_size > usize::MAX - (end - start) {
            return Err(MemoryError::OutOfAllocMemory);
        }
        let ghost old_table = self.table@;
        let ghost old_real = self.real_pages@;
        self.atom_size = self.atom_size + (end - start);
        let mut page = start;
        while page < end
            invariant
                start <= page <= end <= TABLE_SIZE,
                start == start_ptr@ / el_size,
                end == end_ptr@ / el_size,
                self.atom_size == old(self).atom_size + (end - start),
                old_table == old(self).table@,
                old_real == old(self).real_pages@,
                old_table.len() == TABLE_SIZE,
                old_real.len() == TABLE_SIZE,
                forall|i: int| 0 <= i < TABLE_SIZE && old_table[i] ==> old_real[i],
                self.table@.len() == TABLE_SIZE,
                self.real_pages@.len() == TABLE_SIZE,
                forall|i: int|
                    0 <= i < TABLE_SIZE ==> self.table@[i] == (old_table[i] || (start <= i
                        < page)),
                forall|i: int|
                    0 <= i < TABLE_SIZE ==> self.real_pages@[i] == (old_real[i] || (start <= i
                        < page)),
            decreases end - page,
        {
            self.table.set(page, true);
            self.real_pages.set(page, true);
            page = page + 1;
        }
        assert forall|i: int| 0 <= i < TABLE_SIZE && self.table@[i] implies self.real_pages@[i] by {
            if !(start <= i < page) {
                assert(old_table[i]);
            }
        }
        assert(self.available() =~= flagged(old_table).union(page_range(start as int, end as int)));
        assert(self.owned() =~= flagged(old_real).union(page_range(start as int, end as int)));
        Ok(end - start)
    }

    /// Hand out the lowest free page.
    fn request_page(&mut self, _el_size: usize) -> (r: Result<AllocationResult, MemoryError>)
        ensures
            old(self).atoms() == 0 || old(self).available().is_empty() <==> r is Err,
            r is Err ==> r == Err::<AllocationResult, MemoryError>(MemoryError::OutOfAllocMemory)
                && *final(self) == *old(self),
            r is Ok ==> {
                let p = r->Ok_0.page@ as int;
                &&& old(self).available().contains(p)
                &&& forall|q: int| old(self).available().contains(q) ==> p <= q
                &&& final(self).available() == old(self).available().remove(p)
                &&& final(self).owned() == old(self).owned()
                &&& final(self).atoms() == old(self).atoms() - 1
                &&& r->Ok_0.new_size == final(self).atoms()
            },
    {
        if self.atom_size == 0 {
            return Err(MemoryError::OutOfAllocMemory);
        }
        let mut i: usize = 0;
        while i < TABLE_SIZE
            invariant
                i <= TABLE_SIZE,
                *self == *old(self),
                self.inv(_el_size),
                self.atom_size > 0,
                forall|j: int| 0 <= j < i ==> !self.table@[j],
            decreases TABLE_SIZE - i,
        {
            if self.table[i] {
                let ghost before = self.available();
                self.table.set(i, false);
                self.atom_size = self.atom_size - 1;
                assert(self.available() =~= before.remove(i as int));
                return Ok(AllocationResult { page: PhysPage::new(i), new_size: self.atom_size });
            }
            i = i + 1;
        }
        assert(self.available() =~= Set::<int>::empty());
        Err(MemoryError::OutOfAllocMemory)
    }

    /// Take back a page that was handed out.
    fn free_page(&mut self, page: PhysPage, _el_size: usize) -> (r: Result<
        AllocationResult,
        MemoryError,
    >)
        ensures
            !old(self).owned().contains(page@ as int) ==> r == Err::<AllocationResult, MemoryError>(
                MemoryError::NotPhysicalPage,
            ) && *final(self) == *old(self),
            old(self).owned().contains(page@ as int) && old(self).available().contains(
                page@ as int,
            ) ==> r == Err::<AllocationResult, MemoryError>(MemoryError::DoubleFree) && *final(self) == *old(self),
            old(self).owned().contains(page@ as int) && !old(self).available().contains(
                page@ as int,
            ) && old(self).atoms() == usize::MAX ==> r == Err::<AllocationResult, MemoryError>(
                MemoryError::OutOfAllocMemory,
            ) && *final(self) == *old(self),
            old(self).owned().contains(page@ as int) && !old(self).available().contains(
                page@ as int,
            ) && old(self).atoms() < usize::MAX ==> {
                &&& r is Ok
                &&& r->Ok_0.page == page
                &&& final(self).available() == old(self).available().insert(page@ as int)
                &&& final(self).owned() == old(self).owned()
                &&& final(self).atoms() == old(self).atoms() + 1
                &&& r->Ok_0.new_size == final(self).atoms()
            },
    {
        let id = page.page();
        if !Self::flag(&self.real_pages, id) {
            return Err(MemoryError::NotPhysicalPage);
        }
        if Self::flag(&self.table, id) {
            return Err(MemoryError::DoubleFree);
        }
        if self.atom_size == usize::MAX {
            return Err(MemoryError::OutOfAllocMemory);
        }
        let ghost before = self.available();
        self.table.set(id, true);
        assert(self.available() =~= before.insert(id as int));
        self.atom_size = self.atom_size + 1;
        Ok(AllocationResult { page, new_size: self.atom_size })
    }

    /// The number of free 4 KiB pages, as counted by the table.
    fn pages_free(&self, el_size: usize) -> (r: Result<usize, MemoryError>)
        ensures
            r == Ok::<usize, MemoryError>((self.atoms() * (el_size / 4096)) as usize),
    {
        let per = el_size / 4096;
        Ok(self.atom_size * per)
    }
}

/// A table of page frames, together with the number of bytes one of its entries covers.
pub struct MemoryTable<Table: TableImpl> {
    table: Table,
    element_size: usize,
}

impl<Table: TableImpl> MemoryTable<Table> {
    /// The number of bytes one entry of the table covers.
    pub closed spec fn element_size(&self) -> usize {
        self.element_size
    }

    /// The table is usable.
    pub closed spec fn inv(&self) -> bool {
        &&& Table::element_size_ok(self.element_size)
        &&& self.table.inv(self.element_size)
    }
}

impl MemoryTable<TableBits> {
    /// Pages the table may still hand out.
    pub closed spec fn available(&self) -> Set<int> {
        self.table.available()
    }

    /// Pages that belong to the table.
    pub closed spec fn owned(&self) -> Set<int> {
        self.table.owned()
    }

    /// The table's count of free pages.
    pub closed spec fn atoms(&self) -> nat {
        self.table.atoms()
    }

    /// An empty table whose entries cover `element_size` bytes.
    pub fn new(element_size: usize) -> (r: Self)
        requires
            TableBits::element_size_ok(element_size),
        ensures
            r.inv(),
            r.element_size() == element_size,
            r.available() == Set::<int>::empty(),
            r.owned() == Set::<int>::empty(),
            r.atoms() == 0,
    {
        Self { table: TableBits::empty(), element_size }
    }

    /// Hand the pages `[start_ptr, end_ptr)` (relative to the table) to the table; the result
    /// is the number of pages added.
    pub fn populate_with(
        &mut self,
        start_ptr: PhysAddr<AlignedTo<4096>>,
        end_ptr: PhysAddr<AlignedTo<4096>>,
    ) -> (r: Result<usize, MemoryError>)
        requires
            old(self).inv(),
        ensures
            final(self).inv(),
            final(self).element_size() == old(self).element_size(),
            ({
                let el = old(self).element_size() as int;
                let s = start_ptr@ as int / el;
                let e = end_ptr@ as int / el;
                &&& start_ptr@ >= end_ptr@ ==> r == Err::<usize, MemoryError>(
                    MemoryError::EntrySizeIsNegative,
                ) && *final(self) == *old(self)
                &&& start_ptr@ < end_ptr@ && end_ptr@ > TABLE_SIZE * el ==> r == Err::<
                    usize,
                    MemoryError,
                >(MemoryError::InvalidSize) && *final(self) == *old(self)
                &&& start_ptr@ < end_ptr@ && end_ptr@ <= TABLE_SIZE * el && old(self).atoms() + (e
                    - s) > usize::MAX ==> r == Err::<usize, MemoryError>(
                    MemoryError::OutOfAllocMemory,
                ) && *final(self) == *old(self)
                &&& start_ptr@ < end_ptr@ && end_ptr@ <= TABLE_SIZE * el && old(self).atoms() + (e
                    - s) <= usize::MAX ==> {
                    &&& r == Ok::<usize, MemoryError>((e - s) as usize)
                    &&& final(self).available() == old(self).available().union(page_range(s, e))
                    &&& final(self).owned() == old(self).owned().union(page_range(s, e))
                    &&& final(self).atoms() == old(self).atoms() + (e - s)
                }
            }),
    {
        self.table.populate_with(self.element_size, start_ptr, end_ptr)
    }

    /// Hand out the lowest free page.
    pub fn request_page(&mut self) -> (r: Result<PhysPage, MemoryError>)
        requires
            old(self).inv(),
        ensures
            final(self).inv(),
            final(self).element_size() == old(self).element_size(),
            old(self).atoms() == 0 || old(self).available().is_empty() <==> r is Err,
            r is Err ==> r == Err::<PhysPage, MemoryError>(MemoryError::OutOfAllocMemory)
                && *final(self) == *old(self),
            r is Ok ==> {
                let p = r->Ok_0@ as int;
                &&& old(self).available().contains(p)
                &&& forall|q: int| old(self).available().contains(q) ==> p <= q
                &&& final(self).available() == old(self).available().remove(p)
                &&& final(self).owned() == old(self).owned()
                &&& final(self).atoms() == old(self).atoms() - 1
            },
    {
        match self.table.request_page(self.element_size) {
            Ok(res) => Ok(res.page),
            Err(e) => Err(e),
        }
    }

    /// Take back a page that was handed out.
    pub fn free_page(&mut self, page: PhysPage) -> (r: Result<(), MemoryError>)
        requires
            old(self).inv(),
        ensures
            final(self).inv(),
            final(self).element_size() == old(self).element_size(),
            !old(self).owned().contains(page@ as int) ==> r == Err::<(), MemoryError>(
                MemoryError::NotPhysicalPage,
            ) && *final(self) == *old(self),
            old(self).owned().contains(page@ as int) && old(self).available().contains(page@ as int)
                ==> r == Err::<(), MemoryError>(MemoryError::DoubleFree) && *final(self) == *old(self),
            old(self).owned().contains(page@ as int) && !old(self).available().contains(page@ as int)
                && old(self).atoms() == usize::MAX ==> r == Err::<(), MemoryError>(
                MemoryError::OutOfAllocMemory,
            ) && *final(self) == *old(self),
            old(self).owned().contains(page@ as int) && !old(self).available().contains(page@ as int)
                && old(self).atoms() < usize::MAX ==> {
                &&& r == Ok::<(), MemoryError>(())
                &&& final(self).available() == old(self).available().insert(page@ as int)
                &&& final(self).owned() == old(self).owned()
                &&& final(self).atoms() == old(self).atoms() + 1
            },
    {
        match self.table.free_page(page, self.element_size) {
            Ok(_) => Ok(()),
            Err(e) => Err(e),
        }
    }

    /// The number of free 4 KiB pages, as counted by the table.
    pub fn pages_free(&self) -> (r: Result<usize, MemoryError>)
        requires
            self.inv(),
            self.atoms() * (self.element_size() / 4096) <= usize::MAX,
        ensures
            r == Ok::<usize, MemoryError>((self.atoms() * (self.element_size() / 4096)) as usize),
    {
        self.table.pages_free(self.element_size)
    }
}

/// The page numbers `[start, end)`.
pub open spec fn page_range(start: int, end: int) -> Set<int> {
    Set::new(|i: int| start <= i < end)
}

// --- tables of tables -----------------------------------------------------------------

/// One entry of a `TableFlat`: nothing, a whole free entry, or a table of the level below
/// together with what that table last reported as its size.
enum TableElementKind {
    NotAllocated,
    Present,
    TableFlat { table: Box<MemoryTable<TableFlat>>, atom: usize },
    TableBits { table: Box<MemoryTable<TableBits>>, atom: usize },
}

/// A table whose entries each cover a table of the level below.
pub struct TableFlat {
    table: Vec<TableElementKind>,
    available: Vec<bool>,
    healthy_tables: usize,
    dirty_tables: usize,
}

/// The element sizes a table of tables is made with: 2 MiB, 1 GiB, 512 GiB or 256 TiB,
/// where the table's whole span fits in a `usize`.
pub open spec fn flat_size_ok(el: int) -> bool {
    &&& (el == LVL1_TABLE || el == LVL2_TABLE || el == LVL3_TABLE || el == LVL4_TABLE)
    &&& el * 512 <= usize::MAX
}

/// The entry of a table of `el`-byte entries that holds page `p` (pages of 4 KiB,
/// counted from the start of the table), and the page's place within the entry.
pub open spec fn entry_of(el: int, p: int) -> int {
    p / (el / 4096)
}

pub open spec fn place_in(el: int, p: int) -> int {
    p % (el / 4096)
}

/// Page `p` lies in the span of a table of `el`-byte entries.
pub open spec fn in_span(el: int, p: int) -> bool {
    el / 4096 > 0 && 0 <= p < TABLE_SIZE * (el / 4096)
}

spec fn flat_wf(t: TableFlat, el: int) -> bool
    decreases t,
{
    &&& t.table@.len() == TABLE_SIZE
    &&& t.available@.len() == TABLE_SIZE
    &&& forall|i: int|
        0 <= i < TABLE_SIZE ==> {
            proof {
                assert(decreases_to!(t => t.table));
            }
            atom_wf(#[trigger] t.table@[i], el)
        }
}

spec fn atom_wf(a: TableElementKind, el: int) -> bool
    decreases a,
{
    match a {
        TableElementKind::NotAllocated => true,
        TableElementKind::Present => true,
        TableElementKind::TableFlat { table, .. } => {
            &&& el > LVL1_TABLE
            &&& table.element_size == el / 512
            &&& flat_wf(table.table, el / 512)
        },
        TableElementKind::TableBits { table, .. } => {
            &&& el == LVL1_TABLE
            &&& table.element_size == 4096
            &&& table.table.inv(4096)
        },
    }
}

/// Page `p` may be handed out: its entry is marked available, and is whole or holds the
/// page free in the table below.
pub closed spec fn flat_free(t: TableFlat, el: int, p: int) -> bool
    decreases t,
{
    if in_span(el, p) && entry_of(el, p) < t.table@.len() && entry_of(el, p) < t.available@.len() {
        proof {
            assert(decreases_to!(t => t.table));
        }
        t.available@[entry_of(el, p)] && atom_free(t.table@[entry_of(el, p)], el, place_in(el, p))
    } else {
        false
    }
}

spec fn atom_free(a: TableElementKind, el: int, q: int) -> bool
    decreases a,
{
    match a {
        TableElementKind::NotAllocated => false,
        TableElementKind::Present => true,
        TableElementKind::TableFlat { table, .. } => flat_free(table.table, el / 512, q),
        TableElementKind::TableBits { table, .. } => table.table.available().contains(q),
    }
}

/// Page `p` is held free by the structure, whatever the marks say: its entry is whole, or
/// the table below holds it free.
pub closed spec fn flat_held(t: TableFlat, el: int, p: int) -> bool
    decreases t,
{
    if in_span(el, p) && entry_of(el, p) < t.table@.len() {
        proof {
            assert(decreases_to!(t => t.table));
        }
        atom_held(t.table@[entry_of(el, p)], el, place_in(el, p))
    } else {
        false
    }
}

spec fn atom_held(a: TableElementKind, el: int, q: int) -> bool
    decreases a,
{
    match a {
        TableElementKind::NotAllocated => false,
        TableElementKind::Present => true,
        TableElementKind::TableFlat { table, .. } => flat_held(table.table, el / 512, q),
        TableElementKind::TableBits { table, .. } => table.table.available().contains(q),
    }
}

/// Page `p` belongs to the table: its entry is whole, or the table below owns it.
pub closed spec fn flat_owned(t: TableFlat, el: int, p: int) -> bool
    decreases t,
{
    if in_span(el, p) && entry_of(el, p) < t.table@.len() {
        proof {
            assert(decreases_to!(t => t.table));
        }
        atom_owned(t.table@[entry_of(el, p)], el, place_in(el, p))
    } else {
        false
    }
}

spec fn atom_owned(a: TableElementKind, el: int, q: int) -> bool
    decreases a,
{
    match a {
        TableElementKind::NotAllocated => false,
        TableElementKind::Present => true,
        TableElementKind::TableFlat { table, .. } => flat_owned(table.table, el / 512, q),
        TableElementKind::TableBits { table, .. } => table.table.owned().contains(q),
    }
}

/// The marks on the way to page `p` all say available: a page held free there can be
/// handed out.
pub closed spec fn flat_marked(t: TableFlat, el: int, p: int) -> bool
    decreases t,
{
    if in_span(el, p) && entry_of(el, p) < t.table@.len() && entry_of(el, p) < t.available@.len() {
        proof {
            assert(decreases_to!(t => t.table));
        }
        t.available@[entry_of(el, p)] && atom_marked(t.table@[entry_of(el, p)], el, place_in(el, p))
    } else {
        false
    }
}

spec fn atom_marked(a: TableElementKind, el: int, q: int) -> bool
    decreases a,
{
    match a {
        TableElementKind::NotAllocated => false,
        TableElementKind::Present => true,
        TableElementKind::TableFlat { table, .. } => flat_marked(table.table, el / 512, q),
        TableElementKind::TableBits { .. } => true,
    }
}

/// The free pages the table counts: a whole entry counts all its pages, a table below
/// what it counts.
spec fn atoms_count(s: Seq<TableElementKind>, el: int) -> int
    decreases s,
{
    if s.len() == 0 {
        0
    } else {
        atoms_count(s.drop_last(), el) + atom_count(s.last(), el)
    }
}

spec fn atom_count(a: TableElementKind, el: int) -> int
    decreases a,
{
    match a {
        TableElementKind::NotAllocated => 0,
        TableElementKind::Present => el / 4096,
        TableElementKind::TableFlat { table, .. } => {
            proof {
                assert(decreases_to!(table.table => table.table.table));
            }
            atoms_count(table.table.table@, el / 512)
        },
        TableElementKind::TableBits { table, .. } => table.table.atoms() * (el / 512 / 4096),
    }
}

/// How many of the indexes `[0, k)` satisfy `f`.
pub open spec fn count_where(k: int, f: spec_fn(int) -> bool) -> nat
    decreases k,
{
    if k <= 0 {
        0
    } else {
        count_where(k - 1, f) + (if f(k - 1) {
            1nat
        } else {
            0nat
        })
    }
}

/// Counting after one index changed.
proof fn lemma_count_update(k: int, f: spec_fn(int) -> bool, g: spec_fn(int) -> bool, i: int)
    requires
        0 <= i < k,
        forall|j: int| 0 <= j < k && j != i ==> #[trigger] f(j) == g(j),
    ensures
        count_where(k, g) + (if f(i) {
            1int
        } else {
            0int
        }) == count_where(k, f) + (if g(i) {
            1int
        } else {
            0int
        }),
    decreases k,
{
    if k - 1 != i {
        lemma_count_update(k - 1, f, g, i);
    } else {
        lemma_count_same(k - 1, f, g);
    }
}

/// Counting the same thing twice.
proof fn lemma_count_same(k: int, f: spec_fn(int) -> bool, g: spec_fn(int) -> bool)
    requires
        forall|j: int| 0 <= j < k ==> #[trigger] f(j) == g(j),
    ensures
        count_where(k, g) == count_where(k, f),
    decreases k,
{
    if k > 0 {
        lemma_count_same(k - 1, f, g);
    }
}

/// Nothing is counted exactly where nothing satisfies `f`.
proof fn lemma_count_zero(k: int, f: spec_fn(int) -> bool)
    ensures
        count_where(k, f) == 0 <==> forall|j: int| 0 <= j < k ==> !#[trigger] f(j),
    decreases k,
{
    if k > 0 {
        lemma_count_zero(k - 1, f);
    }
}

/// At most `k` of `k` indexes are counted.
proof fn lemma_count_bound(k: int, f: spec_fn(int) -> bool)
    requires
        k >= 0,
    ensures
        count_where(k, f) <= k,
    decreases k,
{
    if k > 0 {
        lemma_count_bound(k - 1, f);
    }
}

/// Counting the indexes of a range.
proof fn lemma_count_range(k: int, f: spec_fn(int) -> bool, lo: int, hi: int)
    requires
        0 <= lo <= hi <= k,
        forall|j: int| 0 <= j < k ==> #[trigger] f(j) == (lo <= j < hi),
    ensures
        count_where(k, f) == hi - lo,
    decreases k,
{
    if k > 0 {
        if k - 1 >= hi {
            lemma_count_range(k - 1, f, lo, hi);
        } else if k - 1 >= lo {
            lemma_count_range(k - 1, f, lo, k - 1);
        } else {
            lemma_count_zero(k - 1, f);
        }
    }
}

/// The free marks of a table of pages, by index.
spec fn bits_flags(t: TableBits) -> spec_fn(int) -> bool {
    |j: int| t.table@[j]
}

impl TableBits {
    /// How many pages are marked free.
    pub closed spec fn free_count(&self) -> nat {
        count_where(TABLE_SIZE as int, bits_flags(*self))
    }
}

/// The entry at `j` is marked available and is whole.
spec fn is_whole(t: TableFlat, j: int) -> bool {
    t.available@[j] && t.table@[j] is Present
}

/// The entry at `j` is marked available and holds a table.
spec fn is_part(t: TableFlat, j: int) -> bool {
    t.available@[j] && (t.table@[j] is TableFlat || t.table@[j] is TableBits)
}

spec fn whole_at(t: TableFlat) -> spec_fn(int) -> bool {
    |j: int| is_whole(t, j)
}

spec fn part_at(t: TableFlat) -> spec_fn(int) -> bool {
    |j: int| is_part(t, j)
}

spec fn whole_count(t: TableFlat) -> nat {
    count_where(TABLE_SIZE as int, whole_at(t))
}

spec fn part_count(t: TableFlat) -> nat {
    count_where(TABLE_SIZE as int, part_at(t))
}

/// What the table reports as its size: its count of whole entries, or 1 where it has none
/// but some entry holds a table, else 0.
pub closed spec fn flat_new_size(t: TableFlat) -> nat {
    if t.healthy_tables > 0 {
        t.healthy_tables as nat
    } else if t.dirty_tables > 0 {
        1
    } else {
        0
    }
}

/// The table's counts match its entries, and every entry marked available has pages to
/// hand out (and is itself in that state, where it is a table).
spec fn flat_tidy(t: TableFlat, el: int) -> bool
    decreases t,
{
    &&& flat_wf(t, el)
    &&& t.healthy_tables == whole_count(t)
    &&& t.dirty_tables == part_count(t)
    &&& forall|i: int|
        0 <= i < TABLE_SIZE && t.available@[i] ==> {
            proof {
                assert(decreases_to!(t => t.table));
            }
            atom_tidy(#[trigger] t.table@[i], el)
        }
}

spec fn atom_tidy(a: TableElementKind, el: int) -> bool
    decreases a,
{
    match a {
        TableElementKind::NotAllocated => false,
        TableElementKind::Present => true,
        TableElementKind::TableFlat { table, .. } => flat_tidy(table.table, el / 512)
            && flat_new_size(table.table) > 0,
        TableElementKind::TableBits { table, .. } => table.table.atoms()
            == table.table.free_count() && table.table.atoms() > 0,
    }
}

/// The least `x` with `x * d >= n`.
pub open spec fn div_ceil(n: int, d: int) -> int {
    if n % d == 0 {
        n / d
    } else {
        n / d + 1
    }
}

/// The pages a new table of `el`-byte entries hands out after `[lo, hi)` (bytes, relative
/// to the table) was given to it: the whole entries inside the range, and, in the entries
/// the range starts or ends in part-way, what the new table below is given: from the start
/// to the end of the range or of the entry, and from the entry's start to the range's end.
pub open spec fn fresh_free(el: int, lo: int, hi: int, q: int) -> bool
    decreases el,
{
    if el <= 4096 {
        lo / 4096 <= q < hi / 4096
    } else if !in_span(el, q) {
        false
    } else if lo % el != 0 && entry_of(el, q) == lo / el {
        fresh_free(el / 512, lo % el, if hi < el { hi } else { el }, place_in(el, q))
    } else if hi % el != 0 && entry_of(el, q) == hi / el {
        fresh_free(el / 512, 0, hi % el, place_in(el, q))
    } else {
        div_ceil(lo, el) <= entry_of(el, q) < hi / el
    }
}

/// The end of the part of `[s, e)` that lies in the entry where it starts part-way: the
/// smaller of `e` and one entry's size, as the table computes it.
pub open spec fn start_edge_end(el: int, e: int) -> int {
    if e < el {
        e
    } else {
        el
    }
}

/// After `[s, e)` (bytes, relative to the table) was given to `t`, which pages it hands out:
/// the entries the range covers whole are whole and available; an entry the range starts or
/// ends in part-way is marked available, and gets a new table below with its part of the
/// range where it had nothing, else keeps what it held; the other entries are unchanged.
pub closed spec fn populated_free(t: TableFlat, el: int, s: int, e: int, p: int) -> bool {
    if !in_span(el, p) {
        false
    } else {
        let i = entry_of(el, p);
        let q = place_in(el, p);
        if s % el != 0 && i == s / el {
            if t.table@[i] is NotAllocated {
                fresh_free(el / 512, s % el, start_edge_end(el, e), q)
            } else {
                atom_free(t.table@[i], el, q)
            }
        } else if e % el != 0 && i == e / el {
            if t.table@[i] is NotAllocated {
                fresh_free(el / 512, 0, e % el, q)
            } else {
                atom_free(t.table@[i], el, q)
            }
        } else if div_ceil(s, el) <= i < e / el {
            true
        } else {
            flat_free(t, el, p)
        }
    }
}

/// As `populated_free`, for what the structure holds free.
spec fn populated_held(t: TableFlat, el: int, s: int, e: int, p: int) -> bool {
    if !in_span(el, p) {
        false
    } else {
        let i = entry_of(el, p);
        let q = place_in(el, p);
        if s % el != 0 && i == s / el {
            if t.table@[i] is NotAllocated {
                fresh_free(el / 512, s % el, start_edge_end(el, e), q)
            } else {
                atom_held(t.table@[i], el, q)
            }
        } else if e % el != 0 && i == e / el {
            if t.table@[i] is NotAllocated {
                fresh_free(el / 512, 0, e % el, q)
            } else {
                atom_held(t.table@[i], el, q)
            }
        } else if div_ceil(s, el) <= i < e / el {
            true
        } else {
            flat_held(t, el, p)
        }
    }
}

/// As `populated_free`, for what the table owns.
spec fn populated_owned(t: TableFlat, el: int, s: int, e: int, p: int) -> bool {
    if !in_span(el, p) {
        false
    } else {
        let i = entry_of(el, p);
        let q = place_in(el, p);
        if s % el != 0 && i == s / el {
            if t.table@[i] is NotAllocated {
                fresh_free(el / 512, s % el, start_edge_end(el, e), q)
            } else {
                atom_owned(t.table@[i], el, q)
            }
        } else if e % el != 0 && i == e / el {
            if t.table@[i] is NotAllocated {
                fresh_free(el / 512, 0, e % el, q)
            } else {
                atom_owned(t.table@[i], el, q)
            }
        } else if div_ceil(s, el) <= i < e / el {
            true
        } else {
            flat_owned(t, el, p)
        }
    }
}

/// How many new tables populating `[s, e)` makes: one for each entry the range starts or
/// ends in part-way that had nothing.
spec fn tables_made(t: TableFlat, el: int, s: int, e: int) -> int {
    let a = if s % el != 0 && t.table@[s / el] is NotAllocated {
        1int
    } else {
        0int
    };
    let b = if e % el != 0 && t.table@[e / el] is NotAllocated && !(s % el != 0 && s / el == e
        / el) {
        1int
    } else {
        0int
    };
    a + b
}

/// The whole entries populating `[s, e)` marks.
spec fn whole_made(el: int, s: int, e: int) -> int {
    if e / el > div_ceil(s, el) {
        e / el - div_ceil(s, el)
    } else {
        0
    }
}

/// Populating keeps the table tidy where the entries the range starts or ends in part-way
/// are empty or available, and the entries it covers whole are not available.
spec fn populate_fits(t: TableFlat, el: int, s: int, e: int) -> bool {
    &&& s % el != 0 && 0 <= s / el < TABLE_SIZE ==> (t.table@[s / el] is NotAllocated
        || t.available@[s / el])
    &&& e % el != 0 && 0 <= e / el < TABLE_SIZE ==> (t.table@[e / el] is NotAllocated
        || t.available@[e / el])
    &&& forall|i: int|
        div_ceil(s, el) <= i < e / el && 0 <= i < TABLE_SIZE ==> !#[trigger] t.available@[i]
}

/// What the table sizes of a table of tables give.
proof fn lemma_flat_sizes(el: int)
    requires
        flat_size_ok(el),
    ensures
        el % 2097152 == 0,
        el / 4096 == 512 * (el / 512 / 4096),
        el / 4096 >= 512,
        el / 512 >= 4096,
        el > LVL1_TABLE ==> flat_size_ok(el / 512),
        el == LVL1_TABLE ==> el / 512 == 4096,
        el <= LVL1_TABLE ==> el == LVL1_TABLE,
{
}

/// Bytes and pages: for a page-aligned `x`, its entry and offset in entries of `4096 * n`
/// bytes follow from its page number.
proof fn lemma_bytes_pages(x: int, n: int)
    requires
        n > 0,
        x >= 0,
        x % 4096 == 0,
    ensures
        x / (4096 * n) == (x / 4096) / n,
        x % (4096 * n) == 4096 * ((x / 4096) % n),
        (x % (4096 * n)) / 4096 == (x / 4096) % n,
        (x % (4096 * n)) % 4096 == 0,
{
    let xx = x / 4096;
    assert(x == 4096 * xx);
    let a = xx / n;
    let b = xx % n;
    vstd::arithmetic::div_mod::lemma_fundamental_div_mod(xx, n);
    assert(x == a * (4096 * n) + 4096 * b) by (nonlinear_arith)
        requires
            x == 4096 * xx,
            xx == n * a + b,
    ;
    assert(0 <= 4096 * b < 4096 * n) by (nonlinear_arith)
        requires
            0 <= b < n,
    ;
    vstd::arithmetic::div_mod::lemma_fundamental_div_mod_converse(x, 4096 * n, a, 4096 * b);
}

/// Comparing two numbers is comparing their quotients, then their remainders.
proof fn lemma_lex(q: int, x: int, n: int)
    requires
        n > 0,
        q >= 0,
        x >= 0,
    ensures
        (q < x) == (q / n < x / n || (q / n == x / n && q % n < x % n)),
{
    vstd::arithmetic::div_mod::lemma_fundamental_div_mod(q, n);
    vstd::arithmetic::div_mod::lemma_fundamental_div_mod(x, n);
    let a = q / n;
    let b = x / n;
    if a < b {
        assert(n * a + n <= n * b) by (nonlinear_arith)
            requires
                a < b,
                n > 0,
        ;
    } else if a > b {
        assert(n * b + n <= n * a) by (nonlinear_arith)
            requires
                a > b,
                n > 0,
        ;
    }
}

/// A new table hands out every page of the range it was given.
proof fn lemma_fresh_covers(el: int, lo: int, hi: int, q: int)
    requires
        el == 4096 || flat_size_ok(el),
        0 <= lo < hi <= TABLE_SIZE * el,
        lo % 4096 == 0,
        hi % 4096 == 0,
        lo / 4096 <= q < hi / 4096,
    ensures
        fresh_free(el, lo, hi, q),
    decreases el,
{
    if el > 4096 {
        lemma_flat_sizes(el);
        let n = el / 4096;
        assert(el == 4096 * n);
        let i = q / n;
        let r = q % n;
        let ll = lo / 4096;
        let hh = hi / 4096;
        lemma_bytes_pages(lo, n);
        lemma_bytes_pages(hi, n);
        lemma_lex(q, ll, n);
        lemma_lex(q, hh, n);
        vstd::arithmetic::div_mod::lemma_fundamental_div_mod(q, n);
        assert(hh <= 512 * n);
        assert(q < 512 * n);
        assert(i < 512) by {
            lemma_lex(q, 512 * n, n);
            vstd::arithmetic::div_mod::lemma_fundamental_div_mod_converse(512 * n, n, 512, 0);
        }
        assert(in_span(el, q));
        if lo % el != 0 && i == lo / el {
            let he = if hi < el {
                hi
            } else {
                el
            };
            if hi < el {
                vstd::arithmetic::div_mod::lemma_fundamental_div_mod_converse(hh, n, 0, hh);
            }
            lemma_fresh_covers(el / 512, lo % el, he, r);
        } else if hi % el != 0 && i == hi / el {
            lemma_fresh_covers(el / 512, 0, hi % el, r);
        } else {
        }
    }
}

/// A page number from an entry and a place within it.
proof fn lemma_page_at(el: int, j: int, q: int)
    requires
        flat_size_ok(el),
        0 <= j < TABLE_SIZE,
        0 <= q < el / 4096,
    ensures
        in_span(el, j * (el / 4096) + q),
        entry_of(el, j * (el / 4096) + q) == j,
        place_in(el, j * (el / 4096) + q) == q,
{
    lemma_flat_sizes(el);
    let n = el / 4096;
    assert(j * n + q < TABLE_SIZE * n) by (nonlinear_arith)
        requires
            0 <= j < TABLE_SIZE,
            0 <= q < n,
    ;
    assert(j * n >= 0) by (nonlinear_arith)
        requires
            0 <= j,
            n > 0,
    ;
    vstd::arithmetic::div_mod::lemma_fundamental_div_mod_converse(j * n + q, n, j, q);
}

/// A page of the span lies in one of the table's entries, at a place within it.
proof fn lemma_entry_bounds(el: int, p: int)
    requires
        flat_size_ok(el),
        in_span(el, p),
    ensures
        0 <= entry_of(el, p) < TABLE_SIZE,
        0 <= place_in(el, p) < el / 4096,
        p == entry_of(el, p) * (el / 4096) + place_in(el, p),
{
    lemma_flat_sizes(el);
    let n = el / 4096;
    vstd::arithmetic::div_mod::lemma_fundamental_div_mod(p, n);
    assert((p / n) * n == n * (p / n)) by (nonlinear_arith);
    lemma_lex(p, TABLE_SIZE * n, n);
    vstd::arithmetic::div_mod::lemma_fundamental_div_mod_converse(TABLE_SIZE * n, n, 512, 0);
}

/// A tidy table reports a size above zero exactly where it has a page to hand out.
proof fn lemma_tidy_size(t: TableFlat, el: int)
    requires
        flat_size_ok(el),
        flat_tidy(t, el),
    ensures
        flat_new_size(t) > 0 <==> exists|p: int| #[trigger] flat_free(t, el, p),
    decreases t,
{
    lemma_flat_sizes(el);
    let n = el / 4096;
    let fw = whole_at(t);
    let fp = part_at(t);
    lemma_count_zero(TABLE_SIZE as int, fw);
    lemma_count_zero(TABLE_SIZE as int, fp);
    if flat_new_size(t) > 0 {
        if t.healthy_tables > 0 {
            let j = choose|j: int| 0 <= j < TABLE_SIZE && #[trigger] fw(j);
            lemma_page_at(el, j, 0);
            assert(flat_free(t, el, j * n + 0));
        } else {
            let j = choose|j: int| 0 <= j < TABLE_SIZE && #[trigger] fp(j);
            assert(atom_tidy(t.table@[j], el));
            match t.table@[j] {
                TableElementKind::TableFlat { table, .. } => {
                    assert(decreases_to!(t => t.table));
                    lemma_flat_sizes(el / 512);
                    lemma_tidy_size(table.table, el / 512);
                    let q = choose|q: int| #[trigger] flat_free(table.table, el / 512, q);
                    assert(in_span(el / 512, q));
                    lemma_page_at(el, j, q);
                    assert(flat_free(t, el, j * n + q));
                },
                TableElementKind::TableBits { table, .. } => {
                    let fb = bits_flags(table.table);
                    lemma_count_zero(TABLE_SIZE as int, fb);
                    let k = choose|k: int| 0 <= k < TABLE_SIZE && #[trigger] fb(k);
                    assert(table.table.available().contains(k));
                    lemma_page_at(el, j, k);
                    assert(flat_free(t, el, j * n + k));
                },
                _ => {},
            }
        }
    } else {
        assert forall|p: int| !flat_free(t, el, p) by {
            if flat_free(t, el, p) {
                let j = entry_of(el, p);
                lemma_entry_bounds(el, p);
                assert(atom_tidy(t.table@[j], el));
                assert(fw(j) || fp(j));
            }
        }
    }
}

/// Every entry of `t` is empty and unmarked.
spec fn flat_blank(t: TableFlat) -> bool {
    &&& t.table@.len() == TABLE_SIZE
    &&& t.available@.len() == TABLE_SIZE
    &&& forall|i: int| 0 <= i < TABLE_SIZE ==> (#[trigger] t.table@[i]) is NotAllocated
    &&& forall|i: int| 0 <= i < TABLE_SIZE ==> !(#[trigger] t.available@[i])
    &&& t.healthy_tables == 0
    &&& t.dirty_tables == 0
}

/// A blank table is well formed and tidy, and populating it gives what a new table gets.
proof fn lemma_blank(t: TableFlat, el: int)
    requires
        flat_size_ok(el),
        flat_blank(t),
    ensures
        flat_wf(t, el),
        flat_tidy(t, el),
        forall|s: int, e: int| populate_fits(t, el, s, e),
        forall|s: int, e: int, p: int|
            0 <= s < e ==> (#[trigger] populated_free(t, el, s, e, p) == fresh_free(el, s, e, p)
                && populated_held(t, el, s, e, p) == fresh_free(el, s, e, p) && populated_owned(
                t,
                el,
                s,
                e,
                p,
            ) == fresh_free(el, s, e, p)),
{
    lemma_flat_sizes(el);
    assert forall|i: int| 0 <= i < TABLE_SIZE implies atom_wf(#[trigger] t.table@[i], el) by {}
    lemma_count_zero(TABLE_SIZE as int, whole_at(t));
    lemma_count_zero(TABLE_SIZE as int, part_at(t));
    assert forall|s: int, e: int, p: int|
        0 <= s < e implies (#[trigger] populated_free(t, el, s, e, p) == fresh_free(el, s, e, p)
            && populated_held(t, el, s, e, p) == fresh_free(el, s, e, p) && populated_owned(
            t,
            el,
            s,
            e,
            p,
        ) == fresh_free(el, s, e, p)) by {
        if in_span(el, p) {
            lemma_entry_bounds(el, p);
        }
    }
}

impl TableFlat {
    fn empty_table() -> (r: Self)
        ensures
            r.table@.len() == TABLE_SIZE,
            r.available@.len() == TABLE_SIZE,
            forall|i: int| 0 <= i < TABLE_SIZE ==> (#[trigger] r.table@[i]) is NotAllocated,
            forall|i: int| 0 <= i < TABLE_SIZE ==> !(#[trigger] r.available@[i]),
            r.healthy_tables == 0,
            r.dirty_tables == 0,
    {
        let mut table: Vec<TableElementKind> = Vec::new();
        let mut available: Vec<bool> = Vec::new();
        let mut i: usize = 0;
        while i < TABLE_SIZE
            invariant
                i <= TABLE_SIZE,
                table@.len() == i,
                available@.len() == i,
                forall|j: int| 0 <= j < i ==> (#[trigger] table@[j]) is NotAllocated,
                forall|j: int| 0 <= j < i ==> !(#[trigger] available@[j]),
            decreases TABLE_SIZE - i,
        {
            table.push(TableElementKind::NotAllocated);
            available.push(false);
            i = i + 1;
        }
        Self { table, available, healthy_tables: 0, dirty_tables: 0 }
    }
}

/// `a + b`, held at `usize::MAX`.
pub open spec fn sat_add(a: int, b: int) -> int {
    if a + b > usize::MAX {
        usize::MAX as int
    } else {
        a + b
    }
}

/// What giving the range `[lo, hi)` of entry `i` to `t0` (the entry being one the range
/// covers part of) leaves in `t1`: the entry is marked available; where it had nothing it
/// holds a new table below with that range, else it is unchanged.
spec fn edge_done(t0: TableFlat, t1: TableFlat, el: int, i: int, lo: int, hi: int) -> bool {
    &&& t1.table@.len() == TABLE_SIZE
    &&& t1.available@ == t0.available@.update(i, true)
    &&& forall|j: int| 0 <= j < TABLE_SIZE && j != i ==> #[trigger] t1.table@[j] == t0.table@[j]
    &&& t1.healthy_tables == t0.healthy_tables
    &&& if t0.table@[i] is NotAllocated {
        &&& t1.dirty_tables == sat_add(t0.dirty_tables as int, 1)
        &&& (t1.table@[i] is TableFlat || t1.table@[i] is TableBits)
        &&& atom_tidy(t1.table@[i], el)
        &&& atom_wf(t1.table@[i], el)
        &&& forall|q: int|
            (#[trigger] atom_free(t1.table@[i], el, q)) == fresh_free(el / 512, lo, hi, q)
                && atom_held(t1.table@[i], el, q) == fresh_free(el / 512, lo, hi, q) && atom_owned(
                t1.table@[i],
                el,
                q,
            ) == fresh_free(el / 512, lo, hi, q)
    } else {
        &&& t1.table@[i] == t0.table@[i]
        &&& t1.dirty_tables == t0.dirty_tables
    }
}

impl TableFlat {
    /// Give the entry `i`, which the range being populated covers in part, the part
    /// `[lo, hi)` (relative to the entry): mark it available, and where it has nothing make
    /// the table below with that part.
    fn populate_edge(&mut self, el: usize, i: usize, lo: usize, hi: usize, elements: usize)
        requires
            flat_size_ok(el as int),
            flat_wf(*old(self), el as int),
            i < TABLE_SIZE,
            lo < hi <= el,
            lo % 4096 == 0,
            hi % 4096 == 0,
        ensures
            flat_wf(*final(self), el as int),
            edge_done(*old(self), *final(self), el as int, i as int, lo as int, hi as int),
        decreases el, 1nat,
    {
        proof {
            lemma_flat_sizes(el as int);
        }
        assert(lo & 4095 == 0) by (bit_vector)
            requires
                lo % 4096 == 0,
        ;
        assert(hi & 4095 == 0) by (bit_vector)
            requires
                hi % 4096 == 0,
        ;
        let ghost t0 = *self;
        self.available.set(i, true);
        let mut atom = TableElementKind::NotAllocated;
        self.table.set_and_swap(i, &mut atom);
        match atom {
            TableElementKind::NotAllocated => {
                let child_el = el / TABLE_SIZE;
                assert(child_el == el / 512);
                if el <= LVL1_TABLE {
                    let mut child = MemoryTable::<TableBits>::new(child_el);
                    let _ = child.populate_with(PhysAddr::try_new(lo), PhysAddr::try_new(hi));
                    proof {
                        let f = bits_flags(child.table);
                        assert forall|j: int| 0 <= j < TABLE_SIZE implies #[trigger] f(j) == (lo
                            / 4096 <= j < hi / 4096) by {
                            assert(child.available().contains(j) == f(j));
                        }
                        lemma_count_range(TABLE_SIZE as int, f, (lo / 4096) as int, (hi / 4096) as int);
                        assert forall|q: int|
                            #[trigger] child.available().contains(q) == fresh_free(
                                child_el as int,
                                lo as int,
                                hi as int,
                                q,
                            ) && child.owned().contains(q) == fresh_free(
                                child_el as int,
                                lo as int,
                                hi as int,
                                q,
                            ) by {}
                    }
                    self.table.set(
                        i,
                        TableElementKind::TableBits { table: Box::new(child), atom: elements },
                    );
                    assert(atom_tidy(self.table@[i as int], el as int));
                    assert(atom_wf(self.table@[i as int], el as int));
                    assert forall|q: int|
                        (#[trigger] atom_free(self.table@[i as int], el as int, q)) == fresh_free(
                            el as int / 512,
                            lo as int,
                            hi as int,
                            q,
                        ) && atom_held(self.table@[i as int], el as int, q) == fresh_free(
                            el as int / 512,
                            lo as int,
                            hi as int,
                            q,
                        ) && atom_owned(self.table@[i as int], el as int, q) == fresh_free(
                            el as int / 512,
                            lo as int,
                            hi as int,
                            q,
                        ) by {
                        assert(child_el as int == el as int / 512);
                    }
                } else {
                    let mut child = MemoryTable { table: TableFlat::empty_table(), element_size: child_el };
                    proof {
                        lemma_blank(child.table, child_el as int);
                    }
                    let ghost blank = child.table;
                    let _ = child.table.populate_flat(
                        child_el,
                        PhysAddr::try_new(lo),
                        PhysAddr::try_new(hi),
                    );
                    proof {
                        assert forall|q: int|
                            #[trigger] flat_free(child.table, child_el as int, q) == fresh_free(
                                child_el as int,
                                lo as int,
                                hi as int,
                                q,
                            ) && flat_held(child.table, child_el as int, q) == fresh_free(
                                child_el as int,
                                lo as int,
                                hi as int,
                                q,
                            ) && flat_owned(child.table, child_el as int, q) == fresh_free(
                                child_el as int,
                                lo as int,
                                hi as int,
                                q,
                            ) by {
                            assert(populated_free(blank, child_el as int, lo as int, hi as int, q)
                                == fresh_free(child_el as int, lo as int, hi as int, q));
                        }
                        lemma_fresh_covers(child_el as int, lo as int, hi as int, (lo / 4096) as int);
                        assert(flat_free(child.table, child_el as int, (lo / 4096) as int));
                        lemma_tidy_size(child.table, child_el as int);
                    }
                    self.table.set(
                        i,
                        TableElementKind::TableFlat { table: Box::new(child), atom: elements },
                    );
                    assert(atom_tidy(self.table@[i as int], el as int));
                    assert(atom_wf(self.table@[i as int], el as int));
                    assert forall|q: int|
                        (#[trigger] atom_free(self.table@[i as int], el as int, q)) == fresh_free(
                            el as int / 512,
                            lo as int,
                            hi as int,
                            q,
                        ) && atom_held(self.table@[i as int], el as int, q) == fresh_free(
                            el as int / 512,
                            lo as int,
                            hi as int,
                            q,
                        ) && atom_owned(self.table@[i as int], el as int, q) == fresh_free(
                            el as int / 512,
                            lo as int,
                            hi as int,
                            q,
                        ) by {
                        assert(child_el as int == el as int / 512);
                        assert(flat_free(child.table, child_el as int, q) == fresh_free(
                            child_el as int,
                            lo as int,
                            hi as int,
                            q,
                        ));
                        assert(flat_held(child.table, child_el as int, q) == fresh_free(
                            child_el as int,
                            lo as int,
                            hi as int,
                            q,
                        ));
                        assert(flat_owned(child.table, child_el as int, q) == fresh_free(
                            child_el as int,
                            lo as int,
                            hi as int,
                            q,
                        ));
                    }
                }
                self.dirty_tables = if self.dirty_tables < usize::MAX {
                    self.dirty_tables + 1
                } else {
                    usize::MAX
                };
            },
            other => {
                self.table.set(i, other);
            },
        }
        proof {
            assert(self.table@.len() == TABLE_SIZE);
            assert forall|j: int| 0 <= j < TABLE_SIZE implies atom_wf(
                #[trigger] self.table@[j],
                el as int,
            ) by {
                if j != i {
                    assert(self.table@[j] == t0.table@[j]);
                }
            }
        }
    }
}

/// Counting after a range of indexes was added.
proof fn lemma_count_add_range(k: int, f: spec_fn(int) -> bool, g: spec_fn(int) -> bool, lo: int, hi: int)
    requires
        0 <= lo <= hi <= k,
        forall|j: int| 0 <= j < k ==> #[trigger] g(j) == (f(j) || (lo <= j < hi)),
        forall|j: int| lo <= j < hi ==> !#[trigger] f(j),
    ensures
        count_where(k, g) == count_where(k, f) + (hi - lo),
    decreases k,
{
    if k > 0 {
        if k - 1 >= hi {
            lemma_count_add_range(k - 1, f, g, lo, hi);
        } else if k - 1 >= lo {
            lemma_count_add_range(k - 1, f, g, lo, k - 1);
        } else {
            lemma_count_same(k - 1, f, g);
        }
    }
}

/// Where the entries the populated range starts and ends in part-way, and the whole ones,
/// lie in the table.
proof fn lemma_populate_indexes(el: int, s: int, e: int)
    requires
        flat_size_ok(el),
        0 <= s < e <= TABLE_SIZE * el,
    ensures
        0 <= s / el < TABLE_SIZE,
        e % el != 0 ==> e / el < TABLE_SIZE,
        e / el <= TABLE_SIZE,
        s / el <= div_ceil(s, el),
        s % el != 0 ==> s / el < div_ceil(s, el),
        s % el != 0 ==> s % el < start_edge_end(el, e) <= el,
        s % el != 0 && e < el ==> s / el == 0,
        e % el != 0 ==> 0 < e % el < el,
{
    lemma_flat_sizes(el);
    lemma_lex(s, TABLE_SIZE * el, el);
    lemma_lex(e, TABLE_SIZE * el, el);
    lemma_lex(s, e, el);
    vstd::arithmetic::div_mod::lemma_fundamental_div_mod_converse(TABLE_SIZE * el, el, 512, 0);
    if s % el != 0 && e < el {
        vstd::arithmetic::div_mod::lemma_fundamental_div_mod_converse(s, el, 0, s);
    }
}

/// A byte before `e` lies in an entry before the first one wholly past `e`, and so does `e`
/// where it falls inside an entry.
proof fn lemma_before_ceiling(s: int, e: int, el: int)
    requires
        0 <= s < e,
        el > 0,
    ensures
        s / el < div_ceil(e, el),
        s / el <= e / el,
        e % el != 0 ==> e / el < div_ceil(e, el),
        e / el <= div_ceil(e, el),
{
    lemma_lex(s, e, el);
}

/// Entries wholly past a smaller byte start no later.
proof fn lemma_div_ceil_mono(a: int, b: int, el: int)
    requires
        0 <= a <= b,
        el > 0,
    ensures
        div_ceil(a, el) <= div_ceil(b, el),
        a / el <= b / el,
{
    if a < b {
        lemma_lex(a, b, el);
    }
}

/// A table ready for memory from byte `b` on takes any range that starts at or after `b`
/// and stays tidy.
pub proof fn lemma_ready_fits(t: MemoryTable<TableFlat>, b: int, s: int, e: int)
    requires
        t.inv(),
        t.ready_after(b),
        0 <= b <= s < e <= TABLE_SIZE * t.element_size(),
    ensures
        t.fits(s, e),
{
    let el = t.element_size() as int;
    lemma_flat_sizes(el);
    lemma_populate_indexes(el, s, e);
    lemma_div_ceil_mono(b, s, el);
    lemma_div_ceil_mono(b, e, el);
    if s % el != 0 && s / el < div_ceil(b, el) {
        assert(b % el != 0);
        assert(s / el == b / el);
    }
    if e % el != 0 && e / el < TABLE_SIZE && e / el < div_ceil(b, el) {
        assert(b % el != 0);
        assert(e / el == b / el);
    }
    assert forall|i: int| div_ceil(s, el) <= i < e / el && 0 <= i < TABLE_SIZE implies !#[trigger] t.table.available@[i] by {
        assert(t.table.table@[i] is NotAllocated);
    }
}

/// The pages a populated table hands out, holds and owns, from how its entries changed.
proof fn lemma_populate_pages(
    t0: TableFlat,
    t1: TableFlat,
    t2: TableFlat,
    t3: TableFlat,
    el: int,
    s: int,
    e: int,
)
    requires
        flat_size_ok(el),
        flat_wf(t0, el),
        0 <= s < e <= TABLE_SIZE * el,
        s % el != 0 ==> edge_done(t0, t1, el, s / el, s % el, start_edge_end(el, e)),
        s % el == 0 ==> t1 == t0,
        e % el != 0 ==> edge_done(t1, t2, el, e / el, 0, e % el),
        e % el == 0 ==> t2 == t1,
        t3.table@.len() == TABLE_SIZE,
        t3.available@.len() == TABLE_SIZE,
        forall|j: int|
            0 <= j < TABLE_SIZE ==> if div_ceil(s, el) <= j < e / el {
                (#[trigger] t3.table@[j]) is Present && t3.available@[j]
            } else {
                t3.table@[j] == t2.table@[j] && t3.available@[j] == t2.available@[j]
            },
    ensures
        forall|p: int| #[trigger]
            flat_free(t3, el, p) == populated_free(t0, el, s, e, p),
        forall|p: int| #[trigger]
            flat_held(t3, el, p) == populated_held(t0, el, s, e, p),
        forall|p: int| #[trigger]
            flat_owned(t3, el, p) == populated_owned(t0, el, s, e, p),
{
    lemma_populate_indexes(el, s, e);
    assert forall|p: int|
        flat_free(t3, el, p) == populated_free(t0, el, s, e, p) && flat_held(t3, el, p)
            == populated_held(t0, el, s, e, p) && flat_owned(t3, el, p) == populated_owned(
            t0,
            el,
            s,
            e,
            p,
        ) by {
        if in_span(el, p) {
            lemma_entry_bounds(el, p);
            let i = entry_of(el, p);
            let q = place_in(el, p);
            assert(t0.available@.len() == TABLE_SIZE);
            if s % el != 0 && i == s / el {
                assert(t3.table@[i] == t2.table@[i]);
                if e % el != 0 && i == e / el {
                    assert(!(t1.table@[i] is NotAllocated));
                    assert(t2.table@[i] == t1.table@[i]);
                } else if e % el != 0 {
                    assert(t2.table@[i] == t1.table@[i]);
                }
                assert(t3.table@[i] == t1.table@[i]);
                assert(t3.available@[i]);
                if t0.table@[i] is NotAllocated {
                    assert(atom_free(t1.table@[i], el, q) == fresh_free(
                        el / 512,
                        s % el,
                        start_edge_end(el, e),
                        q,
                    ));
                } else {
                    assert(t1.table@[i] == t0.table@[i]);
                }
            } else if e % el != 0 && i == e / el {
                assert(t3.table@[i] == t2.table@[i]);
                if s % el != 0 {
                    assert(t1.table@[i] == t0.table@[i]);
                }
                assert(t1.table@[i] == t0.table@[i]);
                assert(t3.available@[i]);
                if t0.table@[i] is NotAllocated {
                    assert(atom_free(t2.table@[i], el, q) == fresh_free(el / 512, 0, e % el, q));
                } else {
                    assert(t2.table@[i] == t1.table@[i]);
                }
            } else if div_ceil(s, el) <= i < e / el {
            } else {
                assert(t3.table@[i] == t2.table@[i]);
                if e % el != 0 {
                    assert(t2.table@[i] == t1.table@[i]);
                }
                if s % el != 0 {
                    assert(t1.table@[i] == t0.table@[i]);
                }
                assert(t3.available@[i] == t0.available@[i]);
            }
        }
    }
}

/// One entry changed from `t0` to `t1`: the counts of whole and of table entries change by
/// what that entry was and is.
proof fn lemma_counts_update(t0: TableFlat, t1: TableFlat, i: int)
    requires
        0 <= i < TABLE_SIZE,
        forall|j: int|
            0 <= j < TABLE_SIZE && j != i ==> #[trigger] t1.table@[j] == t0.table@[j]
                && t1.available@[j] == t0.available@[j],
    ensures
        whole_count(t1) + (if is_whole(t0, i) {
            1int
        } else {
            0int
        }) == whole_count(t0) + (if is_whole(t1, i) {
            1int
        } else {
            0int
        }),
        part_count(t1) + (if is_part(t0, i) {
            1int
        } else {
            0int
        }) == part_count(t0) + (if is_part(t1, i) {
            1int
        } else {
            0int
        }),
{
    assert forall|j: int| 0 <= j < TABLE_SIZE && j != i implies #[trigger] whole_at(t0)(j)
        == whole_at(t1)(j) && part_at(t0)(j) == part_at(t1)(j) by {
        assert(t1.table@[j] == t0.table@[j]);
    }
    lemma_count_update(TABLE_SIZE as int, whole_at(t0), whole_at(t1), i);
    lemma_count_update(TABLE_SIZE as int, part_at(t0), part_at(t1), i);
}

/// Populating a tidy table over entries that fit leaves it tidy.
proof fn lemma_populate_tidy(
    t0: TableFlat,
    t1: TableFlat,
    t2: TableFlat,
    t3: TableFlat,
    el: int,
    s: int,
    e: int,
)
    requires
        flat_size_ok(el),
        flat_tidy(t0, el),
        populate_fits(t0, el, s, e),
        0 <= s < e <= TABLE_SIZE * el,
        s % el != 0 ==> edge_done(t0, t1, el, s / el, s % el, start_edge_end(el, e)),
        s % el == 0 ==> t1 == t0,
        e % el != 0 ==> edge_done(t1, t2, el, e / el, 0, e % el),
        e % el == 0 ==> t2 == t1,
        flat_wf(t3, el),
        forall|j: int|
            0 <= j < TABLE_SIZE ==> if div_ceil(s, el) <= j < e / el {
                (#[trigger] t3.table@[j]) is Present && t3.available@[j]
            } else {
                t3.table@[j] == t2.table@[j] && t3.available@[j] == t2.available@[j]
            },
        t3.healthy_tables == sat_add(t2.healthy_tables as int, whole_made(el, s, e)),
        t3.dirty_tables == t2.dirty_tables,
    ensures
        flat_tidy(t3, el),
        t3.healthy_tables == sat_add(t0.healthy_tables as int, whole_made(el, s, e)),
        t3.dirty_tables == sat_add(t0.dirty_tables as int, tables_made(t0, el, s, e)),
{
    lemma_populate_indexes(el, s, e);
    lemma_count_bound(TABLE_SIZE as int, whole_at(t0));
    lemma_count_bound(TABLE_SIZE as int, part_at(t0));
    let is = s / el;
    let ie = e / el;
    // the entry the range starts in part-way
    if s % el != 0 {
        lemma_counts_update(t0, t1, is);
        assert(t0.available@.len() == TABLE_SIZE);
        if t0.table@[is] is NotAllocated {
            assert(is_part(t1, is) && !is_whole(t1, is) && !is_part(t0, is) && !is_whole(t0, is));
        } else {
            assert(t0.available@[is]);
            assert(t1.available@[is]);
            assert(t1.table@[is] == t0.table@[is]);
        }
    }
    assert(whole_count(t1) == whole_count(t0));
    assert(part_count(t1) == part_count(t0) + (if s % el != 0 && t0.table@[is] is NotAllocated {
        1int
    } else {
        0int
    }));
    // the entry the range ends in part-way
    if e % el != 0 {
        lemma_counts_update(t1, t2, ie);
        if s % el != 0 && is == ie {
            assert(!(t1.table@[ie] is NotAllocated));
            assert(t1.available@[ie]);
        } else if s % el != 0 {
            assert(t1.table@[ie] == t0.table@[ie]);
            assert(t1.available@[ie] == t0.available@[ie]);
        }
        if t1.table@[ie] is NotAllocated {
            assert(is_part(t2, ie) && !is_whole(t2, ie) && !is_part(t1, ie) && !is_whole(t1, ie));
        } else {
            assert(t1.available@[ie]);
            assert(t2.available@[ie]);
            assert(t2.table@[ie] == t1.table@[ie]);
        }
    }
    assert(whole_count(t2) == whole_count(t0));
    assert(part_count(t2) == part_count(t0) + tables_made(t0, el, s, e));
    // the whole entries
    let a0 = div_ceil(s, el);
    let a1 = ie;
    assert forall|j: int| 0 <= j < TABLE_SIZE implies #[trigger] whole_at(t3)(j) == (whole_at(
        t2,
    )(j) || (a0 <= j < a1)) && part_at(t3)(j) == part_at(t2)(j) by {
        if a0 <= j < a1 {
            assert(!t0.available@[j]);
            if s % el != 0 {
                assert(t1.available@[j] == t0.available@[j]);
            }
            if e % el != 0 {
                assert(t2.available@[j] == t1.available@[j]);
            }
            assert(!t2.available@[j]);
        }
    }
    if a0 < a1 {
        assert forall|j: int| a0 <= j < a1 implies !#[trigger] whole_at(t2)(j) by {
            assert(!t0.available@[j]);
            if s % el != 0 {
                assert(t1.available@[j] == t0.available@[j]);
            }
            if e % el != 0 {
                assert(t2.available@[j] == t1.available@[j]);
            }
        }
        lemma_count_add_range(TABLE_SIZE as int, whole_at(t2), whole_at(t3), a0, a1);
    } else {
        lemma_count_same(TABLE_SIZE as int, whole_at(t2), whole_at(t3));
    }
    lemma_count_same(TABLE_SIZE as int, part_at(t2), part_at(t3));
    // every entry marked available is tidy
    assert forall|i: int| 0 <= i < TABLE_SIZE && t3.available@[i] implies atom_tidy(
        #[trigger] t3.table@[i],
        el,
    ) by {
        if !(a0 <= i < a1) {
            assert(t3.table@[i] == t2.table@[i]);
            if s % el != 0 && i == is {
                if e % el != 0 && i == ie {
                    assert(t2.table@[i] == t1.table@[i]);
                } else if e % el != 0 {
                    assert(t2.table@[i] == t1.table@[i]);
                }
                if !(t0.table@[i] is NotAllocated) {
                    assert(t0.available@[i]);
                }
            } else if e % el != 0 && i == ie {
                if s % el != 0 {
                    assert(t1.table@[i] == t0.table@[i]);
                }
                if !(t1.table@[i] is NotAllocated) {
                    assert(t0.available@[i]);
                    assert(t2.table@[i] == t1.table@[i]);
                }
            } else {
                if e % el != 0 {
                    assert(t2.table@[i] == t1.table@[i]);
                    assert(t2.available@[i] == t1.available@[i]);
                }
                if s % el != 0 {
                    assert(t1.table@[i] == t0.table@[i]);
                    assert(t1.available@[i] == t0.available@[i]);
                }
                assert(t0.available@[i]);
            }
        }
    }
}

impl TableFlat {
    #[verifier::spinoff_prover]
    #[verifier::rlimit(100)]
    /// Hand the pages of `[start_ptr, end_ptr)` (relative to the table) to the table: the
    /// entries the range covers whole become whole, and the entries it covers in part get a
    /// table below with their part. The result is what the table reports as its size.
    fn populate_flat(
        &mut self,
        el: usize,
        start_ptr: PhysAddr<AlignedTo<4096>>,
        end_ptr: PhysAddr<AlignedTo<4096>>,
    ) -> (r: Result<usize, MemoryError>)
        requires
            flat_size_ok(el as int),
            flat_wf(*old(self), el as int),
            start_ptr@ < end_ptr@ <= TABLE_SIZE * el,
            start_ptr@ % 4096 == 0,
            end_ptr@ % 4096 == 0,
        ensures
            flat_wf(*final(self), el as int),
            forall|p: int| #[trigger]
                flat_free(*final(self), el as int, p) == populated_free(
                    *old(self),
                    el as int,
                    start_ptr@ as int,
                    end_ptr@ as int,
                    p,
                ),
            forall|p: int| #[trigger]
                flat_held(*final(self), el as int, p) == populated_held(
                    *old(self),
                    el as int,
                    start_ptr@ as int,
                    end_ptr@ as int,
                    p,
                ),
            forall|p: int| #[trigger]
                flat_owned(*final(self), el as int, p) == populated_owned(
                    *old(self),
                    el as int,
                    start_ptr@ as int,
                    end_ptr@ as int,
                    p,
                ),
            final(self).healthy_tables == sat_add(
                old(self).healthy_tables as int,
                whole_made(el as int, start_ptr@ as int, end_ptr@ as int),
            ),
            final(self).dirty_tables == sat_add(
                old(self).dirty_tables as int,
                tables_made(*old(self), el as int, start_ptr@ as int, end_ptr@ as int),
            ),
            r == Ok::<usize, MemoryError>(flat_new_size(*final(self)) as usize),
            flat_tidy(*old(self), el as int) && populate_fits(
                *old(self),
                el as int,
                start_ptr@ as int,
                end_ptr@ as int,
            ) ==> flat_tidy(*final(self), el as int),
            forall|j: int|
                div_ceil(end_ptr@ as int, el as int) <= j < TABLE_SIZE ==> #[trigger] final(self).table@[j] == old(self).table@[j] && final(self).available@[j] == old(self).available@[j],
            end_ptr@ % el != 0 ==> final(self).available@[(end_ptr@ / el) as int],
        decreases el, 2nat,
    {
        proof {
            lemma_flat_sizes(el as int);
            lemma_populate_indexes(el as int, start_ptr@ as int, end_ptr@ as int);
        }
        let start = start_ptr.addr();
        let end = end_ptr.addr();
        let ghost t0 = *self;
        if start % el != 0 {
            let rel_start = start % el;
            let rel_end = if end < el {
                end
            } else {
                el
            };
            let elements = (rel_end - rel_start) / el / TABLE_SIZE;
            proof {
                lemma_bytes_pages(start as int, (el / 4096) as int);
                if end < el {
                } else {
                }
            }
            self.populate_edge(el, start / el, rel_start, rel_end, elements);
        }
        let ghost t1 = *self;
        if end % el != 0 {
            let rel_end = end % el;
            let elements = rel_end / (el / TABLE_SIZE);
            proof {
                lemma_bytes_pages(end as int, (el / 4096) as int);
            }
            self.populate_edge(el, end / el, 0, rel_end, elements);
        }
        let ghost t2 = *self;
        let atom_start = if start % el == 0 {
            start / el
        } else {
            start / el + 1
        };
        let atom_end = end / el;
        let made = if atom_end > atom_start {
            atom_end - atom_start
        } else {
            0
        };
        self.healthy_tables = if self.healthy_tables <= usize::MAX - made {
            self.healthy_tables + made
        } else {
            usize::MAX
        };
        let mut idx = atom_start;
        while idx < atom_end
            invariant
                atom_start <= idx,
                idx <= atom_end || idx == atom_start,
                atom_end <= TABLE_SIZE,
                atom_start == div_ceil(start as int, el as int),
                atom_end == end / el,
                self.table@.len() == TABLE_SIZE,
                self.available@.len() == TABLE_SIZE,
                t2.table@.len() == TABLE_SIZE,
                t2.available@.len() == TABLE_SIZE,
                forall|j: int|
                    0 <= j < TABLE_SIZE ==> if atom_start <= j < idx {
                        (#[trigger] self.table@[j]) is Present && self.available@[j]
                    } else {
                        self.table@[j] == t2.table@[j] && self.available@[j] == t2.available@[j]
                    },
                self.healthy_tables == sat_add(t2.healthy_tables as int, made as int),
                self.dirty_tables == t2.dirty_tables,
            decreases atom_end - idx,
        {
            self.available.set(idx, true);
            self.table.set(idx, TableElementKind::Present);
            idx = idx + 1;
        }
        proof {
            assert(forall|j: int|
                0 <= j < TABLE_SIZE ==> if div_ceil(start as int, el as int) <= j < end / el {
                    (#[trigger] self.table@[j]) is Present && self.available@[j]
                } else {
                    self.table@[j] == t2.table@[j] && self.available@[j] == t2.available@[j]
                });
            assert forall|j: int| 0 <= j < TABLE_SIZE implies atom_wf(
                #[trigger] self.table@[j],
                el as int,
            ) by {
                if !(atom_start <= j < atom_end) {
                    assert(self.table@[j] == t2.table@[j]);
                    if end % el != 0 && j != end / el {
                        assert(t2.table@[j] == t1.table@[j]);
                    }
                    if start % el != 0 && j != start / el {
                        assert(t1.table@[j] == t0.table@[j]);
                    }
                }
            }
            lemma_populate_pages(t0, t1, t2, *self, el as int, start as int, end as int);
            lemma_before_ceiling(start as int, end as int, el as int);
            assert forall|j: int| end / el <= j < TABLE_SIZE implies #[trigger] self.table@[j]
                == t2.table@[j] && self.available@[j] == t2.available@[j] by {
                assert(0 <= end / el);
                assert(!(div_ceil(start as int, el as int) <= j < end / el));
                if self.table@[j] == t2.table@[j] {
                } else {
                    assert(self.table@[j] is Present);
                }
            }
            assert forall|j: int| div_ceil(end as int, el as int) <= j < TABLE_SIZE implies #[trigger] self.table@[j]
                == t0.table@[j] && self.available@[j] == t0.available@[j] by {
                assert((end / el) as int <= div_ceil(end as int, el as int));
                assert(end / el <= j);
                assert(self.table@[j] == t2.table@[j]);
                assert(self.available@[j] == t2.available@[j]);
                if end % el != 0 {
                    assert(t2.table@[j] == t1.table@[j] && t2.available@[j] == t1.available@[j]);
                }
                if start % el != 0 {
                    assert(t1.table@[j] == t0.table@[j] && t1.available@[j] == t0.available@[j]);
                }
            }
            assert(end == end_ptr@ && t0 == *old(self));
            assert(forall|j: int|
                div_ceil(end_ptr@ as int, el as int) <= j < TABLE_SIZE ==> #[trigger] self.table@[j]
                    == old(self).table@[j] && self.available@[j] == old(self).available@[j]);
            if end % el != 0 {
                assert(t2.available@[(end / el) as int]);
                assert(self.table@[(end / el) as int] == t2.table@[(end / el) as int]);
                assert(self.available@[(end / el) as int] == t2.available@[(end / el) as int]);
            }
            if flat_tidy(t0, el as int) && populate_fits(t0, el as int, start as int, end as int) {
                lemma_populate_tidy(t0, t1, t2, *self, el as int, start as int, end as int);
            }
        }
        let h = self.healthy_tables;
        let d = self.dirty_tables;
        Ok(
            if h > 0 {
                h
            } else if d > 0 {
                1
            } else {
                0
            },
        )
    }
}

/// A page handed out of a table of pages lowers its count of marked pages by one.
proof fn lemma_bits_taken(b0: TableBits, b1: TableBits, q: int)
    requires
        b0.inv(4096),
        b1.inv(4096),
        b0.available().contains(q),
        b1.available() == b0.available().remove(q),
    ensures
        b1.free_count() + 1 == b0.free_count(),
{
    assert forall|j: int| 0 <= j < TABLE_SIZE && j != q implies #[trigger] bits_flags(b0)(j)
        == bits_flags(b1)(j) by {
        assert(b0.available().contains(j) == bits_flags(b0)(j));
        assert(b1.available().contains(j) == bits_flags(b1)(j));
    }
    assert(b0.available().contains(q) == bits_flags(b0)(q));
    assert(!b1.available().contains(q));
    assert(b1.available().contains(q) == bits_flags(b1)(q));
    lemma_count_update(TABLE_SIZE as int, bits_flags(b0), bits_flags(b1), q);
}

/// What a table below reports, checked against the pages it holds: for a tidy table, its
/// size is zero exactly where it has nothing left to hand out.
spec fn atom_size_of(a: TableElementKind) -> nat {
    match a {
        TableElementKind::TableFlat { table, .. } => flat_new_size(table.table),
        TableElementKind::TableBits { table, .. } => table.table.atoms(),
        _ => 0,
    }
}

/// What handing out page `q` of entry `a0` left in `a1`, reporting `size`: the page was
/// the entry's lowest free one; no page became free, and the page is no longer held; the
/// owned pages stay; and, for a tidy entry, exactly the page stopped being free, the new
/// entry is tidy where its size is above zero, and nothing is left where it is zero.
spec fn child_step(a0: TableElementKind, a1: TableElementKind, el: int, q: int, size: usize) -> bool {
    let n = el / 4096;
    &&& 0 <= q < n
    &&& atom_free(a0, el, q)
    &&& forall|x: int| 0 <= x < n && #[trigger] atom_free(a0, el, x) ==> q <= x
    &&& forall|x: int| 0 <= x < n && #[trigger] atom_free(a1, el, x) ==> atom_free(a0, el, x) && x != q
    &&& forall|x: int| 0 <= x < n ==> #[trigger] atom_held(a1, el, x) == (atom_held(a0, el, x) && x != q)
    &&& forall|x: int| 0 <= x < n ==> #[trigger] atom_owned(a1, el, x) == atom_owned(a0, el, x)
    &&& atom_wf(a1, el)
    &&& (a1 is TableFlat || a1 is TableBits)
    &&& size == atom_size_of(a1)
    &&& atom_tidy(a0, el) ==> {
        &&& a0 is Present ==> size > 0
        &&& size > 0 ==> atom_tidy(a1, el)
        &&& forall|x: int| 0 <= x < n ==> #[trigger] atom_free(a1, el, x) == (atom_free(a0, el, x) && x != q)
        &&& size == 0 ==> forall|x: int| 0 <= x < n && #[trigger] atom_free(a0, el, x) ==> x == q
    }
}

/// The pages of the table after one was handed out of entry `i`, the first entry marked
/// available.
proof fn lemma_request_result(t0: TableFlat, t1: TableFlat, el: int, i: int, q: int, size: usize)
    requires
        flat_size_ok(el),
        flat_wf(t0, el),
        0 <= i < TABLE_SIZE,
        t0.available@[i],
        forall|j: int| 0 <= j < i ==> !#[trigger] t0.available@[j],
        t1.table@.len() == TABLE_SIZE,
        t1.available@.len() == TABLE_SIZE,
        forall|j: int|
            0 <= j < TABLE_SIZE && j != i ==> #[trigger] t1.table@[j] == t0.table@[j]
                && t1.available@[j] == t0.available@[j],
        child_step(t0.table@[i], t1.table@[i], el, q, size),
        t1.available@[i] == (size != 0),
    ensures
        ({
            let p = i * (el / 4096) + q;
            &&& flat_free(t0, el, p)
            &&& forall|x: int| #[trigger] flat_free(t0, el, x) ==> p <= x
            &&& forall|x: int| #[trigger] flat_free(t1, el, x) ==> flat_free(t0, el, x) && x != p
            &&& forall|x: int| #[trigger] flat_held(t1, el, x) == (flat_held(t0, el, x) && x != p)
            &&& forall|x: int| #[trigger] flat_owned(t1, el, x) == flat_owned(t0, el, x)
            &&& atom_tidy(t0.table@[i], el) ==> forall|x: int| #[trigger]
                flat_free(t1, el, x) == (flat_free(t0, el, x) && x != p)
        }),
{
    lemma_flat_sizes(el);
    let n = el / 4096;
    let p = i * n + q;
    lemma_page_at(el, i, q);
    assert(flat_free(t0, el, p));
    assert forall|x: int| #[trigger] flat_free(t0, el, x) implies p <= x by {
        lemma_entry_bounds(el, x);
        let j = entry_of(el, x);
        let y = place_in(el, x);
        assert(t0.available@[j]);
        if j == i {
            assert(atom_free(t0.table@[i], el, y));
            assert(q <= y);
        } else {
            assert(j > i);
            assert((i + 1) * n <= j * n) by (nonlinear_arith)
                requires
                    i + 1 <= j,
                    n > 0,
            ;
            assert((i + 1) * n == i * n + n) by (nonlinear_arith);
        }
    }
    assert forall|x: int|
        #![trigger flat_free(t1, el, x)]
        #![trigger flat_held(t1, el, x)]
        #![trigger flat_owned(t1, el, x)]
        (flat_free(t1, el, x) ==> flat_free(t0, el, x) && x != p) && (flat_held(t1, el, x)
            == (flat_held(t0, el, x) && x != p)) && (flat_owned(t1, el, x) == flat_owned(t0, el, x))
            && (atom_tidy(t0.table@[i], el) ==> flat_free(t1, el, x) == (flat_free(t0, el, x) && x
            != p)) by {
        if in_span(el, x) {
            lemma_entry_bounds(el, x);
            let j = entry_of(el, x);
            let y = place_in(el, x);
            if j == i {
                assert(x == p <==> y == q);
                assert(flat_free(t1, el, x) == (t1.available@[i] && atom_free(t1.table@[i], el, y)));
                assert(flat_free(t0, el, x) == atom_free(t0.table@[i], el, y));
                assert(flat_held(t1, el, x) == atom_held(t1.table@[i], el, y));
                assert(flat_held(t0, el, x) == atom_held(t0.table@[i], el, y));
                assert(flat_owned(t1, el, x) == atom_owned(t1.table@[i], el, y));
                assert(flat_owned(t0, el, x) == atom_owned(t0.table@[i], el, y));
                if atom_free(t1.table@[i], el, y) {
                    assert(atom_free(t0.table@[i], el, y) && y != q);
                }
                assert(atom_held(t1.table@[i], el, y) == (atom_held(t0.table@[i], el, y) && y != q));
                assert(atom_owned(t1.table@[i], el, y) == atom_owned(t0.table@[i], el, y));
                if atom_tidy(t0.table@[i], el) {
                    assert(atom_free(t1.table@[i], el, y) == (atom_free(t0.table@[i], el, y) && y
                        != q));
                    if size == 0 && atom_free(t0.table@[i], el, y) {
                        assert(y == q);
                    }
                }
            } else {
                assert(t1.table@[j] == t0.table@[j]);
                assert(x != p);
            }
        } else {
            assert(x != p);
        }
    }
}

/// Handing a page out of a tidy table leaves it tidy, where the counts moved with the
/// entry that served it.
proof fn lemma_request_tidy(t0: TableFlat, t1: TableFlat, el: int, i: int, q: int, size: usize)
    requires
        flat_size_ok(el),
        flat_tidy(t0, el),
        flat_wf(t1, el),
        0 <= i < TABLE_SIZE,
        t0.available@[i],
        forall|j: int|
            0 <= j < TABLE_SIZE && j != i ==> #[trigger] t1.table@[j] == t0.table@[j]
                && t1.available@[j] == t0.available@[j],
        child_step(t0.table@[i], t1.table@[i], el, q, size),
        t1.available@[i] == (size != 0),
        t1.healthy_tables == (if t0.table@[i] is Present {
            t0.healthy_tables - 1
        } else {
            t0.healthy_tables as int
        }),
        t1.dirty_tables == (if t0.table@[i] is Present {
            t0.dirty_tables + 1
        } else {
            t0.dirty_tables as int
        }) - (if size == 0 {
            1int
        } else {
            0int
        }),
    ensures
        flat_tidy(t1, el),
{
    assert(atom_tidy(t0.table@[i], el));
    lemma_counts_update(t0, t1, i);
    assert forall|j: int| 0 <= j < TABLE_SIZE && t1.available@[j] implies atom_tidy(
        #[trigger] t1.table@[j],
        el,
    ) by {
        if j != i {
            assert(t1.table@[j] == t0.table@[j]);
        }
    }
}

/// The table hands out, holds and owns the same pages as before.
spec fn flat_same_pages(t0: TableFlat, t1: TableFlat, el: int) -> bool {
    &&& forall|p: int| #[trigger] flat_free(t1, el, p) == flat_free(t0, el, p)
    &&& forall|p: int| #[trigger] flat_held(t1, el, p) == flat_held(t0, el, p)
    &&& forall|p: int| #[trigger] flat_owned(t1, el, p) == flat_owned(t0, el, p)
}

/// The table hands out, holds and owns the same pages as before, with the same counts.
spec fn flat_unchanged(t0: TableFlat, t1: TableFlat, el: int) -> bool {
    &&& flat_same_pages(t0, t1, el)
    &&& t1.healthy_tables == t0.healthy_tables
    &&& t1.dirty_tables == t0.dirty_tables
}

/// An entry that holds a table that changed by nothing it hands out, holds or owns.
proof fn lemma_entry_unchanged(t0: TableFlat, t1: TableFlat, el: int, i: int)
    requires
        flat_size_ok(el),
        flat_wf(t0, el),
        0 <= i < TABLE_SIZE,
        t1.table@.len() == TABLE_SIZE,
        t1.available@ == t0.available@,
        forall|j: int| 0 <= j < TABLE_SIZE && j != i ==> #[trigger] t1.table@[j] == t0.table@[j],
        forall|x: int|
            #![trigger atom_free(t1.table@[i], el, x)]
            #![trigger atom_held(t1.table@[i], el, x)]
            #![trigger atom_owned(t1.table@[i], el, x)]
            atom_free(t1.table@[i], el, x) == atom_free(t0.table@[i], el, x) && atom_held(
                t1.table@[i],
                el,
                x,
            ) == atom_held(t0.table@[i], el, x) && atom_owned(t1.table@[i], el, x) == atom_owned(
                t0.table@[i],
                el,
                x,
            ),
    ensures
        flat_same_pages(t0, t1, el),
{
    assert forall|p: int|
        #![trigger flat_free(t1, el, p)]
        #![trigger flat_held(t1, el, p)]
        #![trigger flat_owned(t1, el, p)]
        flat_free(t1, el, p) == flat_free(t0, el, p) && flat_held(t1, el, p) == flat_held(t0, el, p)
            && flat_owned(t1, el, p) == flat_owned(t0, el, p) by {
        if in_span(el, p) {
            lemma_entry_bounds(el, p);
            let j = entry_of(el, p);
            let y = place_in(el, p);
            if j != i {
                assert(t1.table@[j] == t0.table@[j]);
            } else {
                assert(atom_free(t1.table@[i], el, y) == atom_free(t0.table@[i], el, y));
                assert(atom_held(t1.table@[i], el, y) == atom_held(t0.table@[i], el, y));
                assert(atom_owned(t1.table@[i], el, y) == atom_owned(t0.table@[i], el, y));
            }
        }
    }
}

/// The table took page `p` back: it holds it free again, hands it out where the marks on
/// its way allow, and owns and marks the same pages as before.
spec fn flat_took_back(t0: TableFlat, t1: TableFlat, el: int, p: int) -> bool {
    &&& forall|x: int| #[trigger] flat_owned(t1, el, x) == flat_owned(t0, el, x)
    &&& forall|x: int| #[trigger] flat_held(t1, el, x) == (flat_held(t0, el, x) || x == p)
    &&& forall|x: int|
        #[trigger] flat_free(t1, el, x) == (flat_free(t0, el, x) || (x == p && flat_marked(
            t0,
            el,
            p,
        )))
    &&& forall|x: int| #[trigger] flat_marked(t1, el, x) == flat_marked(t0, el, x)
}

/// An entry whose table took back the page at place `q` makes the table take back page `p`.
proof fn lemma_entry_took_back(t0: TableFlat, t1: TableFlat, el: int, p: int)
    requires
        flat_size_ok(el),
        flat_wf(t0, el),
        in_span(el, p),
        t1.table@.len() == TABLE_SIZE,
        t1.available@ == t0.available@,
        forall|j: int|
            0 <= j < TABLE_SIZE && j != entry_of(el, p) ==> #[trigger] t1.table@[j] == t0.table@[j],
        forall|y: int|
            #![trigger atom_free(t1.table@[entry_of(el, p)], el, y)]
            #![trigger atom_held(t1.table@[entry_of(el, p)], el, y)]
            #![trigger atom_owned(t1.table@[entry_of(el, p)], el, y)]
            #![trigger atom_marked(t1.table@[entry_of(el, p)], el, y)]
            {
                let a0 = t0.table@[entry_of(el, p)];
                let a1 = t1.table@[entry_of(el, p)];
                let q = place_in(el, p);
                &&& atom_owned(a1, el, y) == atom_owned(a0, el, y)
                &&& atom_held(a1, el, y) == (atom_held(a0, el, y) || y == q)
                &&& atom_free(a1, el, y) == (atom_free(a0, el, y) || (y == q && atom_marked(a0, el, q)))
                &&& atom_marked(a1, el, y) == atom_marked(a0, el, y)
            },
    ensures
        flat_took_back(t0, t1, el, p),
{
    lemma_entry_bounds(el, p);
    let i = entry_of(el, p);
    let q = place_in(el, p);
    let a0 = t0.table@[i];
    let a1 = t1.table@[i];
    assert(atom_marked(a1, el, q) == atom_marked(a0, el, q));
    assert forall|x: int|
        #![trigger flat_free(t1, el, x)]
        #![trigger flat_held(t1, el, x)]
        #![trigger flat_owned(t1, el, x)]
        #![trigger flat_marked(t1, el, x)]
        flat_owned(t1, el, x) == flat_owned(t0, el, x) && flat_held(t1, el, x) == (flat_held(t0, el, x)
            || x == p) && flat_free(t1, el, x) == (flat_free(t0, el, x) || (x == p && flat_marked(
            t0,
            el,
            p,
        ))) && flat_marked(t1, el, x) == flat_marked(t0, el, x) by {
        if in_span(el, x) {
            lemma_entry_bounds(el, x);
            let j = entry_of(el, x);
            let y = place_in(el, x);
            if j != i {
                assert(t1.table@[j] == t0.table@[j]);
                assert(x != p);
            } else {
                assert(atom_owned(a1, el, y) == atom_owned(a0, el, y));
                assert(atom_held(a1, el, y) == (atom_held(a0, el, y) || y == q));
                assert(atom_free(a1, el, y) == (atom_free(a0, el, y) || (y == q && atom_marked(a0, el, q))));
                assert(atom_marked(a1, el, y) == atom_marked(a0, el, y));
                assert(x == p <==> y == q);
            }
        } else {
            assert(x != p);
        }
    }
}

/// Two entries hand out, hold and own the same pages.
spec fn atom_same(a0: TableElementKind, a1: TableElementKind, el: int) -> bool {
    forall|x: int|
        #![trigger atom_free(a1, el, x)]
        #![trigger atom_held(a1, el, x)]
        #![trigger atom_owned(a1, el, x)]
        atom_free(a1, el, x) == atom_free(a0, el, x) && atom_held(a1, el, x) == atom_held(a0, el, x)
            && atom_owned(a1, el, x) == atom_owned(a0, el, x)
}

impl TableFlat {
    /// Split a whole entry: make the table below it, full, and hand out its first page.
    fn split_whole(el: usize) -> (r: (TableElementKind, AllocationResult))
        requires
            flat_size_ok(el as int),
        ensures
            child_step(TableElementKind::Present, r.0, el as int, r.1.page@ as int, r.1.new_size),
        decreases el, 0nat,
    {
        proof {
            lemma_flat_sizes(el as int);
        }
        let ghost n = (el / 4096) as int;
        let ghost a0 = TableElementKind::Present;
        let child_el = el / TABLE_SIZE;
        assert(child_el == el / 512);
        assert(el & 4095 == 0) by (bit_vector)
            requires
                el % 4096 == 0,
        ;
        assert(0usize & 4095 == 0) by (bit_vector);
        if el <= LVL1_TABLE {
            let mut child = MemoryTable::<TableBits>::new(child_el);
            let _ = child.populate_with(PhysAddr::try_new(0), PhysAddr::try_new(el));
            let ghost c0 = child.table;
            proof {
                assert(n == 512);
                assert(c0.available().contains(0));
                assert forall|j: int| 0 <= j < TABLE_SIZE implies #[trigger] bits_flags(c0)(j) == (0
                    <= j < 512) by {
                    assert(c0.available().contains(j) == bits_flags(c0)(j));
                }
                lemma_count_range(TABLE_SIZE as int, bits_flags(c0), 0, 512);
            }
            let res = match child.table.request_page(child_el) {
                Ok(got) => got,
                Err(_) => {
                    proof {
                        assert(false);
                    }
                    AllocationResult { page: PhysPage::new(0), new_size: 0 }
                },
            };
            proof {
                lemma_bits_taken(c0, child.table, res.page@ as int);
            }
            let a1 = TableElementKind::TableBits { table: Box::new(child), atom: res.new_size };
            proof {
                let q = res.page@ as int;
                assert forall|x: int|
                    #![trigger atom_free(a0, el as int, x)]
                    #![trigger atom_free(a1, el as int, x)]
                    #![trigger atom_held(a1, el as int, x)]
                    #![trigger atom_owned(a1, el as int, x)]
                    0 <= x < n implies atom_held(a1, el as int, x) == (atom_held(a0, el as int, x) && x
                        != q) && atom_owned(a1, el as int, x) == atom_owned(a0, el as int, x)
                        && atom_free(a1, el as int, x) == (atom_free(a0, el as int, x) && x != q) && (
                    atom_free(a0, el as int, x) ==> q <= x) by {
                    assert(c0.available().contains(x));
                }
                assert(child_step(a0, a1, el as int, q, res.new_size));
            }
            (a1, res)
        } else {
            let mut child = MemoryTable { table: TableFlat::empty_table(), element_size: child_el };
            proof {
                lemma_blank(child.table, child_el as int);
            }
            let ghost blank = child.table;
            let _ = child.table.populate_flat(child_el, PhysAddr::try_new(0), PhysAddr::try_new(el));
            let ghost c0 = child.table;
            proof {
                assert forall|x: int| 0 <= x < n implies #[trigger] flat_free(c0, child_el as int, x)
                    && flat_held(c0, child_el as int, x) && flat_owned(c0, child_el as int, x) by {
                    lemma_fresh_covers(child_el as int, 0, el as int, x);
                    assert(populated_free(blank, child_el as int, 0, el as int, x) == fresh_free(
                        child_el as int,
                        0,
                        el as int,
                        x,
                    ));
                }
                assert(flat_free(c0, child_el as int, 0));
            }
            let res = match child.table.request_flat(child_el) {
                Ok(got) => got,
                Err(_) => {
                    proof {
                        assert(false);
                    }
                    AllocationResult { page: PhysPage::new(0), new_size: 0 }
                },
            };
            proof {
                let q = res.page@ as int;
                let other: int = if q == 0 {
                    1
                } else {
                    0
                };
                assert(flat_free(child.table, child_el as int, other));
                lemma_tidy_size(child.table, child_el as int);
            }
            let a1 = TableElementKind::TableFlat { table: Box::new(child), atom: res.new_size };
            proof {
                let q = res.page@ as int;
                let ce = child_el as int;
                let c1 = child.table;
                assert(ce == el as int / 512);
                assert(in_span(ce, q));
                assert forall|x: int|
                    #![trigger atom_free(a0, el as int, x)]
                    #![trigger atom_free(a1, el as int, x)]
                    #![trigger atom_held(a1, el as int, x)]
                    #![trigger atom_owned(a1, el as int, x)]
                    0 <= x < n implies atom_held(a1, el as int, x) == (atom_held(a0, el as int, x) && x
                        != q) && atom_owned(a1, el as int, x) == atom_owned(a0, el as int, x)
                        && atom_free(a1, el as int, x) == (atom_free(a0, el as int, x) && x != q) && (
                    atom_free(a0, el as int, x) ==> q <= x) by {
                    assert(flat_free(c0, ce, x));
                    assert(flat_held(c0, ce, x));
                    assert(flat_owned(c0, ce, x));
                    assert(atom_free(a1, el as int, x) == flat_free(c1, ce, x));
                    assert(atom_held(a1, el as int, x) == flat_held(c1, ce, x));
                    assert(atom_owned(a1, el as int, x) == flat_owned(c1, ce, x));
                    assert(flat_free(c1, ce, x) == (flat_free(c0, ce, x) && x != q));
                    assert(flat_held(c1, ce, x) == (flat_held(c0, ce, x) && x != q));
                    assert(flat_owned(c1, ce, x) == flat_owned(c0, ce, x));
                }
                assert(flat_tidy(c0, ce));
                assert(flat_tidy(c1, ce));
                assert(res.new_size > 0);
                assert(atom_wf(a1, el as int));
                assert(atom_tidy(a1, el as int));
                assert(0 <= q < n);
                assert(child_step(a0, a1, el as int, q, res.new_size));
            }
            (a1, res)
        }
    }

    /// Hand out a page of the table of tables below an entry; where it has none, give the
    /// entry back as it was.
    fn take_from_flat(child: MemoryTable<TableFlat>, size: usize, el: usize) -> (r: Result<
        (TableElementKind, AllocationResult),
        TableElementKind,
    >)
        requires
            flat_size_ok(el as int),
            el > LVL1_TABLE,
            child.element_size == el / 512,
            flat_wf(child.table, (el / 512) as int),
        ensures
            ({
                let a0 = TableElementKind::TableFlat { table: Box::new(child), atom: size };
                &&& r is Ok ==> child_step(
                    a0,
                    r->Ok_0.0,
                    el as int,
                    r->Ok_0.1.page@ as int,
                    r->Ok_0.1.new_size,
                )
                &&& r is Err ==> atom_same(a0, r->Err_0, el as int) && atom_wf(r->Err_0, el as int)
                    && !atom_tidy(a0, el as int)
            }),
        decreases el, 0nat,
    {
        proof {
            lemma_flat_sizes(el as int);
        }
        let child_el = el / TABLE_SIZE;
        assert(child_el == el / 512);
        let ghost a0 = TableElementKind::TableFlat { table: Box::new(child), atom: size };
        let ghost c0 = child.table;
        proof {
            if atom_tidy(a0, el as int) {
                lemma_tidy_size(c0, child_el as int);
            }
        }
        let mut child = child;
        match child.table.request_flat(child_el) {
            Ok(res) => {
                proof {
                    if atom_tidy(a0, el as int) && res.new_size == 0 {
                        lemma_tidy_size(child.table, child_el as int);
                    }
                }
                let a1 = TableElementKind::TableFlat { table: Box::new(child), atom: res.new_size };
                proof {
                    let q = res.page@ as int;
                    let ce = child_el as int;
                    let c1 = child.table;
                    assert(ce == el as int / 512);
                    assert(in_span(ce, q));
                    assert forall|x: int|
                        #![trigger atom_free(a0, el as int, x)]
                        #![trigger atom_free(a1, el as int, x)]
                        #![trigger atom_held(a1, el as int, x)]
                        #![trigger atom_owned(a1, el as int, x)]
                        atom_free(a0, el as int, x) == flat_free(c0, ce, x) && atom_free(a1, el as int, x)
                            == flat_free(c1, ce, x) && atom_held(a0, el as int, x) == flat_held(c0, ce, x)
                            && atom_held(a1, el as int, x) == flat_held(c1, ce, x) && atom_owned(a0, el as int, x)
                            == flat_owned(c0, ce, x) && atom_owned(a1, el as int, x) == flat_owned(c1, ce, x) by {}
                    assert(child_step(a0, a1, el as int, q, res.new_size));
                }
                Ok((a1, res))
            },
            Err(_) => {
                let a1 = TableElementKind::TableFlat { table: Box::new(child), atom: size };
                proof {
                    let ce = child_el as int;
                    let c1 = child.table;
                    assert(ce == el as int / 512);
                    assert forall|x: int|
                        #![trigger atom_free(a0, el as int, x)]
                        #![trigger atom_free(a1, el as int, x)]
                        #![trigger atom_held(a1, el as int, x)]
                        #![trigger atom_owned(a1, el as int, x)]
                        atom_free(a0, el as int, x) == flat_free(c0, ce, x) && atom_free(a1, el as int, x)
                            == flat_free(c1, ce, x) && atom_held(a0, el as int, x) == flat_held(c0, ce, x)
                            && atom_held(a1, el as int, x) == flat_held(c1, ce, x) && atom_owned(a0, el as int, x)
                            == flat_owned(c0, ce, x) && atom_owned(a1, el as int, x) == flat_owned(c1, ce, x) by {}
                }
                Err(a1)
            },
        }
    }

    /// Hand out a page of the table of pages below an entry; where it has none, give the
    /// entry back as it was.
    fn take_from_bits(child: MemoryTable<TableBits>, size: usize, el: usize) -> (r: Result<
        (TableElementKind, AllocationResult),
        TableElementKind,
    >)
        requires
            flat_size_ok(el as int),
            el == LVL1_TABLE,
            child.element_size == 4096,
            child.table.inv(4096),
        ensures
            ({
                let a0 = TableElementKind::TableBits { table: Box::new(child), atom: size };
                &&& r is Ok ==> child_step(
                    a0,
                    r->Ok_0.0,
                    el as int,
                    r->Ok_0.1.page@ as int,
                    r->Ok_0.1.new_size,
                )
                &&& r is Err ==> atom_same(a0, r->Err_0, el as int) && atom_wf(r->Err_0, el as int)
                    && !atom_tidy(a0, el as int)
            }),
    {
        let ghost a0 = TableElementKind::TableBits { table: Box::new(child), atom: size };
        let ghost c0 = child.table;
        proof {
            if atom_tidy(a0, el as int) {
                lemma_count_zero(TABLE_SIZE as int, bits_flags(c0));
                let k = choose|k: int| 0 <= k < TABLE_SIZE && #[trigger] bits_flags(c0)(k);
                assert(c0.available().contains(k));
            }
        }
        let mut child = child;
        match child.table.request_page(4096) {
            Ok(res) => {
                proof {
                    lemma_bits_taken(c0, child.table, res.page@ as int);
                    if atom_tidy(a0, el as int) && res.new_size == 0 {
                        lemma_count_zero(TABLE_SIZE as int, bits_flags(child.table));
                        assert forall|x: int| !child.table.available().contains(x) by {
                            if child.table.available().contains(x) {
                                assert(bits_flags(child.table)(x));
                            }
                        }
                    }
                }
                let a1 = TableElementKind::TableBits { table: Box::new(child), atom: res.new_size };
                proof {
                    let q = res.page@ as int;
                    assert(child_step(a0, a1, el as int, q, res.new_size));
                }
                Ok((a1, res))
            },
            Err(_) => {
                let a1 = TableElementKind::TableBits { table: Box::new(child), atom: size };
                Err(a1)
            },
        }
    }
}

impl TableFlat {
    /// Hand out the lowest free page: from the first entry marked available, splitting a
    /// whole entry into a table below first. An entry whose table has nothing left is no
    /// longer marked available.
    #[verifier::spinoff_prover]
    fn request_flat(&mut self, el: usize) -> (r: Result<AllocationResult, MemoryError>)
        requires
            flat_size_ok(el as int),
            flat_wf(*old(self), el as int),
        ensures
            flat_wf(*final(self), el as int),
            r is Err ==> r == Err::<AllocationResult, MemoryError>(MemoryError::OutOfAllocMemory)
                && flat_unchanged(*old(self), *final(self), el as int),
            r is Ok ==> {
                let p = r->Ok_0.page@ as int;
                &&& flat_free(*old(self), el as int, p)
                &&& forall|q: int| #[trigger] flat_free(*old(self), el as int, q) ==> p <= q
                &&& forall|q: int| #[trigger]
                    flat_free(*final(self), el as int, q) ==> flat_free(*old(self), el as int, q)
                        && q != p
                &&& forall|q: int| #[trigger]
                    flat_held(*final(self), el as int, q) == (flat_held(*old(self), el as int, q)
                        && q != p)
                &&& forall|q: int| #[trigger]
                    flat_owned(*final(self), el as int, q) == flat_owned(*old(self), el as int, q)
                &&& r->Ok_0.new_size == flat_new_size(*final(self))
            },
            flat_tidy(*old(self), el as int) ==> {
                &&& (r is Ok <==> exists|q: int| #[trigger] flat_free(*old(self), el as int, q))
                &&& flat_tidy(*final(self), el as int)
                &&& r is Ok ==> forall|q: int| #[trigger]
                    flat_free(*final(self), el as int, q) == (flat_free(*old(self), el as int, q)
                        && q != r->Ok_0.page@)
            },
        decreases el, 1nat,
    {
        proof {
            lemma_flat_sizes(el as int);
        }
        let ghost t0 = *self;
        let ghost n = (el / 4096) as int;
        if self.healthy_tables == 0 && self.dirty_tables == 0 {
            proof {
                if flat_tidy(t0, el as int) {
                    lemma_tidy_size(t0, el as int);
                }
            }
            return Err(MemoryError::OutOfAllocMemory);
        }
        let mut i: usize = 0;
        while i < TABLE_SIZE && !self.available[i]
            invariant
                i <= TABLE_SIZE,
                *self == t0,
                flat_wf(t0, el as int),
                forall|j: int| 0 <= j < i ==> !(#[trigger] t0.available@[j]),
            decreases TABLE_SIZE - i,
        {
            i = i + 1;
        }
        if i == TABLE_SIZE {
            proof {
                assert forall|q: int| !flat_free(t0, el as int, q) by {
                    if in_span(el as int, q) {
                        lemma_entry_bounds(el as int, q);
                    }
                }
            }
            return Err(MemoryError::OutOfAllocMemory);
        }
        let ghost a0 = t0.table@[i as int];
        proof {
            if flat_tidy(t0, el as int) {
                assert(atom_tidy(a0, el as int));
            }
        }
        let mut atom = TableElementKind::NotAllocated;
        self.table.set_and_swap(i, &mut atom);
        let res: AllocationResult;
        match atom {
            TableElementKind::Present => {
                let (a1, got) = Self::split_whole(el);
                res = got;
                self.table.set(i, a1);
                self.healthy_tables = if self.healthy_tables > 0 {
                    self.healthy_tables - 1
                } else {
                    0
                };
                self.dirty_tables = if self.dirty_tables < usize::MAX {
                    self.dirty_tables + 1
                } else {
                    usize::MAX
                };
            },
            TableElementKind::TableFlat { table, atom: size } => {
                match Self::take_from_flat(*table, size, el) {
                    Ok((a1, got)) => {
                        res = got;
                        self.table.set(i, a1);
                    },
                    Err(back) => {
                        self.table.set(i, back);
                        proof {
                            lemma_entry_unchanged(t0, *self, el as int, i as int);
                        }
                        return Err(MemoryError::OutOfAllocMemory);
                    },
                }
            },
            TableElementKind::TableBits { table, atom: size } => {
                match Self::take_from_bits(*table, size, el) {
                    Ok((a1, got)) => {
                        res = got;
                        self.table.set(i, a1);
                    },
                    Err(back) => {
                        self.table.set(i, back);
                        proof {
                            lemma_entry_unchanged(t0, *self, el as int, i as int);
                        }
                        return Err(MemoryError::OutOfAllocMemory);
                    },
                }
            },
            TableElementKind::NotAllocated => {
                self.table.set(i, TableElementKind::NotAllocated);
                proof {
                    assert(self.table@ =~= t0.table@);
                    lemma_entry_unchanged(t0, *self, el as int, i as int);
                }
                return Err(MemoryError::OutOfAllocMemory);
            },
        }
        let ghost t_mid = *self;
        if res.new_size == 0 {
            self.dirty_tables = if self.dirty_tables > 0 {
                self.dirty_tables - 1
            } else {
                0
            };
            self.available.set(i, false);
        }
        proof {
            assert((i * el) / 4096 == i * n) by (nonlinear_arith)
                requires
                    el == 4096 * n,
                    i >= 0,
            ;
            assert(i * n + n <= 512 * n) by (nonlinear_arith)
                requires
                    i < 512,
                    n >= 0,
            ;
            assert(i * el <= 512 * el) by (nonlinear_arith)
                requires
                    i < 512,
                    el >= 0,
            ;
            assert forall|j: int|
                0 <= j < TABLE_SIZE && j != i implies #[trigger] self.table@[j] == t0.table@[j]
                    && self.available@[j] == t0.available@[j] by {}
            assert forall|j: int| 0 <= j < TABLE_SIZE implies atom_wf(
                #[trigger] self.table@[j],
                el as int,
            ) by {
                if j != i {
                    assert(self.table@[j] == t0.table@[j]);
                }
            }
            lemma_request_result(t0, *self, el as int, i as int, res.page@ as int, res.new_size);
            if flat_tidy(t0, el as int) {
                let fw = whole_at(t0);
                let fp = part_at(t0);
                lemma_count_zero(TABLE_SIZE as int, fw);
                lemma_count_zero(TABLE_SIZE as int, fp);
                lemma_count_bound(TABLE_SIZE as int, fp);
                if a0 is Present {
                    assert(fw(i as int));
                } else {
                    assert(fp(i as int));
                }
                lemma_request_tidy(t0, *self, el as int, i as int, res.page@ as int, res.new_size);
            }
        }
        let page = res.page.page() + (i * el) / 4096;
        let h = self.healthy_tables;
        let d = self.dirty_tables;
        Ok(
            AllocationResult {
                page: PhysPage::new(page),
                new_size: if h > 0 {
                    h
                } else if d > 0 {
                    1
                } else {
                    0
                },
            },
        )
    }
}

/// The table of pages that holds page `p` has its count of free pages at the most a
/// `usize` holds.
spec fn flat_count_full(t: TableFlat, el: int, p: int) -> bool
    decreases t,
{
    if in_span(el, p) && entry_of(el, p) < t.table@.len() {
        proof {
            assert(decreases_to!(t => t.table));
        }
        atom_count_full(t.table@[entry_of(el, p)], el, place_in(el, p))
    } else {
        false
    }
}

spec fn atom_count_full(a: TableElementKind, el: int, q: int) -> bool
    decreases a,
{
    match a {
        TableElementKind::TableFlat { table, .. } => flat_count_full(table.table, el / 512, q),
        TableElementKind::TableBits { table, .. } => table.table.atoms() == usize::MAX,
        _ => false,
    }
}

/// The sum of what the first `k` entries count.
proof fn lemma_count_prefix(s: Seq<TableElementKind>, el: int, k: int)
    requires
        0 <= k < s.len(),
    ensures
        atoms_count(s.subrange(0, k + 1), el) == atoms_count(s.subrange(0, k), el) + atom_count(
            s[k],
            el,
        ),
{
    assert(s.subrange(0, k + 1).drop_last() =~= s.subrange(0, k));
}

/// Counts are never below zero.
proof fn lemma_atoms_count_nonneg(s: Seq<TableElementKind>, el: int)
    requires
        el >= 0,
    ensures
        atoms_count(s, el) >= 0,
    decreases s,
{
    if s.len() > 0 {
        lemma_atoms_count_nonneg(s.drop_last(), el);
        lemma_atom_count_nonneg(s.last(), el);
    }
}

proof fn lemma_atom_count_nonneg(a: TableElementKind, el: int)
    requires
        el >= 0,
    ensures
        atom_count(a, el) >= 0,
    decreases a,
{
    match a {
        TableElementKind::TableFlat { table, .. } => {
            assert(decreases_to!(table.table => table.table.table));
            lemma_atoms_count_nonneg(table.table.table@, el / 512);
            assert(atom_count(a, el) == atoms_count(table.table.table@, el / 512));
        },
        TableElementKind::TableBits { table, .. } => {
            assert(table.table.atoms() * (el / 512 / 4096) >= 0) by (nonlinear_arith)
                requires
                    el >= 0,
            ;
        },
        _ => {},
    }
}

/// What the first `k` entries count is at most what all count.
proof fn lemma_prefix_below(s: Seq<TableElementKind>, el: int, k: int)
    requires
        0 <= k <= s.len(),
        el >= 0,
    ensures
        atoms_count(s.subrange(0, k), el) <= atoms_count(s, el),
    decreases s.len() - k,
{
    if k < s.len() {
        lemma_prefix_below(s, el, k + 1);
        lemma_count_prefix(s, el, k);
        lemma_atom_count_nonneg(s[k], el);
    } else {
        assert(s.subrange(0, k) =~= s);
    }
}

impl TableFlat {
    /// The error taking back page `page` would meet, found without changing anything: the
    /// page does not belong to the table, it is already free, or the count of the table
    /// below is full. `None` where taking it back succeeds.
    fn free_error(&self, page: PhysPage, el: usize) -> (r: Option<MemoryError>)
        requires
            flat_size_ok(el as int),
            flat_wf(*self, el as int),
            page@ * 4096 < TABLE_SIZE * el,
        ensures
            ({
                let p = page@ as int;
                let e = el as int;
                &&& !flat_owned(*self, e, p) ==> r == Some(MemoryError::NotPhysicalPage)
                &&& flat_owned(*self, e, p) && flat_held(*self, e, p) ==> r == Some(
                    MemoryError::DoubleFree,
                )
                &&& flat_owned(*self, e, p) && !flat_held(*self, e, p) && flat_count_full(*self, e, p)
                    ==> r == Some(MemoryError::OutOfAllocMemory)
                &&& flat_owned(*self, e, p) && !flat_held(*self, e, p) && !flat_count_full(*self, e, p)
                    ==> r is None
            }),
        decreases el,
    {
        proof {
            lemma_flat_sizes(el as int);
        }
        let ghost n = (el / 4096) as int;
        let ghost p = page@ as int;
        let x = page.page() * 4096;
        let table_index = x / el;
        let inner_index = (x % el) / 4096;
        proof {
            lemma_bytes_pages(x as int, n);
            assert(x as int / 4096 == p);
            assert(in_span(el as int, p));
            lemma_entry_bounds(el as int, p);
            assert(table_index == entry_of(el as int, p));
            assert(inner_index == place_in(el as int, p));
        }
        let ghost q = inner_index as int;
        let child_el = el / TABLE_SIZE;
        assert(child_el == el / 512);
        match &self.table[table_index] {
            TableElementKind::NotAllocated => Some(MemoryError::NotPhysicalPage),
            TableElementKind::Present => Some(MemoryError::DoubleFree),
            TableElementKind::TableFlat { table, .. } => {
                let ghost ce = child_el as int;
                proof {
                    assert(ce == el as int / 512);
                    assert(q * 4096 < TABLE_SIZE * child_el) by (nonlinear_arith)
                        requires
                            q < n,
                            el == 4096 * n,
                            child_el == el / 512,
                            el % 2097152 == 0,
                    ;
                    assert(flat_owned(*self, el as int, p) == flat_owned(table.table, ce, q));
                    assert(flat_held(*self, el as int, p) == flat_held(table.table, ce, q));
                    assert(flat_count_full(*self, el as int, p) == flat_count_full(table.table, ce, q));
                }
                table.table.free_error(PhysPage::new(inner_index), child_el)
            },
            TableElementKind::TableBits { table, .. } => {
                let c = &table.table;
                proof {
                    assert(flat_owned(*self, el as int, p) == c.owned().contains(q));
                    assert(flat_held(*self, el as int, p) == c.available().contains(q));
                    assert(flat_count_full(*self, el as int, p) == (c.atoms() == usize::MAX));
                }
                if !TableBits::flag(&c.real_pages, inner_index) {
                    Some(MemoryError::NotPhysicalPage)
                } else if TableBits::flag(&c.table, inner_index) {
                    Some(MemoryError::DoubleFree)
                } else if c.atom_size == usize::MAX {
                    Some(MemoryError::OutOfAllocMemory)
                } else {
                    None
                }
            },
        }
    }
}

impl TableFlat {
    /// Take back page `page` (relative to the table): through the entry that holds it, to the
    /// table below. The table's counts go up where the table below reports itself whole
    /// again, or where it had reported nothing left.
    #[verifier::spinoff_prover]
    fn free_flat(&mut self, page: PhysPage, el: usize) -> (r: Result<AllocationResult, MemoryError>)
        requires
            flat_size_ok(el as int),
            flat_wf(*old(self), el as int),
            page@ * 4096 < TABLE_SIZE * el,
        ensures
            flat_wf(*final(self), el as int),
            ({
                let p = page@ as int;
                let t0 = *old(self);
                let t1 = *final(self);
                let e = el as int;
                &&& !flat_owned(t0, e, p) ==> r == Err::<AllocationResult, MemoryError>(
                    MemoryError::NotPhysicalPage,
                ) && flat_unchanged(t0, t1, e)
                &&& flat_owned(t0, e, p) && flat_held(t0, e, p) ==> r == Err::<
                    AllocationResult,
                    MemoryError,
                >(MemoryError::DoubleFree) && flat_unchanged(t0, t1, e)
                &&& flat_owned(t0, e, p) && !flat_held(t0, e, p) && flat_count_full(t0, e, p) ==> r
                    == Err::<AllocationResult, MemoryError>(MemoryError::OutOfAllocMemory)
                    && flat_unchanged(t0, t1, e)
                &&& flat_owned(t0, e, p) && !flat_held(t0, e, p) && !flat_count_full(t0, e, p) ==> {
                    &&& r is Ok
                    &&& r->Ok_0.page == page
                    &&& r->Ok_0.new_size == flat_new_size(t1)
                    &&& flat_took_back(t0, t1, e, p)
                    &&& t1.healthy_tables >= t0.healthy_tables
                    &&& t1.dirty_tables >= t0.dirty_tables
                }
            }),
        decreases el,
    {
        proof {
            lemma_flat_sizes(el as int);
        }
        let ghost t0 = *self;
        let ghost n = (el / 4096) as int;
        let ghost p = page@ as int;
        let x = page.page() * 4096;
        let table_index = x / el;
        let inner_index = (x % el) / 4096;
        proof {
            lemma_bytes_pages(x as int, n);
            assert(x as int / 4096 == p);
            assert(in_span(el as int, p));
            lemma_entry_bounds(el as int, p);
            assert(table_index == entry_of(el as int, p));
            assert(inner_index == place_in(el as int, p));
        }
        let i = table_index;
        let ghost a0 = t0.table@[i as int];
        let ghost q = inner_index as int;
        let child_el = el / TABLE_SIZE;
        assert(child_el == el / 512);
        let mut atom = TableElementKind::NotAllocated;
        self.table.set_and_swap(i, &mut atom);
        match atom {
            TableElementKind::NotAllocated => {
                self.table.set(i, TableElementKind::NotAllocated);
                proof {
                    assert(self.table@ =~= t0.table@);
                    lemma_entry_unchanged(t0, *self, el as int, i as int);
                    assert(!flat_owned(t0, el as int, p));
                }
                Err(MemoryError::NotPhysicalPage)
            },
            TableElementKind::Present => {
                self.table.set(i, TableElementKind::Present);
                proof {
                    assert(self.table@ =~= t0.table@);
                    lemma_entry_unchanged(t0, *self, el as int, i as int);
                    assert(flat_owned(t0, el as int, p));
                    assert(flat_held(t0, el as int, p));
                }
                Err(MemoryError::DoubleFree)
            },
            TableElementKind::TableFlat { table, atom: previous_size } => {
                let mut child = *table;
                let ghost c0 = child.table;
                let ghost ce = child_el as int;
                proof {
                    assert(ce == el as int / 512);
                    assert(q * 4096 < TABLE_SIZE * child_el) by (nonlinear_arith)
                        requires
                            q < n,
                            el == 4096 * n,
                            child_el == el / 512,
                            el % 2097152 == 0,
                    ;
                }
                proof {
                    assert(flat_owned(t0, el as int, p) == flat_owned(c0, ce, q));
                    assert(flat_held(t0, el as int, p) == flat_held(c0, ce, q));
                    assert(flat_count_full(t0, el as int, p) == flat_count_full(c0, ce, q));
                }
                match child.table.free_flat(PhysPage::new(inner_index), child_el) {
                    Ok(res) => {
                        self.table.set(
                            i,
                            TableElementKind::TableFlat { table: Box::new(child), atom: res.new_size },
                        );
                        proof {
                            let c1 = child.table;
                            assert forall|y: int|
                                #![trigger atom_free(self.table@[i as int], el as int, y)]
                                #![trigger atom_held(self.table@[i as int], el as int, y)]
                                #![trigger atom_owned(self.table@[i as int], el as int, y)]
                                #![trigger atom_marked(self.table@[i as int], el as int, y)]
                                {
                                    let a1 = self.table@[i as int];
                                    &&& atom_owned(a1, el as int, y) == atom_owned(a0, el as int, y)
                                    &&& atom_held(a1, el as int, y) == (atom_held(a0, el as int, y) || y == q)
                                    &&& atom_free(a1, el as int, y) == (atom_free(a0, el as int, y) || (y == q
                                        && atom_marked(a0, el as int, q)))
                                    &&& atom_marked(a1, el as int, y) == atom_marked(a0, el as int, y)
                                } by {
                                assert(flat_free(c1, ce, y) == (flat_free(c0, ce, y) || (y == q && flat_marked(c0, ce, q))));
                                assert(flat_held(c1, ce, y) == (flat_held(c0, ce, y) || y == q));
                                assert(flat_owned(c1, ce, y) == flat_owned(c0, ce, y));
                                assert(flat_marked(c1, ce, y) == flat_marked(c0, ce, y));
                            }
                        }
                        self.count_freed(res.new_size, previous_size);
                        proof {
                            lemma_entry_took_back(t0, *self, el as int, p);
                            assert forall|j: int| 0 <= j < TABLE_SIZE implies atom_wf(
                                #[trigger] self.table@[j],
                                el as int,
                            ) by {
                                if j != i {
                                    assert(self.table@[j] == t0.table@[j]);
                                }
                            }
                        }
                        let h = self.healthy_tables;
                        let d = self.dirty_tables;
                        Ok(
                            AllocationResult {
                                page,
                                new_size: if h > 0 {
                                    h
                                } else if d > 0 {
                                    1
                                } else {
                                    0
                                },
                            },
                        )
                    },
                    Err(e) => {
                        self.table.set(
                            i,
                            TableElementKind::TableFlat { table: Box::new(child), atom: previous_size },
                        );
                        proof {
                            let c1 = child.table;
                            assert forall|y: int|
                                #![trigger atom_free(self.table@[i as int], el as int, y)]
                                #![trigger atom_held(self.table@[i as int], el as int, y)]
                                #![trigger atom_owned(self.table@[i as int], el as int, y)]
                                atom_free(self.table@[i as int], el as int, y) == atom_free(
                                    a0,
                                    el as int,
                                    y,
                                ) && atom_held(self.table@[i as int], el as int, y) == atom_held(
                                    a0,
                                    el as int,
                                    y,
                                ) && atom_owned(self.table@[i as int], el as int, y) == atom_owned(
                                    a0,
                                    el as int,
                                    y,
                                ) by {
                                assert(flat_free(c1, ce, y) == flat_free(c0, ce, y));
                                assert(flat_held(c1, ce, y) == flat_held(c0, ce, y));
                                assert(flat_owned(c1, ce, y) == flat_owned(c0, ce, y));
                            }
                            lemma_entry_unchanged(t0, *self, el as int, i as int);
                            assert forall|j: int| 0 <= j < TABLE_SIZE implies atom_wf(
                                #[trigger] self.table@[j],
                                el as int,
                            ) by {
                                if j != i {
                                    assert(self.table@[j] == t0.table@[j]);
                                }
                            }
                        }
                        Err(e)
                    },
                }
            },
            TableElementKind::TableBits { table, atom: previous_size } => {
                let mut child = *table;
                let ghost c0 = child.table;
                proof {
                    assert(flat_owned(t0, el as int, p) == c0.owned().contains(q));
                    assert(flat_held(t0, el as int, p) == c0.available().contains(q));
                    assert(flat_count_full(t0, el as int, p) == (c0.atoms() == usize::MAX));
                }
                match child.table.free_page(PhysPage::new(inner_index), 4096) {
                    Ok(res) => {
                        self.table.set(
                            i,
                            TableElementKind::TableBits { table: Box::new(child), atom: res.new_size },
                        );
                        self.count_freed(res.new_size, previous_size);
                        proof {
                            let c1 = child.table;
                            assert forall|y: int|
                                #![trigger atom_free(self.table@[i as int], el as int, y)]
                                #![trigger atom_held(self.table@[i as int], el as int, y)]
                                #![trigger atom_owned(self.table@[i as int], el as int, y)]
                                #![trigger atom_marked(self.table@[i as int], el as int, y)]
                                {
                                    let a1 = self.table@[i as int];
                                    &&& atom_owned(a1, el as int, y) == atom_owned(a0, el as int, y)
                                    &&& atom_held(a1, el as int, y) == (atom_held(a0, el as int, y) || y == q)
                                    &&& atom_free(a1, el as int, y) == (atom_free(a0, el as int, y) || (y == q
                                        && atom_marked(a0, el as int, q)))
                                    &&& atom_marked(a1, el as int, y) == atom_marked(a0, el as int, y)
                                } by {
                                assert(c1.available().contains(y) == (c0.available().contains(y) || y == q));
                                assert(c1.owned().contains(y) == c0.owned().contains(y));
                            }
                            lemma_entry_took_back(t0, *self, el as int, p);
                            assert forall|j: int| 0 <= j < TABLE_SIZE implies atom_wf(
                                #[trigger] self.table@[j],
                                el as int,
                            ) by {
                                if j != i {
                                    assert(self.table@[j] == t0.table@[j]);
                                }
                            }
                        }
                        let h = self.healthy_tables;
                        let d = self.dirty_tables;
                        Ok(
                            AllocationResult {
                                page,
                                new_size: if h > 0 {
                                    h
                                } else if d > 0 {
                                    1
                                } else {
                                    0
                                },
                            },
                        )
                    },
                    Err(e) => {
                        self.table.set(
                            i,
                            TableElementKind::TableBits { table: Box::new(child), atom: previous_size },
                        );
                        proof {
                            lemma_entry_unchanged(t0, *self, el as int, i as int);
                            assert forall|j: int| 0 <= j < TABLE_SIZE implies atom_wf(
                                #[trigger] self.table@[j],
                                el as int,
                            ) by {
                                if j != i {
                                    assert(self.table@[j] == t0.table@[j]);
                                }
                            }
                        }
                        Err(e)
                    },
                }
            },
        }
    }

    /// The counts after the table below an entry took a page back and now reports
    /// `new_size`, having reported `previous_size` before: a table whole again counts as
    /// whole; one that had nothing left counts as holding pages again.
    fn count_freed(&mut self, new_size: usize, previous_size: usize)
        ensures
            final(self).table@ == old(self).table@,
            final(self).available@ == old(self).available@,
            final(self).healthy_tables == if new_size >= TABLE_SIZE {
                sat_add(old(self).healthy_tables as int, 1)
            } else {
                old(self).healthy_tables as int
            },
            final(self).dirty_tables == if new_size < TABLE_SIZE && previous_size == 0 {
                sat_add(old(self).dirty_tables as int, 1)
            } else {
                old(self).dirty_tables as int
            },
    {
        if new_size >= TABLE_SIZE {
            self.healthy_tables = if self.healthy_tables < usize::MAX {
                self.healthy_tables + 1
            } else {
                usize::MAX
            };
        } else if previous_size == 0 {
            self.dirty_tables = if self.dirty_tables < usize::MAX {
                self.dirty_tables + 1
            } else {
                usize::MAX
            };
        }
    }

    /// The number of free 4 KiB pages, as the table counts them: all of a whole entry, and
    /// what the table below an entry counts.
    fn count_flat(&self, el: usize) -> (r: usize)
        requires
            flat_size_ok(el as int),
            flat_wf(*self, el as int),
            atoms_count(self.table@, el as int) <= usize::MAX,
        ensures
            r == atoms_count(self.table@, el as int),
        decreases el,
    {
        proof {
            lemma_flat_sizes(el as int);
        }
        let ghost s = self.table@;
        let mut acc: usize = 0;
        let mut i: usize = 0;
        while i < TABLE_SIZE
            invariant
                i <= TABLE_SIZE,
                s == self.table@,
                s.len() == TABLE_SIZE,
                flat_size_ok(el as int),
                flat_wf(*self, el as int),
                atoms_count(s, el as int) <= usize::MAX,
                acc == atoms_count(s.subrange(0, i as int), el as int),
            decreases TABLE_SIZE - i,
        {
            proof {
                lemma_count_prefix(s, el as int, i as int);
                lemma_prefix_below(s, el as int, i as int + 1);
                lemma_atoms_count_nonneg(s.subrange(0, i as int), el as int);
                lemma_atom_count_nonneg(s[i as int], el as int);
                assert(atom_wf(s[i as int], el as int));
            }
            let add: usize = match &self.table[i] {
                TableElementKind::NotAllocated => 0,
                TableElementKind::Present => el / 4096,
                TableElementKind::TableFlat { table, .. } => {
                    proof {
                        assert(table.table.table@ == table.table.table@);
                    }
                    table.table.count_flat(el / TABLE_SIZE)
                },
                TableElementKind::TableBits { table, .. } => {
                    match table.table.pages_free(4096) {
                        Ok(v) => v,
                        Err(_) => 0,
                    }
                },
            };
            acc = acc + add;
            i = i + 1;
        }
        proof {
            assert(s.subrange(0, TABLE_SIZE as int) =~= s);
        }
        acc
    }
}

/// The free pages a table of tables counts.
pub closed spec fn flat_counted(t: TableFlat, el: int) -> int {
    atoms_count(t.table@, el)
}

impl TableImpl for TableFlat {
    closed spec fn inv(&self, el_size: usize) -> bool {
        flat_wf(*self, el_size as int)
    }

    open spec fn element_size_ok(el_size: usize) -> bool {
        flat_size_ok(el_size as int)
    }

    open spec fn range_ok(el_size: usize, start: usize, end: usize) -> bool {
        &&& start < end <= TABLE_SIZE * el_size
        &&& start % 4096 == 0
        &&& end % 4096 == 0
    }

    open spec fn page_ok(el_size: usize, page: usize) -> bool {
        page * 4096 < TABLE_SIZE * el_size
    }

    closed spec fn count_ok(&self, el_size: usize) -> bool {
        atoms_count(self.table@, el_size as int) <= usize::MAX
    }

    fn empty() -> (r: Self) {
        let r = Self::empty_table();
        assert forall|el: usize| Self::element_size_ok(el) implies #[trigger] r.inv(el) by {
            assert forall|i: int| 0 <= i < TABLE_SIZE implies atom_wf(#[trigger] r.table@[i], el as int) by {
            }
        }
        r
    }

    fn populate_with(
        &mut self,
        el_size: usize,
        start_ptr: PhysAddr<AlignedTo<4096>>,
        end_ptr: PhysAddr<AlignedTo<4096>>,
    ) -> (r: Result<usize, MemoryError>)
        ensures
            forall|p: int| #[trigger]
                flat_free(*final(self), el_size as int, p) == populated_free(
                    *old(self),
                    el_size as int,
                    start_ptr@ as int,
                    end_ptr@ as int,
                    p,
                ),
            r == Ok::<usize, MemoryError>(flat_new_size(*final(self)) as usize),
    {
        self.populate_flat(el_size, start_ptr, end_ptr)
    }

    fn request_page(&mut self, el_size: usize) -> (r: Result<AllocationResult, MemoryError>)
        ensures
            r is Err ==> r == Err::<AllocationResult, MemoryError>(MemoryError::OutOfAllocMemory),
            r is Ok ==> flat_free(*old(self), el_size as int, r->Ok_0.page@ as int)
                && !flat_held(*final(self), el_size as int, r->Ok_0.page@ as int),
    {
        self.request_flat(el_size)
    }

    fn free_page(&mut self, page: PhysPage, el_size: usize) -> (r: Result<
        AllocationResult,
        MemoryError,
    >)
        ensures
            !flat_owned(*old(self), el_size as int, page@ as int) ==> r == Err::<
                AllocationResult,
                MemoryError,
            >(MemoryError::NotPhysicalPage),
            flat_owned(*old(self), el_size as int, page@ as int) && flat_held(
                *old(self),
                el_size as int,
                page@ as int,
            ) ==> r == Err::<AllocationResult, MemoryError>(MemoryError::DoubleFree),
    {
        self.free_flat(page, el_size)
    }

    fn pages_free(&self, el_size: usize) -> (r: Result<usize, MemoryError>)
        ensures
            r == Ok::<usize, MemoryError>(flat_counted(*self, el_size as int) as usize),
    {
        Ok(self.count_flat(el_size))
    }
}

impl MemoryTable<TableFlat> {
    /// The bytes the whole table spans.
    pub fn span_bytes(&self) -> (r: usize)
        requires
            self.inv(),
        ensures
            r == TABLE_SIZE * self.element_size(),
    {
        self.element_size * TABLE_SIZE
    }

    /// Pages (of 4 KiB, counted from the start of the table) the table may hand out.
    pub closed spec fn available(&self) -> Set<int> {
        Set::new(|p: int| flat_free(self.table, self.element_size as int, p))
    }

    /// The marks on the way to page `p` all say available, so that the page is handed out
    /// once it is held free.
    pub closed spec fn marked(&self, p: int) -> bool {
        flat_marked(self.table, self.element_size as int, p)
    }

    /// Pages the table holds free, whether or not it would reach them.
    pub closed spec fn held(&self) -> Set<int> {
        Set::new(|p: int| flat_held(self.table, self.element_size as int, p))
    }

    /// Pages that belong to the table.
    pub closed spec fn owned(&self) -> Set<int> {
        Set::new(|p: int| flat_owned(self.table, self.element_size as int, p))
    }

    /// What the table reports as its size: its count of whole entries, else 1 where it
    /// holds tables below, else 0.
    pub closed spec fn size(&self) -> nat {
        flat_new_size(self.table)
    }

    /// The table's counts agree with its entries, and every entry marked available, down
    /// through the tables below, has pages to hand out.
    pub closed spec fn tidy(&self) -> bool {
        flat_tidy(self.table, self.element_size as int)
    }

    /// No entry holds anything.
    pub closed spec fn is_blank(&self) -> bool {
        flat_blank(self.table)
    }

    /// The free pages the table counts.
    pub closed spec fn counted(&self) -> int {
        atoms_count(self.table.table@, self.element_size as int)
    }

    /// The count of free pages of the table of pages that holds `p` is full.
    pub closed spec fn count_full(&self, p: int) -> bool {
        flat_count_full(self.table, self.element_size as int, p)
    }

    /// What the table hands out after `[start, end)` is given to it.
    pub closed spec fn available_after(&self, start: int, end: int) -> Set<int> {
        Set::new(|p: int| populated_free(self.table, self.element_size as int, start, end, p))
    }

    /// What the table holds after `[start, end)` is given to it.
    pub closed spec fn held_after(&self, start: int, end: int) -> Set<int> {
        Set::new(|p: int| populated_held(self.table, self.element_size as int, start, end, p))
    }

    /// What the table owns after `[start, end)` is given to it.
    pub closed spec fn owned_after(&self, start: int, end: int) -> Set<int> {
        Set::new(|p: int| populated_owned(self.table, self.element_size as int, start, end, p))
    }

    /// The table is ready for more memory from byte `b` on: the entries wholly past `b` hold
    /// nothing and are not marked available, and the entry `b` falls inside (if any) is.
    pub closed spec fn ready_after(&self, b: int) -> bool {
        &&& forall|j: int|
            div_ceil(b, self.element_size as int) <= j < TABLE_SIZE ==> (
            #[trigger] self.table.table@[j]) is NotAllocated && !self.table.available@[j]
        &&& b % (self.element_size as int) != 0 ==> self.table.available@[b / (self.element_size as int)]
    }

    /// Giving `[start, end)` keeps the table tidy: the entries the range covers in part are
    /// empty or marked available, and those it covers whole are not marked available.
    pub closed spec fn fits(&self, start: int, end: int) -> bool {
        populate_fits(self.table, self.element_size as int, start, end)
    }

    /// An empty table of tables whose entries cover `element_size` bytes.
    pub fn new(element_size: usize) -> (r: Self)
        requires
            flat_size_ok(element_size as int),
        ensures
            r.inv(),
            r.element_size() == element_size,
            r.is_blank(),
            r.tidy(),
            r.available() == Set::<int>::empty(),
            r.held() == Set::<int>::empty(),
            r.owned() == Set::<int>::empty(),
            r.size() == 0,
            r.ready_after(0),
    {
        let r = Self { table: TableFlat::empty_table(), element_size };
        proof {
            lemma_blank(r.table, element_size as int);
            assert(r.available() =~= Set::<int>::empty());
            assert(r.held() =~= Set::<int>::empty());
            assert(r.owned() =~= Set::<int>::empty());
        }
        r
    }

    /// Hand the pages `[start_ptr, end_ptr)` (relative to the table) to the table. The result
    /// is the size the table reports afterwards.
    pub fn populate_with(
        &mut self,
        start_ptr: PhysAddr<AlignedTo<4096>>,
        end_ptr: PhysAddr<AlignedTo<4096>>,
    ) -> (r: Result<usize, MemoryError>)
        requires
            old(self).inv(),
            start_ptr@ < end_ptr@ <= TABLE_SIZE * old(self).element_size(),
            start_ptr@ % 4096 == 0,
            end_ptr@ % 4096 == 0,
        ensures
            final(self).inv(),
            final(self).element_size() == old(self).element_size(),
            final(self).available() == old(self).available_after(start_ptr@ as int, end_ptr@ as int),
            final(self).held() == old(self).held_after(start_ptr@ as int, end_ptr@ as int),
            final(self).owned() == old(self).owned_after(start_ptr@ as int, end_ptr@ as int),
            r == Ok::<usize, MemoryError>(final(self).size() as usize),
            old(self).tidy() && old(self).fits(start_ptr@ as int, end_ptr@ as int) ==> final(self).tidy(),
            forall|b: int|
                0 <= b <= start_ptr@ && #[trigger] old(self).ready_after(b) ==> final(self).ready_after(
                    end_ptr@ as int,
                ),
    {
        let r = self.table.populate_flat(self.element_size, start_ptr, end_ptr);
        proof {
            lemma_flat_sizes(self.element_size as int);
            lemma_populate_indexes(self.element_size as int, start_ptr@ as int, end_ptr@ as int);
            assert forall|b: int|
                0 <= b <= start_ptr@ && #[trigger] old(self).ready_after(b) implies self.ready_after(
                end_ptr@ as int,
            ) by {
                let el = self.element_size as int;
                lemma_div_ceil_mono(b, end_ptr@ as int, el);
                assert forall|j: int| div_ceil(end_ptr@ as int, el) <= j < TABLE_SIZE implies (
                #[trigger] self.table.table@[j]) is NotAllocated && !self.table.available@[j] by {
                    assert(self.table.table@[j] == old(self).table.table@[j]);
                    assert(old(self).table.table@[j] is NotAllocated);
                }
            }
            assert(self.available() =~= old(self).available_after(start_ptr@ as int, end_ptr@ as int));
            assert(self.held() =~= old(self).held_after(start_ptr@ as int, end_ptr@ as int));
            assert(self.owned() =~= old(self).owned_after(start_ptr@ as int, end_ptr@ as int));
        }
        r
    }

    /// Hand out the lowest free page.
    pub fn request_page(&mut self) -> (r: Result<PhysPage, MemoryError>)
        requires
            old(self).inv(),
        ensures
            final(self).inv(),
            final(self).element_size() == old(self).element_size(),
            r is Err ==> {
                &&& r == Err::<PhysPage, MemoryError>(MemoryError::OutOfAllocMemory)
                &&& final(self).available() == old(self).available()
                &&& final(self).held() == old(self).held()
                &&& final(self).owned() == old(self).owned()
                &&& final(self).size() == old(self).size()
            },
            r is Ok ==> {
                let p = r->Ok_0@ as int;
                &&& old(self).available().contains(p)
                &&& forall|q: int| old(self).available().contains(q) ==> p <= q
                &&& final(self).available().subset_of(old(self).available().remove(p))
                &&& final(self).held() == old(self).held().remove(p)
                &&& final(self).owned() == old(self).owned()
            },
            old(self).tidy() ==> {
                &&& (r is Ok <==> !old(self).available().is_empty())
                &&& final(self).tidy()
                &&& r is Ok ==> final(self).available() == old(self).available().remove(
                    r->Ok_0@ as int,
                )
            },
    {
        let r = self.table.request_flat(self.element_size);
        proof {
            if r is Ok {
                let p = r->Ok_0.page@ as int;
                assert(self.held() =~= old(self).held().remove(p));
                assert(self.owned() =~= old(self).owned());
                if old(self).tidy() {
                    assert(self.available() =~= old(self).available().remove(p));
                }
                assert forall|q: int| old(self).available().contains(q) implies p <= q by {
                    assert(flat_free(old(self).table, old(self).element_size as int, q));
                }
            } else {
                assert(self.available() =~= old(self).available());
                assert(self.held() =~= old(self).held());
                assert(self.owned() =~= old(self).owned());
            }
            if old(self).tidy() {
                if !old(self).available().is_empty() {
                    let q = old(self).available().choose();
                    assert(flat_free(old(self).table, old(self).element_size as int, q));
                }
                if r is Ok {
                    assert(old(self).available().contains(r->Ok_0.page@ as int));
                }
            }
        }
        match r {
            Ok(res) => Ok(res.page),
            Err(e) => Err(e),
        }
    }

    /// Take back a page that was handed out.
    pub fn free_page(&mut self, page: PhysPage) -> (r: Result<(), MemoryError>)
        requires
            old(self).inv(),
            page@ * 4096 < TABLE_SIZE * old(self).element_size(),
        ensures
            final(self).inv(),
            final(self).element_size() == old(self).element_size(),
            final(self).owned() == old(self).owned(),
            r is Err ==> *final(self) == *old(self),
            r is Ok ==> final(self).held() == old(self).held().insert(page@ as int)
                && final(self).available() == if old(self).marked(page@ as int) {
                old(self).available().insert(page@ as int)
            } else {
                old(self).available()
            },
            ({
                let p = page@ as int;
                &&& !old(self).owned().contains(p) ==> r == Err::<(), MemoryError>(
                    MemoryError::NotPhysicalPage,
                )
                &&& old(self).owned().contains(p) && old(self).held().contains(p) ==> r == Err::<
                    (),
                    MemoryError,
                >(MemoryError::DoubleFree)
                &&& old(self).owned().contains(p) && !old(self).held().contains(p) && old(self).count_full(p) ==> r == Err::<(), MemoryError>(MemoryError::OutOfAllocMemory)
                &&& old(self).owned().contains(p) && !old(self).held().contains(p) && !old(self).count_full(p) ==> r == Ok::<(), MemoryError>(())
            }),
    {
        match self.table.free_error(page, self.element_size) {
            Some(e) => {
                return Err(e);
            },
            None => {},
        }
        let r = self.table.free_flat(page, self.element_size);
        proof {
            let p = page@ as int;
            assert(self.owned() =~= old(self).owned());
            if r is Ok {
                assert(self.held() =~= old(self).held().insert(p));
                if old(self).marked(p) {
                    assert(self.available() =~= old(self).available().insert(p));
                } else {
                    assert(self.available() =~= old(self).available());
                }
            } else {
                assert(self.available() =~= old(self).available());
                assert(self.held() =~= old(self).held());
            }
        }
        match r {
            Ok(_) => Ok(()),
            Err(e) => Err(e),
        }
    }

    /// The number of free 4 KiB pages, as counted by the table.
    pub fn pages_free(&self) -> (r: Result<usize, MemoryError>)
        requires
            self.inv(),
            self.counted() <= usize::MAX,
        ensures
            r == Ok::<usize, MemoryError>(self.counted() as usize),
    {
        Ok(self.table.count_flat(self.element_size))
    }
}

/// A new table hands out every page of the first range it is given, and giving it keeps the
/// table tidy.
pub proof fn lemma_new_table_populated(t: MemoryTable<TableFlat>, start: int, end: int, p: int)
    requires
        t.inv(),
        t.is_blank(),
        0 <= start < end <= TABLE_SIZE * t.element_size(),
        start % 4096 == 0,
        end % 4096 == 0,
        start / 4096 <= p < end / 4096,
    ensures
        t.available_after(start, end).contains(p),
        t.tidy(),
        t.fits(start, end),
{
    lemma_blank(t.table, t.element_size as int);
    lemma_fresh_covers(t.element_size as int, start, end, p);
}

} // verus!
