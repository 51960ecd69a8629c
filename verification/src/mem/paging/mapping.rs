use vstd::prelude::*;

use crate::mem::addr::{PhysAddr, VirtAddr};
use crate::mem::page::{Page4K, PhysPage, VirtPage};
use crate::mem::paging::{
    bit_set, check_perms, correlate_entry, correlated_entry, perm_check, perms_of,
    prepare_failed_entry, prepare_table_entry, prepared_entry, table_indexes, table_indexes_for, with_added,
    PageCorrelationError, PageEntry, PagePermissions, VmOptions, VmPermissions,
};
use crate::mem::virt2phys::PhysPtrTranslationError;

verus! {

/// Entries in one page table.
pub const TABLE_ENTRIES: usize = 512;

/// An entry with every bit clear.
pub open spec fn zero_entry() -> PageEntry {
    PageEntry {
        present: false,
        read_write: false,
        user_access: false,
        execute_disable: false,
        address: 0,
    }
}

fn new_zero_entry() -> (r: PageEntry)
    ensures
        r == zero_entry(),
{
    PageEntry {
        present: false,
        read_write: false,
        user_access: false,
        execute_disable: false,
        address: 0,
    }
}

/// A table of the second level: its entries, and the tables of the first level below them.
pub struct Lvl2View {
    pub table: Seq<PageEntry>,
    pub lower: Seq<Option<Seq<PageEntry>>>,
}

/// A table of the third level: its entries, and the tables of the second level below them.
pub struct Lvl3View {
    pub table: Seq<PageEntry>,
    pub lower: Seq<Option<Lvl2View>>,
}

/// A table of the top level: its entries, and the tables of the third level below them.
pub struct Lvl4View {
    pub table: Seq<PageEntry>,
    pub lower: Seq<Option<Lvl3View>>,
}

pub open spec fn l1_wf(t: Seq<PageEntry>) -> bool {
    t.len() == TABLE_ENTRIES
}

pub open spec fn l2_wf(v: Lvl2View) -> bool {
    &&& v.table.len() == TABLE_ENTRIES
    &&& v.lower.len() == TABLE_ENTRIES
    &&& forall|i: int| 0 <= i < TABLE_ENTRIES && (#[trigger] v.lower[i]) is Some ==> l1_wf(v.lower[i]->0)
}

pub open spec fn l3_wf(v: Lvl3View) -> bool {
    &&& v.table.len() == TABLE_ENTRIES
    &&& v.lower.len() == TABLE_ENTRIES
    &&& forall|i: int| 0 <= i < TABLE_ENTRIES && (#[trigger] v.lower[i]) is Some ==> l2_wf(v.lower[i]->0)
}

pub open spec fn l4_wf(v: Lvl4View) -> bool {
    &&& v.table.len() == TABLE_ENTRIES
    &&& v.lower.len() == TABLE_ENTRIES
    &&& forall|i: int| 0 <= i < TABLE_ENTRIES && (#[trigger] v.lower[i]) is Some ==> l3_wf(v.lower[i]->0)
}

/// A new first-level table: every entry clear.
pub open spec fn l1_empty() -> Seq<PageEntry> {
    Seq::new(TABLE_ENTRIES as nat, |i: int| zero_entry())
}

pub open spec fn l2_empty() -> Lvl2View {
    Lvl2View {
        table: Seq::new(TABLE_ENTRIES as nat, |i: int| zero_entry()),
        lower: Seq::new(TABLE_ENTRIES as nat, |i: int| None),
    }
}

pub open spec fn l3_empty() -> Lvl3View {
    Lvl3View {
        table: Seq::new(TABLE_ENTRIES as nat, |i: int| zero_entry()),
        lower: Seq::new(TABLE_ENTRIES as nat, |i: int| None),
    }
}

pub open spec fn l4_empty() -> Lvl4View {
    Lvl4View {
        table: Seq::new(TABLE_ENTRIES as nat, |i: int| zero_entry()),
        lower: Seq::new(TABLE_ENTRIES as nat, |i: int| None),
    }
}

/// Mapping within a first-level table: the table afterwards and the outcome.
pub open spec fn l1_correlated(
    t: Seq<PageEntry>,
    i1: int,
    address: u64,
    p: VmPermissions,
    o: VmOptions,
) -> (Seq<PageEntry>, Result<Option<u64>, PageCorrelationError>) {
    match correlated_entry(t[i1], address, p, o) {
        Ok((e, prev)) => (t.update(i1, e), Ok(prev)),
        Err(err) => (t, Err(err)),
    }
}

/// Mapping through a second-level table: the table below index `i2` is made where it is
/// missing (its entry then starts clear), the entry is prepared, and the mapping goes on
/// below it; the entry is stored and the table below kept whatever the outcome.
pub open spec fn l2_correlated(
    v: Lvl2View,
    i2: int,
    i1: int,
    address: u64,
    p: VmPermissions,
    o: VmOptions,
) -> (Lvl2View, Result<Option<u64>, PageCorrelationError>) {
    let child = match v.lower[i2] {
        Some(c) => c,
        None => l1_empty(),
    };
    let entry = if v.lower[i2] is Some {
        v.table[i2]
    } else {
        zero_entry()
    };
    match prepared_entry(entry, p, o) {
        Ok(e) => {
            let (c2, r) = l1_correlated(child, i1, address, p, o);
            (Lvl2View { table: v.table.update(i2, e), lower: v.lower.update(i2, Some(c2)) }, r)
        },
        Err(err) => (
            Lvl2View {
                table: v.table.update(i2, prepare_failed_entry(entry, p, o)),
                lower: v.lower.update(i2, Some(child)),
            },
            Err(err),
        ),
    }
}

/// Mapping through a third-level table, as through a second-level one.
pub open spec fn l3_correlated(
    v: Lvl3View,
    i3: int,
    i2: int,
    i1: int,
    address: u64,
    p: VmPermissions,
    o: VmOptions,
) -> (Lvl3View, Result<Option<u64>, PageCorrelationError>) {
    let child = match v.lower[i3] {
        Some(c) => c,
        None => l2_empty(),
    };
    let entry = if v.lower[i3] is Some {
        v.table[i3]
    } else {
        zero_entry()
    };
    match prepared_entry(entry, p, o) {
        Ok(e) => {
            let (c2, r) = l2_correlated(child, i2, i1, address, p, o);
            (Lvl3View { table: v.table.update(i3, e), lower: v.lower.update(i3, Some(c2)) }, r)
        },
        Err(err) => (
            Lvl3View {
                table: v.table.update(i3, prepare_failed_entry(entry, p, o)),
                lower: v.lower.update(i3, Some(child)),
            },
            Err(err),
        ),
    }
}

/// Mapping through the top-level table, as through a second-level one.
pub open spec fn l4_correlated(
    v: Lvl4View,
    i4: int,
    i3: int,
    i2: int,
    i1: int,
    address: u64,
    p: VmPermissions,
    o: VmOptions,
) -> (Lvl4View, Result<Option<u64>, PageCorrelationError>) {
    let child = match v.lower[i4] {
        Some(c) => c,
        None => l3_empty(),
    };
    let entry = if v.lower[i4] is Some {
        v.table[i4]
    } else {
        zero_entry()
    };
    match prepared_entry(entry, p, o) {
        Ok(e) => {
            let (c2, r) = l3_correlated(child, i3, i2, i1, address, p, o);
            (Lvl4View { table: v.table.update(i4, e), lower: v.lower.update(i4, Some(c2)) }, r)
        },
        Err(err) => (
            Lvl4View {
                table: v.table.update(i4, prepare_failed_entry(entry, p, o)),
                lower: v.lower.update(i4, Some(child)),
            },
            Err(err),
        ),
    }
}

/// The permission check of an existing entry against the requested permissions.
pub open spec fn entry_check(e: PageEntry, p: VmPermissions, o: VmOptions) -> Option<
    PageCorrelationError,
> {
    perm_check(e.present, VmPermissions(perms_of(e)), p, o)
}

/// The checks made before anything is changed: along the tables that already exist on the
/// path to the page, each entry's permissions are checked, then the page entry, which must
/// not be present unless overwriting is allowed.
pub open spec fn ro_checked(
    m: Option<Lvl4View>,
    i4: int,
    i3: int,
    i2: int,
    i1: int,
    p: VmPermissions,
    o: VmOptions,
) -> Option<PageCorrelationError> {
    match m {
        None => None,
        Some(v4) => match v4.lower[i4] {
            None => None,
            Some(v3) => if entry_check(v4.table[i4], p, o) is Some {
                entry_check(v4.table[i4], p, o)
            } else {
                match v3.lower[i3] {
                    None => None,
                    Some(v2) => if entry_check(v3.table[i3], p, o) is Some {
                        entry_check(v3.table[i3], p, o)
                    } else {
                        match v2.lower[i2] {
                            None => None,
                            Some(t1) => if entry_check(v2.table[i2], p, o) is Some {
                                entry_check(v2.table[i2], p, o)
                            } else if t1[i1].present && !bit_set(o.0, 0) {
                                Some(PageCorrelationError::PageAlreadyMapped)
                            } else {
                                entry_check(t1[i1], p, o)
                            },
                        }
                    },
                }
            },
        },
    }
}

/// Mapping a page in the whole mapping: the checks first, which leave everything as it was
/// where they fail; then the top table is made where there is none, and the mapping goes
/// down through it.
pub open spec fn mapping_correlated(
    m: Option<Lvl4View>,
    i4: int,
    i3: int,
    i2: int,
    i1: int,
    address: u64,
    p: VmPermissions,
    o: VmOptions,
) -> (Option<Lvl4View>, Result<Option<u64>, PageCorrelationError>) {
    match ro_checked(m, i4, i3, i2, i1, p, o) {
        Some(err) => (m, Err(err)),
        None => {
            let v4 = match m {
                Some(v) => v,
                None => l4_empty(),
            };
            let (v4b, r) = l4_correlated(v4, i4, i3, i2, i1, address, p, o);
            (Some(v4b), r)
        },
    }
}

/// The address a page entry gives for the indexes, where every table on the way exists and
/// the page entry is present.
pub open spec fn mapping_lookup(m: Option<Lvl4View>, i4: int, i3: int, i2: int, i1: int) -> Option<
    u64,
> {
    match m {
        None => None,
        Some(v4) => match v4.lower[i4] {
            None => None,
            Some(v3) => match v3.lower[i3] {
                None => None,
                Some(v2) => match v2.lower[i2] {
                    None => None,
                    Some(t1) => if t1[i1].present {
                        Some(t1[i1].address)
                    } else {
                        None
                    },
                },
            },
        },
    }
}

pub open spec fn mapping_wf(m: Option<Lvl4View>) -> bool {
    m is Some ==> l4_wf(m->0)
}

// --- first level ----------------------------------------------------------------------

struct SafePageMapLvl1 {
    table: Vec<PageEntry>,
}

impl View for SafePageMapLvl1 {
    type V = Seq<PageEntry>;

    closed spec fn view(&self) -> Seq<PageEntry> {
        self.table@
    }
}

fn zero_entries() -> (r: Vec<PageEntry>)
    ensures
        r@ == l1_empty(),
{
    let mut v: Vec<PageEntry> = Vec::new();
    let mut i: usize = 0;
    while i < TABLE_ENTRIES
        invariant
            i <= TABLE_ENTRIES,
            v@.len() == i,
            forall|j: int| 0 <= j < i ==> v@[j] == zero_entry(),
        decreases TABLE_ENTRIES - i,
    {
        v.push(new_zero_entry());
        i = i + 1;
    }
    assert(v@ =~= l1_empty());
    v
}

impl SafePageMapLvl1 {
    fn empty() -> (r: Self)
        ensures
            r@ == l1_empty(),
    {
        Self { table: zero_entries() }
    }

    /// Do the actual inner correlating of the pages.
    fn inner_correlate_page(
        &mut self,
        local_table_index: usize,
        address: u64,
        options: VmOptions,
        permissions: VmPermissions,
    ) -> (r: Result<Option<u64>, PageCorrelationError>)
        requires
            l1_wf(old(self)@),
            local_table_index < TABLE_ENTRIES,
        ensures
            l1_wf(final(self)@),
            (final(self)@, r) == l1_correlated(
                old(self)@,
                local_table_index as int,
                address,
                permissions,
                options,
            ),
    {
        let mut entry = self.table[local_table_index];
        match correlate_entry(&mut entry, address, permissions, options) {
            Ok(prev) => {
                self.table.set(local_table_index, entry);
                Ok(prev)
            },
            Err(e) => Err(e),
        }
    }
}

// --- second level ---------------------------------------------------------------------

struct SafePageMapLvl2 {
    table: Vec<PageEntry>,
    lower: Vec<Option<Box<SafePageMapLvl1>>>,
}

spec fn l1_opt_view(o: Option<Box<SafePageMapLvl1>>) -> Option<Seq<PageEntry>> {
    match o {
        Some(b) => Some(b@),
        None => None,
    }
}

impl View for SafePageMapLvl2 {
    type V = Lvl2View;

    closed spec fn view(&self) -> Lvl2View {
        Lvl2View { table: self.table@, lower: self.lower@.map_values(|o| l1_opt_view(o)) }
    }
}

impl SafePageMapLvl2 {
    fn empty() -> (r: Self)
        ensures
            r@ == l2_empty(),
    {
        let mut lower: Vec<Option<Box<SafePageMapLvl1>>> = Vec::new();
        let mut i: usize = 0;
        while i < TABLE_ENTRIES
            invariant
                i <= TABLE_ENTRIES,
                lower@.len() == i,
                forall|j: int| 0 <= j < i ==> lower@[j] is None,
            decreases TABLE_ENTRIES - i,
        {
            lower.push(None);
            i = i + 1;
        }
        let r = Self { table: zero_entries(), lower };
        assert(r@.lower =~= l2_empty().lower);
        assert(r@.table =~= l2_empty().table);
        r
    }

    /// Make sure the table below `index` exists, prepare the entry at `index`, and map the
    /// page in the table below.
    fn ensured_correlate_at(
        &mut self,
        index: usize,
        i1: usize,
        address: u64,
        options: VmOptions,
        permissions: VmPermissions,
    ) -> (r: Result<Option<u64>, PageCorrelationError>)
        requires
            l2_wf(old(self)@),
            index < TABLE_ENTRIES,
            i1 < TABLE_ENTRIES,
        ensures
            l2_wf(final(self)@),
            (final(self)@, r) == l2_correlated(
                old(self)@,
                index as int,
                i1 as int,
                address,
                permissions,
                options,
            ),
    {
        let ghost v = self@;
        let mut slot: Option<Box<SafePageMapLvl1>> = None;
        self.lower.set_and_swap(index, &mut slot);
        assert(l1_opt_view(slot) == v.lower[index as int]);
        let is_zero = slot.is_none();
        let mut child = match slot {
            Some(b) => *b,
            None => SafePageMapLvl1::empty(),
        };
        let mut entry = if is_zero {
            new_zero_entry()
        } else {
            self.table[index]
        };
        let r = match prepare_table_entry(&mut entry, permissions, options) {
            Ok(()) => child.inner_correlate_page(i1, address, options, permissions),
            Err(e) => Err(e),
        };
        self.table.set(index, entry);
        self.lower.set(index, Some(Box::new(child)));
        assert(self@.lower =~= v.lower.update(index as int, Some(child@)));
        r
    }
}

// --- third level ---------------------------------------------------------------------

struct SafePageMapLvl3 {
    table: Vec<PageEntry>,
    lower: Vec<Option<Box<SafePageMapLvl2>>>,
}

spec fn l2_opt_view(o: Option<Box<SafePageMapLvl2>>) -> Option<Lvl2View> {
    match o {
        Some(b) => Some(b@),
        None => None,
    }
}

impl View for SafePageMapLvl3 {
    type V = Lvl3View;

    closed spec fn view(&self) -> Lvl3View {
        Lvl3View { table: self.table@, lower: self.lower@.map_values(|o| l2_opt_view(o)) }
    }
}

impl SafePageMapLvl3 {
    fn empty() -> (r: Self)
        ensures
            r@ == l3_empty(),
    {
        let mut lower: Vec<Option<Box<SafePageMapLvl2>>> = Vec::new();
        let mut i: usize = 0;
        while i < TABLE_ENTRIES
            invariant
                i <= TABLE_ENTRIES,
                lower@.len() == i,
                forall|j: int| 0 <= j < i ==> lower@[j] is None,
            decreases TABLE_ENTRIES - i,
        {
            lower.push(None);
            i = i + 1;
        }
        let r = Self { table: zero_entries(), lower };
        assert(r@.lower =~= l3_empty().lower);
        assert(r@.table =~= l3_empty().table);
        r
    }

    /// Make sure the table below `index` exists, prepare the entry at `index`, and map the
    /// page in the table below.
    fn ensured_correlate_at(
        &mut self,
        index: usize,
        i2: usize,
        i1: usize,
        address: u64,
        options: VmOptions,
        permissions: VmPermissions,
    ) -> (r: Result<Option<u64>, PageCorrelationError>)
        requires
            l3_wf(old(self)@),
            index < TABLE_ENTRIES,
            i2 < TABLE_ENTRIES,
            i1 < TABLE_ENTRIES,
        ensures
            l3_wf(final(self)@),
            (final(self)@, r) == l3_correlated(
                old(self)@,
                index as int,
                i2 as int,
                i1 as int,
                address,
                permissions,
                options,
            ),
    {
        let ghost v = self@;
        let mut slot: Option<Box<SafePageMapLvl2>> = None;
        self.lower.set_and_swap(index, &mut slot);
        assert(l2_opt_view(slot) == v.lower[index as int]);
        let is_zero = slot.is_none();
        let mut child = match slot {
            Some(b) => *b,
            None => SafePageMapLvl2::empty(),
        };
        let mut entry = if is_zero {
            new_zero_entry()
        } else {
            self.table[index]
        };
        let r = match prepare_table_entry(&mut entry, permissions, options) {
            Ok(()) => child.ensured_correlate_at(i2, i1, address, options, permissions),
            Err(e) => Err(e),
        };
        self.table.set(index, entry);
        self.lower.set(index, Some(Box::new(child)));
        assert(self@.lower =~= v.lower.update(index as int, Some(child@)));
        r
    }
}

// --- top level ---------------------------------------------------------------------

struct SafePageMapLvl4 {
    table: Vec<PageEntry>,
    lower: Vec<Option<Box<SafePageMapLvl3>>>,
}

spec fn l3_opt_view(o: Option<Box<SafePageMapLvl3>>) -> Option<Lvl3View> {
    match o {
        Some(b) => Some(b@),
        None => None,
    }
}

impl View for SafePageMapLvl4 {
    type V = Lvl4View;

    closed spec fn view(&self) -> Lvl4View {
        Lvl4View { table: self.table@, lower: self.lower@.map_values(|o| l3_opt_view(o)) }
    }
}

impl SafePageMapLvl4 {
    fn empty() -> (r: Self)
        ensures
            r@ == l4_empty(),
    {
        let mut lower: Vec<Option<Box<SafePageMapLvl3>>> = Vec::new();
        let mut i: usize = 0;
        while i < TABLE_ENTRIES
            invariant
                i <= TABLE_ENTRIES,
                lower@.len() == i,
                forall|j: int| 0 <= j < i ==> lower@[j] is None,
            decreases TABLE_ENTRIES - i,
        {
            lower.push(None);
            i = i + 1;
        }
        let r = Self { table: zero_entries(), lower };
        assert(r@.lower =~= l4_empty().lower);
        assert(r@.table =~= l4_empty().table);
        r
    }

    /// Make sure the table below `index` exists, prepare the entry at `index`, and map the
    /// page in the table below.
    fn ensured_correlate_at(
        &mut self,
        index: usize,
        i3: usize,
        i2: usize,
        i1: usize,
        address: u64,
        options: VmOptions,
        permissions: VmPermissions,
    ) -> (r: Result<Option<u64>, PageCorrelationError>)
        requires
            l4_wf(old(self)@),
            index < TABLE_ENTRIES,
            i3 < TABLE_ENTRIES,
            i2 < TABLE_ENTRIES,
            i1 < TABLE_ENTRIES,
        ensures
            l4_wf(final(self)@),
            (final(self)@, r) == l4_correlated(
                old(self)@,
                index as int,
                i3 as int,
                i2 as int,
                i1 as int,
                address,
                permissions,
                options,
            ),
    {
        let ghost v = self@;
        let mut slot: Option<Box<SafePageMapLvl3>> = None;
        self.lower.set_and_swap(index, &mut slot);
        assert(l3_opt_view(slot) == v.lower[index as int]);
        let is_zero = slot.is_none();
        let mut child = match slot {
            Some(b) => *b,
            None => SafePageMapLvl3::empty(),
        };
        let mut entry = if is_zero {
            new_zero_entry()
        } else {
            self.table[index]
        };
        let r = match prepare_table_entry(&mut entry, permissions, options) {
            Ok(()) => child.ensured_correlate_at(i3, i2, i1, address, options, permissions),
            Err(e) => Err(e),
        };
        self.table.set(index, entry);
        self.lower.set(index, Some(Box::new(child)));
        assert(self@.lower =~= v.lower.update(index as int, Some(child@)));
        r
    }
}


// --- copying ---------------------------------------------------------------------------

fn copy_entries(t: &Vec<PageEntry>) -> (r: Vec<PageEntry>)
    ensures
        r@ == t@,
{
    let mut v: Vec<PageEntry> = Vec::new();
    let mut i: usize = 0;
    while i < t.len()
        invariant
            i <= t@.len(),
            v@ == t@.subrange(0, i as int),
        decreases t@.len() - i,
    {
        v.push(t[i]);
        i = i + 1;
        assert(v@ =~= t@.subrange(0, i as int));
    }
    assert(v@ =~= t@);
    v
}

impl SafePageMapLvl1 {
    fn duplicate(&self) -> (r: Self)
        ensures
            r@ == self@,
    {
        Self { table: copy_entries(&self.table) }
    }
}

impl SafePageMapLvl2 {
    fn duplicate(&self) -> (r: Self)
        ensures
            r@ == self@,
    {
        let mut lower: Vec<Option<Box<SafePageMapLvl1>>> = Vec::new();
        let mut i: usize = 0;
        while i < self.lower.len()
            invariant
                i <= self.lower@.len(),
                lower@.len() == i,
                forall|j: int| 0 <= j < i ==> l1_opt_view(#[trigger] lower@[j]) == l1_opt_view(
                    self.lower@[j],
                ),
            decreases self.lower@.len() - i,
        {
            let c = match &self.lower[i] {
                Some(b) => Some(Box::new(b.duplicate())),
                None => None,
            };
            lower.push(c);
            i = i + 1;
        }
        let r = Self { table: copy_entries(&self.table), lower };
        assert(r@.lower =~= self@.lower);
        r
    }
}

impl SafePageMapLvl3 {
    fn duplicate(&self) -> (r: Self)
        ensures
            r@ == self@,
    {
        let mut lower: Vec<Option<Box<SafePageMapLvl2>>> = Vec::new();
        let mut i: usize = 0;
        while i < self.lower.len()
            invariant
                i <= self.lower@.len(),
                lower@.len() == i,
                forall|j: int| 0 <= j < i ==> l2_opt_view(#[trigger] lower@[j]) == l2_opt_view(
                    self.lower@[j],
                ),
            decreases self.lower@.len() - i,
        {
            let c = match &self.lower[i] {
                Some(b) => Some(Box::new(b.duplicate())),
                None => None,
            };
            lower.push(c);
            i = i + 1;
        }
        let r = Self { table: copy_entries(&self.table), lower };
        assert(r@.lower =~= self@.lower);
        r
    }
}

impl SafePageMapLvl4 {
    fn duplicate(&self) -> (r: Self)
        ensures
            r@ == self@,
    {
        let mut lower: Vec<Option<Box<SafePageMapLvl3>>> = Vec::new();
        let mut i: usize = 0;
        while i < self.lower.len()
            invariant
                i <= self.lower@.len(),
                lower@.len() == i,
                forall|j: int| 0 <= j < i ==> l3_opt_view(#[trigger] lower@[j]) == l3_opt_view(
                    self.lower@[j],
                ),
            decreases self.lower@.len() - i,
        {
            let c = match &self.lower[i] {
                Some(b) => Some(Box::new(b.duplicate())),
                None => None,
            };
            lower.push(c);
            i = i + 1;
        }
        let r = Self { table: copy_entries(&self.table), lower };
        assert(r@.lower =~= self@.lower);
        r
    }
}

// --- the whole mapping -----------------------------------------------------------------

/// The page tables of one address space: none at all until the first page is mapped, then
/// a top-level table and the tables below it.
pub struct Virt2PhysMapping {
    mapping: Option<SafePageMapLvl4>,
}

impl View for Virt2PhysMapping {
    type V = Option<Lvl4View>;

    closed spec fn view(&self) -> Option<Lvl4View> {
        match self.mapping {
            Some(t) => Some(t@),
            None => None,
        }
    }
}

/// The page that holds the address of a page entry, as a lookup gives it.
pub open spec fn entry_page(address: u64) -> int {
    (address as usize as int) / 4096
}

fn page_of_entry(address: u64) -> (r: PhysPage)
    ensures
        r@ == entry_page(address),
{
    PhysPage::new(address as usize / 4096)
}

impl Virt2PhysMapping {
    /// The tables are in good shape: each has its full set of entries.
    pub open spec fn wf(&self) -> bool {
        mapping_wf(self@)
    }

    /// Create a new table that is not mapped
    pub fn empty() -> (r: Self)
        ensures
            r@ is None,
            r.wf(),
    {
        Self { mapping: None }
    }

    /// Copy all entries and tables from 'from' into a new table.
    pub fn inhearit_from(from: &Self) -> (r: Self)
        ensures
            r@ == from@,
            from.wf() ==> r.wf(),
    {
        match &from.mapping {
            Some(t) => Self { mapping: Some(t.duplicate()) },
            None => Self { mapping: None },
        }
    }

    fn ro_check(
        &self,
        i4: usize,
        i3: usize,
        i2: usize,
        i1: usize,
        options: VmOptions,
        permissions: VmPermissions,
    ) -> (r: Option<PageCorrelationError>)
        requires
            self.wf(),
            i4 < TABLE_ENTRIES,
            i3 < TABLE_ENTRIES,
            i2 < TABLE_ENTRIES,
            i1 < TABLE_ENTRIES,
        ensures
            r == ro_checked(self@, i4 as int, i3 as int, i2 as int, i1 as int, permissions, options),
    {
        match &self.mapping {
            None => None,
            Some(l4) => match &l4.lower[i4] {
                None => None,
                Some(l3) => {
                    assert(l4@.lower[i4 as int] == Some(l3@));
                    let e4 = l4.table[i4];
                    let c = check_perms(e4.present, e4.get_permissions(), permissions, options);
                    if c.is_some() {
                        return c;
                    }
                    match &l3.lower[i3] {
                        None => None,
                        Some(l2) => {
                            assert(l3@.lower[i3 as int] == Some(l2@));
                            let e3 = l3.table[i3];
                            let c = check_perms(
                                e3.present,
                                e3.get_permissions(),
                                permissions,
                                options,
                            );
                            if c.is_some() {
                                return c;
                            }
                            match &l2.lower[i2] {
                                None => None,
                                Some(l1) => {
                                    assert(l2@.lower[i2 as int] == Some(l1@));
                                    let e2 = l2.table[i2];
                                    let c = check_perms(
                                        e2.present,
                                        e2.get_permissions(),
                                        permissions,
                                        options,
                                    );
                                    if c.is_some() {
                                        return c;
                                    }
                                    let page_entry = l1.table[i1];
                                    if page_entry.present && !options.is_overwrite_set() {
                                        return Some(PageCorrelationError::PageAlreadyMapped);
                                    }
                                    check_perms(
                                        page_entry.present,
                                        page_entry.get_permissions(),
                                        permissions,
                                        options,
                                    )
                                },
                            }
                        },
                    }
                },
            },
        }
    }

    /// Find the physical-page of a virtual-page by looking it up in the page tables
    pub fn vpage_to_ppage_lookup(&self, page: VirtPage) -> (r: Result<
        PhysPage,
        PhysPtrTranslationError,
    >)
        requires
            self.wf(),
            page@ * 4096 <= usize::MAX,
        ensures
            ({
                let (i4, i3, i2, i1) = table_indexes((page@ * 4096) as u64);
                let found = mapping_lookup(
                    self@,
                    i4 as int,
                    i3 as int,
                    i2 as int,
                    i1 as int,
                );
                &&& self@ is None ==> r == Err::<PhysPage, PhysPtrTranslationError>(
                    PhysPtrTranslationError::PageEntriesNotSetup,
                )
                &&& self@ is Some && found is None ==> r is Err && r->Err_0 is VirtNotFound && (
                r->Err_0->VirtNotFound_0)@ == page@ * 4096
                &&& found is Some ==> r is Ok && r->Ok_0@ == (found->0 as usize) / 4096
            }),
    {
        proof {
            crate::mem::page::lemma_page_sizes();
        }
        let vaddr = page.addr();
        let l4 = match &self.mapping {
            Some(t) => t,
            None => {
                return Err(PhysPtrTranslationError::PageEntriesNotSetup);
            },
        };
        let (i4, i3, i2, i1) = table_indexes_for(vaddr);
        let found: Option<u64> = match &l4.lower[i4] {
            None => None,
            Some(l3) => {
                assert(l4@.lower[i4 as int] == Some(l3@));
                match &l3.lower[i3] {
                    None => None,
                    Some(l2) => {
                        assert(l3@.lower[i3 as int] == Some(l2@));
                        match &l2.lower[i2] {
                            None => None,
                            Some(l1) => {
                                assert(l2@.lower[i2 as int] == Some(l1@));
                                let entry = l1.table[i1];
                                if entry.present {
                                    Some(entry.address)
                                } else {
                                    None
                                }
                            },
                        }
                    },
                }
            },
        };
        match found {
            Some(phys_addr) => Ok(
                PhysPage::<Page4K>::containing_addr(PhysAddr::new(phys_addr as usize)),
            ),
            None => Err(PhysPtrTranslationError::VirtNotFound(vaddr)),
        }
    }

    /// Map this `vpage` to `ppage` returning the previous PhysPage if there was one
    pub fn correlate_page(
        &mut self,
        vpage: VirtPage,
        ppage: PhysPage,
        options: VmOptions,
        permissions: VmPermissions,
    ) -> (r: Result<Option<PhysPage>, PageCorrelationError>)
        requires
            old(self).wf(),
            vpage@ * 4096 <= usize::MAX,
            ppage@ * 4096 <= usize::MAX,
        ensures
            final(self).wf(),
            ({
                let (i4, i3, i2, i1) = table_indexes((vpage@ * 4096) as u64);
                let (m, res) = mapping_correlated(
                    old(self)@,
                    i4 as int,
                    i3 as int,
                    i2 as int,
                    i1 as int,
                    (ppage@ * 4096) as u64,
                    permissions,
                    options,
                );
                &&& final(self)@ == m
                &&& match res {
                    Ok(prev) => r is Ok && prev == mapping_lookup(
                        old(self)@,
                        i4 as int,
                        i3 as int,
                        i2 as int,
                        i1 as int,
                    ) && (r->Ok_0 is Some <==> prev is Some) && (prev is Some ==> r->Ok_0->0@
                        == entry_page(prev->0)),
                    Err(e) => r == Err::<Option<PhysPage>, PageCorrelationError>(e),
                }
            }),
    {
        proof {
            crate::mem::page::lemma_page_sizes();
        }
        let (i4, i3, i2, i1) = table_indexes_for(vpage.addr());
        if let Some(err) = self.ro_check(i4, i3, i2, i1, options, permissions) {
            return Err(err);
        }
        let address = ppage.addr().addr() as u64;
        let mut top = match self.mapping.take() {
            Some(t) => t,
            None => SafePageMapLvl4::empty(),
        };
        let res = top.ensured_correlate_at(i4, i3, i2, i1, address, options, permissions);
        self.mapping = Some(top);
        proof {
            if res is Ok {
                lemma_correlate_returns_lookup(
                    old(self)@,
                    i4 as int,
                    i3 as int,
                    i2 as int,
                    i1 as int,
                    address,
                    permissions,
                    options,
                );
            }
        }
        match res {
            Ok(Some(prev)) => Ok(Some(page_of_entry(prev))),
            Ok(None) => Ok(None),
            Err(e) => Err(e),
        }
    }
}


// --- laws ------------------------------------------------------------------------------

/// Mapping a page entry with read permission, and not only its permissions, leaves it
/// present and pointing at the new address.
proof fn lemma_entry_mapped(e: PageEntry, address: u64, p: VmPermissions, o: VmOptions)
    requires
        correlated_entry(e, address, p, o) is Ok,
        crate::mem::paging::perm_bit(p.0, 1),
        !bit_set(o.0, 5),
    ensures
        correlated_entry(e, address, p, o)->Ok_0.0.present,
        correlated_entry(e, address, p, o)->Ok_0.0.address == address,
{
}

/// A page that was mapped with read permission (and with its address, not only its
/// permissions) is found again at the address it was mapped to.
pub proof fn lemma_lookup_after_correlate(
    m: Option<Lvl4View>,
    i4: int,
    i3: int,
    i2: int,
    i1: int,
    address: u64,
    p: VmPermissions,
    o: VmOptions,
)
    requires
        mapping_wf(m),
        0 <= i4 < TABLE_ENTRIES,
        0 <= i3 < TABLE_ENTRIES,
        0 <= i2 < TABLE_ENTRIES,
        0 <= i1 < TABLE_ENTRIES,
        mapping_correlated(m, i4, i3, i2, i1, address, p, o).1 is Ok,
        crate::mem::paging::perm_bit(p.0, 1),
        !bit_set(o.0, 5),
    ensures
        mapping_lookup(mapping_correlated(m, i4, i3, i2, i1, address, p, o).0, i4, i3, i2, i1)
            == Some(address),
{
    let v4 = match m {
        Some(v) => v,
        None => l4_empty(),
    };
    let c3 = match v4.lower[i4] {
        Some(c) => c,
        None => l3_empty(),
    };
    let c2 = match c3.lower[i3] {
        Some(c) => c,
        None => l2_empty(),
    };
    let c1 = match c2.lower[i2] {
        Some(c) => c,
        None => l1_empty(),
    };
    lemma_entry_mapped(c1[i1], address, p, o);
}

/// What mapping a page hands back as the previous address is what a lookup of the page
/// gave before.
pub proof fn lemma_correlate_returns_lookup(
    m: Option<Lvl4View>,
    i4: int,
    i3: int,
    i2: int,
    i1: int,
    address: u64,
    p: VmPermissions,
    o: VmOptions,
)
    requires
        mapping_wf(m),
        0 <= i4 < TABLE_ENTRIES,
        0 <= i3 < TABLE_ENTRIES,
        0 <= i2 < TABLE_ENTRIES,
        0 <= i1 < TABLE_ENTRIES,
        mapping_correlated(m, i4, i3, i2, i1, address, p, o).1 is Ok,
    ensures
        mapping_correlated(m, i4, i3, i2, i1, address, p, o).1 == Ok::<
            Option<u64>,
            PageCorrelationError,
        >(mapping_lookup(m, i4, i3, i2, i1)),
{
}

/// Mapping a page changes what no other page is found at: the lookup of any other indexes
/// gives what it gave before, whether the mapping succeeded or not.
pub proof fn lemma_correlate_keeps_others(
    m: Option<Lvl4View>,
    i4: int,
    i3: int,
    i2: int,
    i1: int,
    j4: int,
    j3: int,
    j2: int,
    j1: int,
    address: u64,
    p: VmPermissions,
    o: VmOptions,
)
    requires
        mapping_wf(m),
        0 <= i4 < TABLE_ENTRIES,
        0 <= i3 < TABLE_ENTRIES,
        0 <= i2 < TABLE_ENTRIES,
        0 <= i1 < TABLE_ENTRIES,
        0 <= j4 < TABLE_ENTRIES,
        0 <= j3 < TABLE_ENTRIES,
        0 <= j2 < TABLE_ENTRIES,
        0 <= j1 < TABLE_ENTRIES,
        (i4, i3, i2, i1) != (j4, j3, j2, j1),
    ensures
        mapping_lookup(mapping_correlated(m, i4, i3, i2, i1, address, p, o).0, j4, j3, j2, j1)
            == mapping_lookup(m, j4, j3, j2, j1),
{
}

/// Mapping keeps the tables in good shape.
pub proof fn lemma_correlate_keeps_wf(
    m: Option<Lvl4View>,
    i4: int,
    i3: int,
    i2: int,
    i1: int,
    address: u64,
    p: VmPermissions,
    o: VmOptions,
)
    requires
        mapping_wf(m),
        0 <= i4 < TABLE_ENTRIES,
        0 <= i3 < TABLE_ENTRIES,
        0 <= i2 < TABLE_ENTRIES,
        0 <= i1 < TABLE_ENTRIES,
    ensures
        mapping_wf(mapping_correlated(m, i4, i3, i2, i1, address, p, o).0),
{
}

// --- inheriting the bootloader's tables ----------------------------------------------------

/// A page the bootloader's tables map: where its entry sits in the tables, and the physical
/// address the entry holds.
#[derive(Clone, Copy, Debug, PartialEq, Eq, Structural)]
pub enum BootloaderEntry {
    Page1G { lvl4: usize, lvl3: usize, phys: u64 },
    Page2M { lvl4: usize, lvl3: usize, lvl2: usize, phys: u64 },
    Page4K { lvl4: usize, lvl3: usize, lvl2: usize, lvl1: usize, phys: u64 },
}

/// Pages below this one (the bootloader's identity mapping) are not inherited.
pub const SKIP_UNTIL_PAGE: u64 = 0x1_0000_0000;

/// The permissions every inherited page gets: read, write and execute, kernel only.
pub open spec fn kernel_rwe() -> VmPermissions {
    VmPermissions(7)
}

/// The options inherited pages are mapped with: no TLB flush, as the new tables are not
/// loaded yet.
pub open spec fn kernel_opt() -> VmOptions {
    VmOptions(8)
}

/// The virtual page of an entry, from its indexes.
pub open spec fn boot_vpage(e: BootloaderEntry) -> int {
    match e {
        BootloaderEntry::Page1G { lvl4, lvl3, .. } => lvl4 * 134217728 + lvl3 * 262144,
        BootloaderEntry::Page2M { lvl4, lvl3, lvl2, .. } => lvl4 * 134217728 + lvl3 * 262144 + lvl2
            * 512,
        BootloaderEntry::Page4K { lvl4, lvl3, lvl2, lvl1, .. } => lvl4 * 134217728 + lvl3 * 262144
            + lvl2 * 512 + lvl1,
    }
}

/// The physical page of an entry: the page that holds its address.
pub open spec fn boot_ppage(e: BootloaderEntry) -> int {
    match e {
        BootloaderEntry::Page1G { phys, .. } => (phys / 4096) as int,
        BootloaderEntry::Page2M { phys, .. } => (phys / 4096) as int,
        BootloaderEntry::Page4K { phys, .. } => (phys / 4096) as int,
    }
}

/// The entry sits in the tables, and every page it leads to has an address.
pub open spec fn boot_entry_ok(e: BootloaderEntry) -> bool {
    &&& match e {
        BootloaderEntry::Page1G { lvl4, lvl3, .. } => lvl4 < 512 && lvl3 < 512,
        BootloaderEntry::Page2M { lvl4, lvl3, lvl2, .. } => lvl4 < 512 && lvl3 < 512 && lvl2 < 512,
        BootloaderEntry::Page4K { lvl4, lvl3, lvl2, lvl1, .. } => lvl4 < 512 && lvl3 < 512 && lvl2
            < 512 && lvl1 < 512,
    }
    &&& (boot_vpage(e) + 262144) * 4096 <= usize::MAX
    &&& (boot_ppage(e) + 262144) * 4096 <= usize::MAX
}

impl BootloaderEntry {
    /// Whether the entry sits in the tables and every page it leads to has an address.
    pub fn is_usable(&self) -> (r: bool)
        ensures
            r == boot_entry_ok(*self),
    {
        let (v_ok, phys) = match *self {
            BootloaderEntry::Page1G { lvl4, lvl3, phys } => (lvl4 < 512 && lvl3 < 512, phys),
            BootloaderEntry::Page2M { lvl4, lvl3, lvl2, phys } => (
                lvl4 < 512 && lvl3 < 512 && lvl2 < 512,
                phys,
            ),
            BootloaderEntry::Page4K { lvl4, lvl3, lvl2, lvl1, phys } => (
                lvl4 < 512 && lvl3 < 512 && lvl2 < 512 && lvl1 < 512,
                phys,
            ),
        };
        if !v_ok {
            return false;
        }
        let v: u128 = match *self {
            BootloaderEntry::Page1G { lvl4, lvl3, .. } => lvl4 as u128 * 134217728 + lvl3 as u128
                * 262144,
            BootloaderEntry::Page2M { lvl4, lvl3, lvl2, .. } => lvl4 as u128 * 134217728 + lvl3 as u128
                * 262144 + lvl2 as u128 * 512,
            BootloaderEntry::Page4K { lvl4, lvl3, lvl2, lvl1, .. } => lvl4 as u128 * 134217728
                + lvl3 as u128 * 262144 + lvl2 as u128 * 512 + lvl1 as u128,
        };
        let p: u128 = (phys / 4096) as u128;
        (v + 262144) * 4096 <= usize::MAX as u128 && (p + 262144) * 4096 <= usize::MAX as u128
    }
}

/// The (virtual, physical) 4 KiB pages one entry is mapped as, in order. A 2 MiB page is
/// its 512 pages; a 1 GiB page is its 262144 pages, 512 runs of 512 one after the other.
/// An entry below `SKIP_UNTIL_PAGE` gives nothing.
pub open spec fn pages_of(e: BootloaderEntry) -> Seq<(usize, usize)> {
    let v = boot_vpage(e);
    let p = boot_ppage(e);
    if v < SKIP_UNTIL_PAGE {
        seq![]
    } else {
        match e {
            BootloaderEntry::Page1G { .. } => Seq::new(
                262144,
                |k: int| ((v + k) as usize, (p + k) as usize),
            ),
            BootloaderEntry::Page2M { .. } => Seq::new(
                512,
                |k: int| ((v + k) as usize, (p + k) as usize),
            ),
            BootloaderEntry::Page4K { .. } => seq![(v as usize, p as usize)],
        }
    }
}

/// The pages of all entries, in order.
pub open spec fn inherited_pages(es: Seq<BootloaderEntry>) -> Seq<(usize, usize)>
    decreases es.len(),
{
    if es.len() == 0 {
        seq![]
    } else {
        inherited_pages(es.drop_last()) + pages_of(es.last())
    }
}

/// The tables after mapping each page of `pairs` in turn into `m`, and whether all went
/// well; the first error stops the mapping.
pub open spec fn correlate_all(m: Option<Lvl4View>, pairs: Seq<(usize, usize)>) -> (
    Option<Lvl4View>,
    Result<(), PageCorrelationError>,
)
    decreases pairs.len(),
{
    if pairs.len() == 0 {
        (m, Ok(()))
    } else {
        let (m1, r1) = correlate_all(m, pairs.drop_last());
        if r1 is Err {
            (m1, r1)
        } else {
            let (v, p) = pairs.last();
            let (i4, i3, i2, i1) = table_indexes((v * 4096) as u64);
            let (m2, r2) = mapping_correlated(
                m1,
                i4 as int,
                i3 as int,
                i2 as int,
                i1 as int,
                (p * 4096) as u64,
                kernel_rwe(),
                kernel_opt(),
            );
            (
                m2,
                match r2 {
                    Ok(_) => Ok(()),
                    Err(e) => Err(e),
                },
            )
        }
    }
}

proof fn lemma_inherited_pages_bounded(es: Seq<BootloaderEntry>)
    requires
        forall|k: int| 0 <= k < es.len() ==> boot_entry_ok(#[trigger] es[k]),
    ensures
        forall|k: int|
            0 <= k < inherited_pages(es).len() ==> (#[trigger] inherited_pages(es)[k]).0 * 4096
                <= usize::MAX && inherited_pages(es)[k].1 * 4096 <= usize::MAX,
    decreases es.len(),
{
    if es.len() > 0 {
        lemma_inherited_pages_bounded(es.drop_last());
        let e = es.last();
        assert(boot_entry_ok(es[es.len() - 1]));
        let pre = inherited_pages(es.drop_last());
        let last = pages_of(e);
        assert forall|k: int| 0 <= k < last.len() implies (#[trigger] last[k]).0 * 4096 <= usize::MAX
            && last[k].1 * 4096 <= usize::MAX by {
        }
        assert forall|k: int| 0 <= k < inherited_pages(es).len() implies (#[trigger] inherited_pages(
            es,
        )[k]).0 * 4096 <= usize::MAX && inherited_pages(es)[k].1 * 4096 <= usize::MAX by {
            if k < pre.len() {
                assert(inherited_pages(es)[k] == pre[k]);
            } else {
                assert(inherited_pages(es)[k] == last[k - pre.len()]);
            }
        }
    }
}

/// Append the pages of entry `e` to `out`.
fn push_entry_pages(e: BootloaderEntry, out: &mut Vec<(usize, usize)>)
    requires
        boot_entry_ok(e),
    ensures
        final(out)@ == old(out)@ + pages_of(e),
{
    let (v, p): (usize, usize) = match e {
        BootloaderEntry::Page1G { lvl4, lvl3, phys } => (
            lvl4 * 134217728 + lvl3 * 262144,
            (phys / 4096) as usize,
        ),
        BootloaderEntry::Page2M { lvl4, lvl3, lvl2, phys } => (
            lvl4 * 134217728 + lvl3 * 262144 + lvl2 * 512,
            (phys / 4096) as usize,
        ),
        BootloaderEntry::Page4K { lvl4, lvl3, lvl2, lvl1, phys } => (
            lvl4 * 134217728 + lvl3 * 262144 + lvl2 * 512 + lvl1,
            (phys / 4096) as usize,
        ),
    };
    assert(v == boot_vpage(e) && p == boot_ppage(e));
    if (v as u64) < SKIP_UNTIL_PAGE {
        assert(old(out)@ + pages_of(e) =~= old(out)@);
        return;
    }
    let ghost start = old(out)@;
    let count: usize = match e {
        BootloaderEntry::Page1G { .. } => 262144,
        BootloaderEntry::Page2M { .. } => 512,
        BootloaderEntry::Page4K { .. } => 1,
    };
    let mut k: usize = 0;
    while k < count
        invariant
            k <= count,
            count == pages_of(e).len(),
            v == boot_vpage(e),
            p == boot_ppage(e),
            v >= SKIP_UNTIL_PAGE,
            boot_entry_ok(e),
            e is Page1G ==> count == 262144,
            !(e is Page1G) ==> count <= 512,
            out@ == start + pages_of(e).subrange(0, k as int),
        decreases count - k,
    {
        let d: usize = k;
        out.push((v + d, p + d));
        proof {
            assert(pages_of(e)[k as int] == ((v + d) as usize, (p + d) as usize));
            assert(out@ =~= start + pages_of(e).subrange(0, k + 1));
        }
        k = k + 1;
    }
    assert(pages_of(e).subrange(0, count as int) =~= pages_of(e));
}

proof fn lemma_correlate_all_stops(m: Option<Lvl4View>, pairs: Seq<(usize, usize)>, n: int)
    requires
        0 <= n <= pairs.len(),
        correlate_all(m, pairs.subrange(0, n)).1 is Err,
    ensures
        correlate_all(m, pairs) == correlate_all(m, pairs.subrange(0, n)),
    decreases pairs.len() - n,
{
    if n < pairs.len() {
        assert(pairs.subrange(0, n + 1).drop_last() =~= pairs.subrange(0, n));
        lemma_correlate_all_stops(m, pairs, n + 1);
    } else {
        assert(pairs.subrange(0, n) =~= pairs);
    }
}

impl Virt2PhysMapping {
    /// Make new tables that map what the bootloader's tables map (`entries`, as read from
    /// them in table order) from `SKIP_UNTIL_PAGE` up, each page read, write and execute
    /// for the kernel. The first mapping that fails stops it with its error.
    pub fn inhearit_bootloader(entries: &[BootloaderEntry]) -> (r: Result<Self, PageCorrelationError>)
        requires
            forall|k: int| 0 <= k < entries@.len() ==> boot_entry_ok(#[trigger] entries@[k]),
        ensures
            ({
                let (m, res) = correlate_all(None, inherited_pages(entries@));
                &&& (r is Ok <==> res is Ok)
                &&& r matches Ok(t) ==> t@ == m && t.wf()
                &&& r matches Err(e) ==> res == Err::<(), PageCorrelationError>(e)
            }),
    {
        let mut pairs: Vec<(usize, usize)> = Vec::new();
        let mut i: usize = 0;
        while i < entries.len()
            invariant
                i <= entries@.len(),
                forall|k: int| 0 <= k < entries@.len() ==> boot_entry_ok(#[trigger] entries@[k]),
                pairs@ == inherited_pages(entries@.subrange(0, i as int)),
            decreases entries@.len() - i,
        {
            push_entry_pages(entries[i], &mut pairs);
            proof {
                assert(entries@.subrange(0, i + 1).drop_last() =~= entries@.subrange(0, i as int));
            }
            i = i + 1;
        }
        proof {
            assert(entries@.subrange(0, entries@.len() as int) =~= entries@);
            lemma_inherited_pages_bounded(entries@);
        }
        let mut table = Self::empty();
        let mut k: usize = 0;
        while k < pairs.len()
            invariant
                table.wf(),
                k <= pairs@.len(),
                pairs@ == inherited_pages(entries@),
                forall|j: int|
                    0 <= j < pairs@.len() ==> (#[trigger] pairs@[j]).0 * 4096 <= usize::MAX
                        && pairs@[j].1 * 4096 <= usize::MAX,
                correlate_all(None, pairs@.subrange(0, k as int)) == (table@, Ok::<(), PageCorrelationError>(())),
            decreases pairs@.len() - k,
        {
            let (v, p) = pairs[k];
            proof {
                assert(pairs@.subrange(0, k + 1).drop_last() =~= pairs@.subrange(0, k as int));
                assert(pairs@.subrange(0, k + 1).last() == pairs@[k as int]);
            }
            let res = table.correlate_page(VirtPage::new(v), PhysPage::new(p), VmOptions(8), VmPermissions(7));
            match res {
                Ok(_) => {},
                Err(e) => {
                    proof {
                        lemma_correlate_all_stops(None, pairs@, k + 1);
                    }
                    return Err(e);
                },
            }
            k = k + 1;
        }
        proof {
            assert(pairs@.subrange(0, pairs@.len() as int) =~= pairs@);
        }
        Ok(table)
    }
}

proof fn lemma_page_indexes(v: u64, w: u64, a: u64, b: u64)
    by (bit_vector)
    requires
        v < 0x10_0000_0000,
        w < 0x10_0000_0000,
        a == v * 4096,
        b == w * 4096,
    ensures
        (a >> 39) & 511 < 512,
        (a >> 30) & 511 < 512,
        (a >> 21) & 511 < 512,
        (a >> 12) & 511 < 512,
        (b >> 39) & 511 < 512,
        (b >> 30) & 511 < 512,
        (b >> 21) & 511 < 512,
        (b >> 12) & 511 < 512,
        v != w ==> (a >> 39) & 511 != (b >> 39) & 511 || (a >> 30) & 511 != (b >> 30) & 511 || (a
            >> 21) & 511 != (b >> 21) & 511 || (a >> 12) & 511 != (b >> 12) & 511,
{
}

proof fn lemma_kernel_flags()
    by (bit_vector)
    ensures
        (7u8 >> 1u8) & 1 == 1,
        (8u64 >> 5u64) & 1 != 1,
{
}

/// Mapping a run of pages, none of them twice, leaves each one found at its frame.
proof fn lemma_correlate_all_maps(m: Option<Lvl4View>, pairs: Seq<(usize, usize)>)
    requires
        mapping_wf(m),
        correlate_all(m, pairs).1 is Ok,
        forall|k: int| 0 <= k < pairs.len() ==> (#[trigger] pairs[k]).0 < 0x10_0000_0000,
        forall|j: int, k: int| 0 <= j < k < pairs.len() ==> pairs[j].0 != pairs[k].0,
    ensures
        mapping_wf(correlate_all(m, pairs).0),
        forall|k: int|
            0 <= k < pairs.len() ==> {
                let (i4, i3, i2, i1) = table_indexes((#[trigger] pairs[k].0 * 4096) as u64);
                mapping_lookup(correlate_all(m, pairs).0, i4 as int, i3 as int, i2 as int, i1 as int)
                    == Some((pairs[k].1 * 4096) as u64)
            },
    decreases pairs.len(),
{
    if pairs.len() > 0 {
        let init = pairs.drop_last();
        let (m1, r1) = correlate_all(m, init);
        assert(r1 is Ok);
        assert forall|k: int| 0 <= k < init.len() implies (#[trigger] init[k]).0 < 0x10_0000_0000 by {
            assert(init[k] == pairs[k]);
        }
        assert forall|j: int, k: int| 0 <= j < k < init.len() implies init[j].0 != init[k].0 by {
            assert(init[j] == pairs[j] && init[k] == pairs[k]);
        }
        lemma_correlate_all_maps(m, init);
        let (v, p) = pairs.last();
        let a = (v * 4096) as u64;
        let (i4, i3, i2, i1) = table_indexes(a);
        assert(pairs[pairs.len() - 1] == pairs.last());
        lemma_page_indexes(v as u64, v as u64, a, a);
        lemma_kernel_flags();
        lemma_correlate_keeps_wf(m1, i4 as int, i3 as int, i2 as int, i1 as int, (p * 4096) as u64, kernel_rwe(), kernel_opt());
        lemma_lookup_after_correlate(m1, i4 as int, i3 as int, i2 as int, i1 as int, (p * 4096) as u64, kernel_rwe(), kernel_opt());
        assert forall|k: int| 0 <= k < pairs.len() implies {
            let (j4, j3, j2, j1) = table_indexes((#[trigger] pairs[k].0 * 4096) as u64);
            mapping_lookup(correlate_all(m, pairs).0, j4 as int, j3 as int, j2 as int, j1 as int)
                == Some((pairs[k].1 * 4096) as u64)
        } by {
            if k < pairs.len() - 1 {
                let (w, q) = pairs[k];
                assert(init[k] == pairs[k]);
                let b = (w * 4096) as u64;
                lemma_page_indexes(v as u64, w as u64, a, b);
                let (j4, j3, j2, j1) = table_indexes(b);
                lemma_correlate_keeps_others(m1, i4 as int, i3 as int, i2 as int, i1 as int, j4 as int, j3 as int, j2 as int, j1 as int, (p * 4096) as u64, kernel_rwe(), kernel_opt());
            }
        }
    }
}

proof fn lemma_inherited_below_top(es: Seq<BootloaderEntry>)
    requires
        forall|k: int| 0 <= k < es.len() ==> boot_entry_ok(#[trigger] es[k]),
    ensures
        forall|k: int| 0 <= k < inherited_pages(es).len() ==> (#[trigger] inherited_pages(es)[k]).0 < 0x10_0000_0000,
    decreases es.len(),
{
    if es.len() > 0 {
        lemma_inherited_below_top(es.drop_last());
        let e = es.last();
        assert(boot_entry_ok(es[es.len() - 1]));
        let pre = inherited_pages(es.drop_last());
        let last = pages_of(e);
        assert forall|k: int| 0 <= k < last.len() implies (#[trigger] last[k]).0 < 0x10_0000_0000 by {
        }
        assert forall|k: int| 0 <= k < inherited_pages(es).len() implies (#[trigger] inherited_pages(
            es,
        )[k]).0 < 0x10_0000_0000 by {
            if k < pre.len() {
                assert(inherited_pages(es)[k] == pre[k]);
            } else {
                assert(inherited_pages(es)[k] == last[k - pre.len()]);
            }
        }
    }
}

/// Inheriting the bootloader's tables keeps its mapping: where it succeeds and no page is
/// taken twice, every page taken is found in the new tables at the frame the bootloader
/// gave it.
pub proof fn lemma_inherited_pages_mapped(entries: Seq<BootloaderEntry>)
    requires
        forall|k: int| 0 <= k < entries.len() ==> boot_entry_ok(#[trigger] entries[k]),
        correlate_all(None, inherited_pages(entries)).1 is Ok,
        forall|j: int, k: int|
            0 <= j < k < inherited_pages(entries).len() ==> inherited_pages(entries)[j].0
                != inherited_pages(entries)[k].0,
    ensures
        forall|k: int|
            0 <= k < inherited_pages(entries).len() ==> {
                let (i4, i3, i2, i1) = table_indexes(
                    (#[trigger] inherited_pages(entries)[k].0 * 4096) as u64,
                );
                mapping_lookup(
                    correlate_all(None, inherited_pages(entries)).0,
                    i4 as int,
                    i3 as int,
                    i2 as int,
                    i1 as int,
                ) == Some((inherited_pages(entries)[k].1 * 4096) as u64)
            },
{
    lemma_inherited_below_top(entries);
    lemma_correlate_all_maps(None, inherited_pages(entries));
}

// --- listing the tables ---------------------------------------------------------------

/// One line of a listing of the tables.
#[derive(Clone, Copy, Debug, PartialEq, Eq, Structural)]
pub enum MappingLine {
    /// A present entry of a table of `level` (4, 3 or 2) that has a table below it: where
    /// the entry sits (indexes below its level are 0), the entry, and the first virtual
    /// address it covers.
    Table { level: u8, i4: usize, i3: usize, i2: usize, entry: PageEntry, region: u64 },
    /// A present page entry: where it sits, the entry, and the virtual address it maps.
    Page { i4: usize, i3: usize, i2: usize, i1: usize, entry: PageEntry, vaddr: u64 },
    /// The pages below the table of the line before are left out.
    Elided,
}

/// The first virtual address of the entry at the indexes.
pub open spec fn region_of(i4: int, i3: int, i2: int, i1: int) -> u64 {
    (i4 * 549755813888 + i3 * 1073741824 + i2 * 2097152 + i1 * 4096) as u64
}

/// The line of page entry `i1` of a table of pages, if it is present.
pub open spec fn l1_piece(i4: int, i3: int, i2: int, t1: Seq<PageEntry>, i1: int) -> Seq<MappingLine> {
    if t1[i1].present {
        seq![
            MappingLine::Page {
                i4: i4 as usize,
                i3: i3 as usize,
                i2: i2 as usize,
                i1: i1 as usize,
                entry: t1[i1],
                vaddr: region_of(i4, i3, i2, i1),
            },
        ]
    } else {
        seq![]
    }
}

/// The lines of the first `n` entries of a table of pages.
pub open spec fn l1_lines(i4: int, i3: int, i2: int, t1: Seq<PageEntry>, n: int) -> Seq<MappingLine>
    decreases n,
{
    if n <= 0 {
        seq![]
    } else {
        l1_lines(i4, i3, i2, t1, n - 1) + l1_piece(i4, i3, i2, t1, n - 1)
    }
}

/// The lines of entry `i2` of a table of the second level: where it is present and has a
/// table below, its line, then the lines of that table (or one elided line).
pub open spec fn l2_piece(i4: int, i3: int, v2: Lvl2View, skip_4k: bool, i2: int) -> Seq<MappingLine> {
    match v2.lower[i2] {
        Some(t1) => if v2.table[i2].present {
            seq![
                MappingLine::Table {
                    level: 2,
                    i4: i4 as usize,
                    i3: i3 as usize,
                    i2: i2 as usize,
                    entry: v2.table[i2],
                    region: region_of(i4, i3, i2, 0),
                },
            ] + if skip_4k {
                seq![MappingLine::Elided]
            } else {
                l1_lines(i4, i3, i2, t1, TABLE_ENTRIES as int)
            }
        } else {
            seq![]
        },
        None => seq![],
    }
}

pub open spec fn l2_lines(i4: int, i3: int, v2: Lvl2View, skip_4k: bool, n: int) -> Seq<MappingLine>
    decreases n,
{
    if n <= 0 {
        seq![]
    } else {
        l2_lines(i4, i3, v2, skip_4k, n - 1) + l2_piece(i4, i3, v2, skip_4k, n - 1)
    }
}

/// The lines of entry `i3` of a table of the third level.
pub open spec fn l3_piece(i4: int, v3: Lvl3View, skip_4k: bool, i3: int) -> Seq<MappingLine> {
    match v3.lower[i3] {
        Some(v2) => if v3.table[i3].present {
            seq![
                MappingLine::Table {
                    level: 3,
                    i4: i4 as usize,
                    i3: i3 as usize,
                    i2: 0,
                    entry: v3.table[i3],
                    region: region_of(i4, i3, 0, 0),
                },
            ] + l2_lines(i4, i3, v2, skip_4k, TABLE_ENTRIES as int)
        } else {
            seq![]
        },
        None => seq![],
    }
}

pub open spec fn l3_lines(i4: int, v3: Lvl3View, skip_4k: bool, n: int) -> Seq<MappingLine>
    decreases n,
{
    if n <= 0 {
        seq![]
    } else {
        l3_lines(i4, v3, skip_4k, n - 1) + l3_piece(i4, v3, skip_4k, n - 1)
    }
}

/// The lines of entry `i4` of the top table.
pub open spec fn l4_piece(v4: Lvl4View, skip_4k: bool, i4: int) -> Seq<MappingLine> {
    match v4.lower[i4] {
        Some(v3) => if v4.table[i4].present {
            seq![
                MappingLine::Table {
                    level: 4,
                    i4: i4 as usize,
                    i3: 0,
                    i2: 0,
                    entry: v4.table[i4],
                    region: region_of(i4, 0, 0, 0),
                },
            ] + l3_lines(i4, v3, skip_4k, TABLE_ENTRIES as int)
        } else {
            seq![]
        },
        None => seq![],
    }
}

pub open spec fn l4_lines(v4: Lvl4View, skip_4k: bool, n: int) -> Seq<MappingLine>
    decreases n,
{
    if n <= 0 {
        seq![]
    } else {
        l4_lines(v4, skip_4k, n - 1) + l4_piece(v4, skip_4k, n - 1)
    }
}

/// The listing of the tables: for each present entry with a table below it, in index
/// order, its line and then the lines of that table; the pages of the last level are
/// listed one by one, or left out as one elided line.
pub open spec fn mapping_lines(m: Option<Lvl4View>, skip_4k: bool) -> Seq<MappingLine> {
    match m {
        Some(v4) => l4_lines(v4, skip_4k, TABLE_ENTRIES as int),
        None => seq![],
    }
}

fn region_at(i4: usize, i3: usize, i2: usize, i1: usize) -> (r: u64)
    requires
        i4 < 512 && i3 < 512 && i2 < 512 && i1 < 512,
    ensures
        r == region_of(i4 as int, i3 as int, i2 as int, i1 as int),
{
    i4 as u64 * 549755813888 + i3 as u64 * 1073741824 + i2 as u64 * 2097152 + i1 as u64 * 4096
}

impl SafePageMapLvl1 {
    fn list_into(&self, i4: usize, i3: usize, i2: usize, out: &mut Vec<MappingLine>)
        requires
            l1_wf(self@),
            i4 < 512 && i3 < 512 && i2 < 512,
        ensures
            final(out)@ == old(out)@ + l1_lines(i4 as int, i3 as int, i2 as int, self@, TABLE_ENTRIES as int),
    {
        let ghost start = out@;
        let mut i1: usize = 0;
        while i1 < TABLE_ENTRIES
            invariant
                l1_wf(self@),
                i4 < 512 && i3 < 512 && i2 < 512,
                i1 <= TABLE_ENTRIES,
                out@ == start + l1_lines(i4 as int, i3 as int, i2 as int, self@, i1 as int),
            decreases TABLE_ENTRIES - i1,
        {
            let entry = self.table[i1];
            let ghost before = out@;
            if entry.present {
                out.push(MappingLine::Page { i4, i3, i2, i1, entry, vaddr: region_at(i4, i3, i2, i1) });
            }
            assert(out@ =~= start + l1_lines(i4 as int, i3 as int, i2 as int, self@, i1 + 1));
            i1 = i1 + 1;
        }
    }
}

impl SafePageMapLvl2 {
    fn list_into(&self, i4: usize, i3: usize, skip_4k: bool, out: &mut Vec<MappingLine>)
        requires
            l2_wf(self@),
            i4 < 512 && i3 < 512,
        ensures
            final(out)@ == old(out)@ + l2_lines(i4 as int, i3 as int, self@, skip_4k, TABLE_ENTRIES as int),
    {
        let ghost start = out@;
        let mut i2: usize = 0;
        while i2 < TABLE_ENTRIES
            invariant
                l2_wf(self@),
                i4 < 512 && i3 < 512,
                i2 <= TABLE_ENTRIES,
                out@ == start + l2_lines(i4 as int, i3 as int, self@, skip_4k, i2 as int),
            decreases TABLE_ENTRIES - i2,
        {
            let ghost before = out@;
            let entry = self.table[i2];
            match &self.lower[i2] {
                Some(t1) => {
                    if entry.present {
                        out.push(MappingLine::Table { level: 2, i4, i3, i2, entry, region: region_at(i4, i3, i2, 0) });
                        if skip_4k {
                            out.push(MappingLine::Elided);
                        } else {
                            assert(l1_wf(t1@)) by {
                                assert(self@.lower[i2 as int] is Some);
                            }
                            t1.list_into(i4, i3, i2, out);
                        }
                    }
                },
                None => {},
            }
            assert(out@ =~= start + l2_lines(i4 as int, i3 as int, self@, skip_4k, i2 + 1));
            i2 = i2 + 1;
        }
    }
}

impl SafePageMapLvl3 {
    fn list_into(&self, i4: usize, skip_4k: bool, out: &mut Vec<MappingLine>)
        requires
            l3_wf(self@),
            i4 < 512,
        ensures
            final(out)@ == old(out)@ + l3_lines(i4 as int, self@, skip_4k, TABLE_ENTRIES as int),
    {
        let ghost start = out@;
        let mut i3: usize = 0;
        while i3 < TABLE_ENTRIES
            invariant
                l3_wf(self@),
                i4 < 512,
                i3 <= TABLE_ENTRIES,
                out@ == start + l3_lines(i4 as int, self@, skip_4k, i3 as int),
            decreases TABLE_ENTRIES - i3,
        {
            let entry = self.table[i3];
            match &self.lower[i3] {
                Some(t2) => {
                    if entry.present {
                        out.push(MappingLine::Table { level: 3, i4, i3, i2: 0, entry, region: region_at(i4, i3, 0, 0) });
                        assert(l2_wf(t2@)) by {
                            assert(self@.lower[i3 as int] is Some);
                        }
                        t2.list_into(i4, i3, skip_4k, out);
                    }
                },
                None => {},
            }
            assert(out@ =~= start + l3_lines(i4 as int, self@, skip_4k, i3 + 1));
            i3 = i3 + 1;
        }
    }
}

impl SafePageMapLvl4 {
    fn list_into(&self, skip_4k: bool, out: &mut Vec<MappingLine>)
        requires
            l4_wf(self@),
        ensures
            final(out)@ == old(out)@ + l4_lines(self@, skip_4k, TABLE_ENTRIES as int),
    {
        let ghost start = out@;
        let mut i4: usize = 0;
        while i4 < TABLE_ENTRIES
            invariant
                l4_wf(self@),
                i4 <= TABLE_ENTRIES,
                out@ == start + l4_lines(self@, skip_4k, i4 as int),
            decreases TABLE_ENTRIES - i4,
        {
            let entry = self.table[i4];
            match &self.lower[i4] {
                Some(t3) => {
                    if entry.present {
                        out.push(MappingLine::Table { level: 4, i4, i3: 0, i2: 0, entry, region: region_at(i4, 0, 0, 0) });
                        assert(l3_wf(t3@)) by {
                            assert(self@.lower[i4 as int] is Some);
                        }
                        t3.list_into(i4, skip_4k, out);
                    }
                },
                None => {},
            }
            assert(out@ =~= start + l4_lines(self@, skip_4k, i4 + 1));
            i4 = i4 + 1;
        }
    }
}

impl Virt2PhysMapping {
    /// Whether no table was made yet.
    pub fn is_empty(&self) -> (r: bool)
        ensures
            r == (self@ is None),
    {
        self.mapping.is_none()
    }

    /// The listing of the tables (see `mapping_lines`); with `skip_4k` the pages of the
    /// last level are left out.
    pub fn listing(&self, skip_4k: bool) -> (r: Vec<MappingLine>)
        requires
            self.wf(),
        ensures
            r@ == mapping_lines(self@, skip_4k),
    {
        let mut out: Vec<MappingLine> = Vec::new();
        match &self.mapping {
            Some(t4) => {
                t4.list_into(skip_4k, &mut out);
                assert(out@ =~= mapping_lines(self@, skip_4k));
            },
            None => {
                assert(out@ =~= mapping_lines(self@, skip_4k));
            },
        }
        out
    }
}

} // verus!
