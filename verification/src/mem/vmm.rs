use vstd::prelude::*;

use crate::mem::page::PhysPage;
use crate::mem::MemoryError;

use crate::util::PAGE_4K;

verus! {

/// Pages of 4 KiB in a 2 MiB page.
pub const PAGES_PER_2M: usize = 512;

/// Pages of 4 KiB in a 1 GiB page.
pub const PAGES_PER_1G: usize = 262144;

/// A virtual page, by its number.
#[derive(Clone, Copy, PartialEq, Eq, Structural, PartialOrd, Ord, Debug)]
pub struct VirtPage(pub usize);

impl VirtPage {
    /// Get the page that contains this virtal address.
    pub fn containing_page(vaddr: u64) -> (r: VirtPage)
        ensures
            r.0 == (vaddr as usize) / PAGE_4K,
    {
        VirtPage(vaddr as usize / PAGE_4K)
    }
}

impl core::ops::Add for VirtPage {
    type Output = Self;

    /// The page as many pages on as `rhs` counts.
    fn add(self, rhs: Self) -> (r: Self) {
        VirtPage(self.0 + rhs.0)
    }
}

impl vstd::std_specs::ops::AddSpecImpl for VirtPage {
    open spec fn obeys_add_spec() -> bool {
        true
    }

    open spec fn add_req(self, rhs: Self) -> bool {
        self.0 + rhs.0 <= usize::MAX
    }

    open spec fn add_spec(self, rhs: Self) -> Self {
        VirtPage((self.0 + rhs.0) as usize)
    }
}

impl core::ops::Sub for VirtPage {
    type Output = Self;

    /// The page as many pages back as `rhs` counts.
    fn sub(self, rhs: Self) -> (r: Self) {
        VirtPage(self.0 - rhs.0)
    }
}

impl vstd::std_specs::ops::SubSpecImpl for VirtPage {
    open spec fn obeys_sub_spec() -> bool {
        true
    }

    open spec fn sub_req(self, rhs: Self) -> bool {
        rhs.0 <= self.0
    }

    open spec fn sub_spec(self, rhs: Self) -> Self {
        VirtPage((self.0 - rhs.0) as usize)
    }
}

impl core::ops::AddAssign for VirtPage {
    /// Move the page on by as many pages as `rhs` counts, wrapping past the last page
    /// number as the machine's addition does.
    fn add_assign(&mut self, rhs: Self)
        ensures
            final(self).0 == if old(self).0 + rhs.0 > usize::MAX {
                old(self).0 + rhs.0 - usize::MAX - 1
            } else {
                old(self).0 + rhs.0
            },
    {
        self.0 = self.0.wrapping_add(rhs.0);
    }
}

impl core::ops::SubAssign for VirtPage {
    /// Move the page back by as many pages as `rhs` counts, wrapping below page zero as
    /// the machine's subtraction does.
    fn sub_assign(&mut self, rhs: Self)
        ensures
            final(self).0 == if old(self).0 < rhs.0 {
                old(self).0 - rhs.0 + usize::MAX + 1
            } else {
                old(self).0 - rhs.0
            },
    {
        self.0 = self.0.wrapping_sub(rhs.0);
    }
}

/// A range of virtual pages, both ends included.
#[derive(Clone, Copy, PartialEq, Eq, Structural, PartialOrd, Ord, Debug)]
pub struct VmRegion {
    pub start: VirtPage,
    pub end: VirtPage,
}

/// The iterators below may run up to this page number: the cursor can move one past it.
pub open spec fn iterable_end(end: usize) -> bool {
    end < usize::MAX
}

impl VmRegion {
    /// Is this vaddr within the page bounds: it lies in one of the pages from the first to
    /// the last, so it is contained exactly when the page that holds it is.
    pub fn contains_vaddr(&self, vaddr: u64) -> (r: bool)
        ensures
            r == (self.start.0 <= (vaddr as usize) / PAGE_4K && (vaddr as usize) / PAGE_4K
                <= self.end.0),
            r == (self.start.0 * PAGE_4K <= (vaddr as usize) && (vaddr as usize) < (self.end.0
                + 1) * PAGE_4K),
    {
        let v = vaddr as usize;
        let page = v / PAGE_4K;
        proof {
            let s = self.start.0 as int;
            let e = self.end.0 as int;
            let vi = v as int;
            let p = page as int;
            assert(p * 4096 <= vi < p * 4096 + 4096) by (nonlinear_arith)
                requires p == vi / 4096, vi >= 0;
            assert(s <= p <==> s * 4096 <= vi) by (nonlinear_arith)
                requires p * 4096 <= vi < p * 4096 + 4096, s >= 0;
            assert(p <= e <==> vi < (e + 1) * 4096) by (nonlinear_arith)
                requires p * 4096 <= vi < p * 4096 + 4096, e >= 0;
        }
        self.start.0 <= page && page <= self.end.0
    }

    /// Is this page within the page bounds.
    pub fn contains_vpage(&self, vaddr: VirtPage) -> (r: bool)
        ensures
            r == (vaddr.0 >= self.start.0 && self.end.0 >= vaddr.0),
    {
        vaddr.0 >= self.start.0 && self.end.0 >= vaddr.0
    }

    /// The pages that hold the bytes `[vaddr, vaddr + len]`.
    pub fn from_vaddr(vaddr: u64, len: usize) -> (r: Self)
        requires
            vaddr + len <= u64::MAX,
        ensures
            r.start.0 == (vaddr as usize) / PAGE_4K,
            r.end.0 == ((vaddr + len) as u64 as usize) / PAGE_4K,
    {
        let start = VirtPage::containing_page(vaddr);
        let end = VirtPage::containing_page(vaddr + len as u64);
        Self { start, end }
    }

    /// The 4 KiB pages of the region, in order.
    pub fn iter_4k(&self) -> (r: VmPageIter)
        requires
            iterable_end(self.end.0),
        ensures
            r.wf(),
            r.next_page() == self.start,
            r.last_page() == self.end,
    {
        VmPageIter { start_page: self.start, end_page: self.end }
    }

    /// The region in pieces: 2 MiB pieces where they fit, else 4 KiB pages.
    pub fn iter_2m(&self) -> (r: VmPageLargest2MIter)
        requires
            iterable_end(self.end.0),
        ensures
            r.wf(),
            r.next_page() == self.start,
            r.last_page() == self.end,
    {
        VmPageLargest2MIter { start_page: self.start, end_page: self.end }
    }

    /// The region in pieces: 1 GiB pieces where they fit, else 2 MiB, else 4 KiB.
    pub fn iter_1g(&self) -> (r: VmPageLargest1GIter)
        requires
            iterable_end(self.end.0),
        ensures
            r.wf(),
            r.next_page() == self.start,
            r.last_page() == self.end,
    {
        VmPageLargest1GIter { start_page: self.start, end_page: self.end }
    }
}

/// Walks the 4 KiB pages of a region.
pub struct VmPageIter {
    start_page: VirtPage,
    end_page: VirtPage,
}

impl VmPageIter {
    /// The page handed out next.
    pub closed spec fn next_page(&self) -> VirtPage {
        self.start_page
    }

    /// The last page of the region.
    pub closed spec fn last_page(&self) -> VirtPage {
        self.end_page
    }

    pub closed spec fn wf(&self) -> bool {
        iterable_end(self.end_page.0)
    }

    /// The next page, until the last page of the region was handed out.
    pub fn next(&mut self) -> (r: Option<VirtPage>)
        requires
            old(self).wf(),
        ensures
            final(self).wf(),
            final(self).last_page() == old(self).last_page(),
            old(self).next_page().0 <= old(self).last_page().0 ==> r == Some(old(self).next_page())
                && final(self).next_page().0 == old(self).next_page().0 + 1,
            old(self).next_page().0 > old(self).last_page().0 ==> r is None && *final(self) == *old(self),
    {
        if self.end_page.0 >= self.start_page.0 {
            let result = Some(self.start_page);
            self.start_page.0 = self.start_page.0 + 1;
            result
        } else {
            None
        }
    }
}

/// A piece of a region.
#[derive(Clone, Copy, PartialEq, Eq, Structural, Debug)]
pub enum VmContinuousPageArea {
    Area4K(VirtPage),
    Area2M(VirtPage),
    Area1G(VirtPage),
}

/// Walks a region in 2 MiB pieces where they fit, else in 4 KiB pages.
pub struct VmPageLargest2MIter {
    start_page: VirtPage,
    end_page: VirtPage,
}

impl VmPageLargest2MIter {
    /// Where the next piece starts.
    pub closed spec fn next_page(&self) -> VirtPage {
        self.start_page
    }

    /// The last page of the region.
    pub closed spec fn last_page(&self) -> VirtPage {
        self.end_page
    }

    pub closed spec fn wf(&self) -> bool {
        iterable_end(self.end_page.0)
    }

    /// The next piece: the cursor moves on by a 2 MiB page where that stays within the
    /// region, else by one page; the piece handed out names the page the cursor moved to.
    pub fn next(&mut self) -> (r: Option<VmContinuousPageArea>)
        requires
            old(self).wf(),
        ensures
            final(self).wf(),
            final(self).last_page() == old(self).last_page(),
            ({
                let s = old(self).next_page().0;
                let e = old(self).last_page().0;
                &&& s > e ==> r is None && *final(self) == *old(self)
                &&& s <= e && s + PAGES_PER_2M <= e ==> final(self).next_page().0 == s
                    + PAGES_PER_2M && r == Some(
                    VmContinuousPageArea::Area2M(final(self).next_page()),
                )
                &&& s <= e && s + PAGES_PER_2M > e ==> final(self).next_page().0 == s + 1 && r
                    == Some(VmContinuousPageArea::Area4K(final(self).next_page()))
            }),
    {
        if self.end_page.0 >= self.start_page.0 {
            if self.end_page.0 - self.start_page.0 >= PAGES_PER_2M {
                self.start_page.0 = self.start_page.0 + PAGES_PER_2M;
                Some(VmContinuousPageArea::Area2M(self.start_page))
            } else {
                self.start_page.0 = self.start_page.0 + 1;
                Some(VmContinuousPageArea::Area4K(self.start_page))
            }
        } else {
            None
        }
    }
}

/// Walks a region in 1 GiB pieces where they fit, else 2 MiB, else 4 KiB.
pub struct VmPageLargest1GIter {
    start_page: VirtPage,
    end_page: VirtPage,
}

impl VmPageLargest1GIter {
    /// Where the next piece starts.
    pub closed spec fn next_page(&self) -> VirtPage {
        self.start_page
    }

    /// The last page of the region.
    pub closed spec fn last_page(&self) -> VirtPage {
        self.end_page
    }

    pub closed spec fn wf(&self) -> bool {
        iterable_end(self.end_page.0)
    }

    /// The next piece: the cursor moves on by the largest page size that stays within the
    /// region; the piece handed out names the page the cursor moved to.
    pub fn next(&mut self) -> (r: Option<VmContinuousPageArea>)
        requires
            old(self).wf(),
        ensures
            final(self).wf(),
            final(self).last_page() == old(self).last_page(),
            ({
                let s = old(self).next_page().0;
                let e = old(self).last_page().0;
                &&& s > e ==> r is None && *final(self) == *old(self)
                &&& s <= e && s + PAGES_PER_1G <= e ==> final(self).next_page().0 == s
                    + PAGES_PER_1G && r == Some(
                    VmContinuousPageArea::Area1G(final(self).next_page()),
                )
                &&& s <= e && s + PAGES_PER_1G > e && s + PAGES_PER_2M <= e ==> final(self).next_page().0 == s + PAGES_PER_2M && r == Some(
                    VmContinuousPageArea::Area2M(final(self).next_page()),
                )
                &&& s <= e && s + PAGES_PER_2M > e ==> final(self).next_page().0 == s + 1 && r
                    == Some(VmContinuousPageArea::Area4K(final(self).next_page()))
            }),
    {
        if self.end_page.0 >= self.start_page.0 {
            if self.end_page.0 - self.start_page.0 >= PAGES_PER_1G {
                self.start_page.0 = self.start_page.0 + PAGES_PER_1G;
                Some(VmContinuousPageArea::Area1G(self.start_page))
            } else if self.end_page.0 - self.start_page.0 >= PAGES_PER_2M {
                self.start_page.0 = self.start_page.0 + PAGES_PER_2M;
                Some(VmContinuousPageArea::Area2M(self.start_page))
            } else {
                self.start_page.0 = self.start_page.0 + 1;
                Some(VmContinuousPageArea::Area4K(self.start_page))
            }
        } else {
            None
        }
    }
}

/// Access rights of a region: bit 0 execute, bit 1 read, bit 2 write, bit 3 user.
#[derive(Clone, Copy, PartialEq, Eq, Structural, Debug)]
pub struct VmPermissions(pub u8);

impl VmPermissions {
    /// Execute permission alone.
    pub fn exec() -> (r: Self)
        ensures
            r.0 == 1,
    {
        Self(1)
    }

    /// Read permission alone.
    pub fn read() -> (r: Self)
        ensures
            r.0 == 2,
    {
        Self(2)
    }

    /// Write permission alone.
    pub fn write() -> (r: Self)
        ensures
            r.0 == 4,
    {
        Self(4)
    }

    /// User access alone.
    pub fn user() -> (r: Self)
        ensures
            r.0 == 8,
    {
        Self(8)
    }

    /// No permissions.
    pub fn none() -> (r: Self)
        ensures
            r.0 == 0,
    {
        Self(0)
    }

    /// The permissions of both.
    pub fn union(self, rhs: Self) -> (r: Self)
        ensures
            r.0 == self.0 | rhs.0,
    {
        Self(self.0 | rhs.0)
    }

    pub fn is_exec_set(&self) -> (r: bool)
        ensures
            r == (self.0 & 1 != 0),
    {
        self.0 & 1 != 0
    }

    pub fn is_read_set(&self) -> (r: bool)
        ensures
            r == (self.0 & 2 != 0),
    {
        self.0 & 2 != 0
    }

    pub fn is_write_set(&self) -> (r: bool)
        ensures
            r == (self.0 & 4 != 0),
    {
        self.0 & 4 != 0
    }

    pub fn is_user_set(&self) -> (r: bool)
        ensures
            r == (self.0 & 8 != 0),
    {
        self.0 & 8 != 0
    }
}

/// What backs a region of virtual memory.
#[derive(Debug, Clone, PartialEq, Eq)]
pub enum VmBackingKind {
    Physical,
    Other(String),
}

/// Memory that backs a region of virtual memory, implemented by each kind of backing.
pub trait VmBacking {
    /// The type of memory backing this structure.
    fn backing_kind(&self) -> VmBackingKind;

    /// Get the physical pages that currently exist (in memory)
    fn alive_physical_pages(&self) -> Result<Vec<PhysPage>, MemoryError>;

    /// Allocate a 'page' which is backed in physical memory.
    fn alloc_anywhere(&mut self) -> Result<PhysPage, MemoryError>;

    /// Allocate a 'page' which is backed in physical memory at a given offset (in pages):
    /// the page offset in a file, or the requested physical page.
    fn alloc_here(&mut self, request: usize) -> Result<PhysPage, MemoryError>;

    /// Deallocate a 'page' which is backed in physical memory.
    fn dealloc(&mut self, page: PhysPage) -> Result<(), MemoryError>;

    /// Free all in-use physical pages: each page `alive_physical_pages` lists goes to
    /// `dealloc`, in order, and the first error stops it.
    fn free_all(&mut self) -> Result<(), MemoryError> {
        let pages = match self.alive_physical_pages() {
            Ok(pages) => pages,
            Err(e) => {
                return Err(e);
            },
        };
        let mut i: usize = 0;
        while i < pages.len()
            invariant
                i <= pages@.len(),
            decreases pages@.len() - i,
        {
            match self.dealloc(pages[i]) {
                Ok(()) => {},
                Err(e) => {
                    return Err(e);
                },
            }
            i = i + 1;
        }
        Ok(())
    }
}

} // verus!
