use vstd::prelude::*;

use crate::mem::addr::{AlignedTo, VirtAddr};
use crate::mem::page::{Page4K, VirtPage};
use crate::mem::paging::{PageCorrelationError, VmPermissions};

verus! {

/// A region of virtual memory 'virtual in pages'
#[derive(Debug, Clone, Copy)]
pub struct VmRegion {
    start: VirtPage,
    end: VirtPage,
}

impl VmRegion {
    /// The first page.
    pub closed spec fn start(&self) -> usize {
        self.start@
    }

    /// The last page.
    pub closed spec fn end(&self) -> usize {
        self.end@
    }

    /// Create a new VmRegion from virtual pages
    pub fn new(start: VirtPage, end: VirtPage) -> (r: VmRegion)
        ensures
            r.start() == start@,
            r.end() == end@,
    {
        Self { start, end }
    }

    /// Create a new VmRegion from aligned virtual addresses
    pub fn from_addr(start: VirtAddr<AlignedTo<4096>>, end: VirtAddr<AlignedTo<4096>>) -> (r: Self)
        ensures
            r.start() == start@ / 4096,
            r.end() == end@ / 4096,
    {
        proof {
            crate::mem::page::lemma_page_sizes();
        }
        Self {
            start: VirtPage::<Page4K>::containing_addr(start),
            end: VirtPage::<Page4K>::containing_addr(end),
        }
    }

    /// Get the VmRegion that would contain the unaligned virtual address range
    pub fn from_containing(start: VirtAddr, end: VirtAddr) -> (r: Self)
        ensures
            r.start() == start@ / 4096,
            r.end() == end@ / 4096,
    {
        proof {
            crate::mem::page::lemma_page_sizes();
        }
        Self {
            start: VirtPage::<Page4K>::containing_addr(start),
            end: VirtPage::<Page4K>::containing_addr(end),
        }
    }

    /// Whether the address lies within the region: at or above the start of its first
    /// page and at or below the last byte of its last page.
    pub fn does_contain_addr(&self, addr: VirtAddr) -> (r: bool)
        requires
            (self.end() + 1) * 4096 <= usize::MAX,
            self.start() * 4096 <= usize::MAX,
        ensures
            r == (self.start() * 4096 <= addr@ && addr@ <= self.end() * 4096 + 4095),
    {
        proof {
            crate::mem::page::lemma_page_sizes();
        }
        let s = self.start.addr();
        let e = self.end.addr().offset(4095);
        s.addr() <= addr.addr() && addr.addr() <= e.addr()
    }

    /// Whether the page lies within the region: from its first page to its last.
    pub fn does_contain_page(&self, page: VirtPage) -> (r: bool)
        ensures
            r == (self.start() <= page@ && page@ <= self.end()),
    {
        self.start.page() <= page.page() && page.page() <= self.end.page()
    }

    /// The pages of the region, first to last.
    pub fn pages_iter(&self) -> (r: Vec<VirtPage>)
        ensures
            r@.len() == if self.end() >= self.start() { self.end() - self.start() + 1 } else { 0 },
            forall|i: int| 0 <= i < r@.len() ==> (#[trigger] r@[i])@ == self.start() + i,
    {
        let mut out: Vec<VirtPage> = Vec::new();
        let mut p = self.start.page();
        let e = self.end.page();
        if p > e {
            return out;
        }
        loop
            invariant_except_break
                out@.len() == p - self.start(),
            invariant
                e == self.end(),
                self.start() <= p <= e,
                forall|i: int| 0 <= i < out@.len() ==> (#[trigger] out@[i])@ == self.start() + i,
            ensures
                out@.len() == e - self.start() + 1,
                forall|i: int| 0 <= i < out@.len() ==> (#[trigger] out@[i])@ == self.start() + i,
            decreases e - p,
        {
            out.push(VirtPage::new(p));
            if p == e {
                break;
            }
            p = p + 1;
        }
        out
    }
}

/// The reponse to a page population request
#[derive(Debug)]
pub enum PopulationReponse {
    /// This request was valid and fulfilled
    Okay,
    /// There was a problem mapping this page
    MappingError(PageCorrelationError),
}

/// Possible scenarios for a page fault to occur
#[derive(Clone, Copy, Debug)]
pub struct PageFaultInfo {
    /// If this isnt set, the page didnt exist
    pub is_present: bool,
    /// if this flag is set, the fault was caused by a 'write' access,
    /// however, if this flag isn't set, it was caused by a 'read' access
    pub write_read_access: bool,
    /// An attempted execute was made on this page, however this page does not
    /// support execute
    pub execute_fault: bool,
    /// This page is marked 'Supervisor' but was attempted to be accessed from
    /// a 'User'
    pub user_fault: bool,
    /// The virtual address of the fault
    pub vaddr: VirtAddr,
}

/// What to do in reponse to handling a page fault
#[derive(Debug)]
pub enum PageFaultReponse {
    /// This page fault was handled
    Handled,
    /// The user does not have access to this memory
    NoAccess { page_perm: VmPermissions, request_perm: VmPermissions, page: VirtPage },
    /// Something went wrong, and we need to panic! (with a description of what)
    CriticalFault(String),
    /// There was no page fault handler attached
    NotAttachedHandler,
}

} // verus!
