use vstd::prelude::*;

use core::marker::PhantomData;
use vstd::std_specs::cmp::PartialEqSpecImpl;
use vstd::std_specs::convert::TryFromSpecImpl;

use crate::mem::addr::{AlignedTo, AlignmentError, AlignmentTo, PhysAddr, VirtAddr};
use crate::util::{PAGE_4K, is_pow2};

verus! {

/// The size of a page: a number of 4 KiB pages.
pub trait PagingStructureSize: Clone + Copy {
    const N_PAGES: usize;

    const N_BYTES: usize;
}

#[derive(Clone, Copy, Debug)]
pub struct Page4K {}

#[derive(Clone, Copy, Debug)]
pub struct Page2M {}

#[derive(Clone, Copy, Debug)]
pub struct Page1G {}

impl PagingStructureSize for Page4K {
    const N_PAGES: usize = 1;

    const N_BYTES: usize = 4096;
}

impl PagingStructureSize for Page2M {
    const N_PAGES: usize = 512;

    const N_BYTES: usize = 2097152;
}

impl PagingStructureSize for Page1G {
    const N_PAGES: usize = 262144;

    const N_BYTES: usize = 1073741824;
}

/// The sizes of the three page kinds.
pub proof fn lemma_page_sizes()
    ensures
        Page4K::N_PAGES == 1,
        Page4K::N_BYTES == 4096,
        Page2M::N_PAGES == 512,
        Page2M::N_BYTES == 2097152,
        Page1G::N_PAGES == 262144,
        Page1G::N_BYTES == 1073741824,
{
}

/// An error for an alignment operation.
#[derive(Debug)]
pub struct PageAlignmentError<const REQUIRED_PAGE_ALIGNMENT: usize> {
    addr: usize,
}

impl<const REQUIRED_PAGE_ALIGNMENT: usize> View for PageAlignmentError<REQUIRED_PAGE_ALIGNMENT> {
    type V = usize;

    closed spec fn view(&self) -> usize {
        self.addr
    }
}

impl<const REQUIRED_PAGE_ALIGNMENT: usize> PageAlignmentError<REQUIRED_PAGE_ALIGNMENT> {
    /// The address that was not aligned.
    pub fn addr(&self) -> (r: usize)
        ensures
            r == self@,
    {
        self.addr
    }
}

/// A structure representing a well aligned Physical page
#[derive(Copy, Debug)]
pub struct PhysPage<Size: PagingStructureSize = Page4K> {
    id: usize,
    _ph: PhantomData<Size>,
}

impl<S: PagingStructureSize> View for PhysPage<S> {
    type V = usize;

    closed spec fn view(&self) -> usize {
        self.id
    }
}

impl<S: PagingStructureSize> Clone for PhysPage<S> {
    fn clone(&self) -> (r: Self)
        ensures
            r == *self,
    {
        *self
    }
}

impl<S: PagingStructureSize> PartialEq for PhysPage<S> {
    fn eq(&self, other: &Self) -> (r: bool) {
        self.id == other.id
    }
}

impl<S: PagingStructureSize> PartialEqSpecImpl for PhysPage<S> {
    open spec fn obeys_eq_spec() -> bool {
        true
    }

    open spec fn eq_spec(&self, other: &Self) -> bool {
        self@ == other@
    }
}

impl<S: PagingStructureSize> Eq for PhysPage<S> {

}

impl<S: PagingStructureSize> PhysPage<S> {
    pub closed spec fn spec_new(id: usize) -> Self {
        PhysPage { id, _ph: PhantomData }
    }

    /// Make a new physical page from the page's ID
    ///
    /// # Note
    /// This is based on the size of the page, if the page is of Page2M then
    /// a page ID of 2 will be Page4K's 1024-th page.
    pub fn new(id: usize) -> (r: Self)
        ensures
            r@ == id,
            r == Self::spec_new(id),
    {
        Self { id, _ph: PhantomData }
    }

    /// Get the current page sized value that would contain the given address.
    pub fn containing_addr<Alignment: AlignmentTo>(addr: PhysAddr<Alignment>) -> (r: Self)
        requires
            S::N_BYTES > 0,
        ensures
            r@ == addr@ / S::N_BYTES,
    {
        Self::new(addr.addr() / S::N_BYTES)
    }

    /// Get the address that this page represents.
    pub fn addr(&self) -> (r: PhysAddr)
        requires
            self@ * S::N_BYTES <= usize::MAX,
        ensures
            r@ == self@ * S::N_BYTES,
    {
        PhysAddr::new(self.id * S::N_BYTES)
    }

    /// Check if the paging alignment of ourself is the same as the expected alignment of `TheirSize`.
    pub fn is_aligned_to<TheirSize: PagingStructureSize>(&self) -> (r: bool)
        requires
            TheirSize::N_PAGES > 0,
            self@ * S::N_PAGES <= usize::MAX,
        ensures
            r == ((self@ * S::N_PAGES) % (TheirSize::N_PAGES as int) == 0),
    {
        (self.id * S::N_PAGES) % TheirSize::N_PAGES == 0
    }

    /// Get the distance (in bytes) from `self` to `lhs`; `lhs` is the end point.
    pub fn distance_to(&self, lhs: &Self) -> (r: usize)
        requires
            lhs@ >= self@,
            (lhs@ - self@) * S::N_BYTES <= usize::MAX,
        ensures
            r == (lhs@ - self@) * S::N_BYTES,
    {
        (lhs.id - self.id) * S::N_BYTES
    }

    /// Get the distance (in pages of this size) from `self` to `lhs`; `lhs` is the end point.
    pub fn pages_to(&self, lhs: &Self) -> (r: usize)
        requires
            lhs@ >= self@,
        ensures
            r == lhs@ - self@,
    {
        lhs.id - self.id
    }

    /// Get the page id of this page.
    pub fn page(&self) -> (r: usize)
        ensures
            r == self@,
    {
        self.id
    }
}

impl<A: AlignmentTo> TryFrom<PhysAddr<A>> for PhysPage<Page4K> {
    type Error = PageAlignmentError<4096>;

    fn try_from(value: PhysAddr<A>) -> (r: Result<Self, Self::Error>) {
        proof {
            crate::util::lemma_page_size_pow2();
        }
        if value.is_aligned_to(PAGE_4K) {
            Ok(Self::new(value.addr() / PAGE_4K))
        } else {
            Err(PageAlignmentError { addr: value.addr() })
        }
    }
}

impl<A: AlignmentTo> TryFromSpecImpl<PhysAddr<A>> for PhysPage<Page4K> {
    open spec fn obeys_try_from_spec() -> bool {
        true
    }

    open spec fn try_from_spec(v: PhysAddr<A>) -> Result<Self, Self::Error> {
        page_from_addr(v@)
    }
}

/// The 4 KiB page at a page aligned address, or the error that names the address.
pub closed spec fn page_from_addr(addr: usize) -> Result<PhysPage<Page4K>, PageAlignmentError<4096>> {
    if addr % 4096 == 0 {
        Ok(PhysPage { id: (addr / 4096) as usize, _ph: PhantomData })
    } else {
        Err(PageAlignmentError { addr })
    }
}

impl<S: PagingStructureSize> PhysPage<S> {
    /// The page aligned address of this page; the alignment must be a power of two.
    pub fn aligned_addr<const ALIGNMENT: usize>(&self) -> (r: Result<
        PhysAddr<AlignedTo<ALIGNMENT>>,
        AlignmentError<ALIGNMENT>,
    >)
        requires
            self@ * S::N_BYTES <= usize::MAX,
        ensures
            (is_pow2(ALIGNMENT as int) && (self@ * S::N_BYTES) % (ALIGNMENT as int) == 0)
                <==> r is Ok,
            r is Ok ==> r->Ok_0@ == self@ * S::N_BYTES,
    {
        PhysAddr::<AlignedTo<ALIGNMENT>>::try_from_addr(self.addr())
    }
}

/// A structure representing a well aligned Virtual page
#[derive(Copy, Debug)]
pub struct VirtPage<Size: PagingStructureSize = Page4K> {
    id: usize,
    _ph: PhantomData<Size>,
}

impl<S: PagingStructureSize> View for VirtPage<S> {
    type V = usize;

    closed spec fn view(&self) -> usize {
        self.id
    }
}

impl<S: PagingStructureSize> Clone for VirtPage<S> {
    fn clone(&self) -> (r: Self)
        ensures
            r == *self,
    {
        *self
    }
}

impl<S: PagingStructureSize> PartialEq for VirtPage<S> {
    fn eq(&self, other: &Self) -> (r: bool) {
        self.id == other.id
    }
}

impl<S: PagingStructureSize> PartialEqSpecImpl for VirtPage<S> {
    open spec fn obeys_eq_spec() -> bool {
        true
    }

    open spec fn eq_spec(&self, other: &Self) -> bool {
        self@ == other@
    }
}

impl<S: PagingStructureSize> Eq for VirtPage<S> {

}

impl<S: PagingStructureSize> VirtPage<S> {
    /// Make a new virtual page from the page's ID
    ///
    /// # Note
    /// This is based on the size of the page, if the page is of Page2M then
    /// a page ID of 2 will be Page4K's 1024-th page.
    pub fn new(id: usize) -> (r: Self)
        ensures
            r@ == id,
    {
        Self { id, _ph: PhantomData }
    }

    /// Get the current page sized value that would contain the given address.
    pub fn containing_addr<Alignment: AlignmentTo>(addr: VirtAddr<Alignment>) -> (r: Self)
        requires
            S::N_BYTES > 0,
        ensures
            r@ == addr@ / S::N_BYTES,
    {
        Self::new(addr.addr() / S::N_BYTES)
    }

    /// Get the address that this page represents.
    pub fn addr(&self) -> (r: VirtAddr)
        requires
            self@ * S::N_BYTES <= usize::MAX,
        ensures
            r@ == self@ * S::N_BYTES,
    {
        VirtAddr::new(self.id * S::N_BYTES)
    }

    /// Check if the paging alignment of ourself is the same as the expected alignment of `TheirSize`.
    pub fn is_aligned_to<TheirSize: PagingStructureSize>(&self) -> (r: bool)
        requires
            TheirSize::N_PAGES > 0,
            self@ * S::N_PAGES <= usize::MAX,
        ensures
            r == ((self@ * S::N_PAGES) % (TheirSize::N_PAGES as int) == 0),
    {
        (self.id * S::N_PAGES) % TheirSize::N_PAGES == 0
    }

    /// Get the distance (in bytes) from `self` to `lhs`; `lhs` is the end point.
    pub fn distance_to(&self, lhs: &Self) -> (r: usize)
        requires
            lhs@ >= self@,
            (lhs@ - self@) * S::N_BYTES <= usize::MAX,
        ensures
            r == (lhs@ - self@) * S::N_BYTES,
    {
        (lhs.id - self.id) * S::N_BYTES
    }

    /// Get the distance (in pages of this size) from `self` to `lhs`; `lhs` is the end point.
    pub fn pages_to(&self, lhs: &Self) -> (r: usize)
        requires
            lhs@ >= self@,
        ensures
            r == lhs@ - self@,
    {
        lhs.id - self.id
    }

    /// Get the page id of this page.
    pub fn page(&self) -> (r: usize)
        ensures
            r == self@,
    {
        self.id
    }
}

impl<A: AlignmentTo> TryFrom<VirtAddr<A>> for VirtPage<Page4K> {
    type Error = PageAlignmentError<4096>;

    fn try_from(value: VirtAddr<A>) -> (r: Result<Self, Self::Error>) {
        proof {
            crate::util::lemma_page_size_pow2();
        }
        if value.is_aligned_to(PAGE_4K) {
            Ok(Self::new(value.addr() / PAGE_4K))
        } else {
            Err(PageAlignmentError { addr: value.addr() })
        }
    }
}

impl<A: AlignmentTo> TryFromSpecImpl<VirtAddr<A>> for VirtPage<Page4K> {
    open spec fn obeys_try_from_spec() -> bool {
        true
    }

    open spec fn try_from_spec(v: VirtAddr<A>) -> Result<Self, Self::Error> {
        virt_page_from_addr(v@)
    }
}

/// The 4 KiB virtual page at a page aligned address, or the error that names the address.
pub closed spec fn virt_page_from_addr(addr: usize) -> Result<VirtPage<Page4K>, PageAlignmentError<4096>> {
    if addr % 4096 == 0 {
        Ok(VirtPage { id: (addr / 4096) as usize, _ph: PhantomData })
    } else {
        Err(PageAlignmentError { addr })
    }
}

} // verus!
