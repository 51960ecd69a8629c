use vstd::prelude::*;

use core::marker::PhantomData;
use vstd::std_specs::cmp::PartialEqSpecImpl;
use vstd::std_specs::convert::FromSpecImpl;
use crate::util::is_pow2;

verus! {

/// The value `addr` takes once pushed up to the next multiple of `alignment`.
pub open spec fn align_up(addr: int, alignment: int) -> int {
    if addr % alignment == 0 {
        addr
    } else {
        addr + (alignment - addr % alignment)
    }
}

/// A marker for the alignment that an address type promises.
pub trait AlignmentTo: Clone + Copy {

}

/// A non-aligned aligned ptr
#[derive(Clone, Copy, Debug)]
pub struct NotAligned {}

/// A aligned ptr
#[derive(Clone, Copy, Debug)]
pub struct AlignedTo<const ALIGNMENT: usize> {}

impl AlignmentTo for NotAligned {

}

impl<const ALIGNMENT: usize> AlignmentTo for AlignedTo<ALIGNMENT> {

}

/// An error for an alignment operation.
#[derive(Debug)]
pub struct AlignmentError<const ALIGNMENT: usize>(());

impl<const ALIGNMENT: usize> AlignmentError<ALIGNMENT> {
    /// The alignment that was asked for.
    pub fn alignment(&self) -> (r: usize)
        ensures
            r == ALIGNMENT,
    {
        ALIGNMENT
    }
}

/// A structure safely repr a ptr to physical memory.
///
/// Can be aligned, or non aligned though generic.
#[derive(Copy, Debug)]
pub struct PhysAddr<A: AlignmentTo = NotAligned> {
    addr: usize,
    _ph: PhantomData<A>,
}

impl<A: AlignmentTo> View for PhysAddr<A> {
    type V = usize;

    closed spec fn view(&self) -> usize {
        self.addr
    }
}

impl<A: AlignmentTo> Clone for PhysAddr<A> {
    fn clone(&self) -> (r: Self)
        ensures
            r == *self,
    {
        *self
    }
}

impl<A: AlignmentTo> PartialEq for PhysAddr<A> {
    fn eq(&self, other: &Self) -> (r: bool) {
        self.addr == other.addr
    }
}

impl<A: AlignmentTo> PartialEqSpecImpl for PhysAddr<A> {
    open spec fn obeys_eq_spec() -> bool {
        true
    }

    open spec fn eq_spec(&self, other: &Self) -> bool {
        self@ == other@
    }
}

impl<A: AlignmentTo> Eq for PhysAddr<A> {

}

impl From<usize> for PhysAddr<NotAligned> {
    fn from(value: usize) -> (r: Self) {
        Self::new(value)
    }
}

impl FromSpecImpl<usize> for PhysAddr<NotAligned> {
    open spec fn obeys_from_spec() -> bool {
        true
    }

    open spec fn from_spec(v: usize) -> Self {
        PhysAddr::<NotAligned>::spec_new(v)
    }
}

impl<const ALIGNMENT: usize> PhysAddr<AlignedTo<ALIGNMENT>> {
    /// Check the alignment of `value` and make an aligned address of it; a value that is
    /// not aligned, or an alignment that is not a power of two, gives an error.
    pub fn try_from_addr(value: PhysAddr<NotAligned>) -> (r: Result<Self, AlignmentError<ALIGNMENT>>)
        ensures
            (is_pow2(ALIGNMENT as int) && value@ as int % (ALIGNMENT as int) == 0) <==> r is Ok,
            r is Ok ==> r->Ok_0@ == value@,
    {
        Self::try_from_usize(value.addr())
    }

    /// Check the alignment of `value` and make an aligned address of it; a value that is
    /// not aligned, or an alignment that is not a power of two, gives an error.
    pub fn try_from_usize(value: usize) -> (r: Result<Self, AlignmentError<ALIGNMENT>>)
        ensures
            (is_pow2(ALIGNMENT as int) && value as int % (ALIGNMENT as int) == 0) <==> r is Ok,
            r is Ok ==> r->Ok_0@ == value,
    {
        if !crate::util::is_power_of_two(ALIGNMENT) {
            return Err(AlignmentError(()));
        }
        if value % ALIGNMENT == 0 {
            Ok(Self { addr: value, _ph: PhantomData })
        } else {
            Err(AlignmentError(()))
        }
    }

    /// Attempt to offset this `addr` by an `offset`.
    pub fn try_offset(self, offset: usize) -> (r: Result<Self, AlignmentError<ALIGNMENT>>)
        requires
            ALIGNMENT > 0,
            self@ + offset <= usize::MAX,
            offset & ((ALIGNMENT - 1) as usize) == 0 ==> ((self@ + offset) as usize) & ((
            ALIGNMENT - 1) as usize) == 0,
        ensures
            offset & ((ALIGNMENT - 1) as usize) != 0 ==> r is Err,
            offset & ((ALIGNMENT - 1) as usize) == 0 ==> r is Ok && r->Ok_0@ == self@ + offset,
    {
        if offset & (ALIGNMENT - 1) != 0 {
            return Err(AlignmentError(()));
        }
        Ok(Self::try_new(self.addr + offset))
    }

    /// Get the 'realative' value based on the size of a chunk.
    ///
    /// This preforms `self.addr() % element_size` internally.
    pub fn realative_offset(self, chunk_size: usize) -> (r: Self)
        requires
            chunk_size > 0,
            ALIGNMENT > 0,
            (ALIGNMENT % chunk_size == 0) || (ALIGNMENT % chunk_size == ALIGNMENT),
            ((self@ % chunk_size) as usize) & ((ALIGNMENT - 1) as usize) == 0,
        ensures
            r@ == self@ % chunk_size,
    {
        Self::try_new(self.addr % chunk_size)
    }

    /// Make a new address; the address must be aligned.
    pub fn try_new(addr: usize) -> (r: Self)
        requires
            ALIGNMENT > 0,
            addr & ((ALIGNMENT - 1) as usize) == 0,
        ensures
            r@ == addr,
    {
        Self { addr, _ph: PhantomData }
    }
}

impl PhysAddr<NotAligned> {
    pub closed spec fn spec_new(addr: usize) -> Self {
        PhysAddr { addr, _ph: PhantomData }
    }

    /// Make a new address.
    pub fn new(addr: usize) -> (r: Self)
        ensures
            r@ == addr,
            r == Self::spec_new(addr),
    {
        Self { addr, _ph: PhantomData }
    }

    /// Offset this addr by `offset`.
    pub fn offset(self, offset: usize) -> (r: Self)
        requires
            self@ + offset <= usize::MAX,
        ensures
            r@ == self@ + offset,
    {
        Self { addr: self.addr + offset, _ph: PhantomData }
    }

    /// Get the 'realative' value based on the size of a chunk.
    pub fn realative_offset(self, chunk_size: usize) -> (r: Self)
        requires
            chunk_size > 0,
        ensures
            r@ == self@ % chunk_size,
    {
        Self { addr: self.addr % chunk_size, _ph: PhantomData }
    }

    /// Add to this address (in bytes)
    pub fn extend_by(self, bytes: usize) -> (r: Self)
        requires
            self@ + bytes <= usize::MAX,
        ensures
            r@ == self@ + bytes,
    {
        Self::new(self.addr + bytes)
    }
}

impl<A: AlignmentTo> PhysAddr<A> {
    /// Get the address contained within the PhysAddr
    pub fn addr(&self) -> (r: usize)
        ensures
            r == self@,
    {
        self.addr
    }

    /// Align the addr by bumping up its value until it reaches a valid alignment.
    pub fn align_up_to(self, alignment: usize) -> (r: Self)
        requires
            alignment > 0,
            align_up(self@ as int, alignment as int) <= usize::MAX,
        ensures
            r@ == align_up(self@ as int, alignment as int),
    {
        let rmd = self.addr % alignment;
        let addr = if rmd != 0 {
            alignment - rmd + self.addr
        } else {
            self.addr
        };
        Self { addr, _ph: PhantomData }
    }

    /// Align the addr by bumping down its value until it reaches a valid alignment.
    pub fn align_down_to(self, alignment: usize) -> (r: Self)
        requires
            alignment > 0,
        ensures
            r@ == self@ - self@ % alignment,
    {
        let rmd = self.addr % alignment;
        assert(rmd <= self.addr) by (nonlinear_arith)
            requires
                rmd == self.addr % alignment,
                alignment > 0,
        ;
        let addr = if rmd != 0 {
            self.addr - rmd
        } else {
            self.addr
        };
        Self { addr, _ph: PhantomData }
    }

    /// Align up this ptr to fit nicely into the aligned type.
    ///
    /// # Note
    /// This will shift the ptr up until it meets the alignment.
    pub fn align_into<const ALIGNMENT: usize>(self) -> (r: PhysAddr<AlignedTo<ALIGNMENT>>)
        requires
            ALIGNMENT > 0,
            align_up(self@ as int, ALIGNMENT as int) <= usize::MAX,
        ensures
            r@ == align_up(self@ as int, ALIGNMENT as int),
    {
        let rmd = self.addr % ALIGNMENT;
        let addr = if rmd != 0 {
            ALIGNMENT - rmd + self.addr
        } else {
            self.addr
        };
        PhysAddr { addr, _ph: PhantomData }
    }

    /// Check if this ptr is null.
    pub fn is_null(&self) -> (r: bool)
        ensures
            r == (self@ == 0),
    {
        self.addr == 0
    }

    /// Make a new ptr to nothing.
    pub fn dangling() -> (r: Self)
        ensures
            r@ == 0,
    {
        Self { addr: 0, _ph: PhantomData }
    }

    /// Get the length from `self` to `ptr`; `ptr` is the end address.
    pub fn distance_to<U: AlignmentTo>(&self, ptr: PhysAddr<U>) -> (r: usize)
        requires
            ptr@ >= self@,
        ensures
            r == ptr@ - self@,
    {
        ptr.addr - self.addr
    }

    /// Check if this addr is aligned to some Alignment
    pub fn is_aligned_to(&self, alignment: usize) -> (r: bool)
        requires
            alignment > 0,
        ensures
            r == (self@ & ((alignment - 1) as usize) == 0),
            is_pow2(alignment as int) ==> (r <==> self@ % alignment == 0),
    {
        proof {
            if is_pow2(alignment as int) {
                crate::util::lemma_mask_is_mod(self.addr, alignment);
            }
        }
        self.addr & (alignment - 1) == 0
    }

    /// Chop a component of bits from this address
    pub fn chop_bottom(&self, alignment: usize) -> (r: usize)
        requires
            is_pow2(alignment as int),
        ensures
            r == self@ & ((alignment - 1) as usize),
            r == self@ % alignment,
    {
        proof {
            crate::util::lemma_mask_is_mod(self.addr, alignment);
        }
        self.addr & (alignment - 1)
    }
}

/// A structure safely repr a ptr to virtual memory.
///
/// Can be aligned, or non aligned though generic.
#[derive(Copy, Debug)]
pub struct VirtAddr<A: AlignmentTo = NotAligned> {
    addr: usize,
    _ph: PhantomData<A>,
}

impl<A: AlignmentTo> View for VirtAddr<A> {
    type V = usize;

    closed spec fn view(&self) -> usize {
        self.addr
    }
}

impl<A: AlignmentTo> Clone for VirtAddr<A> {
    fn clone(&self) -> (r: Self)
        ensures
            r == *self,
    {
        *self
    }
}

impl<A: AlignmentTo> PartialEq for VirtAddr<A> {
    fn eq(&self, other: &Self) -> (r: bool) {
        self.addr == other.addr
    }
}

impl<A: AlignmentTo> PartialEqSpecImpl for VirtAddr<A> {
    open spec fn obeys_eq_spec() -> bool {
        true
    }

    open spec fn eq_spec(&self, other: &Self) -> bool {
        self@ == other@
    }
}

impl<A: AlignmentTo> Eq for VirtAddr<A> {

}

impl From<usize> for VirtAddr<NotAligned> {
    fn from(value: usize) -> (r: Self) {
        Self::new(value)
    }
}

impl FromSpecImpl<usize> for VirtAddr<NotAligned> {
    open spec fn obeys_from_spec() -> bool {
        true
    }

    open spec fn from_spec(v: usize) -> Self {
        VirtAddr::<NotAligned>::spec_new(v)
    }
}

impl<const ALIGNMENT: usize> VirtAddr<AlignedTo<ALIGNMENT>> {
    /// Check the alignment of `value` and make an aligned address of it; a value that is
    /// not aligned, or an alignment that is not a power of two, gives an error.
    pub fn try_from_addr(value: VirtAddr<NotAligned>) -> (r: Result<Self, AlignmentError<ALIGNMENT>>)
        ensures
            (is_pow2(ALIGNMENT as int) && value@ as int % (ALIGNMENT as int) == 0) <==> r is Ok,
            r is Ok ==> r->Ok_0@ == value@,
    {
        Self::try_from_usize(value.addr())
    }

    /// Check the alignment of `value` and make an aligned address of it; a value that is
    /// not aligned, or an alignment that is not a power of two, gives an error.
    pub fn try_from_usize(value: usize) -> (r: Result<Self, AlignmentError<ALIGNMENT>>)
        ensures
            (is_pow2(ALIGNMENT as int) && value as int % (ALIGNMENT as int) == 0) <==> r is Ok,
            r is Ok ==> r->Ok_0@ == value,
    {
        if !crate::util::is_power_of_two(ALIGNMENT) {
            return Err(AlignmentError(()));
        }
        if value % ALIGNMENT == 0 {
            Ok(Self { addr: value, _ph: PhantomData })
        } else {
            Err(AlignmentError(()))
        }
    }

    /// Attempt to offset this `addr` by an `offset`.
    pub fn try_offset(self, offset: usize) -> (r: Result<Self, AlignmentError<ALIGNMENT>>)
        requires
            ALIGNMENT > 0,
            self@ + offset <= usize::MAX,
            offset & ((ALIGNMENT - 1) as usize) == 0 ==> ((self@ + offset) as usize) & ((
            ALIGNMENT - 1) as usize) == 0,
        ensures
            offset & ((ALIGNMENT - 1) as usize) != 0 ==> r is Err,
            offset & ((ALIGNMENT - 1) as usize) == 0 ==> r is Ok && r->Ok_0@ == self@ + offset,
    {
        if offset & (ALIGNMENT - 1) != 0 {
            return Err(AlignmentError(()));
        }
        Ok(Self::try_new(self.addr + offset))
    }

    /// Get the 'realative' value based on the size of a chunk.
    ///
    /// This preforms `self.addr() % element_size` internally.
    pub fn realative_offset(self, chunk_size: usize) -> (r: Self)
        requires
            chunk_size > 0,
            ALIGNMENT > 0,
            (ALIGNMENT % chunk_size == 0) || (ALIGNMENT % chunk_size == ALIGNMENT),
            ((self@ % chunk_size) as usize) & ((ALIGNMENT - 1) as usize) == 0,
        ensures
            r@ == self@ % chunk_size,
    {
        Self::try_new(self.addr % chunk_size)
    }

    /// Make a new address; the address must be aligned.
    pub fn try_new(addr: usize) -> (r: Self)
        requires
            ALIGNMENT > 0,
            addr & ((ALIGNMENT - 1) as usize) == 0,
        ensures
            r@ == addr,
    {
        Self { addr, _ph: PhantomData }
    }
}

impl VirtAddr<NotAligned> {
    pub closed spec fn spec_new(addr: usize) -> Self {
        VirtAddr { addr, _ph: PhantomData }
    }

    /// Make a new address.
    pub fn new(addr: usize) -> (r: Self)
        ensures
            r@ == addr,
            r == Self::spec_new(addr),
    {
        Self { addr, _ph: PhantomData }
    }

    /// Offset this addr by `offset`.
    pub fn offset(self, offset: usize) -> (r: Self)
        requires
            self@ + offset <= usize::MAX,
        ensures
            r@ == self@ + offset,
    {
        Self { addr: self.addr + offset, _ph: PhantomData }
    }

    /// Get the 'realative' value based on the size of a chunk.
    pub fn realative_offset(self, chunk_size: usize) -> (r: Self)
        requires
            chunk_size > 0,
        ensures
            r@ == self@ % chunk_size,
    {
        Self { addr: self.addr % chunk_size, _ph: PhantomData }
    }

    /// Add to this address (in bytes)
    pub fn extend_by(self, bytes: usize) -> (r: Self)
        requires
            self@ + bytes <= usize::MAX,
        ensures
            r@ == self@ + bytes,
    {
        Self::new(self.addr + bytes)
    }
}

impl<A: AlignmentTo> VirtAddr<A> {
    /// Get the address contained within the VirtAddr
    pub fn addr(&self) -> (r: usize)
        ensures
            r == self@,
    {
        self.addr
    }

    /// Align the addr by bumping up its value until it reaches a valid alignment.
    pub fn align_up_to(self, alignment: usize) -> (r: Self)
        requires
            alignment > 0,
            align_up(self@ as int, alignment as int) <= usize::MAX,
        ensures
            r@ == align_up(self@ as int, alignment as int),
    {
        let rmd = self.addr % alignment;
        let addr = if rmd != 0 {
            alignment - rmd + self.addr
        } else {
            self.addr
        };
        Self { addr, _ph: PhantomData }
    }

    /// Align the addr by bumping down its value until it reaches a valid alignment.
    pub fn align_down_to(self, alignment: usize) -> (r: Self)
        requires
            alignment > 0,
        ensures
            r@ == self@ - self@ % alignment,
    {
        let rmd = self.addr % alignment;
        assert(rmd <= self.addr) by (nonlinear_arith)
            requires
                rmd == self.addr % alignment,
                alignment > 0,
        ;
        let addr = if rmd != 0 {
            self.addr - rmd
        } else {
            self.addr
        };
        Self { addr, _ph: PhantomData }
    }

    /// Align up this ptr to fit nicely into the aligned type.
    ///
    /// # Note
    /// This will shift the ptr up until it meets the alignment.
    pub fn align_into<const ALIGNMENT: usize>(self) -> (r: VirtAddr<AlignedTo<ALIGNMENT>>)
        requires
            ALIGNMENT > 0,
            align_up(self@ as int, ALIGNMENT as int) <= usize::MAX,
        ensures
            r@ == align_up(self@ as int, ALIGNMENT as int),
    {
        let rmd = self.addr % ALIGNMENT;
        let addr = if rmd != 0 {
            ALIGNMENT - rmd + self.addr
        } else {
            self.addr
        };
        VirtAddr { addr, _ph: PhantomData }
    }

    /// Check if this ptr is null.
    pub fn is_null(&self) -> (r: bool)
        ensures
            r == (self@ == 0),
    {
        self.addr == 0
    }

    /// Make a new ptr to nothing.
    pub fn dangling() -> (r: Self)
        ensures
            r@ == 0,
    {
        Self { addr: 0, _ph: PhantomData }
    }

    /// Get the length from `self` to `ptr`; `ptr` is the end address.
    pub fn distance_to<U: AlignmentTo>(&self, ptr: PhysAddr<U>) -> (r: usize)
        requires
            ptr@ >= self@,
        ensures
            r == ptr@ - self@,
    {
        ptr.addr - self.addr
    }

    /// Check if this addr is aligned to some Alignment
    pub fn is_aligned_to(&self, alignment: usize) -> (r: bool)
        requires
            alignment > 0,
        ensures
            r == (self@ & ((alignment - 1) as usize) == 0),
            is_pow2(alignment as int) ==> (r <==> self@ % alignment == 0),
    {
        proof {
            if is_pow2(alignment as int) {
                crate::util::lemma_mask_is_mod(self.addr, alignment);
            }
        }
        self.addr & (alignment - 1) == 0
    }

    /// Chop a component of bits from this address
    pub fn chop_bottom(&self, alignment: usize) -> (r: usize)
        requires
            is_pow2(alignment as int),
        ensures
            r == self@ & ((alignment - 1) as usize),
            r == self@ % alignment,
    {
        proof {
            crate::util::lemma_mask_is_mod(self.addr, alignment);
        }
        self.addr & (alignment - 1)
    }
}

} // verus!
