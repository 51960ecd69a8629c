use vstd::prelude::*;

pub mod addr;
pub mod buddy;
pub mod backing;
pub mod page;
pub mod paging;
pub mod phys;
pub mod pmm;
pub mod virt2phys;
pub mod vm;
pub mod vmm;

verus! {

/// Errors reported by the memory management code.
#[derive(Debug, Clone, Copy, PartialEq, Eq, Structural)]
pub enum MemoryError {
    ArrayTooSmall,
    EmptySegment,
    InvalidSize,
    EntrySizeIsNegative,
    NotPageAligned,
    AlreadyUsed,
    TableNotSupported,
    PtrWasNull,
    OutOfAllocMemory,
    NotPhysicalPage,
    DoubleFree,
    NotFound,
    /// Could not handle the exception.
    DidNotHandleException,
    ParentDropped,
    InvalidPageTable,
    NotSupported,
}

} // verus!
