use vstd::prelude::*;

use crate::mem::addr::{PhysAddr, VirtAddr};
use crate::mem::page::{Page4K, PhysPage};

verus! {

/// Why a virtual address could not be translated.
#[derive(Clone, Copy, Debug)]
pub enum PhysPtrTranslationError {
    VirtNotFound(VirtAddr),
    PageEntriesNotSetup,
}

/// Something that has a virtual address.
pub trait ObtainVirtAddr {
    fn virt_addr(&self) -> VirtAddr;
}

/// Something whose virtual address can be translated to a physical one.
pub trait ObtainPhysAddr: ObtainVirtAddr {
    /// The physical address behind the virtual one.
    fn phys_addr(&self) -> Result<PhysAddr, PhysPtrTranslationError>;

    /// The 4 KiB physical page that holds the physical address.
    fn phys_page(&self) -> (r: Result<PhysPage, PhysPtrTranslationError>) {
        match self.phys_addr() {
            Ok(addr) => Ok(page_of(addr)),
            Err(e) => Err(e),
        }
    }
}

/// The 4 KiB page that holds `addr`.
pub fn page_of(addr: PhysAddr) -> (r: PhysPage)
    ensures
        r@ == addr@ / 4096,
{
    proof {
        crate::mem::page::lemma_page_sizes();
    }
    PhysPage::<Page4K>::containing_addr(addr)
}

} // verus!
