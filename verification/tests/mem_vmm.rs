use aloe::mem::page::PhysPage;
use aloe::mem::vmm::{VirtPage, VmBacking, VmBackingKind, VmContinuousPageArea, VmRegion, PAGES_PER_2M};
use aloe::mem::MemoryError;

#[test]
fn region_from_address_and_length() {
    let r = VmRegion::from_vaddr(0x1fff, 0x1001);
    assert_eq!(r.start, VirtPage(1));
    assert_eq!(r.end, VirtPage(3));
    assert!(r.contains_vpage(VirtPage(2)));
    assert!(!r.contains_vpage(VirtPage(4)));
    assert!(r.contains_vaddr(0x3000));
    assert!(r.contains_vaddr(0x3fff));
    assert!(!r.contains_vaddr(0x4000));
    assert!(!r.contains_vaddr(0xfff));
    assert!(r.contains_vaddr(0x1000));
}

#[test]
fn pages_of_a_region_in_order() {
    let r = VmRegion { start: VirtPage(5), end: VirtPage(7) };
    let mut it = r.iter_4k();
    assert_eq!(it.next(), Some(VirtPage(5)));
    assert_eq!(it.next(), Some(VirtPage(6)));
    assert_eq!(it.next(), Some(VirtPage(7)));
    assert_eq!(it.next(), None);
    assert_eq!(it.next(), None);
}

#[test]
fn large_pieces_where_they_fit() {
    let r = VmRegion { start: VirtPage(0), end: VirtPage(PAGES_PER_2M + 1) };
    let mut it = r.iter_2m();
    assert_eq!(it.next(), Some(VmContinuousPageArea::Area2M(VirtPage(PAGES_PER_2M))));
    assert_eq!(it.next(), Some(VmContinuousPageArea::Area4K(VirtPage(PAGES_PER_2M + 1))));
    assert_eq!(it.next(), Some(VmContinuousPageArea::Area4K(VirtPage(PAGES_PER_2M + 2))));
    assert_eq!(it.next(), None);

    let small = VmRegion { start: VirtPage(0), end: VirtPage(3) };
    let mut it = small.iter_1g();
    assert_eq!(it.next(), Some(VmContinuousPageArea::Area4K(VirtPage(1))));
}

struct Pages {
    alive: Vec<usize>,
    freed: Vec<usize>,
    refuse: Option<usize>,
}

impl VmBacking for Pages {
    fn backing_kind(&self) -> VmBackingKind {
        VmBackingKind::Physical
    }

    fn alive_physical_pages(&self) -> Result<Vec<PhysPage>, MemoryError> {
        Ok(self.alive.iter().map(|&p| PhysPage::new(p)).collect())
    }

    fn alloc_anywhere(&mut self) -> Result<PhysPage, MemoryError> {
        Err(MemoryError::NotSupported)
    }

    fn alloc_here(&mut self, request: usize) -> Result<PhysPage, MemoryError> {
        Ok(PhysPage::new(request))
    }

    fn dealloc(&mut self, page: PhysPage) -> Result<(), MemoryError> {
        if Some(page.page()) == self.refuse {
            return Err(MemoryError::DoubleFree);
        }
        self.freed.push(page.page());
        Ok(())
    }
}

#[test]
fn free_all_hands_back_every_page() {
    let mut backing = Pages { alive: vec![3, 1, 2], freed: vec![], refuse: None };
    assert_eq!(backing.free_all(), Ok(()));
    assert_eq!(backing.freed, vec![3, 1, 2]);

    let mut stuck = Pages { alive: vec![3, 1, 2], freed: vec![], refuse: Some(1) };
    assert_eq!(stuck.free_all(), Err(MemoryError::DoubleFree));
    assert_eq!(stuck.freed, vec![3]);
}

#[test]
fn virt_pages_add_and_subtract() {
    assert_eq!(VirtPage(5) + VirtPage(2), VirtPage(7));
    assert_eq!(VirtPage(5) - VirtPage(2), VirtPage(3));
}

#[test]
fn virt_pages_move_in_place() {
    let mut p = VirtPage(5);
    p += VirtPage(3);
    assert_eq!(p, VirtPage(8));
    p -= VirtPage(6);
    assert_eq!(p, VirtPage(2));
}
