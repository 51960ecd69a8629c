use aloe::mem::page::PhysPage;
use aloe::mem::phys::{PhysMemoryEntry, PhysMemoryKind};
use aloe::mem::pmm::{entries_fit_table, Pmm};
use aloe::mem::MemoryError;
use aloe::util::MIB;

fn entry(kind: PhysMemoryKind, start: u64, end: u64) -> PhysMemoryEntry {
    PhysMemoryEntry { kind, start, end }
}

#[test]
fn pmm_hands_out_free_memory_above_one_mib() {
    let mib = MIB as u64;
    let entries = [
        entry(PhysMemoryKind::Free, 0, mib),
        entry(PhysMemoryKind::Reserved, mib, 2 * mib),
        entry(PhysMemoryKind::Free, 2 * mib + 100, 2 * mib + 3 * 4096),
    ];
    let mut pmm = Pmm::new(64 * mib, &entries).unwrap();
    // The region starts part-way into its 2 MiB entry, so the table below that entry is
    // given the rest of the entry from the region's start.
    assert_eq!(pmm.pages_free(), Ok(511));
    assert_eq!(pmm.allocate_page(), Ok(PhysPage::new(513)));
    assert_eq!(pmm.allocate_page(), Ok(PhysPage::new(514)));
    assert_eq!(pmm.free_page(PhysPage::new(3)), Err(MemoryError::NotPhysicalPage));
    assert_eq!(pmm.free_page(PhysPage::new(600)), Err(MemoryError::DoubleFree));
    assert_eq!(pmm.free_page(PhysPage::new(513)), Ok(()));
}

#[test]
fn pmm_with_whole_tables() {
    let mib = MIB as u64;
    let entries = [entry(PhysMemoryKind::Free, 4 * mib, 8 * mib)];
    let mut pmm = Pmm::new(2048 * mib, &entries).unwrap();
    assert_eq!(pmm.pages_free(), Ok(1024));
    assert_eq!(pmm.allocate_page(), Ok(PhysPage::new(1024)));
    assert_eq!(pmm.pages_free(), Ok(1023));
}

#[test]
fn entries_must_fit_the_top_table() {
    let mib = MIB as u64;
    // 64 MiB of memory: a table of 2 MiB entries spans 1 GiB.
    assert!(entries_fit_table(64 * mib, &[entry(PhysMemoryKind::Free, 2 * mib, 4 * mib)]));
    assert!(!entries_fit_table(64 * mib, &[entry(PhysMemoryKind::Free, 2 * mib, 2048 * mib)]));
    // An entry without a whole page is refused; one below 1 MiB is not taken at all.
    assert!(!entries_fit_table(64 * mib, &[entry(PhysMemoryKind::Free, 2 * mib + 1, 2 * mib + 4096)]));
    assert!(entries_fit_table(64 * mib, &[entry(PhysMemoryKind::Free, 0, 100)]));
    assert!(entries_fit_table(64 * mib, &[entry(PhysMemoryKind::Reserved, 2 * mib, 4096 * mib)]));
}

#[test]
fn ordered_map_is_handed_out_to_the_last_page() {
    let mib = MIB as u64;
    let entries = [
        entry(PhysMemoryKind::Free, 4 * mib, 4 * mib + 2 * 4096),
        entry(PhysMemoryKind::Reserved, 4 * mib + 2 * 4096, 6 * mib),
        entry(PhysMemoryKind::Free, 6 * mib, 6 * mib + 4096),
    ];
    let mut pmm = Pmm::new(64 * mib, &entries).unwrap();
    assert_eq!(pmm.allocate_page(), Ok(PhysPage::new(1024)));
    assert_eq!(pmm.allocate_page(), Ok(PhysPage::new(1025)));
    assert_eq!(pmm.allocate_page(), Ok(PhysPage::new(1536)));
    assert_eq!(pmm.allocate_page(), Err(MemoryError::OutOfAllocMemory));
}

#[test]
fn pmm_refuses_entries_past_its_table() {
    let mib = MIB as u64;
    assert!(matches!(
        Pmm::new(64 * mib, &[entry(PhysMemoryKind::Free, 2 * mib, 2048 * mib)]),
        Err(MemoryError::InvalidSize)
    ));
    assert!(matches!(
        Pmm::new(64 * mib, &[entry(PhysMemoryKind::Free, 2 * mib + 1, 2 * mib + 4000)]),
        Err(MemoryError::EntrySizeIsNegative)
    ));
}

#[test]
fn pmm_free_page_error_leaves_count() {
    let mib = MIB as u64;
    let mut pmm = Pmm::new(64 * mib, &[entry(PhysMemoryKind::Free, 2 * mib, 4 * mib)]).unwrap();
    let before = pmm.pages_free();
    assert_eq!(pmm.free_page(PhysPage::new(3)), Err(MemoryError::NotPhysicalPage));
    assert_eq!(pmm.free_page(PhysPage::new(600)), Err(MemoryError::DoubleFree));
    assert_eq!(pmm.pages_free(), before);
    assert_eq!(pmm.allocate_page(), Ok(PhysPage::new(512)));
}
