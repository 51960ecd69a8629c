use aloe::mem::addr::{AlignedTo, PhysAddr};
use aloe::mem::backing::{
    MemoryTable, TableBits, TableFlat, LVL0_TABLE, LVL1_TABLE, LVL2_TABLE, TABLE_SIZE,
};
use aloe::mem::page::{Page4K, PhysPage};
use aloe::mem::MemoryError;

fn aligned(page: PhysPage<Page4K>) -> PhysAddr<AlignedTo<4096>> {
    page.aligned_addr::<4096>().unwrap()
}

#[test]
fn test_build_layer_one_table() {
    let mut mt = MemoryTable::<TableBits>::new(LVL0_TABLE);

    // Table relative
    let start: PhysPage<Page4K> = PhysPage::new(3);
    let end: PhysPage<Page4K> = PhysPage::new(10);

    assert_eq!(mt.populate_with(aligned(start), aligned(end)), Ok(7));
    assert_eq!(mt.request_page(), Ok(PhysPage::new(3)));
    assert_eq!(mt.request_page(), Ok(PhysPage::new(4)));
    assert_eq!(mt.request_page(), Ok(PhysPage::new(5)));
    assert_eq!(mt.request_page(), Ok(PhysPage::new(6)));
    assert_eq!(mt.request_page(), Ok(PhysPage::new(7)));
    assert_eq!(mt.request_page(), Ok(PhysPage::new(8)));
    assert_eq!(mt.request_page(), Ok(PhysPage::new(9)));
    assert_eq!(mt.request_page(), Err(MemoryError::OutOfAllocMemory));
}

#[test]
fn test_build_layer_two_table() {
    let mut mt = MemoryTable::<TableFlat>::new(LVL1_TABLE);

    // Table relative
    let start: PhysPage<Page4K> = PhysPage::new(3);
    let end: PhysPage<Page4K> = PhysPage::new(2 * TABLE_SIZE + 12);

    assert_eq!(mt.populate_with(aligned(start), aligned(end)), Ok(1));

    let mut own_pages = vec![false; end.page() + 1];
    for page in start.page()..end.page() {
        own_pages[page] = true;
    }

    for _ in start.page()..end.page() {
        let page_id = mt.request_page().unwrap().page();

        assert!(own_pages[page_id]);
        own_pages[page_id] = false;
    }
    assert_eq!(mt.request_page(), Err(MemoryError::OutOfAllocMemory));
    assert_eq!(own_pages.iter().position(|p| *p), None);
}

#[test]
fn test_build_and_free_tables() {
    let mut mt = MemoryTable::<TableFlat>::new(LVL2_TABLE);

    let start: PhysPage<Page4K> = PhysPage::new(0);
    let end: PhysPage<Page4K> = PhysPage::new(TABLE_SIZE * 2 + 16);

    assert_eq!(mt.populate_with(aligned(start), aligned(end)), Ok(1));

    let mut own_pages = vec![false; end.page() + 1];
    for page in start.page()..end.page() {
        own_pages[page] = true;
    }

    for _ in start.page()..end.page() {
        let page_id = mt.request_page().unwrap().page();

        assert!(own_pages[page_id]);
        own_pages[page_id] = false;
    }
    assert_eq!(mt.request_page(), Err(MemoryError::OutOfAllocMemory));

    for page in start.page()..end.page() {
        mt.free_page(PhysPage::new(page)).unwrap();

        assert!(!own_pages[page]);
        own_pages[page] = true;
    }

    for page in start.page()..end.page() {
        assert!(own_pages[page]);
    }

    assert_eq!(mt.free_page(end), Err(MemoryError::NotPhysicalPage));
}

#[test]
fn flat_table_hands_out_lowest_pages_in_order() {
    let mut mt = MemoryTable::<TableFlat>::new(LVL1_TABLE);
    let start: PhysPage<Page4K> = PhysPage::new(510);
    let end: PhysPage<Page4K> = PhysPage::new(1030);
    assert_eq!(mt.populate_with(aligned(start), aligned(end)), Ok(1));
    for expected in 510..1030 {
        assert_eq!(mt.request_page(), Ok(PhysPage::new(expected)));
    }
    assert_eq!(mt.request_page(), Err(MemoryError::OutOfAllocMemory));
}

#[test]
fn flat_table_free_errors() {
    let mut mt = MemoryTable::<TableFlat>::new(LVL1_TABLE);
    assert_eq!(mt.populate_with(aligned(PhysPage::new(512)), aligned(PhysPage::new(1024))), Ok(1));
    // a page in an entry that holds nothing
    assert_eq!(mt.free_page(PhysPage::new(3)), Err(MemoryError::NotPhysicalPage));
    // a page of a whole entry is still free
    assert_eq!(mt.free_page(PhysPage::new(600)), Err(MemoryError::DoubleFree));
    let got = mt.request_page().unwrap();
    assert_eq!(got, PhysPage::new(512));
    // a page still free in a split entry
    assert_eq!(mt.free_page(PhysPage::new(513)), Err(MemoryError::DoubleFree));
    assert_eq!(mt.free_page(got), Ok(()));
    assert_eq!(mt.pages_free(), Ok(512));
}

#[test]
fn flat_table_pages_free_counts() {
    let mut mt = MemoryTable::<TableFlat>::new(LVL2_TABLE);
    assert_eq!(mt.pages_free(), Ok(0));
    assert_eq!(mt.populate_with(aligned(PhysPage::new(0)), aligned(PhysPage::new(1040))), Ok(1));
    assert_eq!(mt.pages_free(), Ok(1040));
    mt.request_page().unwrap();
    assert_eq!(mt.pages_free(), Ok(1039));
}

#[test]
fn bits_table_errors() {
    let mut mt = MemoryTable::<TableBits>::new(LVL0_TABLE);
    let a = aligned(PhysPage::new(5));
    assert_eq!(mt.populate_with(a, a), Err(MemoryError::EntrySizeIsNegative));
    assert_eq!(
        mt.populate_with(aligned(PhysPage::new(0)), aligned(PhysPage::new(513))),
        Err(MemoryError::InvalidSize)
    );
    assert_eq!(mt.populate_with(aligned(PhysPage::new(0)), aligned(PhysPage::new(2))), Ok(2));
    assert_eq!(mt.free_page(PhysPage::new(7)), Err(MemoryError::NotPhysicalPage));
    assert_eq!(mt.free_page(PhysPage::new(1)), Err(MemoryError::DoubleFree));
    assert_eq!(mt.pages_free(), Ok(2));
}

#[test]
fn freed_bits_page_is_handed_out_again() {
    let mut mt = MemoryTable::<TableBits>::new(LVL0_TABLE);
    assert_eq!(mt.populate_with(aligned(PhysPage::new(3)), aligned(PhysPage::new(5))), Ok(2));
    assert_eq!(mt.request_page(), Ok(PhysPage::new(3)));
    assert_eq!(mt.request_page(), Ok(PhysPage::new(4)));
    assert_eq!(mt.request_page(), Err(MemoryError::OutOfAllocMemory));
    assert_eq!(mt.free_page(PhysPage::new(3)), Ok(()));
    assert_eq!(mt.free_page(PhysPage::new(3)), Err(MemoryError::DoubleFree));
    assert_eq!(mt.request_page(), Ok(PhysPage::new(3)));
}
