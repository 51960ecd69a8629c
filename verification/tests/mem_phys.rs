use aloe::mem::phys::{PhysMemoryBorder, PhysMemoryEntry, PhysMemoryKind, PhysMemoryMap};
use aloe::mem::MemoryError;

fn border(kind: PhysMemoryKind, address: u64) -> PhysMemoryBorder {
    PhysMemoryBorder { kind, address }
}

fn empty() -> PhysMemoryBorder {
    border(PhysMemoryKind::Empty, 0)
}

#[test]
fn test_enum_has_precedence() {
    assert!(PhysMemoryKind::Empty < PhysMemoryKind::Free);
    assert!(PhysMemoryKind::Free < PhysMemoryKind::Reserved);
}

#[test]
fn test_insert_one_element() {
    let mut mm = PhysMemoryMap::<3>::new();

    assert_eq!(mm.insert_raw(0, border(PhysMemoryKind::Free, 0)), Ok(()));

    assert_eq!(mm.len(), 1);
    assert_eq!(mm.borders(), [border(PhysMemoryKind::Free, 0), empty(), empty()]);
}

#[test]
fn test_insert_two_element() {
    let mut mm = PhysMemoryMap::<3>::new();

    assert_eq!(mm.insert_raw(0, border(PhysMemoryKind::Free, 0)), Ok(()));
    assert_eq!(mm.insert_raw(1, border(PhysMemoryKind::Empty, 1)), Ok(()));

    assert_eq!(mm.len(), 2);
    assert_eq!(
        mm.borders(),
        [border(PhysMemoryKind::Free, 0), border(PhysMemoryKind::Empty, 1), empty()]
    );
}

#[test]
fn test_insert_all_elements() {
    let mut mm = PhysMemoryMap::<3>::new();

    assert_eq!(mm.insert_raw(0, border(PhysMemoryKind::Free, 0)), Ok(()));
    assert_eq!(mm.insert_raw(1, border(PhysMemoryKind::Reserved, 1)), Ok(()));
    assert_eq!(mm.insert_raw(2, border(PhysMemoryKind::Empty, 2)), Ok(()));

    assert_eq!(mm.len(), 3);
    assert_eq!(
        mm.borders(),
        [
            border(PhysMemoryKind::Free, 0),
            border(PhysMemoryKind::Reserved, 1),
            border(PhysMemoryKind::Empty, 2)
        ]
    );
}

#[test]
fn test_insert_middle_elements() {
    let mut mm = PhysMemoryMap::<4>::new();

    assert_eq!(mm.insert_raw(0, border(PhysMemoryKind::Free, 0)), Ok(()));
    assert_eq!(mm.insert_raw(1, border(PhysMemoryKind::Reserved, 1)), Ok(()));
    assert_eq!(mm.insert_raw(1, border(PhysMemoryKind::Empty, 2)), Ok(()));

    assert_eq!(mm.len(), 3);
    assert_eq!(
        mm.borders(),
        [
            border(PhysMemoryKind::Free, 0),
            border(PhysMemoryKind::Empty, 2),
            border(PhysMemoryKind::Reserved, 1),
            empty()
        ]
    );
}

#[test]
fn test_remove_last_element() {
    let mut mm = PhysMemoryMap::<4>::new();

    assert_eq!(mm.insert_raw(0, border(PhysMemoryKind::Free, 0)), Ok(()));
    assert_eq!(mm.insert_raw(1, border(PhysMemoryKind::Reserved, 1)), Ok(()));
    assert_eq!(mm.insert_raw(2, border(PhysMemoryKind::Empty, 2)), Ok(()));

    assert_eq!(mm.remove_raw(2), Ok(()));

    assert_eq!(mm.len(), 2);
    assert_eq!(
        mm.borders(),
        [border(PhysMemoryKind::Free, 0), border(PhysMemoryKind::Reserved, 1), empty(), empty()]
    );
}

#[test]
fn test_remove_middle_element() {
    let mut mm = PhysMemoryMap::<4>::new();

    assert_eq!(mm.insert_raw(0, border(PhysMemoryKind::Free, 0)), Ok(()));
    assert_eq!(mm.insert_raw(1, border(PhysMemoryKind::Reserved, 1)), Ok(()));
    assert_eq!(mm.insert_raw(2, border(PhysMemoryKind::Empty, 2)), Ok(()));

    assert_eq!(mm.remove_raw(1), Ok(()));

    assert_eq!(mm.len(), 2);
    assert_eq!(
        mm.borders(),
        [border(PhysMemoryKind::Free, 0), border(PhysMemoryKind::Empty, 2), empty(), empty()]
    );
}

#[test]
fn test_remove_first_element() {
    let mut mm = PhysMemoryMap::<4>::new();

    assert_eq!(mm.insert_raw(0, border(PhysMemoryKind::Free, 0)), Ok(()));
    assert_eq!(mm.insert_raw(1, border(PhysMemoryKind::Reserved, 1)), Ok(()));
    assert_eq!(mm.insert_raw(2, border(PhysMemoryKind::Empty, 2)), Ok(()));

    assert_eq!(mm.remove_raw(0), Ok(()));

    assert_eq!(mm.len(), 2);
    assert_eq!(
        mm.borders(),
        [border(PhysMemoryKind::Reserved, 1), border(PhysMemoryKind::Empty, 2), empty(), empty()]
    );
}

#[test]
fn test_add_one_region() {
    let mut mm = PhysMemoryMap::<4>::new();

    assert_eq!(
        mm.add_region(PhysMemoryEntry { kind: PhysMemoryKind::Free, start: 0, end: 10 }),
        Ok(())
    );

    assert_eq!(mm.len(), 2, "Array len didnt match! {:#?}", mm.borders());
    assert_eq!(
        mm.borders(),
        [border(PhysMemoryKind::Free, 0), border(PhysMemoryKind::Empty, 10), empty(), empty()]
    );
}

#[test]
fn test_add_two_region_no_overlap() {
    let mut mm = PhysMemoryMap::<4>::new();

    assert_eq!(
        mm.add_region(PhysMemoryEntry { kind: PhysMemoryKind::Free, start: 0, end: 10 }),
        Ok(())
    );
    assert_eq!(
        mm.add_region(PhysMemoryEntry { kind: PhysMemoryKind::Free, start: 20, end: 30 }),
        Ok(())
    );

    assert_eq!(mm.len(), 4, "Array len didnt match! {:#?}", mm.borders());
    assert_eq!(
        mm.borders(),
        [
            border(PhysMemoryKind::Free, 0),
            border(PhysMemoryKind::Empty, 10),
            border(PhysMemoryKind::Free, 20),
            border(PhysMemoryKind::Empty, 30)
        ]
    );
}

#[test]
fn test_add_two_region_middle_overlap_change_last() {
    let mut mm = PhysMemoryMap::<4>::new();

    assert_eq!(
        mm.add_region(PhysMemoryEntry { kind: PhysMemoryKind::Free, start: 0, end: 10 }),
        Ok(())
    );
    assert_eq!(
        mm.add_region(PhysMemoryEntry { kind: PhysMemoryKind::Reserved, start: 5, end: 20 }),
        Ok(())
    );

    assert_eq!(mm.len(), 3, "Array len didnt match! {:#?}", mm.borders());
    assert_eq!(
        mm.borders(),
        [
            border(PhysMemoryKind::Free, 0),
            border(PhysMemoryKind::Reserved, 5),
            border(PhysMemoryKind::Empty, 20),
            empty()
        ]
    );
}

#[test]
fn test_complex_overlap_region() {
    let mut mm = PhysMemoryMap::<10>::new();

    mm.add_region(PhysMemoryEntry { kind: PhysMemoryKind::Free, start: 5, end: 14 }).unwrap();
    mm.add_region(PhysMemoryEntry { kind: PhysMemoryKind::Reserved, start: 0, end: 6 }).unwrap();
    mm.add_region(PhysMemoryEntry { kind: PhysMemoryKind::Special, start: 3, end: 10 }).unwrap();
    mm.add_region(PhysMemoryEntry { kind: PhysMemoryKind::Bootloader, start: 14, end: 18 })
        .unwrap();
    mm.add_region(PhysMemoryEntry { kind: PhysMemoryKind::Free, start: 14, end: 18 }).unwrap();

    assert_eq!(mm.len(), 5, "Array len didnt match! {:#?}", mm.borders());
    assert_eq!(
        mm.borders(),
        [
            border(PhysMemoryKind::Reserved, 0),
            border(PhysMemoryKind::Special, 3),
            border(PhysMemoryKind::Free, 10),
            border(PhysMemoryKind::Bootloader, 14),
            border(PhysMemoryKind::Empty, 18),
            empty(),
            empty(),
            empty(),
            empty(),
            empty(),
        ],
        "{:#?}",
        mm.borders()
    );
}

#[test]
fn test_real_world() {
    let real_mem_map = [
        PhysMemoryEntry { kind: PhysMemoryKind::Free, start: 0, end: 654336 },
        PhysMemoryEntry { kind: PhysMemoryKind::Reserved, start: 654336, end: 654336 + 1024 },
        PhysMemoryEntry { kind: PhysMemoryKind::Reserved, start: 983040, end: 983040 + 65536 },
        PhysMemoryEntry { kind: PhysMemoryKind::Free, start: 1048576, end: 1048576 + 267255808 },
        PhysMemoryEntry {
            kind: PhysMemoryKind::Reserved,
            start: 268304384,
            end: 268304384 + 131072,
        },
        PhysMemoryEntry {
            kind: PhysMemoryKind::Reserved,
            start: 4294705152,
            end: 4294705152 + 262144,
        },
        PhysMemoryEntry {
            kind: PhysMemoryKind::Reserved,
            start: 1086626725888,
            end: 1086626725888 + 12884901888,
        },
    ];

    let mut mm = PhysMemoryMap::<20>::new();

    for entry in real_mem_map.iter() {
        mm.add_region(entry.clone()).unwrap();
    }

    assert_eq!(mm.len(), 11);
}

#[test]
fn add_region_rejects_empty_range() {
    let mut mm = PhysMemoryMap::<4>::new();
    assert_eq!(
        mm.add_region(PhysMemoryEntry { kind: PhysMemoryKind::Free, start: 10, end: 10 }),
        Err(MemoryError::InvalidSize)
    );
    assert_eq!(mm.len(), 0);
}

#[test]
fn add_region_of_kind_empty_changes_nothing() {
    let mut mm = PhysMemoryMap::<4>::new();
    mm.add_region(PhysMemoryEntry { kind: PhysMemoryKind::Free, start: 0, end: 10 }).unwrap();
    assert_eq!(
        mm.add_region(PhysMemoryEntry { kind: PhysMemoryKind::Empty, start: 2, end: 5 }),
        Ok(())
    );
    assert_eq!(mm.borders(), [border(PhysMemoryKind::Free, 0), border(PhysMemoryKind::Empty, 10), empty(), empty()]);
}

#[test]
fn add_region_too_many_borders_leaves_map() {
    let mut mm = PhysMemoryMap::<2>::new();
    mm.add_region(PhysMemoryEntry { kind: PhysMemoryKind::Free, start: 0, end: 10 }).unwrap();
    assert_eq!(
        mm.add_region(PhysMemoryEntry { kind: PhysMemoryKind::Free, start: 20, end: 30 }),
        Err(MemoryError::ArrayTooSmall)
    );
    assert_eq!(mm.borders(), [border(PhysMemoryKind::Free, 0), border(PhysMemoryKind::Empty, 10)]);
}

#[test]
fn add_region_order_does_not_matter() {
    let regions = [
        PhysMemoryEntry { kind: PhysMemoryKind::Free, start: 5, end: 14 },
        PhysMemoryEntry { kind: PhysMemoryKind::Reserved, start: 0, end: 6 },
        PhysMemoryEntry { kind: PhysMemoryKind::Special, start: 3, end: 10 },
    ];
    let mut a = PhysMemoryMap::<8>::new();
    let mut b = PhysMemoryMap::<8>::new();
    for r in regions.iter() {
        a.add_region(*r).unwrap();
    }
    for r in regions.iter().rev() {
        b.add_region(*r).unwrap();
    }
    assert_eq!(a.borders(), b.borders());
}

#[test]
fn insert_raw_errors() {
    let mut mm = PhysMemoryMap::<1>::new();
    assert_eq!(mm.insert_raw(1, border(PhysMemoryKind::Free, 0)), Err(MemoryError::InvalidSize));
    assert_eq!(mm.insert_raw(0, border(PhysMemoryKind::Free, 0)), Ok(()));
    assert_eq!(mm.insert_raw(0, border(PhysMemoryKind::Free, 0)), Err(MemoryError::ArrayTooSmall));
    assert_eq!(mm.remove_raw(1), Err(MemoryError::InvalidSize));
}

#[test]
fn entry_len_and_empty() {
    let e = PhysMemoryEntry { kind: PhysMemoryKind::Free, start: 4, end: 10 };
    assert_eq!(e.len(), 6);
    let z = PhysMemoryEntry::empty();
    assert_eq!(z.kind, PhysMemoryKind::Empty);
    assert_eq!(z.len(), 0);
}

#[test]
fn add_region_over_raw_borders() {
    let mut mm = PhysMemoryMap::<6>::new();
    assert_eq!(mm.insert_raw(0, border(PhysMemoryKind::Free, 0)), Ok(()));
    assert_eq!(mm.insert_raw(1, border(PhysMemoryKind::Free, 10)), Ok(()));
    assert_eq!(
        mm.add_region(PhysMemoryEntry { kind: PhysMemoryKind::Reserved, start: 5, end: 15 }),
        Ok(())
    );
    assert_eq!(mm.len(), 3);
    assert_eq!(
        mm.borders(),
        [
            border(PhysMemoryKind::Free, 0),
            border(PhysMemoryKind::Reserved, 5),
            border(PhysMemoryKind::Free, 15),
            empty(),
            empty(),
            empty()
        ]
    );
}

#[test]
fn add_region_with_two_free_slots_succeeds() {
    let mut mm = PhysMemoryMap::<2>::new();
    assert_eq!(
        mm.add_region(PhysMemoryEntry { kind: PhysMemoryKind::Free, start: 4, end: 8 }),
        Ok(())
    );
    assert_eq!(mm.borders(), [border(PhysMemoryKind::Free, 4), border(PhysMemoryKind::Empty, 8)]);
    assert_eq!(
        mm.add_region(PhysMemoryEntry { kind: PhysMemoryKind::Reserved, start: 5, end: 6 }),
        Err(MemoryError::ArrayTooSmall)
    );
    assert_eq!(mm.borders(), [border(PhysMemoryKind::Free, 4), border(PhysMemoryKind::Empty, 8)]);
}

#[test]
fn add_region_refuses_unordered_borders() {
    let mut mm = PhysMemoryMap::<4>::new();
    assert_eq!(mm.insert_raw(0, border(PhysMemoryKind::Free, 10)), Ok(()));
    assert_eq!(mm.insert_raw(1, border(PhysMemoryKind::Empty, 5)), Ok(()));
    assert!(!mm.is_sorted());
    assert_eq!(
        mm.add_region(PhysMemoryEntry { kind: PhysMemoryKind::Reserved, start: 0, end: 3 }),
        Err(MemoryError::EntrySizeIsNegative)
    );
    assert_eq!(mm.len(), 2);
}
