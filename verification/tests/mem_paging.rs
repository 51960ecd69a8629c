use aloe::mem::addr::VirtAddr;
use aloe::mem::paging::mapping::{BootloaderEntry, MappingLine};
use aloe::mem::paging::resolve_translation;
use aloe::mem::page::{PhysPage, VirtPage};
use aloe::mem::paging::{PageCorrelationError, Virt2PhysMapping, VmOptions, VmPermissions};
use aloe::mem::virt2phys::PhysPtrTranslationError;

/// Entries of the tables above a page start out executable, so a mapping that does not ask
/// for execution is below the tables it goes through.
fn rwx() -> VmPermissions {
    VmPermissions::none().set_read_flag(true).set_write_flag(true).set_exec_flag(true)
}

#[test]
fn empty_mapping_has_no_tables() {
    let map = Virt2PhysMapping::empty();
    assert!(matches!(
        map.vpage_to_ppage_lookup(VirtPage::new(5)),
        Err(PhysPtrTranslationError::PageEntriesNotSetup)
    ));
}

#[test]
fn mapped_page_is_found() {
    let mut map = Virt2PhysMapping::empty();
    let r = map.correlate_page(VirtPage::new(5), PhysPage::new(7), VmOptions::none(), rwx());
    assert!(matches!(r, Ok(None)));
    assert_eq!(map.vpage_to_ppage_lookup(VirtPage::new(5)).unwrap(), PhysPage::new(7));
    match map.vpage_to_ppage_lookup(VirtPage::new(6)) {
        Err(PhysPtrTranslationError::VirtNotFound(addr)) => assert_eq!(addr.addr(), 6 * 4096),
        _ => panic!("page 6 should not be mapped"),
    }
}

#[test]
fn mapping_far_apart_pages() {
    let mut map = Virt2PhysMapping::empty();
    let high = VirtPage::new((1usize << 35) + 3);
    assert!(map.correlate_page(high, PhysPage::new(1), VmOptions::none(), rwx()).is_ok());
    assert!(map.correlate_page(VirtPage::new(3), PhysPage::new(2), VmOptions::none(), rwx()).is_ok());
    assert_eq!(map.vpage_to_ppage_lookup(high).unwrap(), PhysPage::new(1));
    assert_eq!(map.vpage_to_ppage_lookup(VirtPage::new(3)).unwrap(), PhysPage::new(2));
}

#[test]
fn mapping_twice_needs_overwrite() {
    let mut map = Virt2PhysMapping::empty();
    map.correlate_page(VirtPage::new(9), PhysPage::new(1), VmOptions::none(), rwx()).unwrap();
    let again = map.correlate_page(VirtPage::new(9), PhysPage::new(2), VmOptions::none(), rwx());
    assert!(matches!(again, Err(PageCorrelationError::PageAlreadyMapped)));
    assert_eq!(map.vpage_to_ppage_lookup(VirtPage::new(9)).unwrap(), PhysPage::new(1));
    let over = map.correlate_page(
        VirtPage::new(9),
        PhysPage::new(2),
        VmOptions::none().set_overwrite_flag(true),
        rwx(),
    );
    assert_eq!(over.unwrap(), Some(PhysPage::new(1)));
    assert_eq!(map.vpage_to_ppage_lookup(VirtPage::new(9)).unwrap(), PhysPage::new(2));
}

#[test]
fn raising_permissions_needs_the_option() {
    let mut map = Virt2PhysMapping::empty();
    let ro = VmPermissions::none().set_read_flag(true);
    map.correlate_page(VirtPage::new(1), PhysPage::new(1), VmOptions::none(), ro).unwrap();
    let user = ro.set_user_flag(true);
    let r = map.correlate_page(VirtPage::new(2), PhysPage::new(2), VmOptions::none(), user);
    assert!(matches!(r, Err(PageCorrelationError::ExistingPermissionsTooStrict { .. })));
    let r = map.correlate_page(
        VirtPage::new(2),
        PhysPage::new(2),
        VmOptions::none().set_increase_perm_flag(true),
        user,
    );
    assert!(matches!(r, Ok(None)));
    assert_eq!(map.vpage_to_ppage_lookup(VirtPage::new(2)).unwrap(), PhysPage::new(2));
}

#[test]
fn only_permissions_keeps_the_address() {
    let mut map = Virt2PhysMapping::empty();
    map.correlate_page(VirtPage::new(4), PhysPage::new(8), VmOptions::none(), rwx()).unwrap();
    let opts = VmOptions::none().set_overwrite_flag(true).set_only_commit_permissions_flag(true);
    let r = map.correlate_page(VirtPage::new(4), PhysPage::new(9), opts, rwx());
    assert_eq!(r.unwrap(), Some(PhysPage::new(8)));
    assert_eq!(map.vpage_to_ppage_lookup(VirtPage::new(4)).unwrap(), PhysPage::new(8));
}

#[test]
fn inherited_mapping_is_a_copy() {
    let mut map = Virt2PhysMapping::empty();
    map.correlate_page(VirtPage::new(11), PhysPage::new(3), VmOptions::none(), rwx()).unwrap();
    let mut copy = Virt2PhysMapping::inhearit_from(&map);
    assert_eq!(copy.vpage_to_ppage_lookup(VirtPage::new(11)).unwrap(), PhysPage::new(3));
    copy.correlate_page(VirtPage::new(12), PhysPage::new(4), VmOptions::none(), rwx()).unwrap();
    assert!(map.vpage_to_ppage_lookup(VirtPage::new(12)).is_err());
}

#[test]
fn mapping_below_the_tables_needs_raising() {
    let mut map = Virt2PhysMapping::empty();
    let rw = VmPermissions::none().set_read_flag(true).set_write_flag(true);
    map.correlate_page(VirtPage::new(1), PhysPage::new(1), VmOptions::none(), rw).unwrap();
    let r = map.correlate_page(VirtPage::new(2), PhysPage::new(2), VmOptions::none(), rw);
    assert!(matches!(r, Err(PageCorrelationError::ExistingPermissionsTooStrict { .. })));
}

#[test]
fn page_without_read_permission_is_not_present() {
    let mut map = Virt2PhysMapping::empty();
    let wo = VmPermissions::none().set_write_flag(true);
    assert!(map.correlate_page(VirtPage::new(1), PhysPage::new(1), VmOptions::none(), wo).is_ok());
    assert!(map.vpage_to_ppage_lookup(VirtPage::new(1)).is_err());
}

#[test]
fn translation_prefers_loaded_tables() {

    let virt = VirtAddr::new(0x1234_5678);
    let found = resolve_translation(virt, Ok(PhysPage::new(7)), Some(99)).unwrap();
    assert_eq!(found.addr(), 7 * 4096 + 0x678);

    let boot = resolve_translation(virt, Err(PhysPtrTranslationError::PageEntriesNotSetup), Some(0xabc)).unwrap();
    assert_eq!(boot.addr(), 0xabc);

    let missing = resolve_translation(virt, Err(PhysPtrTranslationError::PageEntriesNotSetup), None);
    assert!(matches!(missing, Err(PhysPtrTranslationError::VirtNotFound(v)) if v.addr() == 0x1234_5678));

    let passed_on = resolve_translation(virt, Err(PhysPtrTranslationError::VirtNotFound(VirtAddr::new(5))), Some(1));
    assert!(matches!(passed_on, Err(PhysPtrTranslationError::VirtNotFound(v)) if v.addr() == 5));
}

#[test]
fn bootloader_pages_are_inherited_above_the_identity_map() {
    let entries = [
        BootloaderEntry::Page4K { lvl4: 0, lvl3: 0, lvl2: 0, lvl1: 5, phys: 0x5000 },
        BootloaderEntry::Page2M { lvl4: 40, lvl3: 1, lvl2: 2, phys: 0x4000_0000 },
        BootloaderEntry::Page4K { lvl4: 40, lvl3: 1, lvl2: 3, lvl1: 7, phys: 0x1234_5000 },
    ];
    assert!(entries.iter().all(|e| e.is_usable()));
    let m = Virt2PhysMapping::inhearit_bootloader(&entries).unwrap();
    let v2m = 40 * 134217728 + 262144 + 2 * 512;
    assert_eq!(m.vpage_to_ppage_lookup(VirtPage::new(v2m)).unwrap(), PhysPage::new(0x40000));
    assert_eq!(m.vpage_to_ppage_lookup(VirtPage::new(v2m + 511)).unwrap(), PhysPage::new(0x40000 + 511));
    let v4k = 40 * 134217728 + 262144 + 3 * 512 + 7;
    assert_eq!(m.vpage_to_ppage_lookup(VirtPage::new(v4k)).unwrap(), PhysPage::new(0x12345));
    // The identity-mapped low page is left out.
    assert!(m.vpage_to_ppage_lookup(VirtPage::new(5)).is_err());
}

#[test]
fn huge_bootloader_page_is_mapped_whole() {
    let entries = [BootloaderEntry::Page1G { lvl4: 40, lvl3: 0, phys: 0x4000_0000 }];
    let m = Virt2PhysMapping::inhearit_bootloader(&entries).unwrap();
    let v = 40 * 134217728;
    assert_eq!(m.vpage_to_ppage_lookup(VirtPage::new(v)).unwrap(), PhysPage::new(0x40000));
    assert_eq!(m.vpage_to_ppage_lookup(VirtPage::new(v + 513)).unwrap(), PhysPage::new(0x40000 + 513));
    assert_eq!(
        m.vpage_to_ppage_lookup(VirtPage::new(v + 262143)).unwrap(),
        PhysPage::new(0x40000 + 262143)
    );
    assert!(m.vpage_to_ppage_lookup(VirtPage::new(v + 262144)).is_err());
    let low = [BootloaderEntry::Page1G { lvl4: 0, lvl3: 1, phys: 0 }];
    assert!(Virt2PhysMapping::inhearit_bootloader(&low).is_ok());
}

#[test]
fn bootloader_entry_must_sit_in_the_tables() {
    assert!(!BootloaderEntry::Page4K { lvl4: 512, lvl3: 0, lvl2: 0, lvl1: 0, phys: 0 }.is_usable());
    assert!(BootloaderEntry::Page2M { lvl4: 511, lvl3: 511, lvl2: 511, phys: 0 }.is_usable());
}

#[test]
fn listing_follows_the_tables() {
    let mut map = Virt2PhysMapping::empty();
    assert!(map.is_empty());
    assert!(map.listing(false).is_empty());
    // Page 513: top index 0, third-level index 0, second-level index 1, page index 1.
    map.correlate_page(VirtPage::new(513), PhysPage::new(7), VmOptions::none(), rwx()).unwrap();
    assert!(!map.is_empty());
    let lines = map.listing(false);
    assert_eq!(lines.len(), 4);
    assert!(matches!(lines[0], MappingLine::Table { level: 4, i4: 0, region: 0, .. }));
    assert!(matches!(lines[1], MappingLine::Table { level: 3, i3: 0, region: 0, .. }));
    assert!(matches!(lines[2], MappingLine::Table { level: 2, i2: 1, region: 0x20_0000, .. }));
    match lines[3] {
        MappingLine::Page { i1, entry, vaddr, .. } => {
            assert_eq!(i1, 1);
            assert_eq!(vaddr, 513 * 4096);
            assert_eq!(entry.address, 7 * 4096);
        }
        _ => panic!("the last line lists the page"),
    }
    let short = map.listing(true);
    assert_eq!(short.len(), 4);
    assert_eq!(short[3], MappingLine::Elided);
}
