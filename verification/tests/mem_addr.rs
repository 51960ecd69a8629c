use aloe::mem::addr::{AlignedTo, PhysAddr, VirtAddr};
use aloe::mem::page::{Page2M, Page4K, PhysPage, VirtPage};

#[test]
fn test_alignment_up_to() {
    let addr = PhysAddr::from(120);

    assert_eq!(addr.align_up_to(256), PhysAddr::from(256));
}

#[test]
fn test_alignment_down_to() {
    let addr = PhysAddr::from(120);

    assert_eq!(addr.align_down_to(256), PhysAddr::from(0));
}

#[test]
fn test_alignment_into() {
    let addr = PhysAddr::from(5);

    fn needs_aligned(ptr: PhysAddr<AlignedTo<8>>) {
        assert_eq!(ptr.addr(), 8);
    }

    needs_aligned(addr.align_into());
}

#[test]
#[should_panic]
fn test_fail_alignment() {
    let addr = PhysAddr::from(15);
    let _aligned: PhysAddr<AlignedTo<16>> = PhysAddr::try_from_addr(addr).unwrap();
}

#[test]
#[should_panic]
fn test_alignment_not_power_of_two() {
    let addr = PhysAddr::from(15);
    let _aligned: PhysAddr<AlignedTo<15>> = PhysAddr::try_from_addr(addr).unwrap();
}

#[test]
fn aligned_address_checks() {
    assert!(PhysAddr::<AlignedTo<16>>::try_from_usize(32).is_ok());
    assert!(PhysAddr::<AlignedTo<16>>::try_from_usize(33).is_err());
    // an alignment that is no power of two is refused
    assert!(PhysAddr::<AlignedTo<15>>::try_from_usize(30).is_err());
    let a = PhysAddr::<AlignedTo<16>>::try_new(32);
    assert_eq!(a.try_offset(16).unwrap().addr(), 48);
    assert!(a.try_offset(3).is_err());
    assert_eq!(a.realative_offset(16).addr(), 0);
}

#[test]
fn address_arithmetic() {
    let a = PhysAddr::new(0x1234);
    assert_eq!(a.chop_bottom(4096), 0x234);
    assert!(!a.is_aligned_to(4096));
    assert!(PhysAddr::new(0x2000).is_aligned_to(4096));
    assert_eq!(a.offset(4).addr(), 0x1238);
    assert_eq!(a.extend_by(0x10).addr(), 0x1244);
    assert_eq!(a.realative_offset(0x1000).addr(), 0x234);
    assert_eq!(a.distance_to(PhysAddr::new(0x2000)), 0xdcc);
    assert!(PhysAddr::<aloe::mem::addr::NotAligned>::dangling().is_null());
    let v = VirtAddr::new(0x5000);
    assert_eq!(v.align_up_to(0x3000).addr(), 0x6000);
    assert_eq!(v.align_down_to(0x3000).addr(), 0x3000);
}

#[test]
fn test_page_into_phys_page() {
    let page: PhysPage<Page4K> = PhysPage::new(1);

    assert_eq!(page.addr(), PhysAddr::from(4096));
}

#[test]
fn page_arithmetic() {
    let p: PhysPage<Page2M> = PhysPage::new(3);
    assert_eq!(p.addr().addr(), 3 * 2097152);
    assert!(!p.is_aligned_to::<aloe::mem::page::Page1G>());
    assert!(PhysPage::<Page2M>::new(512).is_aligned_to::<aloe::mem::page::Page1G>());
    let q: PhysPage<Page2M> = PhysPage::new(5);
    assert_eq!(p.distance_to(&q), 2 * 2097152);
    assert_eq!(p.pages_to(&q), 2);
    assert_eq!(PhysPage::<Page4K>::containing_addr(PhysAddr::new(8191)).page(), 1);
    let v: VirtPage<Page4K> = VirtPage::new(2);
    assert_eq!(v.addr().addr(), 8192);
    assert_eq!(VirtPage::<Page4K>::containing_addr(VirtAddr::new(12288)).page(), 3);
    let from_addr: Result<PhysPage<Page4K>, _> = PhysPage::try_from(PhysAddr::new(8192));
    assert_eq!(from_addr.unwrap().page(), 2);
    let bad: Result<PhysPage<Page4K>, _> = PhysPage::try_from(PhysAddr::new(8193));
    assert_eq!(bad.unwrap_err().addr(), 8193);
}
