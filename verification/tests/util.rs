use aloe::util::{align_range_to, align_to, is_align_to, is_power_of_two, FromGib, FromKib, FromMib, HumanBytes, HumanUnit};

#[test]
fn test_align_to() {
    assert_eq!(align_to(10, 8), 16);
    assert_eq!(align_to(16, 8), 16);
    assert_eq!(align_to(0, 8), 0);
    assert_eq!(align_to(64, 8), 64);
    assert_eq!(align_to(63, 8), 64);
}

#[test]
fn align_range_pushes_end_down_to_alignment() {
    assert_eq!(align_range_to(10, 8195, 8), (16, 8192));
    assert_eq!(align_range_to(0, 4095, 16), (0, 4080));
    assert_eq!(align_range_to(3, 20, 8), (8, 16));
}

#[test]
fn align_check() {
    assert!(is_align_to(4096, 4096));
    assert!(!is_align_to(4097, 4096));
    assert!(is_power_of_two(64));
    assert!(!is_power_of_two(0));
    assert!(!is_power_of_two(12));
}

#[test]
fn human_bytes_units() {
    assert_eq!(HumanBytes::new(1024).parts(), (1, HumanUnit::Kib));
    assert_eq!(HumanBytes::new(1023).parts(), (1023, HumanUnit::Bytes));
    assert_eq!(HumanBytes::new(3 * 1048576 + 5).parts(), (3, HumanUnit::Mib));
    assert_eq!(HumanBytes::new(2 * 1073741824).parts(), (2, HumanUnit::Gib));
    assert_eq!(HumanBytes::zero().0, 0);
    assert_eq!(HumanUnit::Kib.symbol(), "Kib");
    // "1 Kib" is five characters
    assert_eq!(HumanBytes::new(1024).padding(8), 3);
    assert_eq!(HumanBytes::new(1024).padding(2), 0);
    assert_eq!(<HumanBytes as FromKib<u64>>::from_kib(2).0, 2048);
    assert_eq!(<HumanBytes as FromMib<u64>>::from_kib(2).0, 2 * 1048576);
    assert_eq!(<HumanBytes as FromGib<u64>>::from_kib(1).0, 1073741824);
}
