use rduperemove::fiemap::{
    compare, fiemap_extent, ComparisonResult, ExtentFlags, FiemapFlags, FIEMAP_EXTENT_LAST,
    FIEMAP_EXTENT_SHARED,
};

fn extent(logical: u64, physical: u64, length: u64, flags: u32) -> fiemap_extent {
    fiemap_extent { fe_logical: logical, fe_physical: physical, fe_length: length, fe_flags: flags }
}

#[test]
fn compare_same_file_is_deduped() {
    let e = vec![extent(0, 4096, 4096, 0), extent(4096, 65536, 8192, 1)];
    assert_eq!(compare(&e, &e), ComparisonResult::AlreadyDeduped);
    let none: Vec<fiemap_extent> = Vec::new();
    assert_eq!(compare(&none, &none), ComparisonResult::AlreadyDeduped);
}

#[test]
fn compare_copies_are_not_deduped() {
    let a = vec![extent(0, 1 << 20, 11000, 1)];
    let b = vec![extent(0, 2 << 20, 11000, 1)];
    assert_eq!(compare(&a, &b), ComparisonResult::NotDeduped);
}

#[test]
fn compare_reflinks_are_deduped() {
    let a = vec![extent(0, 1 << 20, 16384, 0x2001)];
    let b = vec![extent(0, 1 << 20, 16384, 0x2001)];
    assert_eq!(compare(&a, &b), ComparisonResult::AlreadyDeduped);
}

#[test]
fn compare_unshared_tail_is_partial() {
    let a = vec![extent(0, 1 << 20, 8192, 0x2000), extent(8192, 3 << 20, 2808, 1)];
    let b = vec![extent(0, 1 << 20, 8192, 0x2000), extent(8192, 5 << 20, 2808, 1)];
    assert_eq!(compare(&a, &b), ComparisonResult::PartiallyDeduped);
}

#[test]
fn compare_one_against_two_extents() {
    let a = vec![extent(0, 1 << 20, 8192, 0)];
    let b = vec![extent(0, 1 << 20, 8192, 0), extent(8192, 5 << 20, 4096, 1)];
    assert_eq!(compare(&a, &b), ComparisonResult::PartiallyDeduped);
    let c = vec![extent(0, 7 << 20, 8192, 0), extent(8192, 5 << 20, 4096, 1)];
    assert_eq!(compare(&a, &c), ComparisonResult::NotDeduped);
}

#[test]
fn extent_flags_drop_unknown_bits() {
    let e = extent(0, 0, 0, 0x8000_2001);
    let flags = e.flags();
    assert_eq!(flags.bits, 0x2001);
    assert!(flags.contains(FIEMAP_EXTENT_SHARED));
    assert!(flags.contains(FIEMAP_EXTENT_LAST));
    assert!(!flags.contains(0x4));
    assert_eq!(ExtentFlags::from_bits_truncate(0xffff_ffff).bits, 0x3F8F);
    assert_eq!(FiemapFlags::from_bits_truncate(0xff).bits, 0x7);
}
