use veos::address::{is_userspace_address, MemoryArea, PhysicalAddress, VirtualAddress};

#[test]
fn userspace_split() {
    assert!(is_userspace_address(VirtualAddress::from_u64(0)));
    assert!(is_userspace_address(VirtualAddress::from_u64(0x0000_7fff_ffff_ffff)));
    assert!(!is_userspace_address(VirtualAddress::from_u64(0xffff_8000_0000_0000)));
    assert!(!is_userspace_address(VirtualAddress::from_u64(0x0000_8000_0000_0000)));
}

#[test]
fn page_arithmetic() {
    let a = VirtualAddress::from_u64(0x1234_5678);
    assert_eq!(a.page_num(), 0x12345);
    assert_eq!(a.offset_in_page(), 0x678);
    assert_eq!(a.page_align_down().as_u64(), 0x1234_5000);
    assert_eq!(a.page_align_up().unwrap().as_u64(), 0x1234_6000);
    assert_eq!(VirtualAddress::from_u64(0x5000).page_align_up().unwrap().as_u64(), 0x5000);
    assert_eq!(VirtualAddress::from_u64(u64::MAX).page_align_up(), None);
    assert_eq!(VirtualAddress::from_page_num(0x12345).as_u64(), 0x1234_5000);
    let p = PhysicalAddress::from_u64(0xb8123);
    assert_eq!(p.page_align_down().as_u64(), 0xb8000);
    assert_eq!(p.offset_in_page(), 0x123);
    assert_eq!(p.page_num(), 0xb8);
}

#[test]
fn checked_offsets() {
    let a = VirtualAddress::from_u64(0x1000);
    assert_eq!(a.checked_add(0x10).unwrap().as_u64(), 0x1010);
    assert_eq!(a.checked_sub(0x10).unwrap().as_u64(), 0xff0);
    assert_eq!(a.checked_sub(0x1001), None);
    assert_eq!(VirtualAddress::from_u64(u64::MAX).checked_add(1), None);
    assert_eq!(a.distance_from(VirtualAddress::from_u64(0x3000)), -0x2000);
}

#[test]
fn area_containment() {
    let outer = MemoryArea::new(0x1000, 0x3000);
    assert_eq!(outer.end_address(), 0x4000);
    assert!(MemoryArea::new(0x1000, 0x3000).is_contained_in(outer));
    assert!(MemoryArea::new(0x2000, 0x1000).is_contained_in(outer));
    assert!(!MemoryArea::new(0x3000, 0x2000).is_contained_in(outer));
    assert!(!MemoryArea::new(0x0, 0x2000).is_contained_in(outer));
    let b = MemoryArea::from_start_and_end(0x2000, 0x5000);
    assert_eq!(b.length(), 0x3000);
    assert_eq!(b.start_address(), 0x2000);
}
