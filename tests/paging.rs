use veos::address::{PhysicalAddress, VirtualAddress};
use veos::paging::{
    get_free_memory_size, get_page_flags, map_page, map_page_at, unmap_page, MapError, PageFlags, PageTable,
    EXECUTABLE, NO_EXECUTE, PRESENT, READABLE, USER_ACCESSIBLE, WRITABLE,
};

fn table(frames: u64) -> PageTable {
    PageTable::new((0..frames).map(|i| 0x10_0000 + i * 0x1000).collect())
}

#[test]
fn map_then_flags_round_trip() {
    let mut t = table(4);
    let rw = PageFlags::from_bits(READABLE | WRITABLE);
    let ru = PageFlags::from_bits(READABLE | USER_ACCESSIBLE);
    let a = VirtualAddress::from_u64(0x40_0000);
    let b = VirtualAddress::from_u64(0x40_1000);
    assert_eq!(map_page(&mut t, a, rw), Ok(()));
    assert_eq!(map_page(&mut t, b, ru), Ok(()));
    assert_eq!(get_page_flags(&t, a).bits, READABLE | WRITABLE | PRESENT | EXECUTABLE);
    assert_eq!(get_page_flags(&t, b).bits, READABLE | USER_ACCESSIBLE | PRESENT | EXECUTABLE);
    assert_eq!(unmap_page(&mut t, a), Ok(()));
    assert!(get_page_flags(&t, a).is_empty());
    assert_eq!(get_page_flags(&t, b).bits, READABLE | USER_ACCESSIBLE | PRESENT | EXECUTABLE);
    assert_eq!(map_page(&mut t, a, ru), Ok(()));
    assert_eq!(get_page_flags(&t, a).bits, READABLE | USER_ACCESSIBLE | PRESENT | EXECUTABLE);
}

#[test]
fn unmapped_page_has_no_flags() {
    let t = table(1);
    assert!(get_page_flags(&t, VirtualAddress::from_u64(0x1234_5000)).is_empty());
}

#[test]
fn free_memory_moves_by_one_page() {
    let mut t = table(3);
    let f = PageFlags::from_bits(READABLE);
    assert_eq!(get_free_memory_size(&t), 3 * 0x1000);
    map_page(&mut t, VirtualAddress::from_u64(0x1000), f).unwrap();
    assert_eq!(get_free_memory_size(&t), 2 * 0x1000);
    map_page(&mut t, VirtualAddress::from_u64(0x2000), f).unwrap();
    assert_eq!(get_free_memory_size(&t), 0x1000);
    unmap_page(&mut t, VirtualAddress::from_u64(0x1000)).unwrap();
    assert_eq!(get_free_memory_size(&t), 2 * 0x1000);
}

#[test]
fn map_errors() {
    let mut t = table(1);
    let f = PageFlags::from_bits(READABLE);
    assert_eq!(map_page(&mut t, VirtualAddress::from_u64(0x5000), f), Ok(()));
    assert_eq!(map_page(&mut t, VirtualAddress::from_u64(0x6000), f), Err(MapError::OutOfFrames));
    assert_eq!(unmap_page(&mut t, VirtualAddress::from_u64(0x7000)), Err(MapError::NotMapped));
    assert_eq!(get_free_memory_size(&t), 0);
}

#[test]
fn flags_are_canonical() {
    let mut t = table(3);
    map_page(&mut t, VirtualAddress::from_u64(0x1000), PageFlags::empty()).unwrap();
    assert_eq!(get_page_flags(&t, VirtualAddress::from_u64(0x1000)).bits, READABLE | PRESENT | EXECUTABLE);
    map_page(&mut t, VirtualAddress::from_u64(0x2000), PageFlags::from_bits(WRITABLE | NO_EXECUTE | EXECUTABLE)).unwrap();
    assert_eq!(get_page_flags(&t, VirtualAddress::from_u64(0x2000)).bits, READABLE | WRITABLE | NO_EXECUTE | PRESENT);
}

#[test]
fn map_at_uses_given_frame() {
    let mut t = table(0);
    let f = PageFlags::from_bits(READABLE | WRITABLE);
    let va = VirtualAddress::from_u64(0xffff_8000_0040_0000);
    assert_eq!(map_page_at(&mut t, va, PhysicalAddress::from_u64(0x20_0000), f), Ok(()));
    assert_eq!(t.translate(va), Some(PhysicalAddress::from_u64(0x20_0000)));
    assert!(t.is_mapped(va));
    assert_eq!(get_free_memory_size(&t), 0);
    unmap_page(&mut t, va).unwrap();
    assert_eq!(get_free_memory_size(&t), 0x1000);
    assert_eq!(t.translate(va), None);
}

#[test]
fn flag_set_operations() {
    let a = PageFlags::from_bits(READABLE);
    let b = PageFlags::from_bits(WRITABLE);
    let u = a.union(b);
    assert!(u.contains(a) && u.contains(b));
    assert!(!a.contains(b));
    assert!(PageFlags::empty().is_empty());
}
