use veos::address::{MemoryArea, PhysicalAddress, VirtualAddress};
use veos::layout::{initramfs_virtual_area, map_initramfs, HEAP_MAX_SIZE, INITRAMFS_MAP_AREA_START};
use veos::paging::{
    intermediate_flags, map_area_at, MapError, PageFlags, PageTable, GLOBAL, NO_EXECUTE, PRESENT, READABLE,
    USER_ACCESSIBLE, WRITABLE,
};

#[test]
fn initramfs_window_keeps_offset_and_length() {
    assert_eq!(INITRAMFS_MAP_AREA_START, 0xffff_8080_0000_0000);
    assert_eq!(HEAP_MAX_SIZE, 0x80_0000_0000);
    let v = initramfs_virtual_area(MemoryArea::new(0x20123, 0x2000));
    assert_eq!(v, MemoryArea::new(0xffff_8080_0000_0123, 0x2000));
}

#[test]
fn intermediate_entries_follow_the_half() {
    assert_eq!(intermediate_flags(VirtualAddress::from_u64(0x40_0000)).bits, PRESENT | WRITABLE | USER_ACCESSIBLE);
    assert_eq!(intermediate_flags(VirtualAddress::from_u64(0xffff_fe00_0000_0000)).bits, PRESENT | WRITABLE);
}

#[test]
fn initramfs_is_mapped_read_only_in_its_window() {
    let mut t = PageTable::new(vec![0x1000]);
    let v = map_initramfs(&mut t, MemoryArea::new(0x20123, 0x2000)).unwrap();
    assert_eq!(v, MemoryArea::new(0xffff_8080_0000_0123, 0x2000));
    for k in 0..3u64 {
        let va = VirtualAddress::from_u64(0xffff_8080_0000_0000 + k * 0x1000);
        assert_eq!(t.translate(va), Some(PhysicalAddress::from_u64(0x20000 + k * 0x1000)));
        assert_eq!(t.get_page_flags(va).bits, READABLE | GLOBAL | NO_EXECUTE | PRESENT);
    }
    assert!(!t.is_mapped(VirtualAddress::from_u64(0xffff_8080_0000_3000)));
    assert_eq!(t.get_free_memory_size(), 0x1000);
    assert_eq!(map_initramfs(&mut t, MemoryArea::new(0x40000, 0x10)), Err(MapError::AlreadyMapped));
}

#[test]
fn area_mapping_refuses_overlap_without_change() {
    let mut t = PageTable::new(vec![]);
    let f = PageFlags::from_bits(READABLE);
    map_area_at(&mut t, VirtualAddress::from_u64(0x3000), PhysicalAddress::from_u64(0x9000), 1, f).unwrap();
    let r = map_area_at(&mut t, VirtualAddress::from_u64(0x1000), PhysicalAddress::from_u64(0x5000), 3, f);
    assert_eq!(r, Err(MapError::AlreadyMapped));
    assert!(!t.is_mapped(VirtualAddress::from_u64(0x1000)));
    assert!(!t.is_mapped(VirtualAddress::from_u64(0x2000)));
    assert_eq!(t.translate(VirtualAddress::from_u64(0x3000)), Some(PhysicalAddress::from_u64(0x9000)));
}
