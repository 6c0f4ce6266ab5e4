use veos::address::{MemoryArea, VirtualAddress};
use veos::address_space::{AddressSpace, Segment, SegmentType};
use veos::paging::{MapError, PageFlags, PageTable, EXECUTABLE, PRESENT, READABLE, WRITABLE};

#[test]
fn segments_may_not_overlap() {
    let mut s = AddressSpace::new(PageTable::new(vec![]));
    let f = PageFlags::from_bits(READABLE);
    assert!(s.add_segment(Segment::new(MemoryArea::new(0x1000, 0x2000), f, SegmentType::MemoryOnly)));
    assert!(!s.add_segment(Segment::new(MemoryArea::new(0x2000, 0x2000), f, SegmentType::MemoryOnly)));
    assert!(s.add_segment(Segment::new(MemoryArea::new(0x3000, 0x1000), f, SegmentType::FileBacked)));
    assert_eq!(s.find_segment(VirtualAddress::from_u64(0x3800)), Some(1));
    assert_eq!(s.find_segment(VirtualAddress::from_u64(0x4000)), None);
}

#[test]
fn segment_mapping_uses_segment_flags_and_reports_faults() {
    let mut s = AddressSpace::new(PageTable::new(vec![0x10_0000, 0x11_0000]));
    let rw = PageFlags::from_bits(READABLE | WRITABLE);
    assert!(s.add_segment(Segment::new(MemoryArea::new(0x1000, 0x2000), rw, SegmentType::MemoryOnly)));
    assert!(s.add_segment(Segment::new(MemoryArea::new(0x0000_7fff_ffff_f000, 0x2000), rw, SegmentType::MemoryOnly)));
    assert_eq!(s.map_page(VirtualAddress::from_u64(0x9000)), Err(MapError::NoSegment));
    assert_eq!(s.map_page(VirtualAddress::from_u64(0x0000_8000_0000_0000)), Err(MapError::NonCanonical));
    assert_eq!(s.map_page(VirtualAddress::from_u64(0x1000)), Ok(()));
    assert_eq!(s.get_page_flags(VirtualAddress::from_u64(0x1000)).bits, READABLE | WRITABLE | PRESENT | EXECUTABLE);
    assert_eq!(s.map_page(VirtualAddress::from_u64(0x1800)), Err(MapError::AlreadyMapped));
    assert_eq!(s.map_page(VirtualAddress::from_u64(0x2000)), Ok(()));
    assert_eq!(s.map_page(VirtualAddress::from_u64(0x0000_7fff_ffff_f000)), Err(MapError::OutOfFrames));
    assert_eq!(s.unmap_page(VirtualAddress::from_u64(0x1000)), Ok(()));
    assert_eq!(s.get_free_memory_size(), 0x1000);
}
