use veos::address::VirtualAddress;
use veos::address_space::AddressSpace;
use veos::paging::{PageTable, EXECUTABLE, PRESENT, READABLE, USER_ACCESSIBLE, WRITABLE};
use veos::stack::{AccessType, Stack};

const USER_STACK_AREA_BASE: u64 = 0x0000_7f80_0000_0000;
const USER_STACK_MAX_SIZE: u64 = 0x20_0000;

fn space(frames: u64) -> AddressSpace {
    AddressSpace::new(PageTable::new((0..frames).map(|i| 0x10_0000 + i * 0x1000).collect()))
}

#[test]
fn user_stack_grows_by_three_pages() {
    let mut s = space(8);
    let base = VirtualAddress::from_u64(USER_STACK_AREA_BASE);
    let mut st = Stack::new(0, USER_STACK_MAX_SIZE, base, AccessType::UserAccessible, &mut s);
    assert_eq!(st.top_address().as_u64(), 0x0000_7f80_0020_0000);
    assert_eq!(st.bottom_address().as_u64(), 0x0000_7f80_0020_0000);
    assert_eq!(st.base_stack_pointer.as_u64(), 0x0000_7f80_0020_0000);
    st.grow(0x3000, &mut s);
    assert_eq!(st.bottom_address().as_u64(), 0x0000_7f80_001f_d000);
    for page in [0x0000_7f80_001f_d000u64, 0x0000_7f80_001f_e000, 0x0000_7f80_001f_f000] {
        let f = s.get_page_flags(VirtualAddress::from_u64(page));
        assert_eq!(f.bits, READABLE | WRITABLE | USER_ACCESSIBLE | PRESENT | EXECUTABLE);
    }
    assert!(s.get_page_flags(VirtualAddress::from_u64(0x0000_7f80_001f_c000)).is_empty());
    assert_eq!(s.get_free_memory_size(), 5 * 0x1000);
}

#[test]
fn grow_is_clamped_at_max_size() {
    let mut s = space(4);
    let base = VirtualAddress::from_u64(0xffff_fe00_0000_0000);
    let mut st = Stack::new(0x1000, 0x4000, base, AccessType::KernelOnly, &mut s);
    assert_eq!(st.bottom_address().as_u64(), 0xffff_fe00_0000_3000);
    st.grow(0x10000, &mut s);
    assert_eq!(st.bottom_address().as_u64(), 0xffff_fe00_0000_0000);
    assert_eq!(st.top_address().as_u64() - st.bottom_address().as_u64(), st.max_size());
    assert_eq!(s.get_free_memory_size(), 0);
    assert_eq!(s.get_page_flags(base).bits, READABLE | WRITABLE | PRESENT | EXECUTABLE);
}

#[test]
fn shrink_unmaps_and_is_clamped_at_top() {
    let mut s = space(4);
    let base = VirtualAddress::from_u64(0x40_0000);
    let mut st = Stack::new(0x3000, 0x4000, base, AccessType::UserAccessible, &mut s);
    assert_eq!(s.get_free_memory_size(), 0x1000);
    st.shrink(0x1000, &mut s);
    assert_eq!(st.bottom_address().as_u64(), 0x40_2000);
    assert!(s.get_page_flags(VirtualAddress::from_u64(0x40_1000)).is_empty());
    assert_eq!(s.get_free_memory_size(), 0x2000);
    st.shrink(0x10000, &mut s);
    assert_eq!(st.bottom_address().as_u64(), 0x40_4000);
    assert_eq!(s.get_free_memory_size(), 0x4000);
}

#[test]
fn resize_both_ways() {
    let mut s = space(4);
    let base = VirtualAddress::from_u64(0x40_0000);
    let mut st = Stack::new(0, 0x4000, base, AccessType::KernelOnly, &mut s);
    st.resize(0x2000, &mut s);
    assert_eq!(st.bottom_address().as_u64(), 0x40_2000);
    assert_eq!(s.get_free_memory_size(), 0x2000);
    st.resize(0x1000, &mut s);
    assert_eq!(st.bottom_address().as_u64(), 0x40_3000);
    assert_eq!(s.get_free_memory_size(), 0x3000);
    st.resize(0x9000, &mut s);
    assert_eq!(st.bottom_address().as_u64(), 0x40_0000);
    assert_eq!(s.get_free_memory_size(), 0);
    st.resize(0, &mut s);
    assert_eq!(st.bottom_address().as_u64(), 0x40_4000);
    assert_eq!(s.get_free_memory_size(), 0x4000);
}

#[test]
fn growth_and_shrinking_round_to_whole_pages() {
    let mut s = space(3);
    let base = VirtualAddress::from_u64(0x40_0000);
    let mut st = Stack::new(1, 0x4000, base, AccessType::KernelOnly, &mut s);
    assert_eq!(st.bottom_address().as_u64(), 0x40_3000);
    assert_eq!(s.get_free_memory_size(), 0x2000);
    st.grow(0x10, &mut s);
    assert_eq!(st.bottom_address().as_u64(), 0x40_2000);
    assert!(!s.get_page_flags(VirtualAddress::from_u64(0x40_2000)).is_empty());
    assert_eq!(s.get_free_memory_size(), 0x1000);
    st.shrink(1, &mut s);
    assert_eq!(st.bottom_address().as_u64(), 0x40_3000);
    assert!(s.get_page_flags(VirtualAddress::from_u64(0x40_2000)).is_empty());
    st.resize(0x1001, &mut s);
    assert_eq!(st.bottom_address().as_u64(), 0x40_2000);
    st.resize(0x2000, &mut s);
    assert_eq!(st.bottom_address().as_u64(), 0x40_2000);
    assert_eq!(s.get_free_memory_size(), 0x1000);
}

#[test]
fn push_moves_the_stack_pointer_down() {
    let mut sp = VirtualAddress::from_u64(0x40_4000);
    Stack::push_in(&mut sp, 8);
    assert_eq!(sp.as_u64(), 0x40_3ff8);
    Stack::push_in(&mut sp, 0x10);
    assert_eq!(sp.as_u64(), 0x40_3fe8);
}
