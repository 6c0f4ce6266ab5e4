use veos::address::MemoryArea;
use veos::memory_map::{check_memory_map_input, free_memory_areas, initramfs, MemoryMapIterator};

fn area(start: u64, length: u64) -> MemoryArea {
    MemoryArea::new(start, length)
}

#[test]
fn filter_cuts_kernel_and_initramfs() {
    let r = free_memory_areas(vec![area(0x0, 0x100000)], area(0x10000, 0x5000), area(0x20000, 0x2000));
    assert_eq!(r, vec![area(0x0, 0x10000), area(0x15000, 0xb000), area(0x22000, 0xde000)]);
}

#[test]
fn filter_orders_exclusions_by_start() {
    let r = free_memory_areas(vec![area(0x0, 0x100000)], area(0x20000, 0x2000), area(0x10000, 0x5000));
    assert_eq!(r, vec![area(0x0, 0x10000), area(0x15000, 0xb000), area(0x22000, 0xde000)]);
}

#[test]
fn filter_exclusions_in_separate_areas() {
    let areas = vec![area(0x0, 0x9f000), area(0x100000, 0x700000), area(0x1000000, 0x100000)];
    let r = free_memory_areas(areas, area(0x100000, 0x80000), area(0x1000000, 0x1000));
    assert_eq!(r, vec![area(0x0, 0x9f000), area(0x180000, 0x680000), area(0x1001000, 0xff000)]);
}

#[test]
fn filter_exclusion_covering_whole_area() {
    let r = free_memory_areas(vec![area(0x1000, 0x1000), area(0x4000, 0x1000)], area(0x1000, 0x1000), area(0x4000, 0x0));
    assert_eq!(r, vec![area(0x4000, 0x1000)]);
}

#[test]
fn filter_output_is_sorted_disjoint_and_clear_of_exclusions() {
    let areas = vec![area(0x0, 0x9000), area(0x10000, 0x30000), area(0x50000, 0x8000)];
    let kernel = area(0x12000, 0x3000);
    let initrd = area(0x20000, 0x4000);
    let r = free_memory_areas(areas.clone(), kernel, initrd);
    for w in r.windows(2) {
        assert!(w[0].start + w[0].length <= w[1].start);
    }
    for a in &r {
        assert!(areas.iter().any(|x| x.start <= a.start && a.start + a.length <= x.start + x.length));
        for x in [kernel, initrd] {
            assert!(a.start + a.length <= x.start || x.start + x.length <= a.start);
        }
    }
    let total: u64 = r.iter().map(|a| a.length).sum();
    assert_eq!(total, 0x9000 + 0x30000 + 0x8000 - 0x3000 - 0x4000);
}

#[test]
fn filter_empty_map() {
    let r = free_memory_areas(vec![], area(0x0, 0x0), area(0x0, 0x0));
    assert!(r.is_empty());
}

#[test]
fn iterator_yields_then_stops() {
    let mut it = MemoryMapIterator::new(vec![area(0x0, 0x100000)], area(0x10000, 0x5000), area(0x20000, 0x2000));
    assert_eq!(it.next(), Some(area(0x0, 0x10000)));
    assert_eq!(it.next(), Some(area(0x15000, 0xb000)));
    assert_eq!(it.next(), Some(area(0x22000, 0xde000)));
    assert_eq!(it.next(), None);
    assert_eq!(it.next(), None);
}

#[test]
fn initramfs_is_widened_to_frames() {
    assert_eq!(initramfs(area(0x20010, 0x1ff0)), area(0x20000, 0x2000));
    assert_eq!(initramfs(area(0x20000, 0x2001)), area(0x20000, 0x3000));
    assert_eq!(initramfs(area(0x20000, 0x1)), area(0x20000, 0x1000));
    assert_eq!(initramfs(area(0x20123, 0x0)), area(0x20000, 0x0));
    assert_eq!(initramfs(area(0x20800, 0x1000)), area(0x20000, 0x2000));
    assert_eq!(initramfs(area(0x20800, 0x800)), area(0x20000, 0x1000));
}

#[test]
fn input_checks() {
    let areas = vec![area(0x0, 0x100000)];
    assert!(check_memory_map_input(&areas, area(0x10000, 0x5000), area(0x20000, 0x2000)));
    assert!(!check_memory_map_input(&areas, area(0x10000, 0x5000), area(0x12000, 0x2000)));
    assert!(!check_memory_map_input(&areas, area(0xff000, 0x5000), area(0x20000, 0x2000)));
    let unsorted = vec![area(0x10000, 0x1000), area(0x0, 0x1000)];
    assert!(!check_memory_map_input(&unsorted, area(0x0, 0x0), area(0x10000, 0x0)));
    let overlapping = vec![area(0x0, 0x2000), area(0x1000, 0x1000)];
    assert!(!check_memory_map_input(&overlapping, area(0x0, 0x0), area(0x1000, 0x0)));
}
