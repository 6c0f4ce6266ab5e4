use veos::address::{MemoryArea, PhysicalAddress};
use veos::boot::{
    get_bootloader_name, get_initramfs_area, get_initramfs_module_entry, get_memory_map, get_vga_info, init,
    set_boot_method, usable_memory_areas, BootMethod, FramebufferTag, MemoryAreaType, ModuleTag, MultibootHeader,
    RawMemoryArea, VgaInfo,
};

fn module(name: &str, start: u64, end: u64) -> ModuleTag {
    ModuleTag { name: name.to_string(), start, end }
}

fn raw(start: u64, size: u64, area_type: MemoryAreaType) -> RawMemoryArea {
    RawMemoryArea { start, size, area_type }
}

#[test]
fn magic_numbers_pick_the_protocol() {
    assert_eq!(set_boot_method(0x2BADB002), BootMethod::Multiboot);
    assert_eq!(set_boot_method(0x36D76289), BootMethod::Multiboot2);
    assert_eq!(set_boot_method(0), BootMethod::Unknown);
}

#[test]
fn vga_info_defaults_to_text_mode() {
    let info = init(0x36D76289, None, None, vec![], vec![]);
    assert_eq!(get_vga_info(&info), VgaInfo { height: 25, width: 80, address: PhysicalAddress::from_u64(0xb8000) });
    let fb = FramebufferTag { width: 1024, height: 768, address: 0xfd00_0000 };
    let info = init(0x2BADB002, None, Some(fb), vec![], vec![]);
    assert_eq!(
        get_vga_info(&info),
        VgaInfo { height: 768, width: 1024, address: PhysicalAddress::from_u64(0xfd00_0000) }
    );
}

#[test]
fn bootloader_name_or_default() {
    let info = init(0x36D76289, Some("GRUB 2.06".to_string()), None, vec![], vec![]);
    assert_eq!(get_bootloader_name(&info), "GRUB 2.06");
    let info = init(0x36D76289, None, None, vec![], vec![]);
    assert_eq!(get_bootloader_name(&info), "a multiboot compliant bootloader");
}

#[test]
fn initramfs_found_by_name() {
    let mods = vec![module("kernel-extra", 0x1000, 0x2000), module("initramfs", 0x20000, 0x22000)];
    let info = init(0x36D76289, None, None, mods, vec![]);
    assert_eq!(get_initramfs_module_entry(&info), Some(1));
    assert_eq!(get_initramfs_area(&info), MemoryArea::new(0x20000, 0x2000));
    let info = init(0x36D76289, None, None, vec![module("initrd", 0x0, 0x10)], vec![]);
    assert_eq!(get_initramfs_module_entry(&info), None);
}

#[test]
fn only_usable_areas_are_free() {
    let map = vec![
        raw(0x0, 0x9fc00, MemoryAreaType::Usable),
        raw(0x9fc00, 0x400, MemoryAreaType::Reserved),
        raw(0x100000, 0x700000, MemoryAreaType::Usable),
        raw(0x800000, 0x1000, MemoryAreaType::AcpiAvailable),
    ];
    let info = init(0x36D76289, None, None, vec![], map);
    assert_eq!(usable_memory_areas(&info), vec![MemoryArea::new(0x0, 0x9fc00), MemoryArea::new(0x100000, 0x700000)]);
    let mut it = get_memory_map(&info, MemoryArea::new(0x100000, 0x50000), MemoryArea::new(0x200010, 0x1000));
    assert_eq!(it.next(), Some(MemoryArea::new(0x0, 0x9fc00)));
    assert_eq!(it.next(), Some(MemoryArea::new(0x150000, 0xb0000)));
    assert_eq!(it.next(), Some(MemoryArea::new(0x202000, 0x5fe000)));
    assert_eq!(it.next(), None);
}

#[test]
fn multiboot_header_checksums() {
    let h = MultibootHeader::new();
    assert_eq!(h.mb1.magic, 0x1BADB002);
    assert_eq!(h.mb1.checksum, 0xE4524FFE);
    assert_eq!(h.mb1.magic.wrapping_add(h.mb1.flags).wrapping_add(h.mb1.checksum), 0);
    assert_eq!(h.mb2.magic, 0xE85250D6);
    assert_eq!(h.mb2.header_length, 24);
    assert_eq!(h.mb2.checksum, 0x17ADAF12);
    assert_eq!(
        h.mb2.magic.wrapping_add(h.mb2.arch).wrapping_add(h.mb2.header_length).wrapping_add(h.mb2.checksum),
        0
    );
    assert_eq!((h.mb2.end_tag_type, h.mb2.end_tag_flags, h.mb2.end_tag_size), (0, 0, 8));
}
