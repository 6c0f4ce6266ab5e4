//! What the boot loader hands over: the boot protocol, the loader's name,
//! the framebuffer, the modules and the memory map.

use vstd::prelude::*;
use crate::address::{MemoryArea, PhysicalAddress, PAGE_SIZE};
use crate::memory_map::{initramfs, ordered_pair, valid_input, widened, MemoryMapIterator};

verus! {

/// The magic number a multiboot loader passes.
pub const MULTIBOOT_BOOTLOADER_MAGIC: u32 = 0x2bad_b002;

/// The magic number a multiboot2 loader passes.
pub const MULTIBOOT2_BOOTLOADER_MAGIC: u32 = 0x36d7_6289;

/// The physical address of the VGA text buffer.
pub const VGA_TEXT_BUFFER: u64 = 0xb8000;

/// The possible boot protocols.
#[derive(Clone, Copy, Debug, PartialEq, Eq, Structural)]
pub enum BootMethod {
    /// No known boot loader could be found.
    Unknown,
    /// The system was booted using multiboot.
    Multiboot,
    /// The system was booted using multiboot2.
    Multiboot2,
}

/// The boot protocol that the magic number names.
pub open spec fn method_of(magic: u32) -> BootMethod {
    if magic == MULTIBOOT2_BOOTLOADER_MAGIC {
        BootMethod::Multiboot2
    } else if magic == MULTIBOOT_BOOTLOADER_MAGIC {
        BootMethod::Multiboot
    } else {
        BootMethod::Unknown
    }
}

/// Identifies the boot protocol from the loader's magic number.
pub fn set_boot_method(magic_number: u32) -> (r: BootMethod)
    ensures
        r == method_of(magic_number),
{
    if magic_number == MULTIBOOT2_BOOTLOADER_MAGIC {
        BootMethod::Multiboot2
    } else if magic_number == MULTIBOOT_BOOTLOADER_MAGIC {
        BootMethod::Multiboot
    } else {
        BootMethod::Unknown
    }
}

/// The framebuffer the loader set up.
#[derive(Clone, Copy, Debug, PartialEq, Eq, Structural)]
pub struct FramebufferTag {
    pub width: u32,
    pub height: u32,
    pub address: u64,
}

/// The screen the console writes to.
#[derive(Clone, Copy, Debug, PartialEq, Eq, Structural)]
pub struct VgaInfo {
    pub height: usize,
    pub width: usize,
    pub address: PhysicalAddress,
}

/// A module the loader placed in memory.
pub struct ModuleTag {
    pub name: String,
    pub start: u64,
    pub end: u64,
}

/// The kinds of memory map entries.
#[derive(Clone, Copy, Debug, PartialEq, Eq, Structural)]
pub enum MemoryAreaType {
    /// Free memory.
    Usable,
    /// Memory that must not be used.
    Reserved,
    /// Memory holding ACPI tables that may be reclaimed.
    AcpiAvailable,
    /// Memory that must be kept across hibernation.
    ReservedHibernate,
    /// Broken memory.
    Defective,
}

/// An entry of the loader's memory map.
#[derive(Clone, Copy, Debug, PartialEq, Eq, Structural)]
pub struct RawMemoryArea {
    pub start: u64,
    pub size: u64,
    pub area_type: MemoryAreaType,
}

/// Everything the kernel keeps of the boot information.
pub struct BootInfo {
    pub method: BootMethod,
    pub bootloader_name: Option<String>,
    pub framebuffer: Option<FramebufferTag>,
    pub modules: Vec<ModuleTag>,
    pub memory_map: Vec<RawMemoryArea>,
}

/// Builds the boot information for the loader that passed `magic_number`,
/// which must be the number of a known loader: on any other the kernel
/// halts before it gets here.
pub fn init(
    magic_number: u32,
    bootloader_name: Option<String>,
    framebuffer: Option<FramebufferTag>,
    modules: Vec<ModuleTag>,
    memory_map: Vec<RawMemoryArea>,
) -> (info: BootInfo)
    requires
        method_of(magic_number) != BootMethod::Unknown,
    ensures
        info.method == method_of(magic_number),
        info.bootloader_name == bootloader_name,
        info.framebuffer == framebuffer,
        info.modules@ == modules@,
        info.memory_map@ == memory_map@,
{
    let method = set_boot_method(magic_number);
    BootInfo { method, bootloader_name, framebuffer, modules, memory_map }
}

/// The method the system was booted with.
pub fn get_boot_method(info: &BootInfo) -> (r: BootMethod)
    ensures
        r == info.method,
{
    info.method
}

/// The screen to write to: the loader's framebuffer, or 80 by 25 text mode
/// at the VGA buffer where it set none up.
pub fn get_vga_info(info: &BootInfo) -> (r: VgaInfo)
    ensures
        info.framebuffer matches Some(f) ==> r == (VgaInfo {
            height: f.height as usize,
            width: f.width as usize,
            address: PhysicalAddress { addr: f.address },
        }),
        info.framebuffer.is_none() ==> r == (VgaInfo {
            height: 25,
            width: 80,
            address: PhysicalAddress { addr: VGA_TEXT_BUFFER },
        }),
{
    match info.framebuffer {
        Some(f) => VgaInfo { height: f.height as usize, width: f.width as usize, address: PhysicalAddress { addr: f.address } },
        None => VgaInfo { height: 25, width: 80, address: PhysicalAddress { addr: VGA_TEXT_BUFFER } },
    }
}

/// The name the loader gave itself, or a stand-in where it gave none.
pub fn get_bootloader_name(info: &BootInfo) -> (r: String)
    ensures
        info.method == BootMethod::Unknown ==> r@ == "no boot loader"@,
        info.method != BootMethod::Unknown ==> match info.bootloader_name {
            Some(n) => r@ == n@,
            None => r@ == "a multiboot compliant bootloader"@,
        },
{
    match info.method {
        BootMethod::Unknown => "no boot loader".to_owned(),
        _ => match &info.bootloader_name {
            Some(n) => n.clone(),
            None => "a multiboot compliant bootloader".to_owned(),
        },
    }
}

/// The module is the initramfs.
pub open spec fn is_initramfs(m: ModuleTag) -> bool {
    m.name@ == "initramfs"@
}

/// The index of the first module named `initramfs`, if there is one.
pub fn get_initramfs_module_entry(info: &BootInfo) -> (r: Option<usize>)
    ensures
        r matches Some(i) ==> i < info.modules@.len() && is_initramfs(info.modules@[i as int]) && forall|j: int|
            0 <= j < i ==> !is_initramfs(#[trigger] info.modules@[j]),
        r.is_none() ==> forall|j: int| 0 <= j < info.modules@.len() ==> !is_initramfs(#[trigger] info.modules@[j]),
{
    let target = "initramfs".to_owned();
    let mut i: usize = 0;
    while i < info.modules.len()
        invariant
            0 <= i <= info.modules@.len(),
            target@ == "initramfs"@,
            forall|j: int| 0 <= j < i ==> !is_initramfs(#[trigger] info.modules@[j]),
        decreases info.modules@.len() - i,
    {
        if info.modules[i].name == target {
            return Some(i);
        }
        i = i + 1;
    }
    None
}

/// The loader passed a module named `initramfs`, and the first such module
/// does not end below its start.
pub open spec fn has_initramfs(info: BootInfo) -> bool {
    exists|i: int|
        0 <= i < info.modules@.len() && is_initramfs(#[trigger] info.modules@[i]) && (forall|j: int|
            0 <= j < i ==> !is_initramfs(#[trigger] info.modules@[j])) && info.modules@[i].start <= info.modules@[i].end
}

/// The physical memory the first module named `initramfs` occupies. There
/// must be one: the kernel cannot start without it.
pub fn get_initramfs_area(info: &BootInfo) -> (r: MemoryArea)
    requires
        has_initramfs(*info),
    ensures
        r.wf(),
        exists|i: int|
            0 <= i < info.modules@.len() && is_initramfs(#[trigger] info.modules@[i]) && (forall|j: int|
                0 <= j < i ==> !is_initramfs(#[trigger] info.modules@[j])) && r.start == info.modules@[i].start
                && r.end() == info.modules@[i].end,
{
    let found = get_initramfs_module_entry(info);
    let i = found.unwrap();
    proof {
        let k = choose|k: int|
            0 <= k < info.modules@.len() && is_initramfs(#[trigger] info.modules@[k]) && (forall|j: int|
                0 <= j < k ==> !is_initramfs(#[trigger] info.modules@[j])) && info.modules@[k].start <= info.modules@[k].end;
        if k < i {
        } else if k > i {
            assert(!is_initramfs(info.modules@[i as int]));
        }
    }
    let m = &info.modules[i];
    MemoryArea::from_start_and_end(m.start, m.end)
}

/// The usable entries of a memory map, as memory areas, in their order.
pub open spec fn usable_areas(raw: Seq<RawMemoryArea>) -> Seq<MemoryArea>
    decreases raw.len(),
{
    if raw.len() == 0 {
        Seq::empty()
    } else {
        let rest = usable_areas(raw.drop_last());
        if raw.last().area_type == MemoryAreaType::Usable {
            rest.push(MemoryArea { start: raw.last().start, length: raw.last().size })
        } else {
            rest
        }
    }
}

/// The usable areas of the loader's memory map.
pub fn usable_memory_areas(info: &BootInfo) -> (r: Vec<MemoryArea>)
    ensures
        r@ == usable_areas(info.memory_map@),
{
    let mut out: Vec<MemoryArea> = Vec::new();
    let mut i: usize = 0;
    while i < info.memory_map.len()
        invariant
            0 <= i <= info.memory_map@.len(),
            out@ == usable_areas(info.memory_map@.take(i as int)),
        decreases info.memory_map@.len() - i,
    {
        let e = info.memory_map[i];
        proof {
            assert(info.memory_map@.take(i + 1).drop_last() =~= info.memory_map@.take(i as int));
        }
        if e.area_type == MemoryAreaType::Usable {
            out.push(MemoryArea { start: e.start, length: e.size });
        }
        i = i + 1;
    }
    proof {
        assert(info.memory_map@.take(i as int) =~= info.memory_map@);
    }
    out
}

/// A walk over the free memory: the usable areas with the kernel image and
/// the initramfs, widened to whole frames, cut out.
pub fn get_memory_map(info: &BootInfo, kernel_area: MemoryArea, initramfs_area: MemoryArea) -> (r:
    MemoryMapIterator)
    requires
        initramfs_area.wf(),
        initramfs_area.end() + PAGE_SIZE <= u64::MAX,
        valid_input(usable_areas(info.memory_map@), ordered_pair(kernel_area, widened(initramfs_area))),
    ensures
        r.areas_view() == usable_areas(info.memory_map@),
        r.excl_view() == ordered_pair(kernel_area, widened(initramfs_area)),
        r.inv(),
{
    let areas = usable_memory_areas(info);
    let widened = initramfs(initramfs_area);
    MemoryMapIterator::new(areas, kernel_area, widened)
}

/// The multiboot header.
#[derive(Clone, Copy, Debug, PartialEq, Eq, Structural)]
pub struct Multiboot1 {
    pub magic: u32,
    pub flags: u32,
    pub checksum: u32,
    pub header_addr: u32,
    pub load_addr: u32,
    pub load_end_addr: u32,
    pub bss_end_addr: u32,
    pub entry_addr: u32,
    pub mode_type: u32,
    pub width: u32,
    pub height: u32,
    pub depth: u32,
}

/// The multiboot2 header with its end tag.
#[derive(Clone, Copy, Debug, PartialEq, Eq, Structural)]
pub struct Multiboot2 {
    pub magic: u32,
    pub arch: u32,
    pub header_length: u32,
    pub checksum: u32,
    pub end_tag_type: u16,
    pub end_tag_flags: u16,
    pub end_tag_size: u32,
}

/// Both headers, so that loaders of either protocol find the kernel.
#[derive(Clone, Copy, Debug, PartialEq, Eq, Structural)]
pub struct MultibootHeader {
    pub mb1: Multiboot1,
    pub mb2: Multiboot2,
}

/// The multiboot header magic number.
pub const MB_MAGIC: u32 = 0x1BADB002;
/// The multiboot header flags.
pub const MB_FLAGS: u32 = 0;
/// The multiboot2 header magic number.
pub const MB2_MAGIC: u32 = 0xE85250D6;
/// The size in bytes of the multiboot2 header with its end tag.
pub const MB2_SIZE: u32 = 24;

impl MultibootHeader {
    /// The headers, each with a checksum that makes its fields sum to zero
    /// modulo 2^32.
    pub fn new() -> (r: MultibootHeader)
        ensures
            r.mb1.magic == MB_MAGIC,
            r.mb1.flags == MB_FLAGS,
            (r.mb1.magic + r.mb1.flags + r.mb1.checksum) % 0x1_0000_0000 == 0,
            r.mb1.header_addr == 0 && r.mb1.load_addr == 0 && r.mb1.load_end_addr == 0,
            r.mb1.bss_end_addr == 0 && r.mb1.entry_addr == 0 && r.mb1.mode_type == 0,
            r.mb1.width == 0 && r.mb1.height == 0 && r.mb1.depth == 0,
            r.mb2.magic == MB2_MAGIC,
            r.mb2.arch == 0,
            r.mb2.header_length == MB2_SIZE,
            (r.mb2.magic + r.mb2.arch + r.mb2.header_length + r.mb2.checksum) % 0x1_0000_0000 == 0,
            r.mb2.end_tag_type == 0 && r.mb2.end_tag_flags == 0 && r.mb2.end_tag_size == 8,
    {
        MultibootHeader {
            mb1: Multiboot1 {
                magic: MB_MAGIC,
                flags: MB_FLAGS,
                checksum: u32::MAX - MB_MAGIC - MB_FLAGS + 1,
                header_addr: 0,
                load_addr: 0,
                load_end_addr: 0,
                bss_end_addr: 0,
                entry_addr: 0,
                mode_type: 0,
                width: 0,
                height: 0,
                depth: 0,
            },
            mb2: Multiboot2 {
                magic: MB2_MAGIC,
                arch: 0,
                header_length: MB2_SIZE,
                checksum: u32::MAX - MB2_MAGIC - MB2_SIZE + 1,
                end_tag_type: 0,
                end_tag_flags: 0,
                end_tag_size: 8,
            },
        }
    }
}

} // verus!
