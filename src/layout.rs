//! The fixed layout of the kernel's virtual address space.

use vstd::prelude::*;
use crate::address::{page_of, MemoryArea, PhysicalAddress, VirtualAddress, PAGE_SIZE};
use crate::paging::{map_area_at, range_mapped, MapError, PageFlags, PageTable, GLOBAL, MAX_FRAMES, NO_EXECUTE, READABLE};

verus! {

/// The top of the stack after the kernel has been remapped.
pub const FINAL_STACK_TOP: u64 = 0xffff_fe80_0000_0000;

/// The start of the double fault stack area.
pub const DOUBLE_FAULT_STACK_AREA_BASE: u64 = 0xffff_fd00_0000_0000;

/// The distance between two double fault stack tops.
pub const DOUBLE_FAULT_STACK_OFFSET: u64 = 0x2000;

/// The maximum size of a double fault stack.
pub const DOUBLE_FAULT_STACK_MAX_SIZE: u64 = 0x1000;

/// The base of the kernel stack area.
pub const KERNEL_STACK_AREA_BASE: u64 = 0xffff_fe00_0000_0000;

/// The distance between the start addresses of two thread kernel stacks.
pub const KERNEL_STACK_OFFSET: u64 = 0x40_0000;

/// The maximum size of a thread kernel stack.
pub const KERNEL_STACK_MAX_SIZE: u64 = 0x20_0000;

/// The base of the user stack area.
pub const USER_STACK_AREA_BASE: u64 = 0x0000_7f80_0000_0000;

/// The distance between the start addresses of two user stacks.
pub const USER_STACK_OFFSET: u64 = 0x40_0000;

/// The maximum size of a user stack.
pub const USER_STACK_MAX_SIZE: u64 = 0x20_0000;

/// The start of the heap.
pub const HEAP_START: u64 = 0xffff_fd80_0000_0000;

/// The maximum size of the heap: what one level 3 table maps.
pub const HEAP_MAX_SIZE: u64 = PAGE_SIZE * 512 * 512 * 512;

/// Where the initramfs is mapped: one level 3 table's reach above the start
/// of the higher half.
pub const INITRAMFS_MAP_AREA_START: u64 = 0xffff_8000_0000_0000 + PAGE_SIZE * 512 * 512 * 512;

/// The virtual area the initramfs occupies once mapped: it keeps its offset
/// within the first frame and its length.
pub fn initramfs_virtual_area(physical: MemoryArea) -> (r: MemoryArea)
    requires
        physical.length <= u64::MAX - INITRAMFS_MAP_AREA_START - PAGE_SIZE,
    ensures
        r.start == INITRAMFS_MAP_AREA_START + physical.start % PAGE_SIZE,
        r.length == physical.length,
        r.wf(),
{
    MemoryArea { start: INITRAMFS_MAP_AREA_START + physical.start % PAGE_SIZE, length: physical.length }
}

/// The number of frames that the bytes `[start, start + length)` touch.
pub open spec fn frames_spanned(start: int, length: int) -> int {
    (start % PAGE_SIZE as int + length + PAGE_SIZE - 1) / PAGE_SIZE as int
}

/// The flags of the initramfs mapping: readable, global, not executable.
pub open spec fn initramfs_flags() -> PageFlags {
    PageFlags { bits: READABLE | GLOBAL | NO_EXECUTE }
}

/// Maps the initramfs, which lies at `physical`, read-only into its window
/// and returns the virtual area it then occupies. Fails, changing nothing,
/// where a page of the window is mapped already or the table would account
/// for more frames than physical memory holds.
pub fn map_initramfs(table: &mut PageTable, physical: MemoryArea) -> (r: Result<MemoryArea, MapError>)
    requires
        old(table).wf(),
        physical.wf(),
        physical.end() + PAGE_SIZE <= u64::MAX,
        INITRAMFS_MAP_AREA_START + physical.start % PAGE_SIZE + physical.length + PAGE_SIZE
            <= DOUBLE_FAULT_STACK_AREA_BASE,
    ensures
        final(table).wf(),
        r.is_ok() <==> (forall|q: u64|
            page_of(INITRAMFS_MAP_AREA_START as int) <= q < page_of(INITRAMFS_MAP_AREA_START as int)
                + frames_spanned(physical.start as int, physical.length as int) ==> !#[trigger] old(
                table,
            ).mappings().contains_key(q)) && old(table).free().len() + old(table).mappings().len()
            + frames_spanned(physical.start as int, physical.length as int) <= MAX_FRAMES,
        r.is_err() ==> *final(table) == *old(table),
        r matches Ok(v) ==> {
            &&& v.start == INITRAMFS_MAP_AREA_START + physical.start % PAGE_SIZE
            &&& v.length == physical.length
            &&& final(table).free() == old(table).free()
            &&& range_mapped(
                old(table).mappings(),
                final(table).mappings(),
                page_of(INITRAMFS_MAP_AREA_START as int),
                physical.start - physical.start % PAGE_SIZE,
                frames_spanned(physical.start as int, physical.length as int),
                initramfs_flags(),
            )
        },
{
    let offset = physical.start % PAGE_SIZE;
    let frame = physical.start - offset;
    let pages = (offset + physical.length + (PAGE_SIZE - 1)) / PAGE_SIZE;
    proof {
        let len = physical.length as int;
        let off = offset as int;
        assert(pages * 4096 <= off + len + 4095) by (nonlinear_arith)
            requires pages == (off + len + 4095) / 4096, off + len + 4095 >= 0;
        assert(pages * 4096 >= off + len) by (nonlinear_arith)
            requires pages == (off + len + 4095) / 4096, off + len >= 0;
    }
    let flags = PageFlags { bits: READABLE | GLOBAL | NO_EXECUTE };
    match map_area_at(table, VirtualAddress { addr: INITRAMFS_MAP_AREA_START }, PhysicalAddress { addr: frame }, pages, flags) {
        Ok(()) => Ok(initramfs_virtual_area(physical)),
        Err(e) => Err(e),
    }
}

} // verus!
