//! Page flags and the paging engine: which pages are mapped, to which frame,
//! with which flags, and the pool of free frames.

use std::collections::HashMap;
use vstd::prelude::*;
use crate::address::{is_canonical, page_of, PhysicalAddress, VirtualAddress, PAGE_SIZE};

verus! {

/// The page may be read.
pub const READABLE: u64 = 0x1;
/// The page may be written.
pub const WRITABLE: u64 = 0x2;
/// Code on the page may run.
pub const EXECUTABLE: u64 = 0x4;
/// User mode may reach the page.
pub const USER_ACCESSIBLE: u64 = 0x8;
/// The mapping survives an address-space switch.
pub const GLOBAL: u64 = 0x10;
/// The page is mapped.
pub const PRESENT: u64 = 0x20;
/// Code on the page may not run.
pub const NO_EXECUTE: u64 = 0x40;

/// The most frames a physical address space of 52 bits can hold.
pub const MAX_FRAMES: u64 = 0x100_0000_0000;

/// A set of page flags, one bit each.
#[derive(Clone, Copy, Debug, PartialEq, Eq, Structural)]
pub struct PageFlags {
    pub bits: u64,
}

impl PageFlags {
    /// The empty set.
    pub fn empty() -> (r: PageFlags)
        ensures
            r.bits == 0,
    {
        PageFlags { bits: 0 }
    }

    pub fn from_bits(bits: u64) -> (r: PageFlags)
        ensures
            r.bits == bits,
    {
        PageFlags { bits }
    }

    /// The flags of both sets.
    pub fn union(&self, other: PageFlags) -> (r: PageFlags)
        ensures
            r.bits == self.bits | other.bits,
    {
        PageFlags { bits: self.bits | other.bits }
    }

    /// True when every flag of `other` is in this set.
    pub fn contains(&self, other: PageFlags) -> (r: bool)
        ensures
            r == (self.bits & other.bits == other.bits),
    {
        self.bits & other.bits == other.bits
    }

    /// True when the set is empty.
    pub fn is_empty(&self) -> (r: bool)
        ensures
            r == (self.bits == 0),
    {
        self.bits == 0
    }
}

/// The flags a leaf entry holds for a mapping made with `flags`, in their
/// x86_64 canonical form: PRESENT, READABLE always (x86_64 cannot map a page
/// unreadable), and EXECUTABLE exactly when NO_EXECUTE is absent.
pub open spec fn leaf_flags(flags: PageFlags) -> PageFlags {
    if flags.bits & NO_EXECUTE == 0 {
        PageFlags { bits: flags.bits | READABLE | PRESENT | EXECUTABLE }
    } else {
        PageFlags { bits: (flags.bits | READABLE | PRESENT) & !EXECUTABLE }
    }
}

/// A set that holds PRESENT is not empty.
proof fn lemma_present_nonzero(b: u64)
    requires
        b & PRESENT == PRESENT,
    ensures
        b != 0,
{
    assert(b & 0x20 == 0x20 ==> b != 0) by (bit_vector);
}

/// The canonical leaf flags of a mapping made with `flags`.
pub fn canonical_flags(flags: PageFlags) -> (r: PageFlags)
    ensures
        r == leaf_flags(flags),
        r.bits & PRESENT == PRESENT,
        r.bits & READABLE == READABLE,
{
    proof {
        lemma_leaf_flags(flags);
    }
    if flags.bits & NO_EXECUTE == 0 {
        PageFlags { bits: flags.bits | READABLE | PRESENT | EXECUTABLE }
    } else {
        PageFlags { bits: (flags.bits | READABLE | PRESENT) & !EXECUTABLE }
    }
}

/// Canonical leaf flags hold PRESENT and READABLE, and hold EXECUTABLE
/// exactly when they do not hold NO_EXECUTE.
pub proof fn lemma_leaf_flags(flags: PageFlags)
    ensures
        leaf_flags(flags).bits & PRESENT == PRESENT,
        leaf_flags(flags).bits & READABLE == READABLE,
        leaf_flags(flags).bits != 0,
        (leaf_flags(flags).bits & EXECUTABLE == EXECUTABLE) <==> (leaf_flags(flags).bits & NO_EXECUTE == 0),
{
    let b = flags.bits;
    assert(b & 0x40 == 0 ==> (b | 0x1 | 0x20 | 0x4) & 0x20 == 0x20 && (b | 0x1 | 0x20 | 0x4) & 0x1 == 0x1
        && (b | 0x1 | 0x20 | 0x4) & 0x4 == 0x4 && (b | 0x1 | 0x20 | 0x4) & 0x40 == 0) by (bit_vector);
    assert(b & 0x40 != 0 ==> ((b | 0x1 | 0x20) & !0x4u64) & 0x20 == 0x20 && ((b | 0x1 | 0x20) & !0x4u64) & 0x1 == 0x1
        && ((b | 0x1 | 0x20) & !0x4u64) & 0x4 == 0 && ((b | 0x1 | 0x20) & !0x4u64) & 0x40 != 0) by (bit_vector);
    let l = leaf_flags(flags).bits;
    assert(l & 0x20 == 0x20 ==> l != 0) by (bit_vector);
}

/// The flags of the intermediate table entries above a mapping of `va`:
/// present and writable, and reachable from user mode where `va` lies in the
/// lower half.
pub fn intermediate_flags(va: VirtualAddress) -> (r: PageFlags)
    ensures
        va.addr <= crate::address::VIRTUAL_LOW_MAX_ADDRESS ==> r.bits == PRESENT | WRITABLE | USER_ACCESSIBLE,
        va.addr > crate::address::VIRTUAL_LOW_MAX_ADDRESS ==> r.bits == PRESENT | WRITABLE,
{
    if crate::address::is_userspace_address(va) {
        PageFlags { bits: PRESENT | WRITABLE | USER_ACCESSIBLE }
    } else {
        PageFlags { bits: PRESENT | WRITABLE }
    }
}

/// A leaf entry: the frame a page is mapped to and its flags.
#[derive(Clone, Copy, Debug, PartialEq, Eq, Structural)]
pub struct Mapping {
    pub frame: u64,
    pub flags: PageFlags,
}

/// Why a paging operation was refused.
#[derive(Clone, Copy, Debug, PartialEq, Eq, Structural)]
pub enum MapError {
    /// The address lies in the non-canonical gap.
    NonCanonical,
    /// The page is mapped already.
    AlreadyMapped,
    /// The page is not mapped.
    NotMapped,
    /// No free frame is left.
    OutOfFrames,
    /// No segment of the address space holds the address.
    NoSegment,
    /// The table already accounts for as many frames as physical memory holds.
    FrameLimit,
}

/// The flags that a query of `page` returns on the mappings `m`.
pub open spec fn flags_in(m: Map<u64, Mapping>, page: u64) -> PageFlags {
    if m.contains_key(page) {
        m[page].flags
    } else {
        PageFlags { bits: 0 }
    }
}

/// The page table of one address space together with the frame pool it
/// draws from.
pub struct PageTable {
    entries: HashMap<u64, Mapping>,
    free_frames: Vec<u64>,
}

impl PageTable {
    /// The mappings, by page number.
    pub closed spec fn mappings(&self) -> Map<u64, Mapping> {
        self.entries@
    }

    /// The free frames, by address.
    pub closed spec fn free(&self) -> Seq<u64> {
        self.free_frames@
    }

    /// The bytes of free memory.
    pub open spec fn free_size(&self) -> int {
        self.free().len() * PAGE_SIZE
    }

    pub open spec fn wf(&self) -> bool {
        &&& self.free().len() + self.mappings().len() <= MAX_FRAMES
        &&& self.mappings().dom().finite()
        &&& forall|i: int| 0 <= i < self.free().len() ==> (#[trigger] self.free()[i]) % PAGE_SIZE == 0
        &&& forall|p: u64| #[trigger] self.mappings().contains_key(p) ==> self.mappings()[p].frame % PAGE_SIZE == 0
        &&& forall|p: u64| #[trigger] self.mappings().contains_key(p) ==> self.mappings()[p].flags.bits & PRESENT == PRESENT
    }

    /// A table with no mappings that draws from the given frames.
    pub fn new(free_frames: Vec<u64>) -> (r: PageTable)
        requires
            free_frames@.len() <= MAX_FRAMES,
            forall|i: int| 0 <= i < free_frames@.len() ==> (#[trigger] free_frames@[i]) % PAGE_SIZE == 0,
        ensures
            r.wf(),
            r.mappings() == Map::<u64, Mapping>::empty(),
            r.free() == free_frames@,
    {
        let entries: HashMap<u64, Mapping> = HashMap::new();
        PageTable { entries, free_frames }
    }

    /// True when the page that holds `va` is mapped.
    pub fn is_mapped(&self, va: VirtualAddress) -> (r: bool)
        ensures
            r == self.mappings().contains_key(page_of(va.addr as int) as u64),
    {
        let page = va.page_num();
        self.entries.contains_key(&page)
    }

    /// The flags of the page that holds `va`; empty where it is not mapped.
    pub fn get_page_flags(&self, va: VirtualAddress) -> (r: PageFlags)
        requires
            self.wf(),
        ensures
            r == flags_in(self.mappings(), page_of(va.addr as int) as u64),
            (r.bits == 0) <==> !self.mappings().contains_key(page_of(va.addr as int) as u64),
    {
        let page = va.page_num();
        match self.entries.get(&page) {
            Some(m) => {
                proof {
                    lemma_present_nonzero(m.flags.bits);
                }
                m.flags
            },
            None => PageFlags { bits: 0 },
        }
    }

    /// The frame the page that holds `va` is mapped to.
    pub fn translate(&self, va: VirtualAddress) -> (r: Option<PhysicalAddress>)
        ensures
            self.mappings().contains_key(page_of(va.addr as int) as u64) ==> r == Some(
                PhysicalAddress { addr: self.mappings()[page_of(va.addr as int) as u64].frame },
            ),
            !self.mappings().contains_key(page_of(va.addr as int) as u64) ==> r.is_none(),
    {
        let page = va.page_num();
        match self.entries.get(&page) {
            Some(m) => Some(PhysicalAddress { addr: m.frame }),
            None => None,
        }
    }

    /// The bytes of free memory: the free frames times the page size.
    pub fn get_free_memory_size(&self) -> (r: u64)
        requires
            self.wf(),
        ensures
            r == self.free_size(),
    {
        assert(self.free().len() * PAGE_SIZE <= MAX_FRAMES * PAGE_SIZE) by (nonlinear_arith)
            requires self.free().len() <= MAX_FRAMES;
        self.free_frames.len() as u64 * PAGE_SIZE
    }

    /// Maps the unmapped, canonical page that holds `va` to a frame from the
    /// pool, with the canonical form of `flags` in its leaf entry; fails only
    /// where the pool is empty.
    pub fn map_page(&mut self, va: VirtualAddress, flags: PageFlags) -> (r: Result<(), MapError>)
        requires
            old(self).wf(),
            is_canonical(va.addr),
            !old(self).mappings().contains_key(page_of(va.addr as int) as u64),
        ensures
            final(self).wf(),
            r.is_ok() <==> old(self).free().len() > 0,
            r.is_err() ==> r == Err::<(), MapError>(MapError::OutOfFrames) && *final(self) == *old(self),
            r.is_ok() ==> map_page_done(*old(self), *final(self), va, flags),
    {
        let page = va.page_num();
        if self.free_frames.len() == 0 {
            return Err(MapError::OutOfFrames);
        }
        let ghost pre = *old(self);
        let frame = self.free_frames.pop().unwrap();
        let leaf = canonical_flags(flags);
        self.entries.insert(page, Mapping { frame, flags: leaf });
        proof {
            assert(self.free() =~= pre.free().drop_last());
            assert(self.mappings().len() == pre.mappings().len() + 1);
        }
        Ok(())
    }

    /// Maps the unmapped, canonical page that holds `va` to the page-aligned
    /// frame at `pa`, with the canonical form of `flags` in its leaf entry;
    /// fails only where the table already accounts for as many frames as
    /// physical memory holds.
    pub fn map_page_at(&mut self, va: VirtualAddress, pa: PhysicalAddress, flags: PageFlags) -> (r: Result<
        (),
        MapError,
    >)
        requires
            old(self).wf(),
            is_canonical(va.addr),
            pa.addr % PAGE_SIZE == 0,
            !old(self).mappings().contains_key(page_of(va.addr as int) as u64),
        ensures
            final(self).wf(),
            r.is_ok() <==> old(self).free().len() + old(self).mappings().len() < MAX_FRAMES,
            r.is_err() ==> r == Err::<(), MapError>(MapError::FrameLimit) && *final(self) == *old(self),
            r.is_ok() ==> {
                &&& final(self).free() == old(self).free()
                &&& final(self).mappings() == old(self).mappings().insert(
                    page_of(va.addr as int) as u64,
                    Mapping { frame: pa.addr, flags: leaf_flags(flags) },
                )
            },
    {
        let page = va.page_num();
        let count = self.entries.len() as u64;
        if self.free_frames.len() as u64 >= MAX_FRAMES - count {
            return Err(MapError::FrameLimit);
        }
        let leaf = canonical_flags(flags);
        self.entries.insert(page, Mapping { frame: pa.addr, flags: leaf });
        Ok(())
    }

    /// Removes the mapping of the page that holds `va` and returns its frame
    /// to the pool.
    pub fn unmap_page(&mut self, va: VirtualAddress) -> (r: Result<(), MapError>)
        requires
            old(self).wf(),
        ensures
            final(self).wf(),
            !old(self).mappings().contains_key(page_of(va.addr as int) as u64) ==> r == Err::<(), MapError>(
                MapError::NotMapped,
            ),
            r.is_ok() <==> old(self).mappings().contains_key(page_of(va.addr as int) as u64),
            r.is_err() ==> *final(self) == *old(self),
            r.is_ok() ==> unmap_page_done(*old(self), *final(self), va),
    {
        let page = va.page_num();
        let ghost pre = *old(self);
        if !self.entries.contains_key(&page) {
            return Err(MapError::NotMapped);
        }
        match self.entries.remove(&page) {
            None => Err(MapError::NotMapped),
            Some(m) => {
                proof {
                    assert(m == pre.mappings()[page]);
                    assert(pre.mappings().len() == self.mappings().len() + 1);
                }
                self.free_frames.push(m.frame);
                proof {
                    assert(self.free() =~= pre.free().push(m.frame));
                }
                Ok(())
            },
        }
    }
}

/// Maps the unmapped, canonical page at `page_address` with `flags`, taking
/// a frame from the pool of `table`.
pub fn map_page(table: &mut PageTable, page_address: VirtualAddress, flags: PageFlags) -> (r: Result<(), MapError>)
    requires
        old(table).wf(),
        is_canonical(page_address.addr),
        !old(table).mappings().contains_key(page_of(page_address.addr as int) as u64),
    ensures
        final(table).wf(),
        r.is_ok() <==> old(table).free().len() > 0,
        r.is_err() ==> r == Err::<(), MapError>(MapError::OutOfFrames) && *final(table) == *old(table),
        r.is_ok() ==> map_page_done(*old(table), *final(table), page_address, flags),
{
    table.map_page(page_address, flags)
}

/// Maps the unmapped, canonical page at `page_address` to the page-aligned
/// frame at `frame_address` with `flags`.
pub fn map_page_at(table: &mut PageTable, page_address: VirtualAddress, frame_address: PhysicalAddress, flags: PageFlags) -> (r: Result<(), MapError>)
    requires
        old(table).wf(),
        is_canonical(page_address.addr),
        frame_address.addr % PAGE_SIZE == 0,
        !old(table).mappings().contains_key(page_of(page_address.addr as int) as u64),
    ensures
        final(table).wf(),
        r.is_ok() <==> old(table).free().len() + old(table).mappings().len() < MAX_FRAMES,
        r.is_err() ==> r == Err::<(), MapError>(MapError::FrameLimit) && *final(table) == *old(table),
        r.is_ok() ==> final(table).free() == old(table).free() && final(table).mappings()
            == old(table).mappings().insert(
            page_of(page_address.addr as int) as u64,
            Mapping { frame: frame_address.addr, flags: leaf_flags(flags) },
        ),
{
    table.map_page_at(page_address, frame_address, flags)
}

/// The flags of the page at `page_address`; empty where it is not mapped.
pub fn get_page_flags(table: &PageTable, page_address: VirtualAddress) -> (r: PageFlags)
    requires
        table.wf(),
    ensures
        r == flags_in(table.mappings(), page_of(page_address.addr as int) as u64),
        (r.bits == 0) <==> !table.mappings().contains_key(page_of(page_address.addr as int) as u64),
{
    table.get_page_flags(page_address)
}

/// Unmaps the page at `start_address` and returns its frame to the pool.
pub fn unmap_page(table: &mut PageTable, start_address: VirtualAddress) -> (r: Result<(), MapError>)
    requires
        old(table).wf(),
    ensures
        final(table).wf(),
        r.is_ok() <==> old(table).mappings().contains_key(page_of(start_address.addr as int) as u64),
        r.is_err() ==> *final(table) == *old(table),
        r.is_ok() ==> unmap_page_done(*old(table), *final(table), start_address),
{
    table.unmap_page(start_address)
}

/// The bytes of free memory in the pool of `table`.
pub fn get_free_memory_size(table: &PageTable) -> (r: u64)
    requires
        table.wf(),
    ensures
        r == table.free_size(),
{
    table.get_free_memory_size()
}

/// `after` maps the `pages` pages from page `first` on to consecutive
/// frames from `frame` on, with `flags`, and is `before` elsewhere.
pub open spec fn range_mapped(
    before: Map<u64, Mapping>,
    after: Map<u64, Mapping>,
    first: int,
    frame: int,
    pages: int,
    flags: PageFlags,
) -> bool {
    &&& forall|q: u64| #[trigger] after.contains_key(q) <==> before.contains_key(q) || first <= q < first + pages
    &&& forall|q: u64|
        first <= q < first + pages ==> #[trigger] after[q] == (Mapping {
            frame: (frame + (q - first) * PAGE_SIZE) as u64,
            flags: leaf_flags(flags),
        })
    &&& forall|q: u64| #[trigger] before.contains_key(q) ==> after[q] == before[q]
}

/// Maps `pages` pages from `va` on to consecutive frames from `pa` on, with
/// `flags`. Fails, and changes nothing, where one of the pages is mapped
/// already or the table would account for more frames than physical memory
/// holds.
pub fn map_area_at(table: &mut PageTable, va: VirtualAddress, pa: PhysicalAddress, pages: u64, flags: PageFlags) -> (r: Result<(), MapError>)
    requires
        old(table).wf(),
        va.addr % PAGE_SIZE == 0,
        pa.addr % PAGE_SIZE == 0,
        va.addr + pages * PAGE_SIZE <= u64::MAX,
        pa.addr + pages * PAGE_SIZE <= u64::MAX,
        va.addr + pages * PAGE_SIZE <= crate::address::VIRTUAL_LOW_MAX_ADDRESS + 1 || va.addr >= crate::address::VIRTUAL_HIGH_MIN_ADDRESS,
    ensures
        final(table).wf(),
        r.is_ok() <==> (forall|q: u64|
            page_of(va.addr as int) <= q < page_of(va.addr as int) + pages ==> !#[trigger] old(table).mappings().contains_key(q))
            && old(table).free().len() + old(table).mappings().len() + pages <= MAX_FRAMES,
        r.is_err() ==> *final(table) == *old(table),
        r.is_ok() ==> final(table).free() == old(table).free() && range_mapped(
            old(table).mappings(),
            final(table).mappings(),
            page_of(va.addr as int),
            pa.addr as int,
            pages as int,
            flags,
        ),
{
    let first = va.addr / PAGE_SIZE;
    proof {
        assert(first * 4096 == va.addr) by (nonlinear_arith)
            requires first == va.addr / 4096, va.addr % 4096 == 0;
        assert(first + pages <= 0x10_0000_0000_0000) by (nonlinear_arith)
            requires first * 4096 + pages * 4096 <= u64::MAX;
    }
    let mut k: u64 = 0;
    while k < pages
        invariant
            0 <= k <= pages,
            first * PAGE_SIZE == va.addr,
            first == page_of(va.addr as int),
            first + pages <= 0x10_0000_0000_0000,
            *table == *old(table),
            table.wf(),
            forall|q: u64| first <= q < first + k ==> !#[trigger] table.mappings().contains_key(q),
        decreases pages - k,
    {
        let page = VirtualAddress::from_page_num(first + k);
        assert(page_of(page.addr as int) == first + k) by (nonlinear_arith)
            requires page.addr == (first + k) * 4096;
        if table.is_mapped(page) {
            return Err(MapError::AlreadyMapped);
        }
        k = k + 1;
    }
    let count = table.entries.len() as u64;
    if pages > MAX_FRAMES || table.free_frames.len() as u64 + count > MAX_FRAMES - pages {
        return Err(MapError::FrameLimit);
    }
    let ghost m0 = table.mappings();
    let ghost f0 = table.free();
    let mut k: u64 = 0;
    while k < pages
        invariant
            0 <= k <= pages,
            first * PAGE_SIZE == va.addr,
            first == page_of(va.addr as int),
            first + pages <= 0x10_0000_0000_0000,
            pa.addr + pages * PAGE_SIZE <= u64::MAX,
            pa.addr % PAGE_SIZE == 0,
            va.addr + pages * PAGE_SIZE <= crate::address::VIRTUAL_LOW_MAX_ADDRESS + 1 || va.addr >= crate::address::VIRTUAL_HIGH_MIN_ADDRESS,
            table.wf(),
            table.free() == f0,
            f0.len() + m0.len() + pages <= MAX_FRAMES,
            table.mappings().len() == m0.len() + k,
            forall|q: u64| first <= q < first + pages ==> !#[trigger] m0.contains_key(q),
            range_mapped(m0, table.mappings(), first as int, pa.addr as int, k as int, flags),
        decreases pages - k,
    {
        assert((first + k) * 4096 == va.addr + k * 4096) by (nonlinear_arith)
            requires first * 4096 == va.addr;
        assert(k * 4096 < pages * 4096) by (nonlinear_arith)
            requires k < pages;
        let page = VirtualAddress::from_page_num(first + k);
        let frame = PhysicalAddress { addr: pa.addr + k * PAGE_SIZE };
        assert(page_of(page.addr as int) == first + k) by (nonlinear_arith)
            requires page.addr == (first + k) * 4096;
        assert(frame.addr % 4096 == 0) by (nonlinear_arith)
            requires frame.addr == pa.addr + k * 4096, pa.addr % 4096 == 0;
        assert(!table.mappings().contains_key((first + k) as u64));
        let r = table.map_page_at(page, frame, flags);
        assert(r.is_ok());
        k = k + 1;
    }
    Ok(())
}

/// `after` is `before` with the page that holds `va` mapped to the last free
/// frame with `flags`, that frame taken from the pool.
pub open spec fn map_page_done(before: PageTable, after: PageTable, va: VirtualAddress, flags: PageFlags) -> bool {
    let page = page_of(va.addr as int) as u64;
    &&& is_canonical(va.addr)
    &&& !before.mappings().contains_key(page)
    &&& before.free().len() > 0
    &&& after.free() == before.free().drop_last()
    &&& after.mappings() == before.mappings().insert(
        page,
        Mapping { frame: before.free().last(), flags: leaf_flags(flags) },
    )
}

/// `after` is `before` with the mapping of the page that holds `va` removed
/// and its frame put back in the pool.
pub open spec fn unmap_page_done(before: PageTable, after: PageTable, va: VirtualAddress) -> bool {
    let page = page_of(va.addr as int) as u64;
    &&& before.mappings().contains_key(page)
    &&& after.mappings() == before.mappings().remove(page)
    &&& after.free() == before.free().push(before.mappings()[page].frame)
}

/// A query after a mapping returns the flags passed, with PRESENT, for the
/// page mapped, and what it returned before for every other page.
pub proof fn lemma_map_then_flags(before: PageTable, after: PageTable, va: VirtualAddress, flags: PageFlags, other: u64)
    requires
        map_page_done(before, after, va, flags),
    ensures
        flags_in(after.mappings(), page_of(va.addr as int) as u64) == leaf_flags(flags),
        other != page_of(va.addr as int) as u64 ==> flags_in(after.mappings(), other) == flags_in(
            before.mappings(),
            other,
        ),
{
}

/// A query after an unmapping returns the empty set for the page unmapped,
/// and what it returned before for every other page.
pub proof fn lemma_unmap_then_flags(before: PageTable, after: PageTable, va: VirtualAddress, other: u64)
    requires
        unmap_page_done(before, after, va),
    ensures
        flags_in(after.mappings(), page_of(va.addr as int) as u64) == (PageFlags { bits: 0 }),
        other != page_of(va.addr as int) as u64 ==> flags_in(after.mappings(), other) == flags_in(
            before.mappings(),
            other,
        ),
{
}

/// Mapping a page takes exactly one page of free memory.
pub proof fn lemma_map_takes_a_page(before: PageTable, after: PageTable, va: VirtualAddress, flags: PageFlags)
    requires
        map_page_done(before, after, va, flags),
    ensures
        after.free_size() == before.free_size() - PAGE_SIZE,
{
}

/// Unmapping a page gives exactly one page of free memory back.
pub proof fn lemma_unmap_gives_a_page(before: PageTable, after: PageTable, va: VirtualAddress)
    requires
        unmap_page_done(before, after, va),
    ensures
        after.free_size() == before.free_size() + PAGE_SIZE,
{
}

/// A paging operation.
#[derive(Clone, Copy, Debug, PartialEq, Eq, Structural)]
pub enum PageOp {
    /// Map the page that holds the address with the flags.
    MapPage(VirtualAddress, PageFlags),
    /// Unmap the page that holds the address.
    UnmapPage(VirtualAddress),
}

/// `after` is what a successful `op` makes of `before`.
pub open spec fn op_done(before: PageTable, after: PageTable, op: PageOp) -> bool {
    match op {
        PageOp::MapPage(va, flags) => map_page_done(before, after, va, flags),
        PageOp::UnmapPage(va) => unmap_page_done(before, after, va),
    }
}

/// `tables` are the states a table goes through while `ops` succeed one by
/// one.
pub open spec fn run_done(tables: Seq<PageTable>, ops: Seq<PageOp>) -> bool {
    &&& tables.len() == ops.len() + 1
    &&& forall|i: int| 0 <= i < ops.len() ==> op_done(tables[i], tables[i + 1], #[trigger] ops[i])
}

/// The flags of `page` after `ops`, where they were `initial` before: those
/// of the last operation on it (empty for an unmapping), or `initial` where
/// none touched it.
pub open spec fn last_flags(initial: PageFlags, ops: Seq<PageOp>, page: u64) -> PageFlags
    decreases ops.len(),
{
    if ops.len() == 0 {
        initial
    } else {
        let prev = last_flags(initial, ops.drop_last(), page);
        match ops.last() {
            PageOp::MapPage(va, flags) => if page_of(va.addr as int) == page {
                leaf_flags(flags)
            } else {
                prev
            },
            PageOp::UnmapPage(va) => if page_of(va.addr as int) == page {
                PageFlags { bits: 0 }
            } else {
                prev
            },
        }
    }
}

/// After any run of successful mappings and unmappings, a query of a page
/// returns the flags of the last operation on that page, with PRESENT, or
/// the empty set where that was an unmapping; pages no operation touched
/// keep their flags.
pub proof fn lemma_flags_follow_last_operation(tables: Seq<PageTable>, ops: Seq<PageOp>, page: u64)
    requires
        run_done(tables, ops),
    ensures
        flags_in(tables.last().mappings(), page) == last_flags(flags_in(tables[0].mappings(), page), ops, page),
    decreases ops.len(),
{
    if ops.len() > 0 {
        let n = ops.len() - 1;
        let t = tables.drop_last();
        let o = ops.drop_last();
        assert(run_done(t, o)) by {
            assert forall|i: int| 0 <= i < o.len() implies op_done(t[i], t[i + 1], #[trigger] o[i]) by {
                assert(op_done(tables[i], tables[i + 1], ops[i]));
            }
        }
        lemma_flags_follow_last_operation(t, o, page);
        assert(op_done(tables[n], tables[n + 1], ops[n]));
        match ops[n] {
            PageOp::MapPage(va, flags) => lemma_map_then_flags(tables[n], tables[n + 1], va, flags, page),
            PageOp::UnmapPage(va) => lemma_unmap_then_flags(tables[n], tables[n + 1], va, page),
        }
    }
}

} // verus!
