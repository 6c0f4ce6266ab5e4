//! Address spaces: a list of non-overlapping segments over a page table.

use vstd::prelude::*;
use crate::address::{is_canonical, page_of, MemoryArea, VirtualAddress, PAGE_SIZE};
use crate::paging::{flags_in, map_page_done, unmap_page_done, MapError, PageFlags, PageTable};

verus! {

/// What backs the pages of a segment.
#[derive(Clone, Copy, Debug, PartialEq, Eq, Structural)]
pub enum SegmentType {
    /// Plain memory, zero on first use.
    MemoryOnly,
    /// Memory that a file fills.
    FileBacked,
}

/// A contiguous virtual range with one set of flags.
#[derive(Clone, Copy, Debug, PartialEq, Eq, Structural)]
pub struct Segment {
    pub area: MemoryArea,
    pub flags: PageFlags,
    pub segment_type: SegmentType,
}

impl Segment {
    pub fn new(area: MemoryArea, flags: PageFlags, segment_type: SegmentType) -> (r: Segment)
        ensures
            r == (Segment { area, flags, segment_type }),
    {
        Segment { area, flags, segment_type }
    }
}

/// No two of the segments overlap, and each is well formed.
pub open spec fn disjoint_segments(s: Seq<Segment>) -> bool {
    &&& forall|i: int| 0 <= i < s.len() ==> (#[trigger] s[i]).area.wf()
    &&& forall|i: int, j: int|
        0 <= i < s.len() && 0 <= j < s.len() && i != j ==> !(#[trigger] s[i]).area.overlaps(
            (#[trigger] s[j]).area,
        )
}

/// The segments and page table of one process.
pub struct AddressSpace {
    segments: Vec<Segment>,
    table: PageTable,
}

impl AddressSpace {
    pub closed spec fn segments(&self) -> Seq<Segment> {
        self.segments@
    }

    pub closed spec fn table(&self) -> PageTable {
        self.table
    }

    pub open spec fn wf(&self) -> bool {
        self.table().wf() && disjoint_segments(self.segments())
    }

    /// An address space with no segments over the given page table.
    pub fn new(table: PageTable) -> (r: AddressSpace)
        requires
            table.wf(),
        ensures
            r.wf(),
            r.segments() == Seq::<Segment>::empty(),
            r.table() == table,
    {
        AddressSpace { segments: Vec::new(), table }
    }

    /// The address space of the idle threads: the kernel's page table and no
    /// segments of its own.
    pub fn idle_address_space(kernel_table: PageTable) -> (r: AddressSpace)
        requires
            kernel_table.wf(),
        ensures
            r.wf(),
            r.segments() == Seq::<Segment>::empty(),
            r.table() == kernel_table,
    {
        AddressSpace::new(kernel_table)
    }

    /// Adds `segment` unless it overlaps one that is there; returns whether
    /// it was added.
    pub fn add_segment(&mut self, segment: Segment) -> (r: bool)
        requires
            old(self).wf(),
            segment.area.wf(),
        ensures
            final(self).wf(),
            final(self).table() == old(self).table(),
            r == !exists|i: int|
                0 <= i < old(self).segments().len() && (#[trigger] old(self).segments()[i]).area.overlaps(
                    segment.area,
                ),
            r ==> final(self).segments() == old(self).segments().push(segment),
            !r ==> final(self).segments() == old(self).segments(),
    {
        let mut i: usize = 0;
        while i < self.segments.len()
            invariant
                0 <= i <= self.segments@.len(),
                self.wf(),
                *self == *old(self),
                segment.area.wf(),
                forall|j: int| 0 <= j < i ==> !(#[trigger] self.segments@[j]).area.overlaps(segment.area),
            decreases self.segments@.len() - i,
        {
            let a = self.segments[i].area;
            if a.start < segment.area.start + segment.area.length && segment.area.start < a.start + a.length {
                return false;
            }
            i = i + 1;
        }
        let ghost pre = self.segments@;
        self.segments.push(segment);
        proof {
            assert forall|x: int, y: int|
                0 <= x < self.segments@.len() && 0 <= y < self.segments@.len() && x != y implies !(
                #[trigger] self.segments@[x]).area.overlaps((#[trigger] self.segments@[y]).area) by {
                if x < pre.len() && y < pre.len() {
                    assert(self.segments@[x] == pre[x] && self.segments@[y] == pre[y]);
                }
            }
        }
        true
    }

    /// The index of the segment that holds `va`, if any.
    pub fn find_segment(&self, va: VirtualAddress) -> (r: Option<usize>)
        requires
            self.wf(),
        ensures
            r matches Some(i) ==> i < self.segments().len() && self.segments()[i as int].area.holds(va.addr as int),
            r.is_none() ==> forall|i: int|
                0 <= i < self.segments().len() ==> !(#[trigger] self.segments()[i]).area.holds(va.addr as int),
    {
        let mut i: usize = 0;
        while i < self.segments.len()
            invariant
                0 <= i <= self.segments@.len(),
                self.wf(),
                forall|j: int| 0 <= j < i ==> !(#[trigger] self.segments@[j]).area.holds(va.addr as int),
            decreases self.segments@.len() - i,
        {
            let a = self.segments[i].area;
            if a.start <= va.addr && va.addr < a.start + a.length {
                return Some(i);
            }
            i = i + 1;
        }
        None
    }

    /// Maps the page that holds `va` with the flags of the segment that
    /// holds it. Fails where no segment holds `va`, where `va` is not
    /// canonical, where its page is mapped already, or where the pool is
    /// empty.
    pub fn map_page(&mut self, va: VirtualAddress) -> (r: Result<(), MapError>)
        requires
            old(self).wf(),
        ensures
            final(self).wf(),
            final(self).segments() == old(self).segments(),
            (forall|i: int|
                0 <= i < old(self).segments().len() ==> !(#[trigger] old(self).segments()[i]).area.holds(
                    va.addr as int,
                )) ==> r == Err::<(), MapError>(MapError::NoSegment),
            (exists|i: int|
                0 <= i < old(self).segments().len() && (#[trigger] old(self).segments()[i]).area.holds(
                    va.addr as int,
                )) ==> (r.is_ok() <==> is_canonical(va.addr) && !old(self).table().mappings().contains_key(
                page_of(va.addr as int) as u64,
            ) && old(self).table().free().len() > 0),
            r.is_err() ==> final(self).table() == old(self).table(),
            r.is_ok() ==> exists|i: int|
                0 <= i < old(self).segments().len() && (#[trigger] old(self).segments()[i]).area.holds(
                    va.addr as int,
                ) && map_page_done(old(self).table(), final(self).table(), va, old(self).segments()[i].flags),
    {
        match self.find_segment(va) {
            None => Err(MapError::NoSegment),
            Some(i) => {
                if !(va.addr <= crate::address::VIRTUAL_LOW_MAX_ADDRESS || va.addr >= crate::address::VIRTUAL_HIGH_MIN_ADDRESS) {
                    return Err(MapError::NonCanonical);
                }
                if self.table.is_mapped(va) {
                    return Err(MapError::AlreadyMapped);
                }
                let flags = self.segments[i].flags;
                self.table.map_page(va, flags)
            },
        }
    }

    /// Maps the unmapped, canonical page that holds `va` with `flags`.
    pub fn map_page_with(&mut self, va: VirtualAddress, flags: PageFlags) -> (r: Result<(), MapError>)
        requires
            old(self).wf(),
            is_canonical(va.addr),
            !old(self).table().mappings().contains_key(page_of(va.addr as int) as u64),
        ensures
            final(self).wf(),
            final(self).segments() == old(self).segments(),
            r.is_ok() <==> old(self).table().free().len() > 0,
            r.is_err() ==> final(self).table() == old(self).table(),
            r.is_ok() ==> map_page_done(old(self).table(), final(self).table(), va, flags),
    {
        self.table.map_page(va, flags)
    }

    /// Unmaps the page that holds `va` and frees its frame.
    pub fn unmap_page(&mut self, va: VirtualAddress) -> (r: Result<(), MapError>)
        requires
            old(self).wf(),
        ensures
            final(self).wf(),
            final(self).segments() == old(self).segments(),
            !old(self).table().mappings().contains_key(page_of(va.addr as int) as u64) ==> r == Err::<
                (),
                MapError,
            >(MapError::NotMapped),
            r.is_ok() <==> old(self).table().mappings().contains_key(page_of(va.addr as int) as u64),
            r.is_err() ==> final(self).table() == old(self).table(),
            r.is_ok() ==> unmap_page_done(old(self).table(), final(self).table(), va),
    {
        self.table.unmap_page(va)
    }

    /// The flags of the page that holds `va`; empty where it is not mapped.
    pub fn get_page_flags(&self, va: VirtualAddress) -> (r: PageFlags)
        requires
            self.wf(),
        ensures
            r == flags_in(self.table().mappings(), page_of(va.addr as int) as u64),
            (r.bits == 0) <==> !self.table().mappings().contains_key(page_of(va.addr as int) as u64),
    {
        self.table.get_page_flags(va)
    }

    /// The bytes of free memory in the frame pool.
    pub fn get_free_memory_size(&self) -> (r: u64)
        requires
            self.wf(),
        ensures
            r == self.table().free_size(),
    {
        self.table.get_free_memory_size()
    }
}

} // verus!
