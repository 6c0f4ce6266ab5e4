//! Physical and virtual addresses, page arithmetic and memory areas.

use vstd::prelude::*;

verus! {

/// The size of a single page (and frame) in bytes.
pub const PAGE_SIZE: u64 = 0x1000;

/// The maximum address of the lower half of the virtual address space.
pub const VIRTUAL_LOW_MAX_ADDRESS: u64 = 0x0000_7fff_ffff_ffff;

/// The minimum address of the higher half of the virtual address space.
pub const VIRTUAL_HIGH_MIN_ADDRESS: u64 = 0xffff_8000_0000_0000;

/// True when `a` is a multiple of the page size.
pub open spec fn page_aligned(a: int) -> bool {
    a % PAGE_SIZE as int == 0
}

/// The number of the page that holds byte `a`.
pub open spec fn page_of(a: int) -> int {
    a / PAGE_SIZE as int
}

/// True when `a` lies in one of the two canonical halves.
pub open spec fn is_canonical(a: u64) -> bool {
    a <= VIRTUAL_LOW_MAX_ADDRESS || a >= VIRTUAL_HIGH_MIN_ADDRESS
}

/// A physical memory address.
#[derive(Clone, Copy, Debug, PartialEq, Eq, Structural)]
pub struct PhysicalAddress {
    pub addr: u64,
}

/// A virtual memory address.
#[derive(Clone, Copy, Debug, PartialEq, Eq, Structural)]
pub struct VirtualAddress {
    pub addr: u64,
}

impl PhysicalAddress {
    pub fn from_u64(addr: u64) -> (r: PhysicalAddress)
        ensures
            r.addr == addr,
    {
        PhysicalAddress { addr }
    }

    pub fn as_u64(&self) -> (r: u64)
        ensures
            r == self.addr,
    {
        self.addr
    }

    /// The address rounded down to the start of its frame.
    pub fn page_align_down(&self) -> (r: PhysicalAddress)
        ensures
            r.addr == self.addr - self.addr % PAGE_SIZE,
            page_aligned(r.addr as int),
    {
        PhysicalAddress { addr: self.addr - self.addr % PAGE_SIZE }
    }

    /// The offset of the address within its frame.
    pub fn offset_in_page(&self) -> (r: u64)
        ensures
            r == self.addr % PAGE_SIZE,
    {
        self.addr % PAGE_SIZE
    }

    /// The number of the frame that holds the address.
    pub fn page_num(&self) -> (r: u64)
        ensures
            r == page_of(self.addr as int),
    {
        self.addr / PAGE_SIZE
    }
}

impl VirtualAddress {
    pub fn from_u64(addr: u64) -> (r: VirtualAddress)
        ensures
            r.addr == addr,
    {
        VirtualAddress { addr }
    }

    pub fn as_u64(&self) -> (r: u64)
        ensures
            r == self.addr,
    {
        self.addr
    }

    /// The address of the first byte of page `num`.
    pub fn from_page_num(num: u64) -> (r: VirtualAddress)
        requires
            num * PAGE_SIZE <= u64::MAX,
        ensures
            r.addr == num * PAGE_SIZE,
    {
        VirtualAddress { addr: num * PAGE_SIZE }
    }

    /// The number of the page that holds the address.
    pub fn page_num(&self) -> (r: u64)
        ensures
            r == page_of(self.addr as int),
    {
        self.addr / PAGE_SIZE
    }

    /// The offset of the address within its page.
    pub fn offset_in_page(&self) -> (r: u64)
        ensures
            r == self.addr % PAGE_SIZE,
    {
        self.addr % PAGE_SIZE
    }

    /// The address rounded down to the start of its page.
    pub fn page_align_down(&self) -> (r: VirtualAddress)
        ensures
            r.addr == self.addr - self.addr % PAGE_SIZE,
            page_aligned(r.addr as int),
    {
        VirtualAddress { addr: self.addr - self.addr % PAGE_SIZE }
    }

    /// The address rounded up to the next page boundary, or `None` where that
    /// boundary lies beyond the address space.
    pub fn page_align_up(&self) -> (r: Option<VirtualAddress>)
        ensures
            self.addr % PAGE_SIZE == 0 ==> r == Some(*self),
            self.addr % PAGE_SIZE != 0 && self.addr - self.addr % PAGE_SIZE + PAGE_SIZE
                <= u64::MAX ==> r == Some(
                VirtualAddress { addr: (self.addr - self.addr % PAGE_SIZE + PAGE_SIZE) as u64 },
            ),
            self.addr % PAGE_SIZE != 0 && self.addr - self.addr % PAGE_SIZE + PAGE_SIZE
                > u64::MAX ==> r.is_none(),
    {
        let rem = self.addr % PAGE_SIZE;
        if rem == 0 {
            Some(*self)
        } else {
            let down = self.addr - rem;
            if down <= u64::MAX - PAGE_SIZE {
                Some(VirtualAddress { addr: down + PAGE_SIZE })
            } else {
                None
            }
        }
    }

    /// The address `n` bytes above this one, or `None` where that wraps.
    pub fn checked_add(&self, n: u64) -> (r: Option<VirtualAddress>)
        ensures
            self.addr + n <= u64::MAX ==> r == Some(VirtualAddress { addr: (self.addr + n) as u64 }),
            self.addr + n > u64::MAX ==> r.is_none(),
    {
        if n <= u64::MAX - self.addr {
            Some(VirtualAddress { addr: self.addr + n })
        } else {
            None
        }
    }

    /// The address `n` bytes below this one, or `None` where that wraps.
    pub fn checked_sub(&self, n: u64) -> (r: Option<VirtualAddress>)
        ensures
            n <= self.addr ==> r == Some(VirtualAddress { addr: (self.addr - n) as u64 }),
            n > self.addr ==> r.is_none(),
    {
        if n <= self.addr {
            Some(VirtualAddress { addr: self.addr - n })
        } else {
            None
        }
    }

    /// The signed distance in bytes from `other` to this address.
    pub fn distance_from(&self, other: VirtualAddress) -> (r: i128)
        ensures
            r == self.addr - other.addr,
    {
        self.addr as i128 - other.addr as i128
    }
}

/// True when the address lies in the lower, user half of the address space.
pub fn is_userspace_address(address: VirtualAddress) -> (r: bool)
    ensures
        r == (address.addr <= VIRTUAL_LOW_MAX_ADDRESS),
{
    address.addr <= VIRTUAL_LOW_MAX_ADDRESS
}

/// A half-open range of memory `[start, start + length)`.
#[derive(Clone, Copy, Debug, PartialEq, Eq, Structural)]
pub struct MemoryArea {
    pub start: u64,
    pub length: u64,
}

impl MemoryArea {
    /// The area does not run past the end of the address space.
    pub open spec fn wf(&self) -> bool {
        self.start + self.length <= u64::MAX
    }

    pub open spec fn end(&self) -> int {
        self.start + self.length
    }

    /// True when the address `a` lies in the area.
    pub open spec fn holds(&self, a: int) -> bool {
        self.start <= a < self.end()
    }

    /// `self` lies within `outer`.
    pub open spec fn within(&self, outer: MemoryArea) -> bool {
        outer.start <= self.start && self.end() <= outer.end()
    }

    /// The two areas share at least one address.
    pub open spec fn overlaps(&self, other: MemoryArea) -> bool {
        self.start < other.end() && other.start < self.end()
    }

    pub fn new(start: u64, length: u64) -> (r: MemoryArea)
        ensures
            r.start == start,
            r.length == length,
    {
        MemoryArea { start, length }
    }

    /// The area `[start, end)`; `end` must not lie below `start`.
    pub fn from_start_and_end(start: u64, end: u64) -> (r: MemoryArea)
        requires
            start <= end,
        ensures
            r.start == start,
            r.end() == end,
            r.wf(),
    {
        MemoryArea { start, length: end - start }
    }

    pub fn start_address(&self) -> (r: u64)
        ensures
            r == self.start,
    {
        self.start
    }

    pub fn length(&self) -> (r: u64)
        ensures
            r == self.length,
    {
        self.length
    }

    /// The first address past the area.
    pub fn end_address(&self) -> (r: u64)
        requires
            self.wf(),
        ensures
            r == self.end(),
    {
        self.start + self.length
    }

    /// True when `self` lies entirely within `outer`.
    pub fn is_contained_in(&self, outer: MemoryArea) -> (r: bool)
        requires
            self.wf(),
            outer.wf(),
        ensures
            r == self.within(outer),
    {
        outer.start <= self.start && self.start + self.length <= outer.start + outer.length
    }
}

} // verus!
