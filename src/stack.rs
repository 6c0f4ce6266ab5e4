//! Growable and shrinkable full-descending stacks, backed by the pages of an
//! address space.

use vstd::prelude::*;
use crate::address::{is_canonical, page_of, MemoryArea, VirtualAddress, PAGE_SIZE, VIRTUAL_HIGH_MIN_ADDRESS, VIRTUAL_LOW_MAX_ADDRESS};
use crate::address_space::{AddressSpace, Segment, SegmentType};
use crate::paging::{leaf_flags, Mapping, PageFlags, PRESENT, READABLE, USER_ACCESSIBLE, WRITABLE};

verus! {

/// The ways a stack can be laid out. Only full-descending stacks are built.
#[derive(Clone, Copy, Debug, PartialEq, Eq, Structural)]
pub enum StackType {
    /// The value pointed to is in use and the stack grows downward.
    FullDescending,
    /// The value pointed to is free and the stack grows downward.
    EmptyDescending,
    /// The value pointed to is in use and the stack grows upward.
    FullAscending,
    /// The value pointed to is free and the stack grows upward.
    EmptyAscending,
}

/// Who may reach the stack.
#[derive(Clone, Copy, Debug, PartialEq, Eq, Structural)]
pub enum AccessType {
    /// User mode code may reach the stack.
    UserAccessible,
    /// Only the kernel may reach the stack.
    KernelOnly,
}

/// `after` maps every page outside `[lo, hi)` as `before` does.
pub open spec fn same_outside(before: Map<u64, Mapping>, after: Map<u64, Mapping>, lo: int, hi: int) -> bool {
    forall|p: u64|
        !(lo <= p < hi) ==> (#[trigger] after.contains_key(p) == before.contains_key(p)) && (before.contains_key(p)
            ==> after[p] == before[p])
}

/// The number of whole pages that `n` bytes take.
pub open spec fn pages_for(n: int) -> int {
    n / PAGE_SIZE as int + if n % PAGE_SIZE as int == 0 {
        0int
    } else {
        1int
    }
}

fn pages_for_exec(n: u64) -> (r: u64)
    ensures
        r == pages_for(n as int),
        r <= n,
{
    n / PAGE_SIZE + if n % PAGE_SIZE == 0 {
        0
    } else {
        1
    }
}

/// A whole number of pages takes exactly that many pages.
proof fn lemma_pages_for_whole(k: int)
    requires
        k >= 0,
    ensures
        pages_for(k * PAGE_SIZE) == k,
{
    assert((k * 4096) / 4096 == k && (k * 4096) % 4096 == 0) by (nonlinear_arith)
        requires k >= 0;
}

/// The flags of a stack's pages.
pub open spec fn stack_flags(access: AccessType) -> PageFlags {
    match access {
        AccessType::UserAccessible => PageFlags { bits: READABLE | WRITABLE | USER_ACCESSIBLE },
        AccessType::KernelOnly => PageFlags { bits: READABLE | WRITABLE },
    }
}

fn flags_for(access: AccessType) -> (r: PageFlags)
    ensures
        r == stack_flags(access),
{
    match access {
        AccessType::UserAccessible => PageFlags { bits: READABLE | WRITABLE | USER_ACCESSIBLE },
        AccessType::KernelOnly => PageFlags { bits: READABLE | WRITABLE },
    }
}

/// A stack: it spans `[bottom, top)` and may grow down to `top - max_size`.
#[derive(Debug)]
pub struct Stack {
    top_address: VirtualAddress,
    bottom_address: VirtualAddress,
    max_size: u64,
    pub base_stack_pointer: VirtualAddress,
    access_type: AccessType,
}

impl Stack {
    pub closed spec fn top(&self) -> int {
        self.top_address.addr as int
    }

    pub closed spec fn bottom(&self) -> int {
        self.bottom_address.addr as int
    }

    pub closed spec fn max(&self) -> int {
        self.max_size as int
    }

    pub closed spec fn base(&self) -> int {
        self.base_stack_pointer.addr as int
    }

    pub closed spec fn access(&self) -> AccessType {
        self.access_type
    }

    /// The lowest address the stack may reach.
    pub open spec fn limit(&self) -> int {
        self.top() - self.max()
    }

    /// The range the stack may grow over lies in one canonical half, and
    /// the stack lies within it.
    pub open spec fn wf(&self) -> bool {
        &&& self.max() <= self.top() <= u64::MAX
        &&& self.limit() <= self.bottom() <= self.top()
        &&& self.top() % PAGE_SIZE as int == 0
        &&& self.bottom() % PAGE_SIZE as int == 0
        &&& self.max() % PAGE_SIZE as int == 0
        &&& (self.top() <= VIRTUAL_LOW_MAX_ADDRESS + 1 || self.limit() >= VIRTUAL_HIGH_MIN_ADDRESS)
    }

    /// Every page of the stack's range is mapped, with the stack's flags,
    /// exactly where it holds a byte at or above the bottom.
    pub open spec fn backed_by(&self, space: AddressSpace) -> bool {
        forall|p: u64|
            page_of(self.limit()) <= p < page_of(self.top()) ==> (#[trigger] space.table().mappings().contains_key(p)
                <==> p >= page_of(self.bottom())) && (p >= page_of(self.bottom()) ==> space.table().mappings()[p].flags
                == leaf_flags(stack_flags(self.access())))
    }

    /// The bottom after growing by `amount` bytes, rounded up to whole
    /// pages, but not below the limit.
    pub open spec fn grown_bottom(&self, amount: int) -> int {
        if pages_for(amount) * PAGE_SIZE > self.bottom() - self.limit() {
            self.limit()
        } else {
            self.bottom() - pages_for(amount) * PAGE_SIZE
        }
    }

    /// The bottom after resizing to hold `size` bytes, rounded up to whole
    /// pages, but not below the limit.
    pub open spec fn resized_bottom(&self, size: int) -> int {
        if pages_for(size) * PAGE_SIZE > self.max() {
            self.limit()
        } else {
            self.top() - pages_for(size) * PAGE_SIZE
        }
    }

    /// The bottom after shrinking by `amount` bytes, rounded up to whole
    /// pages, but not above the top.
    pub open spec fn shrunk_bottom(&self, amount: int) -> int {
        if pages_for(amount) * PAGE_SIZE > self.top() - self.bottom() {
            self.top()
        } else {
            self.bottom() + pages_for(amount) * PAGE_SIZE
        }
    }

    pub fn top_address(&self) -> (r: VirtualAddress)
        ensures
            r.addr == self.top(),
    {
        self.top_address
    }

    pub fn bottom_address(&self) -> (r: VirtualAddress)
        ensures
            r.addr == self.bottom(),
    {
        self.bottom_address
    }

    pub fn max_size(&self) -> (r: u64)
        ensures
            r == self.max(),
    {
        self.max_size
    }

    pub fn access_type(&self) -> (r: AccessType)
        ensures
            r == self.access(),
    {
        self.access_type
    }

    /// Lowers the bottom by `amount`, but not below `top - max_size`, and
    /// maps every page that comes to be covered.
    pub fn grow(&mut self, amount: u64, space: &mut AddressSpace)
        requires
            old(self).wf(),
            old(space).wf(),
            old(self).backed_by(*old(space)),
            old(space).table().free().len() >= page_of(old(self).bottom()) - page_of(
                old(self).grown_bottom(amount as int),
            ),
        ensures
            final(self).wf(),
            final(self).backed_by(*final(space)),
            final(space).wf(),
            final(space).segments() == old(space).segments(),
            final(self).bottom() == old(self).grown_bottom(amount as int),
            final(self).top() == old(self).top(),
            final(self).max() == old(self).max(),
            final(self).access() == old(self).access(),
            final(self).base() == old(self).base(),
            final(space).table().free().len() == old(space).table().free().len() - (page_of(old(self).bottom())
                - page_of(final(self).bottom())),
            forall|p: u64|
                !(page_of(final(self).bottom()) <= p < page_of(old(self).bottom())) ==> (
                #[trigger] final(space).table().mappings().contains_key(p)
                    == old(space).table().mappings().contains_key(p)),
            forall|p: u64|
                #[trigger] old(space).table().mappings().contains_key(p) ==> final(space).table().mappings()[p]
                    == old(space).table().mappings()[p],
    {
        let limit = self.top_address.addr - self.max_size;
        let pages = pages_for_exec(amount);
        let room = (self.bottom_address.addr - limit) / PAGE_SIZE;
        proof {
            let d = self.bottom_address.addr - limit;
            assert(d % 4096 == 0) by (nonlinear_arith)
                requires d == self.bottom_address.addr - limit, self.bottom_address.addr % 4096 == 0, limit % 4096 == 0,
                    limit <= self.bottom_address.addr;
            assert(room * 4096 == d) by (nonlinear_arith)
                requires room == d / 4096, d % 4096 == 0, d >= 0;
            assert(pages > room <==> pages * 4096 > room * 4096) by (nonlinear_arith)
                requires pages >= 0, room >= 0;
        }
        let new_bottom = if pages > room {
            limit
        } else {
            proof {
                assert(pages * 4096 <= room * 4096) by (nonlinear_arith)
                    requires pages <= room;
                assert((self.bottom_address.addr - pages * 4096) % 4096 == 0) by (nonlinear_arith)
                    requires self.bottom_address.addr % 4096 == 0, pages * 4096 <= self.bottom_address.addr;
            }
            self.bottom_address.addr - pages * PAGE_SIZE
        };
        let flags = flags_for(self.access_type);
        let first = new_bottom / PAGE_SIZE;
        let last = self.bottom_address.addr / PAGE_SIZE;
        let ghost m0 = space.table().mappings();
        let ghost f0 = space.table().free().len();
        proof {
            let nb = new_bottom as int;
            let b = old(self).bottom();
            assert(first * 4096 <= nb) by (nonlinear_arith)
                requires first == nb / 4096, nb >= 0;
            assert(limit <= first * 4096) by (nonlinear_arith)
                requires first == nb / 4096, limit % 4096 == 0, limit <= nb, limit >= 0;
            assert(last * 4096 <= b) by (nonlinear_arith)
                requires last == b / 4096, b >= 0;
            assert(first <= last) by (nonlinear_arith)
                requires first == nb / 4096, last == b / 4096, nb <= b, nb >= 0;
        }
        let mut p = first;
        while p < last
            invariant
                first <= p <= last,
                last == page_of(old(self).bottom()),
                first == page_of(new_bottom as int),
                last * PAGE_SIZE <= u64::MAX,
                space.wf(),
                space.segments() == old(space).segments(),
                m0 == old(space).table().mappings(),
                f0 == old(space).table().free().len(),
                f0 >= last - first,
                space.table().free().len() == f0 - (p - first),
                (last * PAGE_SIZE <= VIRTUAL_LOW_MAX_ADDRESS + 1 || first * PAGE_SIZE >= VIRTUAL_HIGH_MIN_ADDRESS),
                forall|q: u64| first <= q < last ==> !#[trigger] m0.contains_key(q),
                forall|q: u64|
                    #[trigger] space.table().mappings().contains_key(q) <==> m0.contains_key(q) || first <= q < p,
                forall|q: u64|
                    first <= q < p ==> (#[trigger] space.table().mappings()[q]).flags == leaf_flags(flags),
                forall|q: u64|
                    m0.contains_key(q) ==> #[trigger] space.table().mappings()[q] == m0[q],
            decreases last - p,
        {
            assert(p * PAGE_SIZE <= last * PAGE_SIZE) by (nonlinear_arith)
                requires p <= last;
            assert(first * PAGE_SIZE <= p * PAGE_SIZE) by (nonlinear_arith)
                requires first <= p;
            let va = VirtualAddress::from_page_num(p);
            assert(page_of(va.addr as int) == p) by (nonlinear_arith)
                requires va.addr == p * 4096;
            let r = space.map_page_with(va, flags);
            assert(r.is_ok());
            p = p + 1;
        }
        self.bottom_address = VirtualAddress { addr: new_bottom };
        proof {
            let sp = *space;
            let st = *self;
            assert(old(self).backed_by(*old(space)));
            assert forall|q: u64| page_of(st.limit()) <= q < page_of(st.top()) implies (
            #[trigger] sp.table().mappings().contains_key(q) <==> q >= page_of(st.bottom())) && (q
                >= page_of(st.bottom()) ==> sp.table().mappings()[q].flags == leaf_flags(
                stack_flags(st.access()),
            )) by {
                assert(st.limit() == old(self).limit());
                assert(st.top() == old(self).top());
                assert(st.access() == old(self).access());
                assert(page_of(st.bottom()) == first);
                assert(m0.contains_key(q) <==> q >= last);
            }
        }
    }

    /// Raises the bottom by `amount`, but not above the top, and unmaps
    /// every page that is given up.
    pub fn shrink(&mut self, amount: u64, space: &mut AddressSpace)
        requires
            old(self).wf(),
            old(space).wf(),
            old(self).backed_by(*old(space)),
        ensures
            final(self).wf(),
            final(self).backed_by(*final(space)),
            final(space).wf(),
            final(space).segments() == old(space).segments(),
            final(self).bottom() == old(self).shrunk_bottom(amount as int),
            final(self).top() == old(self).top(),
            final(self).max() == old(self).max(),
            final(self).access() == old(self).access(),
            final(self).base() == old(self).base(),
            final(space).table().free().len() == old(space).table().free().len() + (page_of(final(self).bottom())
                - page_of(old(self).bottom())),
            forall|p: u64|
                !(page_of(old(self).bottom()) <= p < page_of(final(self).bottom())) ==> (
                #[trigger] final(space).table().mappings().contains_key(p)
                    == old(space).table().mappings().contains_key(p)),
            forall|p: u64|
                #[trigger] final(space).table().mappings().contains_key(p) ==> final(space).table().mappings()[p]
                    == old(space).table().mappings()[p],
    {
        let top = self.top_address.addr;
        let pages = pages_for_exec(amount);
        let room = (top - self.bottom_address.addr) / PAGE_SIZE;
        proof {
            let d = top - self.bottom_address.addr;
            assert(d % 4096 == 0) by (nonlinear_arith)
                requires d == top - self.bottom_address.addr, self.bottom_address.addr % 4096 == 0, top % 4096 == 0,
                    self.bottom_address.addr <= top;
            assert(room * 4096 == d) by (nonlinear_arith)
                requires room == d / 4096, d % 4096 == 0, d >= 0;
            assert(pages > room <==> pages * 4096 > room * 4096) by (nonlinear_arith)
                requires pages >= 0, room >= 0;
        }
        let new_bottom = if pages > room {
            top
        } else {
            proof {
                assert(pages * 4096 <= room * 4096) by (nonlinear_arith)
                    requires pages <= room;
                assert((self.bottom_address.addr + pages * 4096) % 4096 == 0) by (nonlinear_arith)
                    requires self.bottom_address.addr % 4096 == 0;
            }
            self.bottom_address.addr + pages * PAGE_SIZE
        };
        let first = self.bottom_address.addr / PAGE_SIZE;
        let last = new_bottom / PAGE_SIZE;
        let ghost m0 = space.table().mappings();
        let ghost f0 = space.table().free().len();
        proof {
            let nb = new_bottom as int;
            let b = old(self).bottom();
            let lim = old(self).limit();
            assert(first <= last) by (nonlinear_arith)
                requires first == b / 4096, last == nb / 4096, b <= nb, b >= 0;
            assert(last * 4096 <= nb) by (nonlinear_arith)
                requires last == nb / 4096, nb >= 0;
            assert(last <= top / 4096) by (nonlinear_arith)
                requires last == nb / 4096, nb <= top, nb >= 0;
            assert(lim / 4096 <= first) by (nonlinear_arith)
                requires first == b / 4096, lim <= b, lim >= 0;
        }
        let mut p = first;
        while p < last
            invariant
                first <= p <= last,
                first == page_of(old(self).bottom()),
                last == page_of(new_bottom as int),
                last * PAGE_SIZE <= u64::MAX,
                space.wf(),
                space.segments() == old(space).segments(),
                m0 == old(space).table().mappings(),
                f0 == old(space).table().free().len(),
                space.table().free().len() == f0 + (p - first),
                forall|q: u64| first <= q < last ==> #[trigger] m0.contains_key(q),
                forall|q: u64|
                    #[trigger] space.table().mappings().contains_key(q) <==> m0.contains_key(q) && !(first <= q < p),
                forall|q: u64|
                    #[trigger] space.table().mappings().contains_key(q) ==> space.table().mappings()[q] == m0[q],
            decreases last - p,
        {
            assert(p * PAGE_SIZE <= last * PAGE_SIZE) by (nonlinear_arith)
                requires p <= last;
            let va = VirtualAddress::from_page_num(p);
            assert(page_of(va.addr as int) == p) by (nonlinear_arith)
                requires va.addr == p * 4096;
            let r = space.unmap_page(va);
            assert(r.is_ok());
            p = p + 1;
        }
        self.bottom_address = VirtualAddress { addr: new_bottom };
        proof {
            let sp = *space;
            let st = *self;
            assert(old(self).backed_by(*old(space)));
            assert forall|q: u64| page_of(st.limit()) <= q < page_of(st.top()) implies (
            #[trigger] sp.table().mappings().contains_key(q) <==> q >= page_of(st.bottom())) && (q
                >= page_of(st.bottom()) ==> sp.table().mappings()[q].flags == leaf_flags(
                stack_flags(st.access()),
            )) by {
                assert(st.limit() == old(self).limit());
                assert(st.top() == old(self).top());
                assert(st.access() == old(self).access());
                assert(page_of(st.bottom()) == last);
                assert(m0.contains_key(q) <==> q >= first);
                assert(sp.table().mappings().contains_key(q) <==> q >= last);
            }
            assert(st.backed_by(sp));
        }
    }

    /// Moves `stack_pointer` down over a value of `size` bytes, the slot
    /// that a push then writes the value into; the stack pointer must not
    /// wrap.
    pub fn push_in(stack_pointer: &mut VirtualAddress, size: u64)
        requires
            size <= old(stack_pointer).addr,
        ensures
            final(stack_pointer).addr == old(stack_pointer).addr - size,
    {
        stack_pointer.addr = stack_pointer.addr - size;
    }

    /// Grows or shrinks the stack so that it spans `new_size` bytes,
    /// rounded up to whole pages, or its maximum size where that is less.
    pub fn resize(&mut self, new_size: u64, space: &mut AddressSpace)
        requires
            old(self).wf(),
            old(space).wf(),
            old(self).backed_by(*old(space)),
            old(space).table().free().len() >= page_of(old(self).bottom()) - page_of(
                old(self).resized_bottom(new_size as int),
            ),
        ensures
            final(self).wf(),
            final(self).backed_by(*final(space)),
            final(space).wf(),
            final(space).segments() == old(space).segments(),
            final(self).bottom() == old(self).resized_bottom(new_size as int),
            final(self).top() == old(self).top(),
            final(self).max() == old(self).max(),
            final(self).access() == old(self).access(),
            final(self).base() == old(self).base(),
            final(space).table().free().len() == old(space).table().free().len() + page_of(final(self).bottom())
                - page_of(old(self).bottom()),
            forall|p: u64|
                !(page_of(old(self).limit()) <= p < page_of(old(self).top())) ==> (
                #[trigger] final(space).table().mappings().contains_key(p)
                    == old(space).table().mappings().contains_key(p)) && (old(space).table().mappings().contains_key(p)
                    ==> final(space).table().mappings()[p] == old(space).table().mappings()[p]),
    {
        let top = self.top_address.addr;
        let bottom = self.bottom_address.addr;
        let limit = top - self.max_size;
        let pages = pages_for_exec(new_size);
        let max_pages = self.max_size / PAGE_SIZE;
        proof {
            assert(max_pages * 4096 == self.max_size) by (nonlinear_arith)
                requires max_pages == self.max_size / 4096, self.max_size % 4096 == 0;
            assert(pages > max_pages <==> pages * 4096 > max_pages * 4096) by (nonlinear_arith)
                requires pages >= 0, max_pages >= 0;
        }
        let target = if pages > max_pages {
            limit
        } else {
            proof {
                assert(pages * 4096 <= max_pages * 4096) by (nonlinear_arith)
                    requires pages <= max_pages;
            }
            top - pages * PAGE_SIZE
        };
        proof {
            assert(target % 4096 == 0) by (nonlinear_arith)
                requires target == top - pages * 4096 || target == limit, top % 4096 == 0, limit % 4096 == 0;
        }
        proof {
            assert(page_of(limit as int) <= page_of(target as int) <= page_of(top as int)
                && page_of(limit as int) <= page_of(bottom as int) <= page_of(top as int)) by (nonlinear_arith)
                requires limit <= target <= top, limit <= bottom <= top, limit >= 0;
        }
        let ghost m0 = space.table().mappings();
        if target < bottom {
            let amount = bottom - target;
            proof {
                let k = amount as int / 4096;
                assert(k * 4096 == amount) by (nonlinear_arith)
                    requires k == amount as int / 4096, amount == bottom - target, bottom % 4096 == 0, target % 4096 == 0, target < bottom;
                lemma_pages_for_whole(k);
            }
            self.grow(amount, space);
            proof {
                assert(self.bottom() == target as int);
                assert forall|p: u64| !(page_of(limit as int) <= p < page_of(top as int)) implies (
                #[trigger] space.table().mappings().contains_key(p) == m0.contains_key(p)) && (m0.contains_key(p)
                    ==> space.table().mappings()[p] == m0[p]) by {}
            }
        } else {
            let amount = target - bottom;
            proof {
                let k = amount as int / 4096;
                assert(k * 4096 == amount) by (nonlinear_arith)
                    requires k == amount as int / 4096, amount == target - bottom, bottom % 4096 == 0, target % 4096 == 0, target >= bottom;
                lemma_pages_for_whole(k);
            }
            self.shrink(amount, space);
            proof {
                assert(self.bottom() == target as int);
                assert forall|p: u64| !(page_of(limit as int) <= p < page_of(top as int)) implies (
                #[trigger] space.table().mappings().contains_key(p) == m0.contains_key(p)) && (m0.contains_key(p)
                    ==> space.table().mappings()[p] == m0[p]) by {
                    assert(!(page_of(bottom as int) <= p < page_of(target as int)));
                    assert(space.table().mappings().contains_key(p) == m0.contains_key(p));
                    if m0.contains_key(p) {
                        assert(space.table().mappings().contains_key(p));
                    }
                }
            }
        }
    }

    /// Makes a stack whose range is `[start, start + max_size)`, which no
    /// segment of `space` may overlap: registers that range as a segment of
    /// `space` and maps the top `initial_size` bytes of it, rounded up to
    /// whole pages.
    pub fn new(initial_size: u64, max_size: u64, start_address: VirtualAddress, access_type: AccessType, space: &mut AddressSpace) -> (s: Stack)
        requires
            old(space).wf(),
            start_address.addr + max_size <= u64::MAX,
            start_address.addr % PAGE_SIZE == 0,
            max_size % PAGE_SIZE == 0,
            start_address.addr + max_size <= VIRTUAL_LOW_MAX_ADDRESS + 1 || start_address.addr >= VIRTUAL_HIGH_MIN_ADDRESS,
            forall|i: int| 0 <= i < old(space).segments().len() ==> !(#[trigger] old(space).segments()[i]).area.overlaps(
                MemoryArea { start: start_address.addr, length: max_size },
            ),
            forall|p: u64|
                page_of(start_address.addr as int) <= p < page_of(start_address.addr + max_size) ==> !#[trigger] old(
                    space,
                ).table().mappings().contains_key(p),
            old(space).table().free().len() >= if pages_for(initial_size as int) * PAGE_SIZE > max_size {
                max_size as int / 4096
            } else {
                pages_for(initial_size as int)
            },
        ensures
            final(space).wf(),
            s.wf(),
            s.backed_by(*final(space)),
            s.top() == start_address.addr + max_size,
            s.max() == max_size,
            s.bottom() == s.resized_bottom(initial_size as int),
            s.base() == s.top(),
            s.access() == access_type,
            final(space).segments() == old(space).segments().push(
                Segment {
                    area: MemoryArea { start: start_address.addr, length: max_size },
                    flags: stack_flags(access_type),
                    segment_type: SegmentType::MemoryOnly,
                },
            ),
            final(space).table().free().len() == old(space).table().free().len() - (page_of(s.top()) - page_of(
                s.bottom(),
            )),
            same_outside(
                old(space).table().mappings(),
                final(space).table().mappings(),
                page_of(start_address.addr as int),
                page_of(start_address.addr + max_size),
            ),
    {
        let top = start_address.addr + max_size;
        let mut stack = Stack {
            top_address: VirtualAddress { addr: top },
            bottom_address: VirtualAddress { addr: top },
            max_size,
            base_stack_pointer: VirtualAddress { addr: top },
            access_type,
        };
        let flags = flags_for(access_type);
        let area = MemoryArea::new(start_address.addr, max_size);
        let added = space.add_segment(Segment::new(area, flags, SegmentType::MemoryOnly));
        assert(added);
        proof {
            assert(page_of(top as int) == page_of(stack.limit()) + max_size / 4096) by (nonlinear_arith)
                requires start_address.addr % 4096 == 0, max_size % 4096 == 0, top == start_address.addr + max_size,
                    stack.limit() == start_address.addr, start_address.addr >= 0, max_size >= 0;
            let rb = stack.resized_bottom(initial_size as int);
            let pg = pages_for(initial_size as int);
            if pg * 4096 <= max_size {
                assert(page_of(top as int) - page_of(top - pg * 4096) == pg) by (nonlinear_arith)
                    requires top % 4096 == 0, pg >= 0, pg * 4096 <= top;
            } else {
                assert(page_of(top as int) - page_of(start_address.addr as int) == max_size / 4096) by (nonlinear_arith)
                    requires start_address.addr % 4096 == 0, max_size % 4096 == 0, top == start_address.addr + max_size,
                        start_address.addr >= 0, max_size >= 0;
            }
        }
        let ghost m_before = space.table().mappings();
        assert(m_before == old(space).table().mappings());
        assert(stack.limit() == start_address.addr && stack.top() == top);
        stack.resize(initial_size, space);
        proof {
            let t1 = space.table().mappings();
            let t0 = old(space).table().mappings();
            assert(t0 == m_before);
            assert forall|p: u64| !(page_of(stack.limit()) <= p < page_of(stack.top())) implies (
                #[trigger] t1.contains_key(p) == t0.contains_key(p)) && (t0.contains_key(p) ==> t1[p] == t0[p]) by {
                assert(space.table().mappings().contains_key(p) == m_before.contains_key(p));
            }
            assert(same_outside(t0, t1, page_of(start_address.addr as int), page_of(start_address.addr + max_size)));
        }
        stack
    }
}

/// Every stack spans at most its maximum size, within its range, and its
/// top is page aligned.
pub proof fn lemma_stack_bounds(s: Stack)
    requires
        s.wf(),
    ensures
        0 <= s.top() - s.bottom() <= s.max(),
        s.top() % PAGE_SIZE as int == 0,
        s.limit() % PAGE_SIZE as int == 0,
{
}

/// Growing, shrinking or resizing a stack by any amount leaves its bottom
/// page aligned and the stack within its maximum size.
pub proof fn lemma_stack_stays_aligned(s: Stack, amount: int)
    requires
        s.wf(),
        amount >= 0,
    ensures
        s.grown_bottom(amount) % PAGE_SIZE as int == 0,
        s.shrunk_bottom(amount) % PAGE_SIZE as int == 0,
        s.resized_bottom(amount) % PAGE_SIZE as int == 0,
        s.limit() <= s.grown_bottom(amount) <= s.top(),
        s.limit() <= s.shrunk_bottom(amount) <= s.top(),
        s.limit() <= s.resized_bottom(amount) <= s.top(),
        s.top() - s.grown_bottom(amount) <= s.max(),
        s.top() - s.shrunk_bottom(amount) <= s.max(),
        s.top() - s.resized_bottom(amount) <= s.max(),
{
    let k = pages_for(amount);
    let b = s.bottom();
    let t = s.top();
    let l = s.limit();
    assert(k >= 0);
    assert((b - k * 4096) % 4096 == 0 && (b + k * 4096) % 4096 == 0 && (t - k * 4096) % 4096 == 0) by (nonlinear_arith)
        requires b % 4096 == 0, t % 4096 == 0;
    assert(l % 4096 == 0) by (nonlinear_arith)
        requires l == t - s.max(), t % 4096 == 0, s.max() % 4096 == 0;
}

} // verus!
