//! The boot memory map with the kernel image and the initramfs cut out.

use vstd::prelude::*;
use crate::address::{MemoryArea, PAGE_SIZE};

verus! {

/// The areas are well formed and sorted, each ending before the next begins.
pub open spec fn sorted_areas(areas: Seq<MemoryArea>) -> bool {
    &&& forall|i: int| 0 <= i < areas.len() ==> (#[trigger] areas[i]).wf()
    &&& forall|i: int, j: int|
        0 <= i < j < areas.len() ==> (#[trigger] areas[i]).end() <= (#[trigger] areas[j]).start
}

/// Address `a` lies in one of the areas.
pub open spec fn in_some_area(areas: Seq<MemoryArea>, a: int) -> bool {
    exists|j: int| 0 <= j < areas.len() && (#[trigger] areas[j]).holds(a)
}

/// Area `x` lies within one of the areas.
pub open spec fn within_some_area(areas: Seq<MemoryArea>, x: MemoryArea) -> bool {
    exists|j: int| 0 <= j < areas.len() && x.within(#[trigger] areas[j])
}

/// The two exclusions in ascending order.
pub open spec fn ordered_pair(a: MemoryArea, b: MemoryArea) -> Seq<MemoryArea> {
    if a.start <= b.start {
        seq![a, b]
    } else {
        seq![b, a]
    }
}

/// What the filter asks of its input: sorted, non-overlapping memory areas
/// and sorted, non-overlapping exclusions that each lie within one of them.
pub open spec fn valid_input(areas: Seq<MemoryArea>, excl: Seq<MemoryArea>) -> bool {
    &&& sorted_areas(areas)
    &&& excl.len() == 2
    &&& sorted_areas(excl)
    &&& forall|k: int| 0 <= k < 2 ==> within_some_area(areas, #[trigger] excl[k])
}

/// Address `a` is free: it lies in an area and in no exclusion.
pub open spec fn is_free(areas: Seq<MemoryArea>, excl: Seq<MemoryArea>, a: int) -> bool {
    in_some_area(areas, a) && !excl[0].holds(a) && !excl[1].holds(a)
}

/// `area` widened to whole frames: its start rounded down to a frame
/// boundary and its end rounded up to one. An empty area stays empty.
pub open spec fn widened(area: MemoryArea) -> MemoryArea {
    MemoryArea {
        start: (area.start - area.start % PAGE_SIZE) as u64,
        length: if area.length > 0 {
            ((area.start as int % 4096 + area.length as int + 4095) / 4096 * 4096) as u64
        } else {
            0
        },
    }
}

/// The initramfs area widened to whole frames, so that it covers every
/// frame the initramfs touches.
pub fn initramfs(area: MemoryArea) -> (r: MemoryArea)
    requires
        area.wf(),
        area.end() + PAGE_SIZE <= u64::MAX,
    ensures
        r == widened(area),
        r.wf(),
        r.start <= area.start,
        area.length > 0 ==> area.end() <= r.end(),
        r.start % PAGE_SIZE == 0,
        r.end() % PAGE_SIZE as int == 0,
{
    let offset = area.start % PAGE_SIZE;
    let start = area.start - offset;
    let length = if area.length > 0 {
        let span = offset + area.length + (PAGE_SIZE - 1);
        proof {
            let sp = span as int;
            assert(sp / 4096 * 4096 <= sp) by (nonlinear_arith)
                requires sp >= 0;
            assert(sp / 4096 * 4096 > sp - 4096) by (nonlinear_arith)
                requires sp >= 0;
            assert((sp / 4096 * 4096) % 4096 == 0) by (nonlinear_arith)
                requires sp >= 0;
        }
        let l = span / PAGE_SIZE * PAGE_SIZE;
        assert(l >= offset + area.length && l % 4096 == 0);
        l
    } else {
        0
    };
    proof {
        assert(start % 4096 == 0) by (nonlinear_arith)
            requires start == area.start - area.start % 4096;
        assert((start as int + length as int) % 4096 == 0) by (nonlinear_arith)
            requires start % 4096 == 0, length % 4096 == 0;
    }
    MemoryArea { start, length }
}

/// An area that lies within one of the sorted areas and reaches past the end
/// of area `p - 1` lies within a later one.
proof fn lemma_later_area(areas: Seq<MemoryArea>, p: int, x: MemoryArea)
    requires
        sorted_areas(areas),
        1 <= p <= areas.len(),
        within_some_area(areas, x),
        x.end() > areas[p - 1].end(),
    ensures
        p < areas.len(),
        x.start >= areas[p].start,
{
    let j = choose|j: int| 0 <= j < areas.len() && x.within(#[trigger] areas[j]);
    if j < p - 1 {
        assert(areas[j].end() <= areas[p - 1].start);
    }
    if j > p {
        assert(areas[p].end() <= areas[j].start);
    }
}

/// No address between the end of area `p - 1` and the start of area `p` (or
/// past the last area) lies in any area.
proof fn lemma_gap_not_free(areas: Seq<MemoryArea>, p: int, a: int)
    requires
        sorted_areas(areas),
        1 <= p <= areas.len(),
        areas[p - 1].end() <= a,
        p < areas.len() ==> a < areas[p].start,
    ensures
        !in_some_area(areas, a),
{
    assert forall|j: int| 0 <= j < areas.len() implies !(#[trigger] areas[j]).holds(a) by {
        if j < p - 1 {
            assert(areas[j].end() <= areas[p - 1].start);
        }
        if j > p {
            assert(areas[p].end() <= areas[j].start);
        }
    }
}

/// True when the areas are well formed and sorted, each ending before the
/// next begins.
pub fn check_sorted_areas(areas: &Vec<MemoryArea>) -> (r: bool)
    ensures
        r == sorted_areas(areas@),
{
    let mut i: usize = 0;
    while i < areas.len()
        invariant
            0 <= i <= areas@.len(),
            forall|a: int| 0 <= a < i ==> (#[trigger] areas@[a]).wf(),
            forall|a: int, b: int| 0 <= a < b < i ==> (#[trigger] areas@[a]).end() <= (#[trigger] areas@[b]).start,
        decreases areas@.len() - i,
    {
        let x = areas[i];
        if x.length > u64::MAX - x.start {
            return false;
        }
        if i > 0 {
            let prev = areas[i - 1];
            if prev.start + prev.length > x.start {
                assert(!sorted_areas(areas@) ) by {
                    assert(areas@[i - 1].end() > areas@[i as int].start);
                }
                return false;
            }
            assert forall|a: int| 0 <= a < i implies (#[trigger] areas@[a]).end() <= areas@[i as int].start by {
                if a < i - 1 {
                    assert(areas@[a].end() <= areas@[i - 1].start);
                }
            }
        }
        i = i + 1;
    }
    true
}

/// True when `x` lies within one of the areas.
pub fn check_within_some_area(areas: &Vec<MemoryArea>, x: MemoryArea) -> (r: bool)
    requires
        sorted_areas(areas@),
        x.wf(),
    ensures
        r == within_some_area(areas@, x),
{
    let mut i: usize = 0;
    while i < areas.len()
        invariant
            0 <= i <= areas@.len(),
            sorted_areas(areas@),
            x.wf(),
            forall|j: int| 0 <= j < i ==> !x.within(#[trigger] areas@[j]),
        decreases areas@.len() - i,
    {
        if x.is_contained_in(areas[i]) {
            return true;
        }
        i = i + 1;
    }
    false
}

/// True when the memory map and the two exclusions meet what the filter
/// asks of them.
pub fn check_memory_map_input(areas: &Vec<MemoryArea>, kernel_area: MemoryArea, initramfs_area: MemoryArea) -> (r: bool)
    ensures
        r == valid_input(areas@, ordered_pair(kernel_area, initramfs_area)),
{
    let (first, second) = if kernel_area.start <= initramfs_area.start {
        (kernel_area, initramfs_area)
    } else {
        (initramfs_area, kernel_area)
    };
    let ghost excl = ordered_pair(kernel_area, initramfs_area);
    assert(excl[0] == first && excl[1] == second);
    if !check_sorted_areas(areas) {
        return false;
    }
    if first.length > u64::MAX - first.start || second.length > u64::MAX - second.start {
        assert(!(excl[0].wf() && excl[1].wf()));
        return false;
    }
    if first.start + first.length > second.start {
        return false;
    }
    assert(sorted_areas(excl)) by {
        assert forall|a: int, b: int| 0 <= a < b < excl.len() implies (#[trigger] excl[a]).end() <= (#[trigger] excl[b]).start by {}
    }
    let r = check_within_some_area(areas, first) && check_within_some_area(areas, second);
    assert(r == (within_some_area(areas@, excl[0]) && within_some_area(areas@, excl[1])));
    r
}

/// Walks the memory map and yields the free areas in it.
pub struct MemoryMapIterator {
    to_exclude: Vec<MemoryArea>,
    current_entry: Option<MemoryArea>,
    exclude_index: usize,
    areas: Vec<MemoryArea>,
    next_index: usize,
}

impl MemoryMapIterator {
    pub closed spec fn areas_view(&self) -> Seq<MemoryArea> {
        self.areas@
    }

    pub closed spec fn excl_view(&self) -> Seq<MemoryArea> {
        self.to_exclude@
    }

    /// Everything that is still to be yielded starts at or above this address.
    pub closed spec fn floor(&self) -> int {
        match self.current_entry {
            Some(c) => c.start as int,
            None => u64::MAX as int + 1,
        }
    }

    /// Nothing is left to yield.
    pub closed spec fn exhausted(&self) -> bool {
        self.current_entry.is_none()
    }

    /// A bound on the work that is left.
    pub closed spec fn remaining(&self) -> nat {
        (3 * (self.areas@.len() - self.next_index) + (2 - self.exclude_index) + if self.current_entry.is_some() {
            1int
        } else {
            0int
        }) as nat
    }

    pub closed spec fn inv(&self) -> bool {
        let areas = self.areas@;
        let excl = self.to_exclude@;
        let ei = self.exclude_index as int;
        &&& valid_input(areas, excl)
        &&& ei <= 2
        &&& self.next_index <= areas.len()
        &&& match self.current_entry {
            Some(c) => {
                &&& 1 <= self.next_index
                &&& c.within(areas[self.next_index - 1])
                &&& c.end() == areas[self.next_index - 1].end()
                &&& ei == 0 ==> excl[0].start >= c.start
                &&& forall|k: int|
                    ei <= k < 2 ==> (#[trigger] excl[k]).start >= c.start || excl[k].length == 0
                &&& forall|k: int| 0 <= k < ei ==> (#[trigger] excl[k]).end() <= c.start
            },
            None => self.next_index == areas.len(),
        }
    }

    /// Starts a walk over `areas` that leaves out the kernel image and the
    /// initramfs.
    pub fn new(areas: Vec<MemoryArea>, kernel_area: MemoryArea, initramfs_area: MemoryArea) -> (r:
        MemoryMapIterator)
        requires
            valid_input(areas@, ordered_pair(kernel_area, initramfs_area)),
        ensures
            r.inv(),
            r.areas_view() == areas@,
            r.excl_view() == ordered_pair(kernel_area, initramfs_area),
            r.floor() == if areas@.len() > 0 {
                areas@[0].start as int
            } else {
                u64::MAX as int + 1
            },
    {
        let mut to_exclude: Vec<MemoryArea> = Vec::new();
        if kernel_area.start <= initramfs_area.start {
            to_exclude.push(kernel_area);
            to_exclude.push(initramfs_area);
        } else {
            to_exclude.push(initramfs_area);
            to_exclude.push(kernel_area);
        }
        assert(to_exclude@ =~= ordered_pair(kernel_area, initramfs_area));
        let n = areas.len();
        let current_entry = if n > 0 {
            Some(areas[0])
        } else {
            None
        };
        let next_index: usize = if n > 0 {
            1
        } else {
            0
        };
        let r = MemoryMapIterator { to_exclude, current_entry, exclude_index: 0, areas, next_index };
        proof {
            if n > 0 {
                let c = r.areas@[0];
                assert forall|k: int| 0 <= k < 2 implies (#[trigger] r.to_exclude@[k]).start >= c.start by {
                    let x = r.to_exclude@[k];
                    assert(within_some_area(r.areas@, x));
                    let j = choose|j: int| 0 <= j < r.areas@.len() && x.within(#[trigger] r.areas@[j]);
                    if j > 0 {
                        assert(r.areas@[0].end() <= r.areas@[j].start);
                    }
                }
                assert(r.to_exclude@[0].start >= c.start);
            }
        }
        r
    }

    /// Pulls the next area of the map into the current slot.
    fn advance(&mut self)
        requires
            old(self).next_index <= old(self).areas@.len(),
        ensures
            final(self).areas == old(self).areas,
            final(self).to_exclude == old(self).to_exclude,
            final(self).exclude_index == old(self).exclude_index,
            old(self).next_index < old(self).areas@.len() ==> final(self).next_index == old(self).next_index + 1
                && final(self).current_entry == Some(old(self).areas@[old(self).next_index as int]),
            old(self).next_index == old(self).areas@.len() ==> final(self).next_index == old(self).next_index
                && final(self).current_entry.is_none(),
    {
        if self.next_index < self.areas.len() {
            self.current_entry = Some(self.areas[self.next_index]);
            self.next_index = self.next_index + 1;
        } else {
            self.current_entry = None;
        }
    }

    #[verifier::rlimit(50)]
    /// Yields the next free area, in ascending order, or `None` once the map
    /// is exhausted. Every free address below the new floor that the call
    /// passed over lies in the area it yields.
    pub fn next(&mut self) -> (r: Option<MemoryArea>)
        requires
            old(self).inv(),
        ensures
            final(self).inv(),
            final(self).areas_view() == old(self).areas_view(),
            final(self).excl_view() == old(self).excl_view(),
            final(self).excl_view().len() == 2,
            old(self).exhausted() ==> r.is_none() && *final(self) == *old(self),
            r.is_none() ==> final(self).exhausted(),
            r.is_some() ==> final(self).remaining() < old(self).remaining(),
            r matches Some(x) ==> {
                &&& x.wf()
                &&& old(self).floor() <= x.start
                &&& x.end() <= final(self).floor()
                &&& within_some_area(old(self).areas_view(), x)
                &&& !x.overlaps(old(self).excl_view()[0])
                &&& !x.overlaps(old(self).excl_view()[1])
                &&& x.length > 0
                &&& (exists|j: int|
                    0 <= j < old(self).areas_view().len() && x.within(#[trigger] old(self).areas_view()[j])
                        && x.end() == old(self).areas_view()[j].end()) || x.end() == old(self).excl_view()[0].start
                    || x.end() == old(self).excl_view()[1].start
            },
            forall|a: int|
                old(self).floor() <= a < final(self).floor() && #[trigger] is_free(
                    old(self).areas_view(),
                    old(self).excl_view(),
                    a,
                ) ==> (r matches Some(x) && x.holds(a)),
    {
        let ghost start = *old(self);
        loop
            invariant
                start == *old(self),
                self.inv(),
                self.areas == start.areas,
                self.to_exclude == start.to_exclude,
                start.floor() <= self.floor(),
                self.remaining() <= start.remaining(),
                start.current_entry.is_none() ==> *self == start,
                forall|a: int|
                    start.floor() <= a < self.floor() ==> !#[trigger] is_free(start.areas@, start.to_exclude@, a),
            decreases self.remaining(),
        {
            let ghost before = *self;
            let ghost p = self.next_index as int;
            let ghost areas = self.areas@;
            let ghost ex = self.to_exclude@;
            proof {
                assert(ex[0].end() <= ex[1].start);
            }
            let entry = self.current_entry;
            match entry {
                None => {
                    return None;
                },
                Some(current) => {
                    if self.exclude_index >= self.to_exclude.len() {
                        self.advance();
                        proof {
                            assert forall|a: int| current.end() <= a < self.floor() implies !in_some_area(areas, a) by {
                                lemma_gap_not_free(areas, p, a);
                            }
                            assert(within_some_area(areas, current) && current.within(areas[p - 1]));
                            assert(current.within(areas[p - 1]) && current.end() == areas[p - 1].end());
                            assert(exists|j: int| 0 <= j < areas.len() && current.within(#[trigger] areas[j]) && current.end() == areas[j].end());
                        }
                        if current.length == 0 {
                            continue;
                        }
                        return Some(current);
                    } else if self.to_exclude[self.exclude_index].is_contained_in(current) {
                        let x = self.to_exclude[self.exclude_index];
                        let ghost ei = self.exclude_index as int;
                        let before_piece = MemoryArea::new(current.start, x.start - current.start);
                        let after_piece = MemoryArea::new(
                            x.start + x.length,
                            current.start + current.length - (x.start + x.length),
                        );
                        self.exclude_index = self.exclude_index + 1;
                        if after_piece.length == 0 {
                            self.advance();
                            proof {
                                if ei == 0 && ex[1].length > 0 {
                                    lemma_later_area(areas, p, ex[1]);
                                }
                            }
                        } else {
                            self.current_entry = Some(after_piece);
                        }
                        proof {
                            assert forall|a: int| before.floor() <= a < self.floor() && !before_piece.holds(a)
                                implies !is_free(areas, ex, a) by {
                                if a < x.end() {
                                    assert(x.holds(a));
                                } else {
                                    lemma_gap_not_free(areas, p, a);
                                }
                            }
                        }
                        if before_piece.length == 0 {
                            continue;
                        } else {
                            proof {
                                assert(within_some_area(areas, before_piece) && before_piece.within(areas[p - 1]));
                                assert(before_piece.end() == ex[0].start || before_piece.end() == ex[1].start);
                            }
                            return Some(before_piece);
                        }
                    } else {
                        proof {
                            let ei = self.exclude_index as int;
                            if ex[ei].start >= current.start {
                                lemma_later_area(areas, p, ex[ei]);
                            }
                            if ei == 0 {
                                assert(ex[1].start >= areas[p].start);
                            }
                        }
                        self.advance();
                        proof {
                            assert forall|a: int| current.end() <= a < self.floor() implies !in_some_area(areas, a) by {
                                lemma_gap_not_free(areas, p, a);
                            }
                            assert(within_some_area(areas, current) && current.within(areas[p - 1]));
                            assert(current.within(areas[p - 1]) && current.end() == areas[p - 1].end());
                            assert(exists|j: int| 0 <= j < areas.len() && current.within(#[trigger] areas[j]) && current.end() == areas[j].end());
                        }
                        if current.length == 0 {
                            continue;
                        }
                        return Some(current);
                    }
                },
            }
        }
    }
}

/// The free areas of the memory map: the areas of `areas` with the kernel
/// image and the initramfs cut out. They come in ascending order, do not
/// overlap one another or either exclusion, lie within the input areas, and
/// cover exactly the addresses of the input areas that neither exclusion holds.
pub fn free_memory_areas(areas: Vec<MemoryArea>, kernel_area: MemoryArea, initramfs_area: MemoryArea) -> (r:
    Vec<MemoryArea>)
    requires
        valid_input(areas@, ordered_pair(kernel_area, initramfs_area)),
    ensures
        forall|i: int, j: int| 0 <= i < j < r@.len() ==> (#[trigger] r@[i]).end() <= (#[trigger] r@[j]).start,
        forall|i: int, j: int|
            0 <= i < r@.len() && 0 <= j < r@.len() && i != j ==> !(#[trigger] r@[i]).overlaps(#[trigger] r@[j]),
        forall|i: int| 0 <= i < r@.len() ==> (#[trigger] r@[i]).wf() && within_some_area(areas@, r@[i]) && r@[i].length > 0,
        forall|i: int|
            0 <= i < r@.len() ==> !(#[trigger] r@[i]).overlaps(kernel_area) && !r@[i].overlaps(initramfs_area),
        forall|a: int|
            #[trigger] is_free(areas@, ordered_pair(kernel_area, initramfs_area), a) <==> exists|i: int|
                0 <= i < r@.len() && (#[trigger] r@[i]).holds(a),
{
    let ghost input = areas@;
    let ghost excl = ordered_pair(kernel_area, initramfs_area);
    let mut it = MemoryMapIterator::new(areas, kernel_area, initramfs_area);
    let mut out: Vec<MemoryArea> = Vec::new();
    proof {
        assert forall|a: int| a < it.floor() implies !#[trigger] is_free(input, excl, a) by {
            if input.len() > 0 {
                assert forall|j: int| 0 <= j < input.len() implies !(#[trigger] input[j]).holds(a) by {
                    if j > 0 {
                        assert(input[0].end() <= input[j].start);
                    }
                }
            }
        }
    }
    loop
        invariant
            it.inv(),
            it.areas_view() == input,
            it.excl_view() == excl,
            excl == ordered_pair(kernel_area, initramfs_area),
            forall|i: int, j: int| 0 <= i < j < out@.len() ==> (#[trigger] out@[i]).end() <= (#[trigger] out@[j]).start,
            forall|i: int| 0 <= i < out@.len() ==> (#[trigger] out@[i]).end() <= it.floor(),
            forall|i: int| 0 <= i < out@.len() ==> (#[trigger] out@[i]).wf() && within_some_area(input, out@[i]) && out@[i].length > 0,
            forall|i: int|
                0 <= i < out@.len() ==> !(#[trigger] out@[i]).overlaps(excl[0]) && !out@[i].overlaps(excl[1]),
            forall|a: int|
                a < it.floor() && #[trigger] is_free(input, excl, a) ==> exists|i: int|
                    0 <= i < out@.len() && (#[trigger] out@[i]).holds(a),
        ensures
            it.exhausted(),
        decreases it.remaining(),
    {
        let ghost prev = it;
        match it.next() {
            None => {
                break;
            },
            Some(x) => {
                let ghost old_out = out@;
                out.push(x);
                proof {
                    assert forall|a: int| a < it.floor() && #[trigger] is_free(input, excl, a) implies exists|i: int|
                        0 <= i < out@.len() && (#[trigger] out@[i]).holds(a) by {
                        if a < prev.floor() {
                            let i = choose|i: int| 0 <= i < old_out.len() && (#[trigger] old_out[i]).holds(a);
                            assert(out@[i] == old_out[i]);
                        } else {
                            assert(out@[out@.len() - 1] == x);
                        }
                    }
                }
            },
        }
    }
    proof {
        assert(it.floor() == u64::MAX as int + 1);
        assert(excl[0] == kernel_area || excl[0] == initramfs_area);
        assert(excl[1] == kernel_area || excl[1] == initramfs_area);
        assert(excl[0] != excl[1] ==> (excl[0] == kernel_area && excl[1] == initramfs_area) || (excl[1] == kernel_area && excl[0] == initramfs_area));
        assert forall|a: int| #[trigger] is_free(input, excl, a) implies exists|i: int|
            0 <= i < out@.len() && (#[trigger] out@[i]).holds(a) by {
            let j = choose|j: int| 0 <= j < input.len() && (#[trigger] input[j]).holds(a);
        }
        assert forall|a: int| (exists|i: int| 0 <= i < out@.len() && (#[trigger] out@[i]).holds(a)) implies #[trigger] is_free(input, excl, a) by {
            let i = choose|i: int| 0 <= i < out@.len() && (#[trigger] out@[i]).holds(a);
            let j = choose|j: int| 0 <= j < input.len() && out@[i].within(#[trigger] input[j]);
            assert(input[j].holds(a));
        }
    }
    out
}

} // verus!
