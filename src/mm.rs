//! Address spaces: ordered lists of framed areas over virtual page ranges.
use vstd::prelude::*;

verus! {

/// Bytes per page.
pub const PAGE_SIZE: usize = 4096;

/// User-accessible bit of an area's permission set.
pub const PERM_U: u8 = 16;

/// A framed area covering the virtual pages `[start_vpn, end_vpn)`.
///
/// `perm` uses the page-table layout: R = 2, W = 4, X = 8, U = 16.
#[derive(Clone, Copy, PartialEq, Eq, Structural, Debug)]
pub struct MapArea {
    pub start_vpn: usize,
    pub end_vpn: usize,
    pub perm: u8,
}

/// The areas mapped in one address space, in insertion order.
pub struct MemorySet {
    pub areas: Vec<MapArea>,
}

/// The area's pages, in bytes, stay addressable.
pub open spec fn area_wf(a: MapArea) -> bool {
    a.start_vpn <= a.end_vpn && a.end_vpn * 4096 <= usize::MAX
}

/// Some page of `[lo, hi)` belongs to the area.
pub open spec fn area_overlaps(a: MapArea, lo: int, hi: int) -> bool {
    a.start_vpn < a.end_vpn && lo < hi && a.start_vpn < hi && lo < a.end_vpn
}

/// No page belongs to two areas.
pub open spec fn areas_wf(areas: Seq<MapArea>) -> bool {
    &&& forall|i: int| 0 <= i < areas.len() ==> area_wf(#[trigger] areas[i])
    &&& forall|i: int, j: int|
        0 <= i < areas.len() && 0 <= j < areas.len() && i != j ==> !area_overlaps(
            #[trigger] areas[i],
            areas[j].start_vpn as int,
            #[trigger] areas[j].end_vpn as int,
        )
}

/// No page of `[lo, hi)` is mapped.
pub open spec fn range_free(areas: Seq<MapArea>, lo: int, hi: int) -> bool {
    forall|i: int| 0 <= i < areas.len() ==> !area_overlaps(#[trigger] areas[i], lo, hi)
}

/// First page of a request starting at byte `start`.
pub open spec fn first_page(start: int) -> int {
    start / 4096
}

/// One past the last page touched by `[start, start + len)`.
pub open spec fn end_page(start: int, len: int) -> int {
    (start + len + 4095) / 4096
}

/// The request passes the argument checks: aligned start, `prot` made of the
/// read/write/execute bits and not empty, and an end that fits the address width.
pub open spec fn mmap_args_ok(start: int, len: int, prot: int) -> bool {
    &&& 0 <= start && 0 <= len
    &&& start % 4096 == 0
    &&& 0 < prot <= 7
    &&& start + len + 4095 <= usize::MAX
}

/// The area a successful request inserts: `prot` shifted into the page-table
/// layout, plus the user bit.
pub open spec fn mmap_area(start: int, len: int, prot: int) -> MapArea {
    MapArea {
        start_vpn: first_page(start) as usize,
        end_vpn: end_page(start, len) as usize,
        perm: (prot * 2 + 16) as u8,
    }
}

/// The request maps: valid arguments and none of its pages already mapped.
pub open spec fn mmap_succeeds(areas: Seq<MapArea>, start: int, len: int, prot: int) -> bool {
    mmap_args_ok(start, len, prot) && range_free(areas, first_page(start), end_page(start, len))
}

/// The areas after the request.
pub open spec fn mmap_result(areas: Seq<MapArea>, start: int, len: int, prot: int) -> Seq<MapArea> {
    if mmap_succeeds(areas, start, len, prot) {
        areas.push(mmap_area(start, len, prot))
    } else {
        areas
    }
}

/// The area covers exactly the bytes `[start, start + len)`.
pub open spec fn exact_match(a: MapArea, start: int, len: int) -> bool {
    a.start_vpn * 4096 == start && a.end_vpn * 4096 == start + len
}

/// Index of the first exact match at or after `i`, or the length if none.
pub open spec fn first_exact_from(areas: Seq<MapArea>, start: int, len: int, i: int) -> int
    decreases areas.len() - i,
{
    if i < 0 || i >= areas.len() {
        areas.len() as int
    } else if exact_match(areas[i], start, len) {
        i
    } else {
        first_exact_from(areas, start, len, i + 1)
    }
}

/// Index of the first area that covers exactly `[start, start + len)`, or the length.
pub open spec fn first_exact(areas: Seq<MapArea>, start: int, len: int) -> int {
    first_exact_from(areas, start, len, 0)
}

/// The areas after unmapping `[start, start + len)`.
pub open spec fn munmap_result(areas: Seq<MapArea>, start: int, len: int) -> Seq<MapArea> {
    let i = first_exact(areas, start, len);
    if i < areas.len() {
        areas.remove(i)
    } else {
        areas
    }
}

proof fn lemma_first_exact_skip(areas: Seq<MapArea>, start: int, len: int, i: int, k: int)
    requires
        0 <= i <= k <= areas.len(),
        forall|j: int| i <= j < k ==> !exact_match(#[trigger] areas[j], start, len),
    ensures
        first_exact_from(areas, start, len, i) == first_exact_from(areas, start, len, k),
    decreases k - i,
{
    if i < k {
        lemma_first_exact_skip(areas, start, len, i + 1, k);
    }
}

proof fn lemma_first_exact_bounds(areas: Seq<MapArea>, start: int, len: int, i: int)
    requires
        0 <= i <= areas.len(),
    ensures
        i <= first_exact_from(areas, start, len, i) <= areas.len(),
        first_exact_from(areas, start, len, i) < areas.len() ==> exact_match(
            areas[first_exact_from(areas, start, len, i)],
            start,
            len,
        ),
    decreases areas.len() - i,
{
    if i < areas.len() && !exact_match(areas[i], start, len) {
        lemma_first_exact_bounds(areas, start, len, i + 1);
    }
}

/// Mapping a range that overlaps one just mapped fails, and the failed request
/// leaves the areas as they were.
pub proof fn lemma_overlapping_mmap_fails(
    areas: Seq<MapArea>,
    start_a: int,
    len_a: int,
    prot_a: int,
    start_b: int,
    len_b: int,
    prot_b: int,
)
    requires
        areas_wf(areas),
        mmap_succeeds(areas, start_a, len_a, prot_a),
        area_overlaps(mmap_area(start_a, len_a, prot_a), first_page(start_b), end_page(start_b, len_b)),
    ensures
        !mmap_succeeds(mmap_result(areas, start_a, len_a, prot_a), start_b, len_b, prot_b),
        mmap_result(mmap_result(areas, start_a, len_a, prot_a), start_b, len_b, prot_b) == mmap_result(areas, start_a, len_a, prot_a),
{
    let after = mmap_result(areas, start_a, len_a, prot_a);
    assert(after[areas.len() as int] == mmap_area(start_a, len_a, prot_a));
}

/// Mapping a non-empty range whose end is page aligned and then unmapping the
/// same range gives back the areas held before.
pub proof fn lemma_mmap_munmap_round_trip(areas: Seq<MapArea>, start: int, len: int, prot: int)
    requires
        areas_wf(areas),
        mmap_succeeds(areas, start, len, prot),
        len > 0,
        (start + len) % 4096 == 0,
    ensures
        first_exact(mmap_result(areas, start, len, prot), start, len) == areas.len(),
        munmap_result(mmap_result(areas, start, len, prot), start, len) == areas,
{
    let a = mmap_area(start, len, prot);
    let after = areas.push(a);
    assert((start / 4096) * 4096 == start) by (nonlinear_arith)
        requires start % 4096 == 0, start >= 0;
    assert(((start + len + 4095) / 4096) * 4096 == start + len) by (nonlinear_arith)
        requires (start + len) % 4096 == 0, start + len >= 0;
    assert(a.start_vpn * 4096 == start);
    assert(a.end_vpn * 4096 == start + len);
    assert(a.start_vpn < a.end_vpn);
    assert forall|j: int| 0 <= j < areas.len() implies !exact_match(#[trigger] after[j], start, len) by {
        assert(after[j] == areas[j]);
        if exact_match(areas[j], start, len) {
            assert(areas[j].start_vpn == a.start_vpn);
            assert(areas[j].end_vpn == a.end_vpn);
            assert(area_overlaps(areas[j], a.start_vpn as int, a.end_vpn as int));
        }
    }
    lemma_first_exact_skip(after, start, len, 0, areas.len() as int);
    assert(exact_match(after[areas.len() as int], start, len));
    assert(after.remove(areas.len() as int) =~= areas);
}

/// Unmapping a non-empty proper part of a mapped area fails and leaves the
/// areas as they were.
pub proof fn lemma_munmap_part_fails(areas: Seq<MapArea>, k: int, start: int, len: int)
    requires
        areas_wf(areas),
        0 <= k < areas.len(),
        len > 0,
        areas[k].start_vpn * 4096 <= start,
        start + len <= areas[k].end_vpn * 4096,
        !exact_match(areas[k], start, len),
    ensures
        first_exact(areas, start, len) == areas.len(),
        munmap_result(areas, start, len) == areas,
{
    assert forall|j: int| 0 <= j < areas.len() implies !exact_match(#[trigger] areas[j], start, len) by {
        if exact_match(areas[j], start, len) {
            let b = areas[j];
            let c = areas[k];
            assert(b.start_vpn < b.end_vpn) by (nonlinear_arith)
                requires b.start_vpn * 4096 == start, b.end_vpn * 4096 == start + len, len > 0;
            assert(b.start_vpn < c.end_vpn) by (nonlinear_arith)
                requires b.start_vpn * 4096 == start, start + len <= c.end_vpn * 4096, len > 0;
            assert(c.start_vpn < b.end_vpn) by (nonlinear_arith)
                requires c.start_vpn * 4096 <= start, b.end_vpn * 4096 == start + len, len > 0;
            assert(c.start_vpn < c.end_vpn);
            assert(area_overlaps(c, b.start_vpn as int, b.end_vpn as int));
        }
    }
    lemma_first_exact_skip(areas, start, len, 0, areas.len() as int);
}

impl MemorySet {
    pub open spec fn wf(&self) -> bool {
        areas_wf(self.areas@)
    }

    /// An empty address space.
    pub fn new() -> (r: MemorySet)
        ensures
            r.areas@ == Seq::<MapArea>::empty(),
            r.wf(),
    {
        MemorySet { areas: Vec::new() }
    }

    /// A copy holding the same areas.
    pub fn duplicate(&self) -> (r: MemorySet)
        ensures
            r.areas@ == self.areas@,
    {
        let mut areas: Vec<MapArea> = Vec::new();
        let mut i: usize = 0;
        while i < self.areas.len()
            invariant
                i <= self.areas@.len(),
                areas@ == self.areas@.subrange(0, i as int),
            decreases self.areas@.len() - i,
        {
            areas.push(self.areas[i]);
            i = i + 1;
        }
        assert(areas@ == self.areas@);
        MemorySet { areas }
    }

    /// Whether any page of `[lo, hi)` is mapped.
    fn any_mapped(&self, lo: usize, hi: usize) -> (r: bool)
        ensures
            r == !range_free(self.areas@, lo as int, hi as int),
    {
        let mut i: usize = 0;
        while i < self.areas.len()
            invariant
                i <= self.areas@.len(),
                forall|j: int| 0 <= j < i ==> !area_overlaps(#[trigger] self.areas@[j], lo as int, hi as int),
            decreases self.areas@.len() - i,
        {
            let a = self.areas[i];
            if a.start_vpn < a.end_vpn && lo < hi && a.start_vpn < hi && lo < a.end_vpn {
                return true;
            }
            i = i + 1;
        }
        false
    }

    /// Maps `[start, start + len)` with permissions `prot` (bit 0 read, bit 1
    /// write, bit 2 execute). Returns 0, or -1 with nothing changed when the
    /// arguments are refused or a page of the range is already mapped.
    pub fn mmap(&mut self, start: usize, len: usize, prot: usize) -> (r: isize)
        requires
            old(self).wf(),
        ensures
            final(self).wf(),
            r == 0 || r == -1,
            (r == 0) == mmap_succeeds(old(self).areas@, start as int, len as int, prot as int),
            r == -1 ==> *final(self) == *old(self),
            final(self).areas@ == mmap_result(old(self).areas@, start as int, len as int, prot as int),
    {
        if start % PAGE_SIZE != 0 {
            return -1;
        }
        // bits above read/write/execute
        if prot > 7 {
            return -1;
        }
        if prot == 0 {
            return -1;
        }
        if len > usize::MAX - start || start + len > usize::MAX - 4095 {
            return -1;
        }
        let start_vpn = start / PAGE_SIZE;
        let end_vpn = (start + len + 4095) / PAGE_SIZE;
        if self.any_mapped(start_vpn, end_vpn) {
            return -1;
        }
        let perm: u8 = (prot as u8) * 2 + PERM_U;
        let area = MapArea { start_vpn, end_vpn, perm };
        assert(area == mmap_area(start as int, len as int, prot as int));
        assert(end_vpn * 4096 <= start + len + 4095) by (nonlinear_arith)
            requires end_vpn == (start + len + 4095) / 4096;
        let ghost old_areas = self.areas@;
        self.areas.push(area);
        assert forall|i: int, j: int|
            0 <= i < self.areas@.len() && 0 <= j < self.areas@.len() && i != j implies !area_overlaps(
                #[trigger] self.areas@[i],
                self.areas@[j].start_vpn as int,
                #[trigger] self.areas@[j].end_vpn as int,
            ) by {
            if i == old_areas.len() {
                assert(!area_overlaps(old_areas[j], start_vpn as int, end_vpn as int));
            } else if j == old_areas.len() {
                assert(!area_overlaps(old_areas[i], start_vpn as int, end_vpn as int));
            }
        }
        0
    }

    /// Unmaps the first area that covers exactly `[start, start + len)`.
    /// Returns 0, or -1 with nothing changed when no area matches exactly;
    /// part of an area is never unmapped.
    pub fn munmap(&mut self, start: usize, len: usize) -> (r: isize)
        requires
            old(self).wf(),
        ensures
            final(self).wf(),
            r == 0 || r == -1,
            (r == 0) == (first_exact(old(self).areas@, start as int, len as int) < old(self).areas@.len()),
            final(self).areas@ == munmap_result(old(self).areas@, start as int, len as int),
            r == -1 ==> *final(self) == *old(self),
    {
        proof {
            lemma_first_exact_bounds(self.areas@, start as int, len as int, 0);
        }
        if len > usize::MAX - start {
            // no area reaches past the address width
            proof {
                let k = first_exact(self.areas@, start as int, len as int);
                if k < self.areas@.len() {
                    assert(area_wf(self.areas@[k]));
                }
            }
            return -1;
        }
        let end = start + len;
        let mut i: usize = 0;
        while i < self.areas.len()
            invariant
                i <= self.areas@.len(),
                end == start + len,
                self.wf(),
                *self == *old(self),
                forall|j: int| 0 <= j < i ==> !exact_match(#[trigger] self.areas@[j], start as int, len as int),
            decreases self.areas@.len() - i,
        {
            let a = self.areas[i];
            assert(area_wf(self.areas@[i as int]));
            assert(a.start_vpn * 4096 <= usize::MAX) by (nonlinear_arith)
                requires a.start_vpn <= a.end_vpn, a.end_vpn * 4096 <= usize::MAX;
            if a.start_vpn * PAGE_SIZE == start && a.end_vpn * PAGE_SIZE == end {
                proof {
                    lemma_first_exact_skip(self.areas@, start as int, len as int, 0, i as int);
                    assert(first_exact_from(self.areas@, start as int, len as int, i as int) == i);
                }
                let ghost old_areas = self.areas@;
                self.areas.remove(i);
                assert forall|p: int, q: int|
                    0 <= p < self.areas@.len() && 0 <= q < self.areas@.len() && p != q implies !area_overlaps(
                        #[trigger] self.areas@[p],
                        self.areas@[q].start_vpn as int,
                        #[trigger] self.areas@[q].end_vpn as int,
                    ) by {
                    let p0 = if p < i { p } else { p + 1 };
                    let q0 = if q < i { q } else { q + 1 };
                    assert(self.areas@[p] == old_areas[p0]);
                    assert(self.areas@[q] == old_areas[q0]);
                }
                assert forall|p: int| 0 <= p < self.areas@.len() implies area_wf(#[trigger] self.areas@[p]) by {
                    let p0 = if p < i { p } else { p + 1 };
                    assert(self.areas@[p] == old_areas[p0]);
                }
                return 0;
            }
            i = i + 1;
        }
        proof {
            lemma_first_exact_skip(self.areas@, start as int, len as int, 0, self.areas@.len() as int);
        }
        -1
    }
}

} // verus!
