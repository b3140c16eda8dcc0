//! The early frame allocator: hands out the 4 KiB frames of conventional
//! memory, in memory-map order, before the kernel has an allocator of its own.
use vstd::prelude::*;

use crate::addr::{page_floor, page_start, truncate_phys_addr, valid_phys, PHYS_ADDR_LIMIT};

verus! {

/// The UEFI memory type of memory that is free for the loaded system.
pub const CONVENTIONAL_MEMORY: u32 = 7;

/// One descriptor of the firmware memory map, as plain values.
#[derive(Clone, Copy, Debug, PartialEq, Eq, Structural)]
pub struct MemoryRegion {
    /// UEFI memory type.
    pub ty: u32,
    /// Physical start address.
    pub phys_start: u64,
    /// Number of 4 KiB pages in the region.
    pub page_count: u64,
}

impl MemoryRegion {
    /// The region may be handed out.
    pub open spec fn is_usable(self) -> bool {
        self.ty == CONVENTIONAL_MEMORY
    }

    /// Exclusive bound of the addresses the allocator steps through in a region:
    /// `page_count * 4096`, taken as an absolute address.
    pub open spec fn step_end(self) -> int {
        self.page_count * 4096
    }

    /// Physical end address of the region.
    pub open spec fn end(self) -> int {
        self.phys_start + self.page_count * 4096
    }

    /// Number of frames the allocator takes from the region: one per address
    /// `phys_start + k * 4096` below `step_end`.
    pub open spec fn frame_count(self) -> nat {
        if self.is_usable() && self.step_end() > self.phys_start {
            ((self.step_end() - self.phys_start + 4095) / 4096) as nat
        } else {
            0
        }
    }

    /// The frames the allocator takes from the region, in order.
    pub open spec fn frames(self) -> Seq<u64> {
        Seq::new(self.frame_count(), |k: int| page_floor(self.phys_start + k * 4096) as u64)
    }
}

/// All frames the allocator hands out, in the order it hands them out.
pub open spec fn usable_frames(map: Seq<MemoryRegion>) -> Seq<u64>
    decreases map.len(),
{
    if map.len() == 0 {
        Seq::empty()
    } else {
        usable_frames(map.drop_last()) + map.last().frames()
    }
}

/// Every address the allocator can reach in a usable region is a valid
/// physical address (and so no product overflows).
pub open spec fn frames_addressable(map: Seq<MemoryRegion>) -> bool {
    forall|i: int| 0 <= i < map.len() && #[trigger] map[i].is_usable() ==> map[i].step_end() <= PHYS_ADDR_LIMIT
}

/// The stepped range of every usable region ends within the `u64` range.
pub open spec fn steps_fit(map: Seq<MemoryRegion>) -> bool {
    forall|i: int| 0 <= i < map.len() && #[trigger] map[i].is_usable() ==> map[i].step_end() <= u64::MAX
}

/// The end address of every region fits in a `u64`.
pub open spec fn ends_fit(map: Seq<MemoryRegion>) -> bool {
    forall|i: int| 0 <= i < map.len() ==> #[trigger] map[i].end() <= u64::MAX
}

/// Largest region end, each end with bits 52..64 thrown away.
pub open spec fn max_truncated_end(map: Seq<MemoryRegion>) -> int
    decreases map.len(),
{
    if map.len() <= 1 {
        if map.len() == 0 { 0 } else { map[0].end() % (PHYS_ADDR_LIMIT as int) }
    } else {
        let rest = max_truncated_end(map.drop_last());
        let last = map.last().end() % (PHYS_ADDR_LIMIT as int);
        if last > rest { last } else { rest }
    }
}

/// The answer to the request with index `n`: the `n`-th usable frame, or
/// `None` once they are all gone.
pub open spec fn nth_answer(map: Seq<MemoryRegion>, n: int) -> Option<u64> {
    if 0 <= n < usable_frames(map).len() {
        Some(usable_frames(map)[n])
    } else {
        None
    }
}

/// Serving request `n` touches a usable region once fewer than `n + 1` frames
/// precede it; for such a region, with `k` the number of frames still to skip,
/// the size `page_count * 4096` must fit in a `u64` and every address stepped
/// through, up to the frame handed out, must be a valid physical address.
pub open spec fn region_reach_ok(r: MemoryRegion, k: int) -> bool {
    &&& r.step_end() <= u64::MAX
    &&& r.frame_count() > 0 ==> r.phys_start + (if k < r.frame_count() - 1 {
        k
    } else {
        r.frame_count() - 1
    }) * 4096 < PHYS_ADDR_LIMIT
}

/// Request `n` can be served without an address leaving the range the paging
/// types accept, in every usable region the request reaches.
pub open spec fn allocation_safe(map: Seq<MemoryRegion>, n: nat) -> bool {
    forall|i: int|
        0 <= i < map.len() && #[trigger] map[i].is_usable() && usable_frames(map.take(i)).len() <= n
            ==> region_reach_ok(map[i], n - usable_frames(map.take(i)).len())
}

/// Allocates 4 KiB frames from the conventional regions of a memory map.
pub struct EarlyFrameAllocator {
    memory_map: Vec<MemoryRegion>,
    next: usize,
}

impl EarlyFrameAllocator {
    /// The memory map the allocator draws from.
    pub closed spec fn regions(&self) -> Seq<MemoryRegion> {
        self.memory_map@
    }

    /// Number of allocation requests served so far.
    pub closed spec fn spec_next(&self) -> nat {
        self.next as nat
    }

    /// Creates an allocator that has handed out nothing yet.
    pub fn new(memory_map: Vec<MemoryRegion>) -> (r: Self)
        ensures
            r.regions() == memory_map@,
            r.spec_next() == 0,
    {
        Self { memory_map, next: 0 }
    }

    /// Number of allocation requests served so far.
    pub fn next_index(&self) -> (r: usize)
        ensures
            r == self.spec_next(),
    {
        self.next
    }

    /// Whether the next request can be served without an address leaving the
    /// range the paging types accept; see `allocation_safe`.
    pub fn next_allocation_safe(&self) -> (r: bool)
        ensures
            r == allocation_safe(self.regions(), self.spec_next()),
    {
        let ghost map = self.memory_map@;
        let n = self.next;
        let mut remaining: u64 = n as u64;
        let mut i: usize = 0;
        while i < self.memory_map.len()
            invariant
                0 <= i <= map.len(),
                map == self.memory_map@,
                n == self.next,
                remaining + usable_frames(map.take(i as int)).len() == n,
                forall|j: int|
                    0 <= j < i && #[trigger] map[j].is_usable() && usable_frames(map.take(j)).len() <= n
                        ==> region_reach_ok(map[j], n - usable_frames(map.take(j)).len()),
            decreases map.len() - i,
        {
            let region = self.memory_map[i];
            proof {
                lemma_usable_frames_take_step(map, i as int);
            }
            if region.ty == CONVENTIONAL_MEMORY {
                assert(map[i as int].is_usable());
                let end = match region.page_count.checked_mul(4096) {
                    Some(e) => e,
                    None => {
                        proof {
                            assert(!region_reach_ok(map[i as int], n - usable_frames(map.take(i as int)).len()));
                        }
                        return false;
                    },
                };
                if end > region.phys_start {
                    let count = (end - region.phys_start - 1) / 4096 + 1;
                    proof {
                        lemma_frame_count_formula(region.phys_start as int, end as int);
                    }
                    let k = if remaining < count { remaining } else { count - 1 };
                    assert(k * 4096 <= end - region.phys_start - 1) by (nonlinear_arith)
                        requires
                            k <= count - 1,
                            count - 1 == (end - region.phys_start - 1) / 4096,
                            end - region.phys_start - 1 >= 0,
                    ;
                    let last = region.phys_start + k * 4096;
                    if last >= PHYS_ADDR_LIMIT {
                        proof {
                            assert(map[i as int].frame_count() == count);
                            assert(!region_reach_ok(map[i as int], n - usable_frames(map.take(i as int)).len()));
                        }
                        return false;
                    }
                    if remaining < count {
                        proof {
                            assert forall|j: int|
                                0 <= j < map.len() && #[trigger] map[j].is_usable() && usable_frames(map.take(j)).len()
                                    <= n implies region_reach_ok(map[j], n - usable_frames(map.take(j)).len()) by {
                                if j > i {
                                    assert(map.take(j).take(i as int + 1) =~= map.take(i as int + 1));
                                    lemma_usable_frames_prefix(map.take(j), i as int + 1);
                                }
                            }
                        }
                        return true;
                    }
                    remaining = remaining - count;
                }
            }
            i = i + 1;
        }
        proof {
            assert(map.take(i as int) =~= map);
        }
        true
    }

    /// Hands out the next usable frame (its start address), or `None` when all
    /// are gone; each call counts as a request either way.
    pub fn allocate_frame(&mut self) -> (r: Option<u64>)
        requires
            allocation_safe(old(self).regions(), old(self).spec_next()),
            old(self).spec_next() < usize::MAX,
        ensures
            final(self).regions() == old(self).regions(),
            final(self).spec_next() == old(self).spec_next() + 1,
            r == nth_answer(old(self).regions(), old(self).spec_next() as int),
    {
        let ghost map = self.memory_map@;
        let n = self.next;
        let mut remaining: u64 = n as u64;
        let mut result: Option<u64> = None;
        let mut i: usize = 0;
        while i < self.memory_map.len()
            invariant_except_break
                0 <= i <= map.len(),
                map == self.memory_map@,
                allocation_safe(map, n as nat),
                remaining + usable_frames(map.take(i as int)).len() == n,
                result is None,
                i == map.len() ==> map.take(i as int) == map,
            ensures
                result == nth_answer(map, n as int),
            decreases map.len() - i,
        {
            let region = self.memory_map[i];
            proof {
                lemma_usable_frames_take_step(map, i as int);
            }
            if region.ty == CONVENTIONAL_MEMORY {
                assert(map[i as int].is_usable());
                assert(region_reach_ok(map[i as int], n - usable_frames(map.take(i as int)).len()));
                let end = region.page_count * 4096;
                if end > region.phys_start {
                    let count = (end - region.phys_start - 1) / 4096 + 1;
                    proof {
                        lemma_frame_count_formula(region.phys_start as int, end as int);
                    }
                    if remaining < count {
                        proof {
                            lemma_step_below_end(region.phys_start as int, end as int, remaining as int);
                            lemma_usable_frames_prefix(map, i as int + 1);
                        }
                        let addr = region.phys_start + remaining * 4096;
                        let frame = page_start(addr);
                        proof {
                            let prefix = usable_frames(map.take(i as int));
                            let frames = map[i as int].frames();
                            assert(frames.len() == count);
                            assert(frames[remaining as int] == frame);
                            assert((prefix + frames)[n as int] == frame);
                            assert(usable_frames(map.take(i as int + 1))[n as int] == frame);
                        }
                        result = Some(frame);
                        break;
                    }
                    remaining = remaining - count;
                }
            }
            i = i + 1;
            proof {
                if i == map.len() {
                    assert(map.take(i as int) =~= map);
                }
            }
        }
        self.next = self.next + 1;
        result
    }

    /// Largest end address of any region of the memory map, each end with bits
    /// 52..64 thrown away. The map must not be empty.
    pub fn max_phys_addr(&self) -> (r: u64)
        requires
            self.regions().len() > 0,
            ends_fit(self.regions()),
        ensures
            r == max_truncated_end(self.regions()),
    {
        let ghost map = self.memory_map@;
        let first = self.memory_map[0];
        assert(map[0].end() <= u64::MAX);
        let mut best = truncate_phys_addr(first.phys_start + first.page_count * 4096);
        let mut i: usize = 1;
        proof {
            assert(map.take(1).drop_last() =~= map.take(0));
        }
        while i < self.memory_map.len()
            invariant
                1 <= i <= map.len(),
                map == self.memory_map@,
                ends_fit(map),
                best == max_truncated_end(map.take(i as int)),
            decreases map.len() - i,
        {
            let region = self.memory_map[i];
            assert(map[i as int].end() <= u64::MAX);
            let candidate = truncate_phys_addr(region.phys_start + region.page_count * 4096);
            proof {
                assert(map.take(i as int + 1).drop_last() =~= map.take(i as int));
            }
            if candidate > best {
                best = candidate;
            }
            i = i + 1;
        }
        proof {
            assert(map.take(i as int) =~= map);
        }
        best
    }
}

/// The frame count of `[start, end)` written without the rounding addition.
proof fn lemma_frame_count_formula(start: int, end: int)
    requires
        0 <= start < end,
    ensures
        (end - start + 4095) / 4096 == (end - start - 1) / 4096 + 1,
{
}

/// An address `start + k * 4096` with `k` below the frame count of
/// `[start, end)` lies below `end`.
proof fn lemma_step_below_end(start: int, end: int, k: int)
    requires
        0 <= start < end,
        0 <= k < (end - start + 4095) / 4096,
    ensures
        start + k * 4096 < end,
{
    assert(k * 4096 <= (end - start + 4095) - 4096) by (nonlinear_arith)
        requires
            0 <= k < (end - start + 4095) / 4096,
            end - start + 4095 >= 0,
    ;
}

/// Taking one more region appends that region's frames.
proof fn lemma_usable_frames_take_step(map: Seq<MemoryRegion>, i: int)
    requires
        0 <= i < map.len(),
    ensures
        usable_frames(map.take(i + 1)) == usable_frames(map.take(i)) + map[i].frames(),
{
    assert(map.take(i + 1).drop_last() =~= map.take(i));
}

/// The frames of a prefix of the map are a prefix of the frames of the map.
proof fn lemma_usable_frames_prefix(map: Seq<MemoryRegion>, j: int)
    requires
        0 <= j <= map.len(),
    ensures
        usable_frames(map.take(j)).len() <= usable_frames(map).len(),
        forall|k: int|
            0 <= k < usable_frames(map.take(j)).len() ==> usable_frames(map)[k] == #[trigger] usable_frames(
                map.take(j),
            )[k],
    decreases map.len(),
{
    if j == map.len() {
        assert(map.take(j) =~= map);
    } else {
        let shorter = map.drop_last();
        assert(map.take(j) =~= shorter.take(j));
        lemma_usable_frames_prefix(shorter, j);
    }
}

/// Every frame the allocator can hand out is the start of a 4 KiB frame and
/// lies in the stepped range of a conventional region of the map; it is a
/// valid physical address when those ranges stay below 2^52.
pub proof fn lemma_usable_frame_in_region(map: Seq<MemoryRegion>, k: int)
    requires
        steps_fit(map),
        0 <= k < usable_frames(map).len(),
    ensures
        usable_frames(map)[k] % 4096 == 0,
        frames_addressable(map) ==> valid_phys(usable_frames(map)[k]),
        exists|i: int|
            0 <= i < map.len() && #[trigger] map[i].is_usable() && map[i].frame_count() > 0 && page_floor(
                map[i].phys_start as int,
            ) <= usable_frames(map)[k] < map[i].step_end(),
    decreases map.len(),
{
    let shorter = map.drop_last();
    assert(steps_fit(shorter)) by {
        assert forall|i: int| 0 <= i < shorter.len() && #[trigger] shorter[i].is_usable() implies shorter[i].step_end()
            <= u64::MAX by {
            assert(shorter[i] == map[i]);
            assert(map[i].is_usable());
        }
    }
    if k < usable_frames(shorter).len() {
        lemma_usable_frame_in_region(shorter, k);
        let i = choose|i: int|
            0 <= i < shorter.len() && #[trigger] shorter[i].is_usable() && shorter[i].frame_count() > 0
                && page_floor(shorter[i].phys_start as int) <= usable_frames(shorter)[k] < shorter[i].step_end();
        assert(map[i] == shorter[i]);
        assert(map[i].is_usable());
    } else {
        let last = map.last();
        let i = map.len() - 1;
        let j = k - usable_frames(shorter).len();
        assert(map[i] == last);
        assert(last.is_usable());
        let start = last.phys_start as int;
        let a = start + j * 4096;
        lemma_step_below_end(start, last.step_end(), j);
        assert(usable_frames(map)[k] == last.frames()[j]);
        assert(last.frames()[j] == page_floor(a) as u64);
        lemma_page_floor_shift(start, j);
        assert(page_floor(a) % 4096 == 0);
    }
}

/// Moving `j` whole pages up moves the containing page by `j` pages.
proof fn lemma_page_floor_shift(a: int, j: int)
    requires
        0 <= a,
        0 <= j,
    ensures
        page_floor(a + j * 4096) == page_floor(a) + j * 4096,
        page_floor(a + j * 4096) % 4096 == 0,
        page_floor(a) <= a,
{
    assert((a + j * 4096) % 4096 == a % 4096) by (nonlinear_arith)
        requires
            0 <= a,
            0 <= j,
    ;
}

/// The largest truncated end is at least the truncated end of every region
/// and equals that of one of them.
pub proof fn lemma_max_phys_addr_is_max(map: Seq<MemoryRegion>)
    requires
        map.len() > 0,
    ensures
        forall|i: int|
            0 <= i < map.len() ==> #[trigger] map[i].end() % (PHYS_ADDR_LIMIT as int) <= max_truncated_end(map),
        exists|i: int|
            0 <= i < map.len() && #[trigger] map[i].end() % (PHYS_ADDR_LIMIT as int) == max_truncated_end(map),
    decreases map.len(),
{
    if map.len() > 1 {
        let shorter = map.drop_last();
        lemma_max_phys_addr_is_max(shorter);
        assert forall|i: int|
            0 <= i < map.len() implies #[trigger] map[i].end() % (PHYS_ADDR_LIMIT as int) <= max_truncated_end(map) by {
            if i < shorter.len() {
                assert(shorter[i] == map[i]);
                assert(shorter[i].end() % (PHYS_ADDR_LIMIT as int) <= max_truncated_end(shorter));
            }
        }
        let w = choose|i: int|
            0 <= i < shorter.len() && #[trigger] shorter[i].end() % (PHYS_ADDR_LIMIT as int) == max_truncated_end(shorter);
        assert(shorter[w] == map[w]);
        let l = map.len() - 1;
        if map[l].end() % (PHYS_ADDR_LIMIT as int) > max_truncated_end(shorter) {
            assert(map[l].end() % (PHYS_ADDR_LIMIT as int) == max_truncated_end(map));
        } else {
            assert(map[w].end() % (PHYS_ADDR_LIMIT as int) == max_truncated_end(map));
        }
    } else {
        assert(map[0].end() % (PHYS_ADDR_LIMIT as int) == max_truncated_end(map));
    }
}

/// The stepped ranges of any two conventional regions that supply frames do
/// not overlap, counted from the page that holds each region's start.
pub open spec fn usable_ranges_disjoint(map: Seq<MemoryRegion>) -> bool {
    forall|i: int, j: int|
        0 <= i < j < map.len() && #[trigger] map[i].frame_count() > 0 && #[trigger] map[j].frame_count() > 0
            ==> map[i].step_end() <= page_floor(map[j].phys_start as int) || map[j].step_end() <= page_floor(
            map[i].phys_start as int,
        )
}

/// Uniqueness law: when the conventional regions do not overlap, no frame
/// appears twice among the frames the allocator hands out, so no two requests
/// are answered with the same frame.
pub proof fn lemma_frames_never_repeat(map: Seq<MemoryRegion>)
    requires
        steps_fit(map),
        usable_ranges_disjoint(map),
    ensures
        usable_frames(map).no_duplicates(),
    decreases map.len(),
{
    if map.len() > 0 {
        let shorter = map.drop_last();
        let l = map.len() - 1;
        let last = map[l];
        assert(last == map.last());
        assert(steps_fit(shorter)) by {
            assert forall|i: int| 0 <= i < shorter.len() && #[trigger] shorter[i].is_usable() implies shorter[i].step_end()
                <= u64::MAX by {
                assert(shorter[i] == map[i]);
            }
        }
        assert(usable_ranges_disjoint(shorter)) by {
            assert forall|i: int, j: int|
                0 <= i < j < shorter.len() && #[trigger] shorter[i].frame_count() > 0 && #[trigger] shorter[j].frame_count()
                    > 0 implies shorter[i].step_end() <= page_floor(shorter[j].phys_start as int) || shorter[j].step_end()
                <= page_floor(shorter[i].phys_start as int) by {
                assert(shorter[i] == map[i]);
                assert(shorter[j] == map[j]);
            }
        }
        lemma_frames_never_repeat(shorter);
        let a = usable_frames(shorter);
        let b = last.frames();
        assert(usable_frames(map) == a + b);
        assert forall|x: int, y: int| 0 <= x < y < (a + b).len() implies (a + b)[x] != (a + b)[y] by {
            if y < a.len() {
                assert(a[x] != a[y]);
            } else if x >= a.len() {
                let kx = x - a.len();
                let ky = y - a.len();
                lemma_page_floor_shift(last.phys_start as int, kx);
                lemma_page_floor_shift(last.phys_start as int, ky);
                assert(b[kx] == page_floor(last.phys_start + kx * 4096) as u64);
                assert(b[ky] == page_floor(last.phys_start + ky * 4096) as u64);
            } else {
                lemma_usable_frame_in_region(shorter, x);
                let i = choose|i: int|
                    0 <= i < shorter.len() && #[trigger] shorter[i].is_usable() && shorter[i].frame_count() > 0
                        && page_floor(shorter[i].phys_start as int) <= a[x] < shorter[i].step_end();
                assert(shorter[i] == map[i]);
                let ky = y - a.len();
                assert(last.is_usable());
                lemma_page_floor_shift(last.phys_start as int, ky);
                lemma_step_below_end(last.phys_start as int, last.step_end(), ky);
                assert(b[ky] == page_floor(last.phys_start + ky * 4096) as u64);
                assert(map[i].frame_count() > 0 && map[l].frame_count() > 0);
            }
        }
    }
}

/// The conventional regions start on page boundaries and do not overlap.
pub open spec fn regions_disjoint_aligned(map: Seq<MemoryRegion>) -> bool {
    &&& forall|i: int| 0 <= i < map.len() && #[trigger] map[i].is_usable() ==> map[i].phys_start % 4096 == 0
    &&& forall|i: int, j: int|
        0 <= i < j < map.len() && #[trigger] map[i].is_usable() && #[trigger] map[j].is_usable() ==> map[i].end()
            <= map[j].phys_start || map[j].end() <= map[i].phys_start
}

/// Uniqueness law of the allocator: when the conventional regions are
/// page-aligned and do not overlap, two different requests to the same
/// allocator never receive the same frame.
pub proof fn lemma_allocator_never_repeats(map: Seq<MemoryRegion>, n: int, m: int)
    requires
        ends_fit(map),
        regions_disjoint_aligned(map),
        n != m,
        nth_answer(map, n) is Some,
        nth_answer(map, m) is Some,
    ensures
        nth_answer(map, n)->0 != nth_answer(map, m)->0,
{
    assert(steps_fit(map)) by {
        assert forall|i: int| 0 <= i < map.len() && #[trigger] map[i].is_usable() implies map[i].step_end()
            <= u64::MAX by {
            assert(map[i].end() <= u64::MAX);
        }
    }
    assert(usable_ranges_disjoint(map)) by {
        assert forall|i: int, j: int|
            0 <= i < j < map.len() && #[trigger] map[i].frame_count() > 0 && #[trigger] map[j].frame_count() > 0
                implies map[i].step_end() <= page_floor(map[j].phys_start as int) || map[j].step_end()
            <= page_floor(map[i].phys_start as int) by {
            assert(map[i].is_usable() && map[j].is_usable());
        }
    }
    lemma_frames_never_repeat(map);
    let frames = usable_frames(map);
    assert(frames.no_duplicates());
    if n < m {
        assert(frames[n] != frames[m]);
    } else {
        assert(frames[m] != frames[n]);
    }
}

/// Exhaustion law: once a request is answered with `None`, every later
/// request is answered with `None` too.
pub proof fn lemma_exhaustion_persists(map: Seq<MemoryRegion>, n: int, m: int)
    requires
        0 <= n <= m,
        nth_answer(map, n) is None,
    ensures
        nth_answer(map, m) is None,
{
}

/// A map whose usable regions stay below 2^52 admits every request.
pub proof fn lemma_addressable_map_is_safe(map: Seq<MemoryRegion>, n: nat)
    requires
        frames_addressable(map),
    ensures
        allocation_safe(map, n),
{
    assert forall|i: int|
        0 <= i < map.len() && #[trigger] map[i].is_usable() && usable_frames(map.take(i)).len() <= n implies region_reach_ok(
        map[i],
        n - usable_frames(map.take(i)).len(),
    ) by {
        let r = map[i];
        if r.frame_count() > 0 {
            lemma_step_below_end(r.phys_start as int, r.step_end(), r.frame_count() - 1);
        }
    }
}

/// Type law: a region whose type is not conventional memory (type 7)
/// contributes no frame at all.
pub proof fn lemma_only_conventional_memory(r: MemoryRegion)
    requires
        r.ty != 7,
    ensures
        r.frames().len() == 0,
{
}

/// Every frame the allocator answers with lies, page-aligned, in the stepped
/// range `[page of phys_start, page_count * 4096)` of a region of type 7
/// (conventional memory).
pub proof fn lemma_answer_in_conventional_region(map: Seq<MemoryRegion>, n: int)
    requires
        ends_fit(map),
        nth_answer(map, n) is Some,
    ensures
        nth_answer(map, n)->0 % 4096 == 0,
        exists|i: int|
            0 <= i < map.len() && (#[trigger] map[i]).ty == 7 && map[i].phys_start - map[i].phys_start % 4096
                <= nth_answer(map, n)->0 < map[i].page_count * 4096,
{
    assert(steps_fit(map)) by {
        assert forall|i: int| 0 <= i < map.len() && #[trigger] map[i].is_usable() implies map[i].step_end()
            <= u64::MAX by {
            assert(map[i].end() <= u64::MAX);
        }
    }
    lemma_usable_frame_in_region(map, n);
    let i = choose|i: int|
        0 <= i < map.len() && #[trigger] map[i].is_usable() && map[i].frame_count() > 0 && page_floor(
            map[i].phys_start as int,
        ) <= usable_frames(map)[n] < map[i].step_end();
    assert(map[i].ty == 7);
}

} // verus!
