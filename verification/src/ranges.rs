//! The host address ranges that a list of residual page offsets stands for: consecutive pages
//! are joined into one run, and a run is split where one memory region ends and the next begins,
//! for the two may lie apart on the host. These are the ranges to isolate in anonymous memory and
//! to register for page faults.
use vstd::math;
use vstd::prelude::*;

use crate::memory;
use crate::memory::{locate, FileRegion, GuestRegionUffdMapping};
use crate::offsets;
use crate::offsets::read_page_offsets;

verus! {

broadcast use vstd::seq::group_seq_axioms;

/// A range of host memory and where its contents start in the memory file.
#[derive(Clone, Copy, Debug, PartialEq, Eq, Structural)]
pub struct HostRange {
    /// Offset in the memory file.
    pub offset: u64,
    /// Host address.
    pub addr: u64,
    /// Size in bytes.
    pub len: u64,
}

impl HostRange {
    /// The file offset behind the range.
    pub open spec fn end(self) -> int {
        self.offset + self.len
    }

    /// Whether the byte at file offset `offset` lies in the range.
    pub open spec fn covers(self, offset: int) -> bool {
        self.offset <= offset < self.end()
    }

    /// Whether the range lies within `region`, at the host address where the region is mapped.
    pub open spec fn is_within(self, region: FileRegion) -> bool {
        &&& region.holds(self.offset)
        &&& self.end() <= region.end()
        &&& self.addr == region.host_of(self.offset)
    }
}

/// The ranges to work on and the number of pages in them.
#[derive(Debug, PartialEq, Eq)]
pub struct ResidualRanges {
    /// The ranges, in file order.
    pub ranges: Vec<HostRange>,
    /// How many whole pages the ranges hold.
    pub pages: u64,
}

/// The index behind the run of consecutive pages that index `i - 1` belongs to.
pub open spec fn run_end(offs: Seq<u64>, i: int, ps: int) -> int
    decreases offs.len() - i,
{
    if 0 < i < offs.len() && offs[i] == offs[i - 1] + ps {
        run_end(offs, i + 1, ps)
    } else {
        i
    }
}

/// The smallest offset above `cur` at which one of the first `k` regions starts, or `end` when
/// none starts before that.
pub open spec fn next_start(regions: Seq<FileRegion>, cur: u64, end: u64, k: int) -> u64
    decreases k,
{
    if k <= 0 {
        end
    } else {
        let before = next_start(regions, cur, end, k - 1);
        if cur < regions[k - 1].offset < before {
            regions[k - 1].offset
        } else {
            before
        }
    }
}

/// The ranges for the bytes from file offset `cur` up to `end`: one for each region that holds
/// some of them. Bytes that no region holds are passed over.
pub open spec fn pieces(regions: Seq<FileRegion>, cur: u64, end: u64) -> Seq<HostRange>
    decreases end - cur,
{
    if cur >= end {
        Seq::empty()
    } else if memory::is_located(regions, cur) {
        proof {
            memory::law_located_is_first(regions, cur, 0);
        }
        let region = regions[memory::located(regions, cur)];
        let stop = math::min(end as int, region.end());
        seq![
            HostRange {
                offset: cur,
                addr: region.host_of(cur) as u64,
                len: (stop - cur) as u64,
            },
        ] + pieces(regions, stop as u64, end)
    } else {
        proof {
            lemma_next_start(regions, cur, end, regions.len() as int);
        }
        pieces(regions, next_start(regions, cur, end, regions.len() as int), end)
    }
}

/// The file offset behind a run whose last page is at `last`. No region reaches the largest
/// offset, so that a run need not go beyond it.
pub open spec fn run_limit(last: u64, ps: int) -> u64 {
    math::min(last + ps, u64::MAX as int) as u64
}

/// The ranges for the pages listed from index `i` on.
pub open spec fn ranges_from(regions: Seq<FileRegion>, offs: Seq<u64>, ps: int, i: int) -> Seq<
    HostRange,
>
    decreases offs.len() - i,
{
    if i < 0 || i >= offs.len() {
        Seq::empty()
    } else {
        proof {
            lemma_run_end(offs, i + 1, ps);
        }
        let j = run_end(offs, i + 1, ps);
        pieces(regions, offs[i], run_limit(offs[j - 1], ps)) + ranges_from(regions, offs, ps, j)
    }
}

/// The ranges for all pages listed.
pub open spec fn ranges_of(regions: Seq<FileRegion>, offs: Seq<u64>, ps: int) -> Seq<HostRange> {
    ranges_from(regions, offs, ps, 0)
}

/// The number of whole pages in the first `n` ranges.
pub open spec fn pages_in(ranges: Seq<HostRange>, ps: int, n: int) -> int
    decreases n,
{
    if n <= 0 {
        0
    } else {
        pages_in(ranges, ps, n - 1) + ranges[n - 1].len as int / ps
    }
}

/// The offsets within a run of consecutive pages are one page apart.
pub proof fn lemma_run_end(offs: Seq<u64>, i: int, ps: int)
    requires
        0 < i <= offs.len(),
    ensures
        i <= run_end(offs, i, ps) <= offs.len(),
        forall|q: int|
            #![trigger offs[q]]
            i - 1 <= q < run_end(offs, i, ps) ==> offs[q] == offs[i - 1] + (q - (i - 1)) * ps,
        run_end(offs, i, ps) < offs.len() ==> offs[run_end(offs, i, ps)] != offs[run_end(
            offs,
            i,
            ps,
        ) - 1] + ps,
    decreases offs.len() - i,
{
    assert(0 * ps == 0) by (nonlinear_arith);
    if i < offs.len() && offs[i] == offs[i - 1] + ps {
        lemma_run_end(offs, i + 1, ps);
        assert forall|q: int|
            #![trigger offs[q]]
            i - 1 <= q < run_end(offs, i, ps) implies offs[q] == offs[i - 1] + (q - (i - 1))
            * ps by {
            assert((q - (i - 1)) * ps == (q - i) * ps + ps) by (nonlinear_arith);
        }
    }
}

/// The next start lies above `cur`, and no region starts between the two.
pub proof fn lemma_next_start(regions: Seq<FileRegion>, cur: u64, end: u64, k: int)
    requires
        cur < end,
        0 <= k <= regions.len(),
    ensures
        cur < next_start(regions, cur, end, k) <= end,
        next_start(regions, cur, end, k) == end || exists|m: int|
            0 <= m < k && (#[trigger] regions[m]).offset == next_start(regions, cur, end, k),
        forall|m: int|
            0 <= m < k ==> !(cur < (#[trigger] regions[m]).offset < next_start(
                regions,
                cur,
                end,
                k,
            )),
    decreases k,
{
    if k > 0 {
        lemma_next_start(regions, cur, end, k - 1);
        assert(regions[k - 1].offset == regions[k - 1].offset);
    }
}

/// Where no region holds `cur`, none holds a byte before the next start.
proof fn lemma_gap(regions: Seq<FileRegion>, cur: u64, end: u64, byte: u64)
    requires
        cur < end,
        !memory::is_located(regions, cur),
        cur <= byte < next_start(regions, cur, end, regions.len() as int),
    ensures
        !memory::is_located(regions, byte),
{
    lemma_next_start(regions, cur, end, regions.len() as int);
    memory::law_located_is_first(regions, cur, 0);
    memory::law_located_is_first(regions, byte, 0);
    if memory::is_located(regions, byte) {
        let m = memory::located(regions, byte);
        assert(regions[m].holds(byte));
        assert(!regions[m].holds(cur));
    }
}

/// Whether `range` lies within one of the regions, at the host address where that is mapped.
pub open spec fn lies_within(regions: Seq<FileRegion>, range: HostRange) -> bool {
    exists|k: int| 0 <= k < regions.len() && range.is_within(#[trigger] regions[k])
}

/// The pieces of a run: each is non-empty, within the run and within a region, and each starts
/// where the one before it ends or later.
proof fn lemma_pieces(regions: Seq<FileRegion>, cur: u64, end: u64)
    requires
        memory::all_fit(regions),
    ensures
        forall|r: int|
            #![trigger pieces(regions, cur, end)[r]]
            0 <= r < pieces(regions, cur, end).len() ==> {
                let piece = pieces(regions, cur, end)[r];
                &&& piece.len > 0
                &&& cur <= piece.offset
                &&& piece.end() <= end
                &&& lies_within(regions, piece)
            },
        forall|r: int, s: int|
            0 <= r < s < pieces(regions, cur, end).len() ==> (#[trigger] pieces(
                regions,
                cur,
                end,
            )[r]).end() <= (#[trigger] pieces(regions, cur, end)[s]).offset,
    decreases end - cur,
{
    if cur < end {
        memory::law_located_is_first(regions, cur, 0);
        if memory::is_located(regions, cur) {
            let k = memory::located(regions, cur);
            let region = regions[k];
            assert(region.fits());
            let stop = math::min(end as int, region.end()) as u64;
            lemma_pieces(regions, stop, end);
            let all = pieces(regions, cur, end);
            let rest = pieces(regions, stop, end);
            let head = HostRange {
                offset: cur,
                addr: region.host_of(cur) as u64,
                len: (stop - cur) as u64,
            };
            assert(all == seq![head] + rest);
            assert(head.is_within(regions[k]));
            assert forall|r: int| #![trigger all[r]] 0 <= r < all.len() implies all[r].len > 0
                && cur <= all[r].offset && all[r].end() <= end && lies_within(regions, all[r]) by {
                if r > 0 {
                    assert(all[r] == rest[r - 1]);
                }
            }
            assert forall|r: int, s: int| 0 <= r < s < all.len() implies (#[trigger] all[r]).end()
                <= (#[trigger] all[s]).offset by {
                assert(all[s] == rest[s - 1]);
                if r > 0 {
                    assert(all[r] == rest[r - 1]);
                }
            }
        } else {
            let next = next_start(regions, cur, end, regions.len() as int);
            lemma_next_start(regions, cur, end, regions.len() as int);
            lemma_pieces(regions, next, end);
            assert(pieces(regions, cur, end) == pieces(regions, next, end));
        }
    }
}

/// Every byte of a run that some region holds lies in one of the pieces.
proof fn lemma_pieces_cover(regions: Seq<FileRegion>, cur: u64, end: u64, byte: u64)
    requires
        memory::all_fit(regions),
        cur <= byte < end,
        memory::is_located(regions, byte),
    ensures
        exists|r: int|
            0 <= r < pieces(regions, cur, end).len() && (#[trigger] pieces(
                regions,
                cur,
                end,
            )[r]).covers(byte as int),
    decreases end - cur,
{
    memory::law_located_is_first(regions, cur, 0);
    if memory::is_located(regions, cur) {
        let region = regions[memory::located(regions, cur)];
        assert(region.fits());
        let stop = math::min(end as int, region.end()) as u64;
        let all = pieces(regions, cur, end);
        let rest = pieces(regions, stop, end);
        if byte < stop {
            assert(all[0].covers(byte as int));
        } else {
            lemma_pieces_cover(regions, stop, end, byte);
            let r = choose|r: int| 0 <= r < rest.len() && (#[trigger] rest[r]).covers(byte as int);
            assert(all[r + 1] == rest[r]);
        }
    } else {
        let next = next_start(regions, cur, end, regions.len() as int);
        lemma_next_start(regions, cur, end, regions.len() as int);
        if byte < next {
            lemma_gap(regions, cur, end, byte);
        }
        lemma_pieces_cover(regions, next, end, byte);
        assert(pieces(regions, cur, end) == pieces(regions, next, end));
    }
}

/// Every range is non-empty and lies within one of the regions, at the host address where that
/// region is mapped: working on it touches no memory outside guest memory.
pub proof fn law_ranges_lie_within_regions(regions: Seq<FileRegion>, offs: Seq<u64>, ps: int)
    requires
        memory::all_fit(regions),
        ps > 0,
    ensures
        forall|r: int|
            #![trigger ranges_of(regions, offs, ps)[r]]
            0 <= r < ranges_of(regions, offs, ps).len() ==> ranges_of(regions, offs, ps)[r].len > 0
                && lies_within(regions, ranges_of(regions, offs, ps)[r]),
{
    lemma_ranges_within(regions, offs, ps, 0);
}

proof fn lemma_ranges_within(regions: Seq<FileRegion>, offs: Seq<u64>, ps: int, i: int)
    requires
        memory::all_fit(regions),
        ps > 0,
        0 <= i <= offs.len(),
    ensures
        forall|r: int|
            #![trigger ranges_from(regions, offs, ps, i)[r]]
            0 <= r < ranges_from(regions, offs, ps, i).len() ==> ranges_from(
                regions,
                offs,
                ps,
                i,
            )[r].len > 0 && lies_within(regions, ranges_from(regions, offs, ps, i)[r]),
    decreases offs.len() - i,
{
    if i < offs.len() {
        let j = run_end(offs, i + 1, ps);
        lemma_run_end(offs, i + 1, ps);
        let head = pieces(regions, offs[i], run_limit(offs[j - 1], ps));
        let tail = ranges_from(regions, offs, ps, j);
        let all = ranges_from(regions, offs, ps, i);
        lemma_pieces(regions, offs[i], run_limit(offs[j - 1], ps));
        lemma_ranges_within(regions, offs, ps, j);
        assert(all == head + tail);
        assert forall|r: int| #![trigger all[r]] 0 <= r < all.len() implies all[r].len > 0
            && lies_within(regions, all[r]) by {
            if r < head.len() {
                assert(all[r] == head[r]);
            } else {
                assert(all[r] == tail[r - head.len()]);
            }
        }
    }
}

/// The ranges lie one behind the other: no two have a byte in common.
pub proof fn law_ranges_are_disjoint(regions: Seq<FileRegion>, offs: Seq<u64>, ps: int)
    requires
        memory::all_fit(regions),
        ps > 0,
        offsets::pages_apart(offs, ps),
    ensures
        forall|r: int, s: int|
            0 <= r < s < ranges_of(regions, offs, ps).len() ==> (#[trigger] ranges_of(
                regions,
                offs,
                ps,
            )[r]).end() <= (#[trigger] ranges_of(regions, offs, ps)[s]).offset,
{
    lemma_ranges_disjoint(regions, offs, ps, 0);
}

proof fn lemma_ranges_disjoint(regions: Seq<FileRegion>, offs: Seq<u64>, ps: int, i: int)
    requires
        memory::all_fit(regions),
        ps > 0,
        offsets::pages_apart(offs, ps),
        0 <= i <= offs.len(),
    ensures
        forall|r: int|
            #![trigger ranges_from(regions, offs, ps, i)[r]]
            0 <= r < ranges_from(regions, offs, ps, i).len() ==> i < offs.len() && offs[i]
                <= ranges_from(regions, offs, ps, i)[r].offset,
        forall|r: int, s: int|
            0 <= r < s < ranges_from(regions, offs, ps, i).len() ==> (#[trigger] ranges_from(
                regions,
                offs,
                ps,
                i,
            )[r]).end() <= (#[trigger] ranges_from(regions, offs, ps, i)[s]).offset,
    decreases offs.len() - i,
{
    if i < offs.len() {
        let j = run_end(offs, i + 1, ps);
        lemma_run_end(offs, i + 1, ps);
        let limit = run_limit(offs[j - 1], ps);
        let head = pieces(regions, offs[i], limit);
        let tail = ranges_from(regions, offs, ps, j);
        let all = ranges_from(regions, offs, ps, i);
        lemma_pieces(regions, offs[i], limit);
        lemma_ranges_disjoint(regions, offs, ps, j);
        assert(all == head + tail);
        assert forall|r: int| #![trigger all[r]] 0 <= r < all.len() implies offs[i]
            <= all[r].offset by {
            if r < head.len() {
                assert(all[r] == head[r]);
            } else {
                assert(all[r] == tail[r - head.len()]);
                assert(offs[i] + ps <= offs[j]);
            }
        }
        assert forall|r: int, s: int| 0 <= r < s < all.len() implies (#[trigger] all[r]).end() <= (
        #[trigger] all[s]).offset by {
            if s < head.len() {
                assert(all[r] == head[r] && all[s] == head[s]);
            } else {
                assert(all[s] == tail[s - head.len()]);
                if r < head.len() {
                    assert(all[r] == head[r]);
                    assert(offs[j - 1] + ps <= offs[j]);
                } else {
                    assert(all[r] == tail[r - head.len()]);
                }
            }
        }
    }
}

/// Whether the byte at file offset `byte` belongs to a page listed.
pub open spec fn is_listed(offs: Seq<u64>, ps: int, byte: int) -> bool {
    exists|q: int| 0 <= q < offs.len() && #[trigger] offs[q] <= byte < offs[q] + ps
}

/// Only residual pages are touched: every byte of every range belongs to a page listed.
pub proof fn law_ranges_hold_only_listed_pages(
    regions: Seq<FileRegion>,
    offs: Seq<u64>,
    ps: int,
    r: int,
    byte: int,
)
    requires
        memory::all_fit(regions),
        ps > 0,
        0 <= r < ranges_of(regions, offs, ps).len(),
        ranges_of(regions, offs, ps)[r].covers(byte),
    ensures
        is_listed(offs, ps, byte),
{
    lemma_ranges_listed(regions, offs, ps, 0, r, byte);
}

proof fn lemma_ranges_listed(
    regions: Seq<FileRegion>,
    offs: Seq<u64>,
    ps: int,
    i: int,
    r: int,
    byte: int,
)
    requires
        memory::all_fit(regions),
        ps > 0,
        0 <= i <= offs.len(),
        0 <= r < ranges_from(regions, offs, ps, i).len(),
        ranges_from(regions, offs, ps, i)[r].covers(byte),
    ensures
        is_listed(offs, ps, byte),
    decreases offs.len() - i,
{
    let j = run_end(offs, i + 1, ps);
    lemma_run_end(offs, i + 1, ps);
    let limit = run_limit(offs[j - 1], ps);
    let head = pieces(regions, offs[i], limit);
    let tail = ranges_from(regions, offs, ps, j);
    let all = ranges_from(regions, offs, ps, i);
    lemma_pieces(regions, offs[i], limit);
    assert(all == head + tail);
    if r < head.len() {
        assert(all[r] == head[r]);
        let start = offs[i] as int;
        let k = (byte - start) / ps;
        let q = i + k;
        assert(k * ps <= byte - start < k * ps + ps && 0 <= k) by (nonlinear_arith)
            requires
                k == (byte - start) / ps,
                ps > 0,
                byte >= start,
        ;
        assert(offs[j - 1] == offs[i] + (j - 1 - i) * ps);
        assert(k < j - i) by (nonlinear_arith)
            requires
                k * ps <= byte - start,
                byte - start < (j - 1 - i) * ps + ps,
                ps > 0,
        ;
        assert(offs[q] == offs[i] + (q - i) * ps);
    } else {
        assert(all[r] == tail[r - head.len()]);
        lemma_ranges_listed(regions, offs, ps, j, r - head.len(), byte);
    }
}

/// Whether the byte at file offset `byte` lies in one of the ranges.
pub open spec fn is_covered(ranges: Seq<HostRange>, byte: int) -> bool {
    exists|r: int| 0 <= r < ranges.len() && (#[trigger] ranges[r]).covers(byte)
}

/// Every residual page of guest memory is covered, on either side of a region boundary: the
/// ranges hold the byte that it starts at and every other byte of it that guest memory has.
pub proof fn law_ranges_cover_listed_pages(
    regions: Seq<FileRegion>,
    offs: Seq<u64>,
    ps: int,
    q: int,
)
    requires
        memory::all_fit(regions),
        ps > 0,
        0 <= q < offs.len(),
        memory::is_located(regions, offs[q]),
    ensures
        is_covered(ranges_of(regions, offs, ps), offs[q] as int),
        forall|byte: u64|
            offs[q] <= byte < offs[q] + ps && #[trigger] memory::is_located(regions, byte)
                ==> is_covered(ranges_of(regions, offs, ps), byte as int),
{
    lemma_ranges_cover(regions, offs, ps, 0, q, offs[q]);
    assert forall|byte: u64|
        offs[q] <= byte < offs[q] + ps && #[trigger] memory::is_located(
            regions,
            byte,
        ) implies is_covered(ranges_of(regions, offs, ps), byte as int) by {
        lemma_ranges_cover(regions, offs, ps, 0, q, byte);
    }
}

/// The ranges hold exactly the bytes of guest memory that belong to the pages listed.
pub proof fn law_ranges_are_the_listed_pages(
    regions: Seq<FileRegion>,
    offs: Seq<u64>,
    ps: int,
    byte: u64,
)
    requires
        memory::all_fit(regions),
        ps > 0,
    ensures
        is_covered(ranges_of(regions, offs, ps), byte as int) <==> is_listed(offs, ps, byte as int)
            && memory::is_located(regions, byte),
{
    let ranges = ranges_of(regions, offs, ps);
    if is_covered(ranges, byte as int) {
        let r = choose|r: int| 0 <= r < ranges.len() && (#[trigger] ranges[r]).covers(byte as int);
        law_ranges_hold_only_listed_pages(regions, offs, ps, r, byte as int);
        law_ranges_lie_within_regions(regions, offs, ps);
        assert(lies_within(regions, ranges[r]));
        let k = choose|k: int| 0 <= k < regions.len() && ranges[r].is_within(#[trigger] regions[k]);
        assert(regions[k].holds(byte));
        memory::law_located_is_first(regions, byte, 0);
    }
    if is_listed(offs, ps, byte as int) && memory::is_located(regions, byte) {
        let q = choose|q: int|
            0 <= q < offs.len() && #[trigger] offs[q] <= byte < offs[q] + ps;
        lemma_ranges_cover(regions, offs, ps, 0, q, byte);
    }
}

proof fn lemma_ranges_cover(
    regions: Seq<FileRegion>,
    offs: Seq<u64>,
    ps: int,
    i: int,
    q: int,
    byte: u64,
)
    requires
        memory::all_fit(regions),
        ps > 0,
        0 <= i <= q < offs.len(),
        offs[q] <= byte < offs[q] + ps,
        memory::is_located(regions, byte),
    ensures
        is_covered(ranges_from(regions, offs, ps, i), byte as int),
    decreases offs.len() - i,
{
    let j = run_end(offs, i + 1, ps);
    lemma_run_end(offs, i + 1, ps);
    let limit = run_limit(offs[j - 1], ps);
    let head = pieces(regions, offs[i], limit);
    let tail = ranges_from(regions, offs, ps, j);
    let all = ranges_from(regions, offs, ps, i);
    assert(all == head + tail);
    if q < j {
        assert(offs[q] == offs[i] + (q - i) * ps);
        assert(offs[j - 1] == offs[i] + (j - 1 - i) * ps);
        assert(0 <= (q - i) * ps <= (j - 1 - i) * ps) by (nonlinear_arith)
            requires
                0 <= q - i <= j - 1 - i,
                ps > 0,
        ;
        memory::law_located_is_first(regions, byte, 0);
        assert(regions[memory::located(regions, byte)].fits());
        lemma_pieces_cover(regions, offs[i], limit, byte);
        let r = choose|r: int| 0 <= r < head.len() && (#[trigger] head[r]).covers(byte as int);
        assert(all[r] == head[r]);
    } else {
        lemma_ranges_cover(regions, offs, ps, j, q, byte);
        let r = choose|r: int| 0 <= r < tail.len() && (#[trigger] tail[r]).covers(byte as int);
        assert(all[head.len() + r] == tail[r]);
    }
}

/// Whether every region starts and ends on a page boundary of the file.
pub open spec fn page_granular(regions: Seq<FileRegion>, ps: int) -> bool {
    forall|k: int|
        0 <= k < regions.len() ==> (#[trigger] regions[k]).offset as int % ps == 0
            && regions[k].end() % ps == 0
}

/// How many of the pages listed from index `i` on lie in guest memory.
pub open spec fn pages_located(regions: Seq<FileRegion>, offs: Seq<u64>, i: int) -> int
    decreases offs.len() - i,
{
    if i < 0 || i >= offs.len() {
        0
    } else {
        (if memory::is_located(regions, offs[i]) {
            1int
        } else {
            0int
        }) + pages_located(regions, offs, i + 1)
    }
}

/// How many of the pages at `cur`, `cur + ps` and so on, before `end`, lie in guest memory.
spec fn located_in(regions: Seq<FileRegion>, ps: int, cur: int, end: int) -> int
    decreases (if cur < end { end - cur } else { 0 }),
{
    if cur >= end || ps <= 0 {
        0
    } else {
        (if memory::is_located(regions, cur as u64) {
            1int
        } else {
            0int
        }) + located_in(regions, ps, cur + ps, end)
    }
}

/// A multiple of the page size that lies above another is at least a page above it.
proof fn lemma_next_page(a: int, b: int, ps: int)
    requires
        ps > 0,
        a < b,
        a % ps == 0,
        b % ps == 0,
    ensures
        a + ps <= b,
        (a + ps) % ps == 0,
        (b - a) / ps == 1 + (b - (a + ps)) / ps,
{
    assert(a + ps <= b && (a + ps) % ps == 0) by (nonlinear_arith)
        requires
            ps > 0,
            a < b,
            a % ps == 0,
            b % ps == 0,
    ;
    assert((b - a) / ps == 1 + (b - (a + ps)) / ps) by (nonlinear_arith)
        requires
            ps > 0,
    ;
}

/// Pages that all lie in guest memory are all counted.
proof fn lemma_count_span(regions: Seq<FileRegion>, ps: int, cur: int, stop: int, end: int)
    requires
        ps > 0,
        0 <= cur <= stop <= end <= u64::MAX,
        cur % ps == 0,
        stop % ps == 0,
        forall|x: u64| cur <= x < stop ==> #[trigger] memory::is_located(regions, x),
    ensures
        located_in(regions, ps, cur, end) == (stop - cur) / ps + located_in(
            regions,
            ps,
            stop,
            end,
        ),
    decreases stop - cur,
{
    if cur < stop {
        lemma_next_page(cur, stop, ps);
        assert(memory::is_located(regions, cur as u64));
        lemma_count_span(regions, ps, cur + ps, stop, end);
    } else {
        assert(0int / ps == 0) by (nonlinear_arith)
            requires
                ps > 0,
        ;
    }
}

/// Pages outside guest memory are not counted.
proof fn lemma_count_gap(regions: Seq<FileRegion>, ps: int, cur: int, next: int, end: int)
    requires
        ps > 0,
        0 <= cur,
        next <= end <= u64::MAX,
        cur % ps == 0,
        cur <= next,
        next % ps == 0 || next == end,
        forall|x: u64| cur <= x < next ==> !(#[trigger] memory::is_located(regions, x)),
    ensures
        located_in(regions, ps, cur, end) == located_in(regions, ps, next, end),
    decreases next - cur,
{
    if cur < next {
        assert(!memory::is_located(regions, cur as u64));
        if next % ps == 0 {
            lemma_next_page(cur, next, ps);
        }
        if cur + ps <= next {
            assert((cur + ps) % ps == 0) by (nonlinear_arith)
                requires
                    cur % ps == 0,
                    ps > 0,
            ;
            lemma_count_gap(regions, ps, cur + ps, next, end);
        }
    }
}

/// The pages in two lists of ranges, one behind the other.
proof fn lemma_pages_in_joined(a: Seq<HostRange>, b: Seq<HostRange>, ps: int, n: int)
    requires
        0 <= n <= b.len(),
    ensures
        pages_in(a + b, ps, a.len() + n) == pages_in(a, ps, a.len() as int) + pages_in(b, ps, n),
    decreases n,
{
    if n > 0 {
        lemma_pages_in_joined(a, b, ps, n - 1);
        assert((a + b)[a.len() + n - 1] == b[n - 1]);
    } else {
        lemma_pages_in_prefix(a + b, a, ps, a.len() as int);
    }
}

/// Where regions are whole pages, the pieces of a run hold its pages in guest memory.
proof fn lemma_count_pieces(regions: Seq<FileRegion>, ps: int, cur: u64, end: u64)
    requires
        memory::all_fit(regions),
        page_granular(regions, ps),
        ps > 0,
        cur as int % ps == 0 || cur >= end,
        end as int % ps == 0 || end == u64::MAX,
    ensures
        pages_in(pieces(regions, cur, end), ps, pieces(regions, cur, end).len() as int)
            == located_in(regions, ps, cur as int, end as int),
    decreases end - cur,
{
    if cur < end {
        memory::law_located_is_first(regions, cur, 0);
        if memory::is_located(regions, cur) {
            let k = memory::located(regions, cur);
            let region = regions[k];
            assert(region.fits() && region.end() % ps == 0);
            let stop = math::min(end as int, region.end()) as u64;
            assert(stop as int % ps == 0);
            let rest = pieces(regions, stop, end);
            let head = seq![
                HostRange {
                    offset: cur,
                    addr: region.host_of(cur) as u64,
                    len: (stop - cur) as u64,
                },
            ];
            lemma_count_pieces(regions, ps, stop, end);
            lemma_pages_in_joined(head, rest, ps, rest.len() as int);
            assert forall|x: u64| cur <= x < stop implies #[trigger] memory::is_located(
                regions,
                x,
            ) by {
                memory::law_located_is_first(regions, x, 0);
                assert(regions[k].holds(x));
            }
            lemma_count_span(regions, ps, cur as int, stop as int, end as int);
            assert(pages_in(head, ps, 1) == pages_in(head, ps, 0) + head[0].len as int / ps);
        } else {
            let next = next_start(regions, cur, end, regions.len() as int);
            lemma_next_start(regions, cur, end, regions.len() as int);
            if next != end {
                let m = choose|m: int|
                    0 <= m < regions.len() && (#[trigger] regions[m]).offset == next;
                assert(regions[m].offset as int % ps == 0);
            }
            assert forall|x: u64| cur <= x < next implies !(#[trigger] memory::is_located(
                regions,
                x,
            )) by {
                lemma_gap(regions, cur, end, x);
            }
            lemma_count_gap(regions, ps, cur as int, next as int, end as int);
            lemma_count_pieces(regions, ps, next, end);
        }
    }
}

/// The pages in guest memory of a run, counted from its page `q` on.
proof fn lemma_count_run(regions: Seq<FileRegion>, offs: Seq<u64>, ps: int, i: int, q: int)
    requires
        memory::all_fit(regions),
        ps > 0,
        0 <= i <= q < run_end(offs, i + 1, ps),
        i < offs.len(),
    ensures
        ({
            let j = run_end(offs, i + 1, ps);
            located_in(regions, ps, offs[q] as int, run_limit(offs[j - 1], ps) as int)
                + pages_located(regions, offs, j) == pages_located(regions, offs, q)
        }),
    decreases run_end(offs, i + 1, ps) - q,
{
    let j = run_end(offs, i + 1, ps);
    lemma_run_end(offs, i + 1, ps);
    let limit = run_limit(offs[j - 1], ps) as int;
    memory::law_located_is_first(regions, offs[q], 0);
    if memory::is_located(regions, offs[q]) {
        assert(regions[memory::located(regions, offs[q])].fits());
    }
    if q < j - 1 {
        assert(offs[q] == offs[i] + (q - i) * ps);
        assert(offs[q + 1] == offs[i] + (q + 1 - i) * ps);
        assert(offs[j - 1] == offs[i] + (j - 1 - i) * ps);
        assert((q + 1 - i) * ps == (q - i) * ps + ps) by (nonlinear_arith);
        assert((q + 1 - i) * ps <= (j - 1 - i) * ps) by (nonlinear_arith)
            requires
                q + 1 - i <= j - 1 - i,
                ps > 0,
        ;
        lemma_count_run(regions, offs, ps, i, q + 1);
    } else {
        assert(located_in(regions, ps, offs[q] + ps, limit) == 0);
    }
}

proof fn lemma_count_ranges(regions: Seq<FileRegion>, offs: Seq<u64>, ps: int, i: int)
    requires
        memory::all_fit(regions),
        page_granular(regions, ps),
        ps > 0,
        0 <= i <= offs.len(),
        forall|q: int| 0 <= q < offs.len() ==> (#[trigger] offs[q]) as int % ps == 0,
    ensures
        pages_in(
            ranges_from(regions, offs, ps, i),
            ps,
            ranges_from(regions, offs, ps, i).len() as int,
        ) == pages_located(regions, offs, i),
    decreases offs.len() - i,
{
    if i < offs.len() {
        let j = run_end(offs, i + 1, ps);
        lemma_run_end(offs, i + 1, ps);
        let limit = run_limit(offs[j - 1], ps);
        let head = pieces(regions, offs[i], limit);
        let tail = ranges_from(regions, offs, ps, j);
        let last = offs[j - 1] as int;
        assert(last % ps == 0);
        assert((last + ps) % ps == 0) by (nonlinear_arith)
            requires
                last % ps == 0,
                ps > 0,
        ;
        assert(offs[i] as int % ps == 0);
        lemma_count_pieces(regions, ps, offs[i], limit);
        lemma_count_run(regions, offs, ps, i, i);
        lemma_count_ranges(regions, offs, ps, j);
        lemma_pages_in_joined(head, tail, ps, tail.len() as int);
    }
}

/// Where regions are whole pages, the pages counted are the pages listed that lie in guest
/// memory.
pub proof fn law_page_count_is_exact(regions: Seq<FileRegion>, offs: Seq<u64>, ps: int)
    requires
        memory::all_fit(regions),
        page_granular(regions, ps),
        ps > 0,
        forall|q: int| 0 <= q < offs.len() ==> (#[trigger] offs[q]) as int % ps == 0,
    ensures
        pages_in(
            ranges_of(regions, offs, ps),
            ps,
            ranges_of(regions, offs, ps).len() as int,
        ) == pages_located(regions, offs, 0),
{
    lemma_count_ranges(regions, offs, ps, 0);
}

/// A longer list of ranges holds the same pages in its first part.
proof fn lemma_pages_in_prefix(a: Seq<HostRange>, b: Seq<HostRange>, ps: int, n: int)
    requires
        n <= a.len(),
        n <= b.len(),
        forall|r: int| 0 <= r < n ==> a[r] == b[r],
    ensures
        pages_in(a, ps, n) == pages_in(b, ps, n),
    decreases n,
{
    if n > 0 {
        lemma_pages_in_prefix(a, b, ps, n - 1);
    }
}

/// Each piece lies in the first region that holds its start, and goes on to that region's end
/// unless the run ends before.
proof fn lemma_pieces_are_whole(regions: Seq<FileRegion>, cur: u64, end: u64, r: int)
    requires
        memory::all_fit(regions),
        0 <= r < pieces(regions, cur, end).len(),
    ensures
        ({
            let piece = pieces(regions, cur, end)[r];
            let k = memory::located(regions, piece.offset);
            &&& 0 <= k < regions.len()
            &&& piece.len > 0
            &&& piece.is_within(regions[k])
            &&& piece.end() == end || piece.end() == regions[k].end()
        }),
    decreases end - cur,
{
    memory::law_located_is_first(regions, cur, 0);
    if memory::is_located(regions, cur) {
        let region = regions[memory::located(regions, cur)];
        assert(region.fits());
        let stop = math::min(end as int, region.end()) as u64;
        let rest = pieces(regions, stop, end);
        if r > 0 {
            assert(pieces(regions, cur, end)[r] == rest[r - 1]);
            lemma_pieces_are_whole(regions, stop, end, r - 1);
        }
    } else {
        let next = next_start(regions, cur, end, regions.len() as int);
        lemma_next_start(regions, cur, end, regions.len() as int);
        assert(pieces(regions, cur, end) == pieces(regions, next, end));
        lemma_pieces_are_whole(regions, next, end, r);
    }
}

/// Each range is a piece of a run, which ends behind one of the pages listed, with no page listed
/// right behind that.
proof fn lemma_ranges_are_whole(regions: Seq<FileRegion>, offs: Seq<u64>, ps: int, i: int, r: int)
    requires
        memory::all_fit(regions),
        ps > 0,
        offsets::pages_apart(offs, ps),
        0 <= i <= offs.len(),
        0 <= r < ranges_from(regions, offs, ps, i).len(),
    ensures
        ({
            let range = ranges_from(regions, offs, ps, i)[r];
            let k = memory::located(regions, range.offset);
            &&& 0 <= k < regions.len()
            &&& range.len > 0
            &&& range.is_within(regions[k])
            &&& range.end() == regions[k].end() || !is_listed(offs, ps, range.end())
        }),
    decreases offs.len() - i,
{
    let j = run_end(offs, i + 1, ps);
    lemma_run_end(offs, i + 1, ps);
    let limit = run_limit(offs[j - 1], ps);
    let head = pieces(regions, offs[i], limit);
    let tail = ranges_from(regions, offs, ps, j);
    let all = ranges_from(regions, offs, ps, i);
    assert(all == head + tail);
    if r < head.len() {
        assert(all[r] == head[r]);
        lemma_pieces_are_whole(regions, offs[i], limit, r);
        let range = all[r];
        let k = memory::located(regions, range.offset);
        assert(regions[k].fits());
        if range.end() != regions[k].end() {
            assert(range.end() == offs[j - 1] + ps);
            assert forall|q: int| 0 <= q < offs.len() implies !(#[trigger] offs[q] <= range.end()
                < offs[q] + ps) by {
                if q < j - 1 {
                    assert(offs[q] + ps <= offs[j - 1]);
                }
                if q >= j {
                    assert(offs[j - 1] + ps <= offs[j]);
                    if q > j {
                        assert(offs[j] + ps <= offs[q]);
                    }
                }
            }
        }
    } else {
        assert(all[r] == tail[r - head.len()]);
        lemma_ranges_are_whole(regions, offs, ps, j, r - head.len());
    }
}

/// A byte lies in one of the ranges exactly when it lies in a page listed and in a region, however
/// far into guest memory it is and whatever other pages are listed.
pub proof fn law_bytes_in_ranges(regions: Seq<FileRegion>, offs: Seq<u64>, ps: int, byte: u64)
    requires
        memory::all_fit(regions),
        ps > 0,
    ensures
        (exists|r: int|
            0 <= r < ranges_of(regions, offs, ps).len() && (#[trigger] ranges_of(
                regions,
                offs,
                ps,
            )[r]).offset <= byte < ranges_of(regions, offs, ps)[r].offset + ranges_of(
                regions,
                offs,
                ps,
            )[r].len) <==> {
            &&& exists|q: int| 0 <= q < offs.len() && #[trigger] offs[q] <= byte < offs[q] + ps
            &&& exists|k: int|
                0 <= k < regions.len() && (#[trigger] regions[k]).offset <= byte
                    < regions[k].offset + regions[k].size
        },
{
    let ranges = ranges_of(regions, offs, ps);
    law_ranges_are_the_listed_pages(regions, offs, ps, byte);
    memory::law_located_in_the_first_region_around(regions, byte);
    if is_covered(ranges, byte as int) {
        let r = choose|r: int| 0 <= r < ranges.len() && (#[trigger] ranges[r]).covers(byte as int);
        assert(ranges[r].offset <= byte < ranges[r].offset + ranges[r].len);
    }
    if exists|r: int|
        0 <= r < ranges.len() && (#[trigger] ranges[r]).offset <= byte < ranges[r].offset
            + ranges[r].len {
        let r = choose|r: int|
            0 <= r < ranges.len() && (#[trigger] ranges[r]).offset <= byte < ranges[r].offset
                + ranges[r].len;
        assert(ranges[r].covers(byte as int));
    }
}

/// Each range lies within the first region around its start, at the address where that region has
/// it, and no range could be longer: it ends with that region, or no page listed holds the byte
/// behind it.
pub proof fn law_ranges_are_in_place(
    regions: Seq<FileRegion>,
    offs: Seq<u64>,
    ps: int,
    r: int,
)
    requires
        memory::all_fit(regions),
        ps > 0,
        forall|p: int, q: int|
            0 <= p < q < offs.len() ==> #[trigger] offs[p] + ps <= #[trigger] offs[q],
        0 <= r < ranges_of(regions, offs, ps).len(),
    ensures
        ({
            let range = ranges_of(regions, offs, ps)[r];
            exists|k: int|
                0 <= k < regions.len() && range.addr - (#[trigger] regions[k]).host_addr
                    == range.offset - regions[k].offset && regions[k].offset <= range.offset
                    && range.offset < range.offset + range.len <= regions[k].offset
                    + regions[k].size && (forall|j: int|
                    0 <= j < k ==> !((#[trigger] regions[j]).offset <= range.offset
                        < regions[j].offset + regions[j].size)) && (range.offset + range.len
                    == regions[k].offset + regions[k].size || forall|q: int|
                    0 <= q < offs.len() ==> !(#[trigger] offs[q] <= range.offset + range.len
                        < offs[q] + ps))
        }),
        r > 0 ==> ranges_of(regions, offs, ps)[r - 1].offset + ranges_of(
            regions,
            offs,
            ps,
        )[r - 1].len <= ranges_of(regions, offs, ps)[r].offset,
{
    let range = ranges_of(regions, offs, ps)[r];
    let k = memory::located(regions, range.offset);
    lemma_ranges_are_whole(regions, offs, ps, 0, r);
    memory::law_located_in_the_first_region_around(regions, range.offset);
    law_ranges_are_disjoint(regions, offs, ps);
    assert(range.addr - regions[k].host_addr == range.offset - regions[k].offset);
    if range.offset + range.len != regions[k].offset + regions[k].size {
        assert(!is_listed(offs, ps, range.end()));
    }
    if r > 0 {
        assert(ranges_of(regions, offs, ps)[r - 1].end() <= range.offset);
    }
}

/// The pages counted are, for each range, as many as fit into it.
pub proof fn law_pages_are_counted_by_range(ranges: Seq<HostRange>, ps: int, n: int)
    requires
        0 <= n <= ranges.len(),
    ensures
        pages_in(ranges, ps, n) == ranges.subrange(0, n).fold_left(
            0int,
            |sum: int, range: HostRange| sum + range.len as int / ps,
        ),
    decreases n,
{
    if n > 0 {
        law_pages_are_counted_by_range(ranges, ps, n - 1);
        assert(ranges.subrange(0, n).drop_last() =~= ranges.subrange(0, n - 1));
    }
}

/// The smallest offset above `cur` at which a region starts, or `end` when none starts before.
fn find_next_start(regions: &Vec<FileRegion>, cur: u64, end: u64) -> (next: u64)
    ensures
        next == next_start(regions@, cur, end, regions@.len() as int),
{
    let mut next: u64 = end;
    let mut k: usize = 0;
    while k < regions.len()
        invariant
            k <= regions.len(),
            next == next_start(regions@, cur, end, k as int),
        decreases regions.len() - k,
    {
        let offset: u64 = regions[k].offset;
        if cur < offset && offset < next {
            next = offset;
        }
        k = k + 1;
    }
    next
}

/// Adds the ranges for the bytes from file offset `start` up to `end`, and returns how many whole
/// pages they hold.
fn add_pieces(
    regions: &Vec<FileRegion>,
    start: u64,
    end: u64,
    ps: u64,
    ranges: &mut Vec<HostRange>,
) -> (pages: u64)
    requires
        memory::all_fit(regions@),
        ps > 0,
    ensures
        final(ranges)@ == old(ranges)@ + pieces(regions@, start, end),
        pages == pages_in(
            pieces(regions@, start, end),
            ps as int,
            pieces(regions@, start, end).len() as int,
        ),
        pages * ps <= math::max(end - start, 0),
{
    let ghost before = ranges@;
    let ghost all = pieces(regions@, start, end);
    let ghost mut done: Seq<HostRange> = Seq::empty();
    let mut pages: u64 = 0;
    let mut cur: u64 = start;
    assert(ranges@ =~= before + done);
    assert(done + pieces(regions@, cur, end) =~= all);
    assert(0 * ps == 0) by (nonlinear_arith);
    while cur < end
        invariant
            memory::all_fit(regions@),
            ps > 0,
            start <= cur,
            cur <= end || start > end,
            all == pieces(regions@, start, end),
            ranges@ == before + done,
            done + pieces(regions@, cur, end) == all,
            pages == pages_in(done, ps as int, done.len() as int),
            pages * ps <= cur - start,
        decreases end - cur,
    {
        match locate(regions, cur) {
            Some(region) => {
                let region_end: u64 = region.offset + region.size;
                let stop: u64 = if region_end < end {
                    region_end
                } else {
                    end
                };
                let range: HostRange = HostRange {
                    offset: cur,
                    addr: region.host_addr + (cur - region.offset),
                    len: stop - cur,
                };
                proof {
                    let rest = pieces(regions@, stop, end);
                    assert(pieces(regions@, cur, end) == seq![range] + rest);
                    assert(done + (seq![range] + rest) =~= done.push(range) + rest);
                    assert(ranges@.push(range) =~= before + done.push(range));
                    lemma_pages_in_prefix(done, done.push(range), ps as int, done.len() as int);
                    let len = range.len as int;
                    let p = pages as int;
                    let z = ps as int;
                    assert((p + len / z) * z <= p * z + len && len / z <= len) by (nonlinear_arith)
                        requires
                            z > 0,
                            len >= 0,
                    ;
                    assert(p + len / z <= (p + len / z) * z) by (nonlinear_arith)
                        requires
                            z > 0,
                            p >= 0,
                            len >= 0,
                    ;
                }
                ranges.push(range);
                pages = pages + range.len / ps;
                proof {
                    done = done.push(range);
                }
                cur = stop;
            },
            None => {
                proof {
                    lemma_next_start(regions@, cur, end, regions@.len() as int);
                }
                cur = find_next_start(regions, cur, end);
            },
        }
    }
    assert(done + pieces(regions@, cur, end) =~= done);
    pages
}

/// The ranges for the pages that a page-offset file with these contents lists.
pub fn residual_ranges(
    mappings: &Vec<GuestRegionUffdMapping>,
    contents: &[u8],
    page_size: usize,
) -> (residual: ResidualRanges)
    requires
        page_size > 0,
        memory::all_fit(memory::mapped_regions(mappings@)),
    ensures
        residual.ranges@ == ranges_of(
            memory::mapped_regions(mappings@),
            offsets::page_offsets(contents@, page_size as u64),
            page_size as int,
        ),
        residual.pages == pages_in(
            residual.ranges@,
            page_size as int,
            residual.ranges@.len() as int,
        ),
{
    let ps: u64 = page_size as u64;
    let regions: Vec<FileRegion> = regions_in(mappings);
    let offs: Vec<u64> = read_page_offsets(contents, ps);
    proof {
        offsets::law_page_offsets_increase(contents@, ps);
    }
    let mut ranges: Vec<HostRange> = Vec::new();
    let mut pages: u64 = 0;
    let mut i: usize = 0;
    assert(ranges@ + ranges_from(regions@, offs@, ps as int, 0) =~= ranges_of(
        regions@,
        offs@,
        ps as int,
    ));
    while i < offs.len()
        invariant
            i <= offs.len(),
            ps > 0,
            memory::all_fit(regions@),
            offsets::strictly_increasing(offs@),
            ranges@ + ranges_from(regions@, offs@, ps as int, i as int) == ranges_of(
                regions@,
                offs@,
                ps as int,
            ),
            pages == pages_in(ranges@, ps as int, ranges@.len() as int),
            pages <= i,
        decreases offs.len() - i,
    {
        let start: u64 = offs[i];
        let mut j: usize = i + 1;
        while j < offs.len() && offs[j] - offs[j - 1] == ps
            invariant
                i < j <= offs.len(),
                offsets::strictly_increasing(offs@),
                run_end(offs@, i + 1, ps as int) == run_end(offs@, j as int, ps as int),
            decreases offs.len() - j,
        {
            j = j + 1;
        }
        let last: u64 = offs[j - 1];
        let limit: u64 = if last > u64::MAX - ps {
            u64::MAX
        } else {
            last + ps
        };
        let ghost before = ranges@;
        let ghost head = pieces(regions@, start, limit);
        let ghost rest = ranges_from(regions@, offs@, ps as int, j as int);
        let added: u64 = add_pieces(&regions, start, limit, ps, &mut ranges);
        proof {
            lemma_run_end(offs@, i + 1, ps as int);
            assert(offs@[i as int] <= offs@[j - 1]);
            assert(limit == run_limit(last, ps as int));
            assert(before + (head + rest) == ranges_of(regions@, offs@, ps as int));
            assert(before + (head + rest) =~= (before + head) + rest);
            lemma_pages_in_joined(before, head, ps as int, head.len() as int);
            assert(last == start + (j - 1 - i) * ps);
            let n = added as int;
            let k = j - i;
            let z = ps as int;
            assert(n <= k) by (nonlinear_arith)
                requires
                    n * z <= (k - 1) * z + z,
                    z > 0,
            ;
        }
        pages = pages + added;
        i = j;
    }
    assert(ranges@ + ranges_from(regions@, offs@, ps as int, i as int) =~= ranges@);
    ResidualRanges { ranges, pages }
}

/// The regions that mappings speak of.
fn regions_in(mappings: &Vec<GuestRegionUffdMapping>) -> (regions: Vec<FileRegion>)
    ensures
        regions@ == memory::mapped_regions(mappings@),
{
    let mut regions: Vec<FileRegion> = Vec::with_capacity(mappings.len());
    let mut i: usize = 0;
    while i < mappings.len()
        invariant
            i <= mappings.len(),
            regions@ == memory::mapped_regions(mappings@).subrange(0, i as int),
        decreases mappings.len() - i,
    {
        regions.push(mappings[i].to_file_region());
        i = i + 1;
        assert(regions@ =~= memory::mapped_regions(mappings@).subrange(0, i as int));
    }
    assert(regions@ =~= memory::mapped_regions(mappings@));
    regions
}

} // verus!
