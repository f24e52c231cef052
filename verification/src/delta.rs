//! Applying a delta file to guest memory before the guest resumes: which runs of pages are read
//! from the file, where they are copied to, and how the runs are shared out among workers.
use vstd::arithmetic::power2;
use vstd::math;
use vstd::prelude::*;

use crate::memory;
use crate::memory::{lay_out, locate, FileRegion, GuestRegionMmap};
use crate::offsets;
use crate::offsets::read_page_offsets;

verus! {

broadcast use {vstd::seq::group_seq_axioms, vstd::map::group_map_axioms};

/// The size in bytes of the pages that a delta file holds.
pub const DELTA_PAGE_BYTES: u64 = 4096;

/// The largest run in bytes: large enough to make few reads, small enough for a worker's buffer.
pub const MAX_RUN_BYTES: u64 = 0x40_0000;

/// The most workers that share the runs.
pub const MAX_WORKERS: usize = 8;

/// Pages that are read from the delta file, and copied to guest memory, in one go.
#[derive(Clone, Copy, Debug, PartialEq, Eq, Structural)]
pub struct DeltaRun {
    /// Where the pages start in the delta file.
    pub file_off: u64,
    /// The host address they are copied to.
    pub host: u64,
    /// Size in bytes.
    pub len: u64,
}

impl DeltaRun {
    /// Whether a page at file offset `offset`, mapped at host address `host`, continues the run
    /// in the file and in host memory and leaves it no larger than a run may be.
    pub open spec fn continued_by(self, offset: u64, host: int) -> bool {
        &&& self.file_off + self.len == offset
        &&& self.host + self.len == host
        &&& self.len + DELTA_PAGE_BYTES <= MAX_RUN_BYTES
    }

    /// Whether the run is made of whole pages, at least one, and no larger than a run may be.
    pub open spec fn is_sized(self) -> bool {
        &&& self.len as int % DELTA_PAGE_BYTES as int == 0
        &&& DELTA_PAGE_BYTES <= self.len <= MAX_RUN_BYTES
    }

    /// The pages of the run, each with its file offset and host address.
    pub open spec fn pages(self) -> Seq<(int, int)> {
        Seq::new(
            (self.len as int / DELTA_PAGE_BYTES as int) as nat,
            |k: int| (self.file_off + k * DELTA_PAGE_BYTES, self.host + k * DELTA_PAGE_BYTES),
        )
    }
}

/// The host address at which the byte at a located file offset is mapped.
pub open spec fn host_at(regions: Seq<FileRegion>, offset: u64) -> int {
    regions[memory::located(regions, offset)].host_of(offset)
}

/// The runs for the first `n` offsets: an offset outside every region is left out, one that
/// continues the last run is added to it, and any other starts a run.
pub open spec fn runs_of(regions: Seq<FileRegion>, offs: Seq<u64>, n: int) -> Seq<DeltaRun>
    decreases n,
{
    if n <= 0 {
        Seq::empty()
    } else {
        let runs = runs_of(regions, offs, n - 1);
        let offset = offs[n - 1];
        let host = host_at(regions, offset);
        if !memory::is_located(regions, offset) {
            runs
        } else if runs.len() > 0 && runs[runs.len() - 1].continued_by(offset, host) {
            let last = runs[runs.len() - 1];
            runs.update(
                runs.len() - 1,
                DeltaRun {
                    file_off: last.file_off,
                    host: last.host,
                    len: (last.len + DELTA_PAGE_BYTES) as u64,
                },
            )
        } else {
            runs.push(DeltaRun { file_off: offset, host: host as u64, len: DELTA_PAGE_BYTES })
        }
    }
}

/// The pages among the first `n` offsets that some region holds, each with its host address.
pub open spec fn located_pages(regions: Seq<FileRegion>, offs: Seq<u64>, n: int) -> Seq<(int, int)>
    decreases n,
{
    if n <= 0 {
        Seq::empty()
    } else if memory::is_located(regions, offs[n - 1]) {
        located_pages(regions, offs, n - 1).push(
            (offs[n - 1] as int, host_at(regions, offs[n - 1])),
        )
    } else {
        located_pages(regions, offs, n - 1)
    }
}

/// The pages of the first `n` runs, one run after the other.
pub open spec fn pages_of_runs(runs: Seq<DeltaRun>, n: int) -> Seq<(int, int)>
    decreases n,
{
    if n <= 0 {
        Seq::empty()
    } else {
        pages_of_runs(runs, n - 1) + runs[n - 1].pages()
    }
}

/// The pages of the first runs do not depend on the later ones.
proof fn lemma_pages_of_prefix(a: Seq<DeltaRun>, b: Seq<DeltaRun>, n: int)
    requires
        n <= a.len(),
        n <= b.len(),
        forall|r: int| 0 <= r < n ==> a[r] == b[r],
    ensures
        pages_of_runs(a, n) == pages_of_runs(b, n),
    decreases n,
{
    if n > 0 {
        lemma_pages_of_prefix(a, b, n - 1);
    }
}

/// The runs are made of whole pages, at least one each, none is larger than a run may be, and
/// no run continues the one before it: pages are joined wherever they can be.
pub proof fn law_runs_are_maximal(regions: Seq<FileRegion>, offs: Seq<u64>, n: int)
    requires
        memory::all_fit(regions),
        0 <= n <= offs.len(),
    ensures
        forall|r: int|
            0 <= r < runs_of(regions, offs, n).len() ==> (#[trigger] runs_of(
                regions,
                offs,
                n,
            )[r]).is_sized(),
        forall|r: int|
            #![trigger runs_of(regions, offs, n)[r]]
            0 < r < runs_of(regions, offs, n).len() ==> !runs_of(regions, offs, n)[r
                - 1].continued_by(
                runs_of(regions, offs, n)[r].file_off,
                runs_of(regions, offs, n)[r].host as int,
            ),
    decreases n,
{
    if n > 0 {
        law_runs_are_maximal(regions, offs, n - 1);
        let before = runs_of(regions, offs, n - 1);
        let runs = runs_of(regions, offs, n);
        let offset = offs[n - 1];
        memory::law_located_is_first(regions, offset, 0);
        if memory::is_located(regions, offset) {
            assert(regions[memory::located(regions, offset)].fits());
        }
        assert forall|r: int| 0 <= r < runs.len() implies (#[trigger] runs[r]).is_sized() by {
            if r < before.len() {
                assert(before[r].is_sized());
            }
        }
        assert forall|r: int| #![trigger runs[r]] 0 < r < runs.len() implies !runs[r
            - 1].continued_by(runs[r].file_off, runs[r].host as int) by {
            if r < before.len() {
                assert(!before[r - 1].continued_by(before[r].file_off, before[r].host as int));
                assert(runs[r - 1] == before[r - 1]);
            }
        }
    }
}

/// The runs hold exactly the pages listed that lie in guest memory, in order and each with the
/// host address where it is mapped: nothing is copied elsewhere, and nothing is left out.
pub proof fn law_runs_hold_the_located_pages(regions: Seq<FileRegion>, offs: Seq<u64>, n: int)
    requires
        memory::all_fit(regions),
        0 <= n <= offs.len(),
    ensures
        pages_of_runs(runs_of(regions, offs, n), runs_of(regions, offs, n).len() as int)
            == located_pages(regions, offs, n),
    decreases n,
{
    if n > 0 {
        law_runs_hold_the_located_pages(regions, offs, n - 1);
        law_runs_are_maximal(regions, offs, n - 1);
        let before = runs_of(regions, offs, n - 1);
        let runs = runs_of(regions, offs, n);
        let offset = offs[n - 1];
        memory::law_located_is_first(regions, offset, 0);
        if memory::is_located(regions, offset) {
            let host = host_at(regions, offset);
            assert(regions[memory::located(regions, offset)].fits());
            let page = (offset as int, host);
            if before.len() > 0 && before[before.len() - 1].continued_by(offset, host) {
                let m = before.len() - 1;
                let last = before[m];
                assert(last.is_sized());
                lemma_pages_of_prefix(before, runs, m);
                assert(runs[m].pages() =~= last.pages().push(page));
                assert(pages_of_runs(runs, m + 1) =~= pages_of_runs(before, m + 1).push(page));
            } else {
                let m = before.len() as int;
                lemma_pages_of_prefix(before, runs, m);
                assert(runs[m].pages() =~= seq![page]);
                assert(pages_of_runs(runs, m + 1) =~= pages_of_runs(before, m).push(page));
            }
        }
    }
}

/// Whether every region ends on a page boundary of the file.
pub open spec fn ends_on_pages(regions: Seq<FileRegion>) -> bool {
    forall|k: int|
        0 <= k < regions.len() ==> (#[trigger] regions[k]).end() % DELTA_PAGE_BYTES as int == 0
}

/// Whether no two regions share host memory.
pub open spec fn hosts_disjoint(regions: Seq<FileRegion>) -> bool {
    forall|j: int, k: int|
        0 <= j < k < regions.len() ==> (#[trigger] regions[j]).host_addr + regions[j].size
            <= (#[trigger] regions[k]).host_addr || regions[k].host_addr + regions[k].size
            <= regions[j].host_addr
}

/// Each page that is copied comes from an offset listed and lies, whole, within one region of
/// guest memory, at the host address where that region is mapped.
pub proof fn law_copied_pages_lie_in_guest_memory(
    regions: Seq<FileRegion>,
    offs: Seq<u64>,
    n: int,
    p: int,
)
    requires
        memory::all_fit(regions),
        ends_on_pages(regions),
        0 <= n <= offs.len(),
        forall|q: int|
            0 <= q < offs.len() ==> (#[trigger] offs[q]) as int % DELTA_PAGE_BYTES as int == 0,
        0 <= p < located_pages(regions, offs, n).len(),
    ensures
        exists|q: int|
            #![trigger offs[q]]
            0 <= q < n && memory::is_located(regions, offs[q]) && located_pages(
                regions,
                offs,
                n,
            )[p] == (offs[q] as int, host_at(regions, offs[q])) && 0 <= memory::located(
                regions,
                offs[q],
            ) && regions[memory::located(regions, offs[q])].holds(offs[q]) && offs[q]
                + DELTA_PAGE_BYTES <= regions[memory::located(regions, offs[q])].end(),
    decreases n,
{
    if p < located_pages(regions, offs, n - 1).len() {
        law_copied_pages_lie_in_guest_memory(regions, offs, n - 1, p);
        let q = choose|q: int|
            #![trigger offs[q]]
            0 <= q < n - 1 && memory::is_located(regions, offs[q]) && located_pages(
                regions,
                offs,
                n - 1,
            )[p] == (offs[q] as int, host_at(regions, offs[q])) && 0 <= memory::located(
                regions,
                offs[q],
            ) && regions[memory::located(regions, offs[q])].holds(offs[q]) && offs[q]
                + DELTA_PAGE_BYTES <= regions[memory::located(regions, offs[q])].end();
        assert(located_pages(regions, offs, n)[p] == (offs[q] as int, host_at(regions, offs[q])));
    } else {
        let offset = offs[n - 1];
        memory::law_located_is_first(regions, offset, 0);
        let region = regions[memory::located(regions, offset)];
        assert(region.end() % DELTA_PAGE_BYTES as int == 0);
    }
}

/// No two pages that are copied share host memory, so that workers may copy them at the same
/// time.
pub proof fn law_copied_pages_are_disjoint(
    regions: Seq<FileRegion>,
    offs: Seq<u64>,
    n: int,
    p: int,
    r: int,
)
    requires
        memory::all_fit(regions),
        ends_on_pages(regions),
        hosts_disjoint(regions),
        0 <= n <= offs.len(),
        offsets::pages_apart(offs, DELTA_PAGE_BYTES as int),
        forall|q: int|
            0 <= q < offs.len() ==> (#[trigger] offs[q]) as int % DELTA_PAGE_BYTES as int == 0,
        0 <= p < r < located_pages(regions, offs, n).len(),
    ensures
        ({
            let a = located_pages(regions, offs, n)[p].1;
            let b = located_pages(regions, offs, n)[r].1;
            a + DELTA_PAGE_BYTES <= b || b + DELTA_PAGE_BYTES <= a
        }),
    decreases n,
{
    if r < located_pages(regions, offs, n - 1).len() {
        law_copied_pages_are_disjoint(regions, offs, n - 1, p, r);
    } else {
        assert(p < located_pages(regions, offs, n - 1).len());
        law_copied_pages_lie_in_guest_memory(regions, offs, n - 1, p);
        let q = choose|q: int|
            #![trigger offs[q]]
            0 <= q < n - 1 && memory::is_located(regions, offs[q]) && located_pages(
                regions,
                offs,
                n - 1,
            )[p] == (offs[q] as int, host_at(regions, offs[q])) && 0 <= memory::located(
                regions,
                offs[q],
            ) && regions[memory::located(regions, offs[q])].holds(offs[q]) && offs[q]
                + DELTA_PAGE_BYTES <= regions[memory::located(regions, offs[q])].end();
        let offset = offs[n - 1];
        memory::law_located_is_first(regions, offset, 0);
        let j = memory::located(regions, offs[q]);
        let k = memory::located(regions, offset);
        assert(regions[k].end() % DELTA_PAGE_BYTES as int == 0);
        assert(offs[q] + DELTA_PAGE_BYTES <= offset);
    }
}

/// Finds the runs of pages to copy from a delta file: `contents` is the file that lists the
/// offsets of its pages.
pub fn delta_runs(guest_memory: &Vec<GuestRegionMmap>, contents: &[u8]) -> (runs: Vec<DeltaRun>)
    requires
        memory::mappable(guest_memory@),
    ensures
        runs@ == runs_of(
            memory::file_layout(guest_memory@),
            offsets::page_offsets(contents@, DELTA_PAGE_BYTES),
            offsets::page_offsets(contents@, DELTA_PAGE_BYTES).len() as int,
        ),
{
    let regions: Vec<FileRegion> = lay_out(guest_memory);
    let offs: Vec<u64> = read_page_offsets(contents, DELTA_PAGE_BYTES);
    let mut runs: Vec<DeltaRun> = Vec::new();
    let mut i: usize = 0;
    while i < offs.len()
        invariant
            i <= offs.len(),
            memory::all_fit(regions@),
            runs@ == runs_of(regions@, offs@, i as int),
        decreases offs.len() - i,
    {
        let offset: u64 = offs[i];
        proof {
            law_runs_are_maximal(regions@, offs@, i as int);
        }
        match locate(&regions, offset) {
            Some(region) => {
                let host: u64 = region.host_addr + (offset - region.offset);
                let count: usize = runs.len();
                let mut joined: bool = false;
                if count > 0 {
                    let last: DeltaRun = runs[count - 1];
                    assert(last.is_sized());
                    if offset >= last.file_off && offset - last.file_off == last.len && host
                        >= last.host && host - last.host == last.len && last.len
                        + DELTA_PAGE_BYTES <= MAX_RUN_BYTES {
                        runs.set(
                            count - 1,
                            DeltaRun {
                                file_off: last.file_off,
                                host: last.host,
                                len: last.len + DELTA_PAGE_BYTES,
                            },
                        );
                        joined = true;
                    }
                }
                if !joined {
                    runs.push(DeltaRun { file_off: offset, host, len: DELTA_PAGE_BYTES });
                }
            },
            None => {},
        }
        i = i + 1;
    }
    runs
}

/// Which offsets become pages: those that lie in guest memory, each with its host address.
pub proof fn lemma_located_pages(regions: Seq<FileRegion>, offs: Seq<u64>, n: int, page: (int, int))
    requires
        0 <= n <= offs.len(),
    ensures
        located_pages(regions, offs, n).contains(page) <==> exists|q: int|
            0 <= q < n && memory::is_located(regions, #[trigger] offs[q]) && page == (
                offs[q] as int,
                host_at(regions, offs[q]),
            ),
    decreases n,
{
    if n > 0 {
        let all = located_pages(regions, offs, n);
        let before = located_pages(regions, offs, n - 1);
        lemma_located_pages(regions, offs, n - 1, page);
        if memory::is_located(regions, offs[n - 1]) {
            let last = (offs[n - 1] as int, host_at(regions, offs[n - 1]));
            assert(all == before.push(last));
            if before.contains(page) {
                let i = before.index_of(page);
                assert(all[i] == page);
            }
            if page == last {
                assert(all[before.len() as int] == page);
            }
            if all.contains(page) {
                let i = all.index_of(page);
                if i < before.len() {
                    assert(before[i] == page);
                }
            }
        }
    }
}

/// Which pages the runs have.
proof fn lemma_pages_of_runs(runs: Seq<DeltaRun>, n: int, page: (int, int))
    requires
        0 <= n <= runs.len(),
        forall|r: int| 0 <= r < runs.len() ==> (#[trigger] runs[r]).is_sized(),
    ensures
        pages_of_runs(runs, n).contains(page) <==> exists|r: int|
            0 <= r < n && (#[trigger] runs[r]).file_off <= page.0 < runs[r].file_off + runs[r].len
                && (page.0 - runs[r].file_off) % 4096 == 0 && page.1 - runs[r].host == page.0
                - runs[r].file_off,
    decreases n,
{
    if n > 0 {
        lemma_pages_of_runs(runs, n - 1, page);
        let all = pages_of_runs(runs, n);
        let before = pages_of_runs(runs, n - 1);
        let run = runs[n - 1];
        let last = run.pages();
        assert(run.is_sized());
        assert(all == before + last);
        if before.contains(page) {
            let i = before.index_of(page);
            assert(all[i] == page);
        }
        if run.file_off <= page.0 < run.file_off + run.len && (page.0 - run.file_off) % 4096 == 0
            && page.1 - run.host == page.0 - run.file_off {
            let k = (page.0 - run.file_off) / 4096;
            assert(last[k] == page);
            assert(all[before.len() + k] == page);
        }
        if all.contains(page) {
            let i = all.index_of(page);
            if i < before.len() {
                assert(before[i] == page);
            } else {
                let k = i - before.len();
                assert(last[k] == page);
            }
        }
    }
}

/// Every offset listed that some region is around is copied: a run has the page at that offset,
/// and takes it to where the first such region has it.
pub proof fn law_every_listed_page_is_copied(regions: Seq<FileRegion>, offs: Seq<u64>, q: int)
    requires
        memory::all_fit(regions),
        0 <= q < offs.len(),
        memory::is_located(regions, offs[q]),
    ensures
        ({
            let runs = runs_of(regions, offs, offs.len() as int);
            let region = regions[memory::located(regions, offs[q])];
            exists|r: int|
                0 <= r < runs.len() && (#[trigger] runs[r]).file_off <= offs[q] && offs[q] + 4096
                    <= runs[r].file_off + runs[r].len && (offs[q] - runs[r].file_off) % 4096 == 0
                    && runs[r].host + (offs[q] - runs[r].file_off) == region.host_addr + (offs[q]
                    - region.offset)
        }),
{
    let n = offs.len() as int;
    let runs = runs_of(regions, offs, n);
    let page = (offs[q] as int, host_at(regions, offs[q]));
    law_runs_are_maximal(regions, offs, n);
    law_runs_hold_the_located_pages(regions, offs, n);
    lemma_located_pages(regions, offs, n, page);
    lemma_pages_of_runs(runs, runs.len() as int, page);
    let r = choose|r: int|
        0 <= r < runs.len() && (#[trigger] runs[r]).file_off <= page.0 < runs[r].file_off
            + runs[r].len && (page.0 - runs[r].file_off) % 4096 == 0 && page.1 - runs[r].host
            == page.0 - runs[r].file_off;
    assert(runs[r].is_sized());
}

/// Nothing else is copied: each page of a run is at an offset listed that some region is around,
/// and goes to where the first such region has it.
pub proof fn law_only_listed_pages_are_copied(
    regions: Seq<FileRegion>,
    offs: Seq<u64>,
    r: int,
    offset: int,
)
    requires
        memory::all_fit(regions),
        0 <= r < runs_of(regions, offs, offs.len() as int).len(),
        ({
            let run = runs_of(regions, offs, offs.len() as int)[r];
            run.file_off <= offset < run.file_off + run.len && (offset - run.file_off) % 4096 == 0
        }),
    ensures
        ({
            let run = runs_of(regions, offs, offs.len() as int)[r];
            exists|q: int|
                0 <= q < offs.len() && #[trigger] offs[q] == offset && memory::is_located(
                    regions,
                    offs[q],
                ) && run.host + (offset - run.file_off) == regions[memory::located(
                    regions,
                    offs[q],
                )].host_addr + (offset - regions[memory::located(regions, offs[q])].offset)
        }),
{
    let n = offs.len() as int;
    let runs = runs_of(regions, offs, n);
    let page = (offset, runs[r].host + (offset - runs[r].file_off));
    law_runs_are_maximal(regions, offs, n);
    law_runs_hold_the_located_pages(regions, offs, n);
    lemma_pages_of_runs(runs, runs.len() as int, page);
    assert(runs[r].file_off <= page.0);
    lemma_located_pages(regions, offs, n, page);
}

/// The runs are made of whole pages of 4 KiB, from one page to 4 MiB, lie in the file one behind
/// the other, and are as long as they may be: where a run continues the one before it in the file
/// and on the host, that one has 4 MiB.
pub proof fn law_runs_are_few(regions: Seq<FileRegion>, offs: Seq<u64>, n: int, r: int)
    requires
        memory::all_fit(regions),
        0 <= n <= offs.len(),
        forall|p: int, q: int|
            0 <= p < q < offs.len() ==> #[trigger] offs[p] + 4096 <= #[trigger] offs[q],
        0 <= r < runs_of(regions, offs, n).len(),
    ensures
        ({
            let runs = runs_of(regions, offs, n);
            &&& runs[r].len as int % 4096 == 0
            &&& 4096 <= runs[r].len <= 4 * 1024 * 1024
            &&& n > 0 && runs[r].file_off + runs[r].len <= offs[n - 1] + 4096
            &&& r > 0 ==> runs[r - 1].file_off + runs[r - 1].len <= runs[r].file_off
            &&& r > 0 && runs[r - 1].file_off + runs[r - 1].len == runs[r].file_off && runs[r
                - 1].host + runs[r - 1].len == runs[r].host ==> runs[r - 1].len == 4 * 1024 * 1024
        }),
    decreases n,
{
    law_runs_are_maximal(regions, offs, n);
    let runs = runs_of(regions, offs, n);
    assert(runs[r].is_sized());
    if r > 0 {
        assert(runs[r - 1].is_sized());
        assert(!runs[r - 1].continued_by(runs[r].file_off, runs[r].host as int));
    }
    if n > 0 {
        let before = runs_of(regions, offs, n - 1);
        if r < before.len() {
            law_runs_are_few(regions, offs, n - 1, r);
            if n > 1 {
                assert(offs[n - 2] + 4096 <= offs[n - 1]);
            }
        }
        if r > 0 && r - 1 < before.len() {
            law_runs_are_few(regions, offs, n - 1, r - 1);
            if n > 1 {
                assert(offs[n - 2] + 4096 <= offs[n - 1]);
            }
        }
    }
}

/// The number of bytes to copy after a read of a run returned `read`: only whole pages, and
/// nothing when the read failed or found the end of the file.
pub open spec fn copied_bytes(read: int) -> int {
    if read <= 0 {
        0
    } else {
        read / DELTA_PAGE_BYTES as int * DELTA_PAGE_BYTES
    }
}

/// The number of bytes to copy after a read of a run returned `read`.
pub fn full_page_bytes(read: i64) -> (bytes: u64)
    ensures
        bytes == copied_bytes(read as int),
        read < 0 ==> bytes == 0,
        read >= 0 ==> bytes == read - read as int % 4096,
{
    if read <= 0 {
        0
    } else {
        (read as u64 / DELTA_PAGE_BYTES) * DELTA_PAGE_BYTES
    }
}

/// Whatever was read is copied, but for what is left over of whole pages of 4 KiB.
pub proof fn law_whole_pages_of_a_read(read: int)
    ensures
        read < 0 ==> copied_bytes(read) == 0,
        read >= 0 ==> copied_bytes(read) == read - read % 4096,
{
}

/// What a read of `len` bytes at `offset` returns of a file of `size` bytes.
pub open spec fn bytes_available(size: int, offset: int, len: int) -> int {
    if offset >= size {
        0
    } else if size - offset < len {
        size - offset
    } else {
        len
    }
}

/// Of a run read from a delta file of `size` bytes, a page is copied exactly when the file
/// holds it whole, and nothing behind the run is written.
pub proof fn law_whole_pages_are_copied(run: DeltaRun, size: int, k: int)
    requires
        run.is_sized(),
        0 <= k < run.pages().len(),
    ensures
        ({
            let copied = copied_bytes(bytes_available(size, run.file_off as int, run.len as int));
            &&& 0 <= copied <= run.len
            &&& copied % DELTA_PAGE_BYTES as int == 0
            &&& (k * DELTA_PAGE_BYTES < copied <==> run.pages()[k].0 + DELTA_PAGE_BYTES <= size)
        }),
{
}

/// Host memory after a page was copied to it, if the delta file holds the page whole.
pub open spec fn page_copied(mem: Map<int, u8>, delta: Seq<u8>, page: (int, int)) -> Map<int, u8> {
    if page.0 + DELTA_PAGE_BYTES <= delta.len() {
        range_copied(mem, delta, page.0, page.1, DELTA_PAGE_BYTES as int)
    } else {
        mem
    }
}

/// Host memory after `len` bytes from offset `from` of the delta file were copied to address
/// `to`.
pub open spec fn range_copied(
    mem: Map<int, u8>,
    delta: Seq<u8>,
    from: int,
    to: int,
    len: int,
) -> Map<int, u8> {
    Map::new(
        |addr: int| mem.dom().contains(addr),
        |addr: int|
            if to <= addr < to + len {
                delta[from + (addr - to)]
            } else {
                mem[addr]
            },
    )
}

/// Host memory after the first `n` pages were copied to it, one after the other.
pub open spec fn pages_copied(
    mem: Map<int, u8>,
    delta: Seq<u8>,
    pages: Seq<(int, int)>,
    n: int,
) -> Map<int, u8>
    decreases n,
{
    if n <= 0 {
        mem
    } else {
        page_copied(pages_copied(mem, delta, pages, n - 1), delta, pages[n - 1])
    }
}

/// Host memory after a run was read from the delta file and what was read, as far as it is whole
/// pages, was copied.
pub open spec fn run_copied(mem: Map<int, u8>, delta: Seq<u8>, run: DeltaRun) -> Map<int, u8> {
    range_copied(
        mem,
        delta,
        run.file_off as int,
        run.host as int,
        copied_bytes(bytes_available(delta.len() as int, run.file_off as int, run.len as int)),
    )
}

/// Host memory after the first `n` runs were copied to it, one after the other.
pub open spec fn runs_copied(
    mem: Map<int, u8>,
    delta: Seq<u8>,
    runs: Seq<DeltaRun>,
    n: int,
) -> Map<int, u8>
    decreases n,
{
    if n <= 0 {
        mem
    } else {
        run_copied(runs_copied(mem, delta, runs, n - 1), delta, runs[n - 1])
    }
}

/// Copying the first pages of a run, one by one, copies the bytes of those that are whole.
proof fn lemma_run_is_its_pages(mem: Map<int, u8>, delta: Seq<u8>, run: DeltaRun, n: int)
    requires
        run.is_sized(),
        0 <= n <= run.pages().len(),
    ensures
        ({
            let whole = copied_bytes(
                bytes_available(delta.len() as int, run.file_off as int, run.len as int),
            );
            pages_copied(mem, delta, run.pages(), n) == range_copied(
                mem,
                delta,
                run.file_off as int,
                run.host as int,
                math::min(n * DELTA_PAGE_BYTES, whole),
            )
        }),
    decreases n,
{
    let whole = copied_bytes(
        bytes_available(delta.len() as int, run.file_off as int, run.len as int),
    );
    if n == 0 {
        assert(pages_copied(mem, delta, run.pages(), 0) =~= range_copied(
            mem,
            delta,
            run.file_off as int,
            run.host as int,
            0,
        ));
    } else {
        lemma_run_is_its_pages(mem, delta, run, n - 1);
        law_whole_pages_are_copied(run, delta.len() as int, n - 1);
        assert(pages_copied(mem, delta, run.pages(), n) =~= range_copied(
            mem,
            delta,
            run.file_off as int,
            run.host as int,
            math::min(n * DELTA_PAGE_BYTES, whole),
        ));
    }
}

/// Copying two lists of pages, one after the other, is copying them joined.
proof fn lemma_pages_copied_joined(
    mem: Map<int, u8>,
    delta: Seq<u8>,
    a: Seq<(int, int)>,
    b: Seq<(int, int)>,
    n: int,
)
    requires
        0 <= n <= b.len(),
    ensures
        pages_copied(mem, delta, a + b, a.len() + n) == pages_copied(
            pages_copied(mem, delta, a, a.len() as int),
            delta,
            b,
            n,
        ),
    decreases n,
{
    if n == 0 {
        lemma_pages_copied_prefix(mem, delta, a + b, a, a.len() as int);
    } else {
        lemma_pages_copied_joined(mem, delta, a, b, n - 1);
        assert((a + b)[a.len() + n - 1] == b[n - 1]);
    }
}

/// What the first pages do to memory does not depend on the later ones.
proof fn lemma_pages_copied_prefix(
    mem: Map<int, u8>,
    delta: Seq<u8>,
    a: Seq<(int, int)>,
    b: Seq<(int, int)>,
    n: int,
)
    requires
        n <= a.len(),
        n <= b.len(),
        forall|i: int| 0 <= i < n ==> a[i] == b[i],
    ensures
        pages_copied(mem, delta, a, n) == pages_copied(mem, delta, b, n),
    decreases n,
{
    if n > 0 {
        lemma_pages_copied_prefix(mem, delta, a, b, n - 1);
    }
}

/// Copying runs is copying their pages.
proof fn lemma_runs_are_their_pages(
    mem: Map<int, u8>,
    delta: Seq<u8>,
    runs: Seq<DeltaRun>,
    n: int,
)
    requires
        0 <= n <= runs.len(),
        forall|r: int| 0 <= r < runs.len() ==> (#[trigger] runs[r]).is_sized(),
    ensures
        runs_copied(mem, delta, runs, n) == pages_copied(
            mem,
            delta,
            pages_of_runs(runs, n),
            pages_of_runs(runs, n).len() as int,
        ),
    decreases n,
{
    if n > 0 {
        lemma_runs_are_their_pages(mem, delta, runs, n - 1);
        let run = runs[n - 1];
        let before = runs_copied(mem, delta, runs, n - 1);
        let whole = copied_bytes(
            bytes_available(delta.len() as int, run.file_off as int, run.len as int),
        );
        assert(run.is_sized());
        lemma_run_is_its_pages(before, delta, run, run.pages().len() as int);
        law_whole_pages_are_copied(run, delta.len() as int, 0);
        assert(math::min(run.pages().len() * DELTA_PAGE_BYTES, whole) == whole);
        lemma_pages_copied_joined(
            mem,
            delta,
            pages_of_runs(runs, n - 1),
            run.pages(),
            run.pages().len() as int,
        );
    }
}

/// Whether host address `addr` lies in the page, and the delta file holds the page whole.
pub open spec fn supplies(delta: Seq<u8>, page: (int, int), addr: int) -> bool {
    page.0 + DELTA_PAGE_BYTES <= delta.len() && page.1 <= addr < page.1 + DELTA_PAGE_BYTES
}

/// Where pages do not share host memory, each address holds what its page supplies, and what no
/// page supplies stays as it was.
proof fn lemma_pages_copied(
    mem: Map<int, u8>,
    delta: Seq<u8>,
    pages: Seq<(int, int)>,
    n: int,
    addr: int,
)
    requires
        mem.dom().contains(addr),
        0 <= n <= pages.len(),
        forall|p: int, r: int|
            0 <= p < r < pages.len() ==> (#[trigger] pages[p]).1 + DELTA_PAGE_BYTES <= (
            #[trigger] pages[r]).1 || pages[r].1 + DELTA_PAGE_BYTES <= pages[p].1,
    ensures
        pages_copied(mem, delta, pages, n).dom() == mem.dom(),
        forall|p: int|
            0 <= p < n && supplies(delta, #[trigger] pages[p], addr) ==> pages_copied(
                mem,
                delta,
                pages,
                n,
            )[addr] == delta[pages[p].0 + (addr - pages[p].1)],
        (forall|p: int| 0 <= p < n ==> !supplies(delta, #[trigger] pages[p], addr))
            ==> pages_copied(mem, delta, pages, n)[addr] == mem[addr],
    decreases n,
{
    if n > 0 {
        lemma_pages_copied(mem, delta, pages, n - 1, addr);
        let before = pages_copied(mem, delta, pages, n - 1);
        let after = pages_copied(mem, delta, pages, n);
        assert(after.dom() =~= mem.dom());
        assert forall|p: int| 0 <= p < n && supplies(delta, #[trigger] pages[p], addr) implies
            after[addr] == delta[pages[p].0 + (addr - pages[p].1)] by {
            if p < n - 1 {
                assert(before[addr] == delta[pages[p].0 + (addr - pages[p].1)]);
                assert(pages[p].1 + DELTA_PAGE_BYTES <= pages[n - 1].1 || pages[n - 1].1
                    + DELTA_PAGE_BYTES <= pages[p].1);
            }
        }
        if forall|p: int| 0 <= p < n ==> !supplies(delta, #[trigger] pages[p], addr) {
            assert(!supplies(delta, pages[n - 1], addr));
        }
    }
}

/// Copying the runs puts the delta file into guest memory, no more and no less: an address in a
/// page that is listed, lies in guest memory and is whole in the delta file holds the file's byte
/// for it afterwards, and every other address holds what it held before.
pub proof fn law_delta_is_applied(
    regions: Seq<FileRegion>,
    offs: Seq<u64>,
    delta: Seq<u8>,
    mem: Map<int, u8>,
    addr: int,
)
    requires
        memory::all_fit(regions),
        ends_on_pages(regions),
        hosts_disjoint(regions),
        offsets::pages_apart(offs, DELTA_PAGE_BYTES as int),
        forall|q: int|
            0 <= q < offs.len() ==> (#[trigger] offs[q]) as int % DELTA_PAGE_BYTES as int == 0,
        mem.dom().contains(addr),
    ensures
        ({
            let n = offs.len() as int;
            let runs = runs_of(regions, offs, n);
            let pages = located_pages(regions, offs, n);
            let after = runs_copied(mem, delta, runs, runs.len() as int);
            &&& after.dom() == mem.dom()
            &&& forall|p: int|
                0 <= p < pages.len() && supplies(delta, #[trigger] pages[p], addr) ==> after[addr]
                    == delta[pages[p].0 + (addr - pages[p].1)]
            &&& (forall|p: int| 0 <= p < pages.len() ==> !supplies(delta, #[trigger] pages[p], addr))
                ==> after[addr] == mem[addr]
        }),
{
    let n = offs.len() as int;
    let runs = runs_of(regions, offs, n);
    let pages = located_pages(regions, offs, n);
    law_runs_are_maximal(regions, offs, n);
    law_runs_hold_the_located_pages(regions, offs, n);
    lemma_runs_are_their_pages(mem, delta, runs, runs.len() as int);
    assert forall|p: int, r: int| 0 <= p < r < pages.len() implies (#[trigger] pages[p]).1
        + DELTA_PAGE_BYTES <= (#[trigger] pages[r]).1 || pages[r].1 + DELTA_PAGE_BYTES
        <= pages[p].1 by {
        law_copied_pages_are_disjoint(regions, offs, n, p, r);
    }
    lemma_pages_copied(mem, delta, pages, pages.len() as int, addr);
}

/// Guest memory whose regions are whole pages and share no host memory.
pub open spec fn is_paged(guest_memory: Seq<GuestRegionMmap>) -> bool {
    &&& forall|i: int|
        0 <= i < guest_memory.len() ==> (#[trigger] guest_memory[i]).size as int
            % DELTA_PAGE_BYTES as int == 0
    &&& hosts_disjoint(memory::file_layout(guest_memory))
}

/// Where regions are whole pages, so is what any number of them add up to.
proof fn lemma_total_is_paged(guest_memory: Seq<GuestRegionMmap>, n: int)
    requires
        n <= guest_memory.len(),
        forall|i: int|
            0 <= i < guest_memory.len() ==> (#[trigger] guest_memory[i]).size as int
                % DELTA_PAGE_BYTES as int == 0,
    ensures
        memory::total_size(guest_memory, n) as int % DELTA_PAGE_BYTES as int == 0,
    decreases n,
{
    if n > 0 {
        lemma_total_is_paged(guest_memory, n - 1);
        assert(guest_memory[n - 1].size as int % DELTA_PAGE_BYTES as int == 0);
    }
}

/// Copying the runs found for guest memory and a list of pages puts the delta file into guest
/// memory, no more and no less.
pub proof fn law_listed_delta_is_applied(
    guest_memory: Seq<GuestRegionMmap>,
    contents: Seq<u8>,
    delta: Seq<u8>,
    mem: Map<int, u8>,
    addr: int,
)
    requires
        memory::mappable(guest_memory),
        is_paged(guest_memory),
        mem.dom().contains(addr),
    ensures
        ({
            let regions = memory::file_layout(guest_memory);
            let offs = offsets::page_offsets(contents, DELTA_PAGE_BYTES);
            let runs = runs_of(regions, offs, offs.len() as int);
            let pages = located_pages(regions, offs, offs.len() as int);
            let after = runs_copied(mem, delta, runs, runs.len() as int);
            &&& after.dom() == mem.dom()
            &&& forall|p: int|
                0 <= p < pages.len() && supplies(delta, #[trigger] pages[p], addr) ==> after[addr]
                    == delta[pages[p].0 + (addr - pages[p].1)]
            &&& (forall|p: int| 0 <= p < pages.len() ==> !supplies(delta, #[trigger] pages[p], addr))
                ==> after[addr] == mem[addr]
        }),
{
    let regions = memory::file_layout(guest_memory);
    let offs = offsets::page_offsets(contents, DELTA_PAGE_BYTES);
    power2::lemma2_to64();
    assert(power2::pow2(12) == DELTA_PAGE_BYTES);
    offsets::law_page_offsets_are_pages(contents, 12);
    assert forall|k: int| 0 <= k < regions.len() implies (#[trigger] regions[k]).fits()
        && regions[k].end() % DELTA_PAGE_BYTES as int == 0 by {
        memory::law_file_layout_is_contiguous(guest_memory, k);
        lemma_total_is_paged(guest_memory, k + 1);
    }
    law_delta_is_applied(regions, offs, delta, mem, addr);
}

/// How many pages are counted as applied when the first `n` runs are read from a delta file of
/// `size` bytes.
pub open spec fn applied_pages(runs: Seq<DeltaRun>, size: int, n: int) -> int
    decreases n,
{
    if n <= 0 {
        0
    } else {
        applied_pages(runs, size, n - 1) + copied_bytes(
            bytes_available(size, runs[n - 1].file_off as int, runs[n - 1].len as int),
        ) / DELTA_PAGE_BYTES as int
    }
}

/// How many of the first `n` pages a delta file of `size` bytes holds whole.
pub open spec fn whole_pages(pages: Seq<(int, int)>, size: int, n: int) -> int
    decreases n,
{
    if n <= 0 {
        0
    } else {
        whole_pages(pages, size, n - 1) + if pages[n - 1].0 + DELTA_PAGE_BYTES <= size {
            1int
        } else {
            0int
        }
    }
}

/// How many of two lists of pages, joined, are whole.
proof fn lemma_whole_pages_joined(a: Seq<(int, int)>, b: Seq<(int, int)>, size: int, n: int)
    requires
        0 <= n <= a.len() + b.len(),
    ensures
        whole_pages(a + b, size, n) == if n <= a.len() {
            whole_pages(a, size, n)
        } else {
            whole_pages(a, size, a.len() as int) + whole_pages(b, size, n - a.len())
        },
    decreases n,
{
    if n > 0 {
        lemma_whole_pages_joined(a, b, size, n - 1);
        if n <= a.len() {
            assert((a + b)[n - 1] == a[n - 1]);
        } else {
            assert((a + b)[n - 1] == b[n - 1 - a.len()]);
            assert(whole_pages(b, size, 0) == 0);
        }
    }
}

/// How many of a run's first pages are whole: as many as are copied, if that many are asked for.
proof fn lemma_whole_pages_of_run(run: DeltaRun, size: int, n: int)
    requires
        run.is_sized(),
        0 <= n <= run.pages().len(),
    ensures
        whole_pages(run.pages(), size, n) == math::min(
            n,
            copied_bytes(bytes_available(size, run.file_off as int, run.len as int))
                / DELTA_PAGE_BYTES as int,
        ),
    decreases n,
{
    if n > 0 {
        lemma_whole_pages_of_run(run, size, n - 1);
        law_whole_pages_are_copied(run, size, n - 1);
    }
}

/// What is counted as applied while runs are copied is the number of their pages that are whole.
proof fn lemma_applied_pages(runs: Seq<DeltaRun>, size: int, n: int)
    requires
        0 <= n <= runs.len(),
        forall|r: int| 0 <= r < runs.len() ==> (#[trigger] runs[r]).is_sized(),
    ensures
        applied_pages(runs, size, n) == whole_pages(
            pages_of_runs(runs, n),
            size,
            pages_of_runs(runs, n).len() as int,
        ),
    decreases n,
{
    if n > 0 {
        lemma_applied_pages(runs, size, n - 1);
        let run = runs[n - 1];
        let before = pages_of_runs(runs, n - 1);
        assert(run.is_sized());
        law_whole_pages_are_copied(run, size, 0);
        lemma_whole_pages_of_run(run, size, run.pages().len() as int);
        lemma_whole_pages_joined(before, run.pages(), size, (before + run.pages()).len() as int);
    }
}

/// The number of pages reported as applied is the number of pages that are listed, lie in guest
/// memory and are whole in the delta file.
pub proof fn law_applied_count_is_exact(regions: Seq<FileRegion>, offs: Seq<u64>, size: int)
    requires
        memory::all_fit(regions),
    ensures
        ({
            let n = offs.len() as int;
            let runs = runs_of(regions, offs, n);
            let pages = located_pages(regions, offs, n);
            applied_pages(runs, size, runs.len() as int) == whole_pages(
                pages,
                size,
                pages.len() as int,
            )
        }),
{
    let n = offs.len() as int;
    let runs = runs_of(regions, offs, n);
    law_runs_are_maximal(regions, offs, n);
    law_runs_hold_the_located_pages(regions, offs, n);
    lemma_applied_pages(runs, size, runs.len() as int);
}

/// How many workers share `runs` runs on a machine that runs `parallelism` threads at once, or
/// that does not say.
pub open spec fn worker_count(runs: nat, parallelism: Option<usize>) -> nat {
    let threads: nat = match parallelism {
        Some(n) => n as nat,
        None => 1,
    };
    let most: nat = if threads < MAX_WORKERS {
        threads
    } else {
        MAX_WORKERS as nat
    };
    let needed: nat = if runs == 0 {
        1
    } else {
        runs
    };
    if most < needed {
        most
    } else {
        needed
    }
}

/// How many runs each worker takes; the last may take fewer.
pub open spec fn chunk_size(runs: nat, workers: nat) -> int {
    (runs + workers - 1) as int / workers as int
}

/// The runs that each worker takes, from the first up to but not the second number.
pub open spec fn chunks_of(runs: nat, parallelism: Option<usize>) -> Seq<(int, int)> {
    let workers = worker_count(runs, parallelism);
    if workers <= 1 {
        seq![(0int, runs as int)]
    } else {
        let size = chunk_size(runs, workers);
        Seq::new(
            ((runs + size - 1) / size) as nat,
            |c: int| (c * size, math::min((c + 1) * size, runs as int)),
        )
    }
}

/// The sizes of the chunks: between one run and all of them, and no more chunks than workers.
proof fn lemma_chunk_size(runs: int, workers: int)
    requires
        2 <= workers <= runs,
    ensures
        1 <= (runs + workers - 1) / workers <= runs,
        (runs + workers - 1) / workers * workers >= runs,
{
    let size = (runs + workers - 1) / workers;
    assert(size * workers <= runs + workers - 1 < size * workers + workers) by (nonlinear_arith)
        requires
            workers > 0,
            size == (runs + workers - 1) / workers,
    ;
    assert(size >= 1) by (nonlinear_arith)
        requires
            runs + workers - 1 < size * workers + workers,
            runs >= 1,
            workers > 0,
    ;
    assert(size <= runs) by (nonlinear_arith)
        requires
            size * workers <= runs + workers - 1,
            workers >= 2,
            runs >= workers,
    ;
}

/// The number of chunks of a given size: the last one starts within the runs and reaches their
/// end.
proof fn lemma_chunk_number(runs: int, size: int)
    requires
        1 <= size <= runs,
    ensures
        1 <= (runs + size - 1) / size <= runs,
        ((runs + size - 1) / size - 1) * size < runs <= (runs + size - 1) / size * size,
{
    let number = (runs + size - 1) / size;
    assert(number * size <= runs + size - 1 < number * size + size) by (nonlinear_arith)
        requires
            size > 0,
            number == (runs + size - 1) / size,
    ;
    assert((number - 1) * size == number * size - size) by (nonlinear_arith);
    assert(number >= 1) by (nonlinear_arith)
        requires
            runs + size - 1 < number * size + size,
            runs >= 1,
            size > 0,
    ;
    assert(number <= runs) by (nonlinear_arith)
        requires
            number * size <= runs + size - 1,
            size >= 1,
            runs >= size,
    ;
}

/// The chunks share out the runs: they start at the first run and end behind the last, each
/// starts where the one before it ends, and there are no more chunks than workers.
pub proof fn law_chunks_share_out_the_runs(runs: nat, parallelism: Option<usize>)
    ensures
        ({
            let chunks = chunks_of(runs, parallelism);
            &&& 1 <= chunks.len()
            &&& chunks.len() <= MAX_WORKERS
            &&& chunks[0].0 == 0
            &&& chunks[chunks.len() - 1].1 == runs
            &&& forall|c: int|
                0 <= c < chunks.len() ==> (#[trigger] chunks[c]).0 <= chunks[c].1 <= runs
            &&& forall|c: int|
                #![trigger chunks[c]]
                0 < c < chunks.len() ==> chunks[c].0 == chunks[c - 1].1
        }),
{
    let workers = worker_count(runs, parallelism);
    let chunks = chunks_of(runs, parallelism);
    if workers > 1 {
        let size = chunk_size(runs, workers);
        lemma_chunk_size(runs as int, workers as int);
        lemma_chunk_number(runs as int, size);
        let number = (runs + size - 1) / size;
        assert(number <= workers) by (nonlinear_arith)
            requires
                (number - 1) * size < runs,
                runs <= size * workers,
                size >= 1,
        ;
        assert(0 * size == 0) by (nonlinear_arith);
        assert forall|c: int| 0 <= c < chunks.len() implies (#[trigger] chunks[c]).0 <= chunks[c].1
            <= runs && (c < chunks.len() - 1 ==> chunks[c].1 == (c + 1) * size) by {
            assert(c * size <= (number - 1) * size) by (nonlinear_arith)
                requires
                    c <= number - 1,
                    size >= 1,
            ;
            assert((c + 1) * size == c * size + size) by (nonlinear_arith);
            if c < number - 1 {
                assert((c + 1) * size <= (number - 1) * size) by (nonlinear_arith)
                    requires
                        c + 1 <= number - 1,
                        size >= 1,
                ;
            }
        }
        assert forall|c: int| #![trigger chunks[c]] 0 < c < chunks.len() implies chunks[c].0
            == chunks[c - 1].1 by {
            assert(chunks[c - 1].1 == (c - 1 + 1) * size);
        }
        assert(chunks[number - 1].1 == math::min((number - 1 + 1) * size, runs as int));
    }
}

/// As many workers as the machine runs threads, but at most eight and at most one per run, take
/// equal shares, rounded up, of which the last may be smaller.
pub proof fn law_shares_are_equal(runs: nat, parallelism: Option<usize>, c: int)
    requires
        0 <= c < chunks_of(runs, parallelism).len(),
    ensures
        ({
            let threads: int = match parallelism {
                Some(n) => n as int,
                None => 1,
            };
            let most = math::min(threads, 8);
            let workers = math::min(most, math::max(runs as int, 1));
            let chunks = chunks_of(runs, parallelism);
            let chunk = chunks[c];
            &&& workers <= 1 ==> chunks.len() == 1 && chunk == (0int, runs as int)
            &&& workers > 1 ==> {
                let share = (runs + workers - 1) / workers;
                &&& c == 0 ==> chunk.0 == 0
                &&& c > 0 ==> chunk.0 == chunks[c - 1].1
                &&& c < chunks.len() - 1 ==> chunk.1 - chunk.0 == share
                &&& c == chunks.len() - 1 ==> chunk.1 == runs && 0 < chunk.1 - chunk.0 <= share
            }
        }),
{
    law_chunks_share_out_the_runs(runs, parallelism);
    let workers = worker_count(runs, parallelism);
    let chunks = chunks_of(runs, parallelism);
    if workers > 1 {
        let size = chunk_size(runs, workers);
        lemma_chunk_size(runs as int, workers as int);
        lemma_chunk_number(runs as int, size);
        let number = (runs + size - 1) / size;
        assert((c + 1) * size == c * size + size) by (nonlinear_arith);
        assert(c * size <= (number - 1) * size) by (nonlinear_arith)
            requires
                c <= number - 1,
                size >= 1,
        ;
        if c < number - 1 {
            assert((c + 1) * size <= (number - 1) * size) by (nonlinear_arith)
                requires
                    c + 1 <= number - 1,
                    size >= 1,
            ;
        }
    }
}

/// Shares out `runs` runs among workers: each chunk holds the index of its first run and the
/// index behind its last.
pub fn share_out(runs: usize, parallelism: Option<usize>) -> (chunks: Vec<(usize, usize)>)
    ensures
        chunks@.len() == chunks_of(runs as nat, parallelism).len(),
        forall|c: int|
            0 <= c < chunks@.len() ==> (#[trigger] chunks@[c]).0 == chunks_of(
                runs as nat,
                parallelism,
            )[c].0 && chunks@[c].1 == chunks_of(runs as nat, parallelism)[c].1,
{
    let threads: usize = match parallelism {
        Some(n) => n,
        None => 1,
    };
    let most: usize = if threads < MAX_WORKERS {
        threads
    } else {
        MAX_WORKERS
    };
    let needed: usize = if runs == 0 {
        1
    } else {
        runs
    };
    let workers: usize = if most < needed {
        most
    } else {
        needed
    };
    let mut chunks: Vec<(usize, usize)> = Vec::new();
    if workers <= 1 {
        chunks.push((0, runs));
        return chunks;
    }
    assert(runs / workers < runs) by (nonlinear_arith)
        requires
            2 <= workers <= runs,
    ;
    let size: usize = runs / workers + (if runs % workers == 0 {
        0usize
    } else {
        1usize
    });
    let ghost number = (runs + size - 1) / size as int;
    proof {
        lemma_rounded_up(runs as int, workers as int);
        lemma_chunk_size(runs as int, workers as int);
        lemma_chunk_number(runs as int, size as int);
        assert(0 * (size as int) == 0) by (nonlinear_arith);
    }
    let mut start: usize = 0;
    while start < runs
        invariant
            1 <= size <= runs,
            number == (runs + size - 1) / size as int,
            (number - 1) * size < runs <= number * size,
            chunks@.len() <= number,
            start == math::min(chunks@.len() * size, runs as int),
            forall|c: int|
                0 <= c < chunks@.len() ==> (#[trigger] chunks@[c]).0 == c * size && chunks@[c].1
                    == math::min((c + 1) * size, runs as int),
            start == runs ==> chunks@.len() == number,
        decreases runs - start,
    {
        let ghost c = chunks@.len() as int;
        assert((c + 1) * size == c * size + size) by (nonlinear_arith);
        assert(c < number) by (nonlinear_arith)
            requires
                c * size < runs,
                runs <= number * size,
                size >= 1,
        ;
        let end: usize = if runs - start <= size {
            runs
        } else {
            start + size
        };
        chunks.push((start, end));
        start = end;
        proof {
            if start == runs {
                assert(c + 1 >= number) by (nonlinear_arith)
                    requires
                        (number - 1) * size < runs,
                        runs <= (c + 1) * size,
                        size >= 1,
                ;
            }
        }
    }
    chunks
}

/// Dividing and counting a remainder is dividing and rounding up.
proof fn lemma_rounded_up(a: int, b: int)
    requires
        a >= 0,
        b > 0,
    ensures
        a / b + (if a % b == 0 {
            0int
        } else {
            1int
        }) == (a + b - 1) / b,
{
    let q = a / b;
    let r = a % b;
    assert(a == q * b + r && 0 <= r < b) by (nonlinear_arith)
        requires
            b > 0,
            q == a / b,
            r == a % b,
    ;
    if r == 0 {
        assert((a + b - 1) / b == q) by (nonlinear_arith)
            requires
                a == q * b,
                b > 0,
        ;
    } else {
        assert((a + b - 1) / b == q + 1) by (nonlinear_arith)
            requires
                a == q * b + r,
                1 <= r < b,
        ;
    }
}

} // verus!
