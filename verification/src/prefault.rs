//! Touching the working set before the guest resumes: which host addresses are read so that the
//! pages of a manifest are resident, and which pages are left alone because a page-fault handler
//! is to serve them.
use std::collections::HashSet;
use vstd::prelude::*;

use crate::memory;
use crate::memory::{lay_out, locate, FileRegion, GuestRegionMmap};
use crate::offsets;
use crate::offsets::read_page_offsets;

verus! {

broadcast use {
    vstd::seq::group_seq_axioms,
    vstd::set::group_set_axioms,
    vstd::std_specs::hash::group_hash_axioms,
};

/// Whether the page at file offset `offset` is touched: it is not to be skipped, and some region
/// holds it.
pub open spec fn is_touched(regions: Seq<FileRegion>, skip: Set<u64>, offset: u64) -> bool {
    !skip.contains(offset) && memory::is_located(regions, offset)
}

/// The host addresses to read for the first `n` offsets of the manifest.
pub open spec fn touched(regions: Seq<FileRegion>, offs: Seq<u64>, skip: Set<u64>, n: int) -> Seq<
    u64,
>
    decreases n,
{
    if n <= 0 {
        Seq::empty()
    } else if is_touched(regions, skip, offs[n - 1]) {
        touched(regions, offs, skip, n - 1).push(
            regions[memory::located(regions, offs[n - 1])].host_of(offs[n - 1]) as u64,
        )
    } else {
        touched(regions, offs, skip, n - 1)
    }
}

/// Every address read is that of a page of the manifest which lies in guest memory and is not to
/// be skipped.
pub proof fn law_only_wanted_pages_are_touched(
    regions: Seq<FileRegion>,
    offs: Seq<u64>,
    skip: Set<u64>,
    n: int,
    a: int,
)
    requires
        memory::all_fit(regions),
        0 <= n <= offs.len(),
        0 <= a < touched(regions, offs, skip, n).len(),
    ensures
        exists|q: int|
            #![trigger offs[q]]
            0 <= q < n && is_touched(regions, skip, offs[q]) && 0 <= memory::located(
                regions,
                offs[q],
            ) && regions[memory::located(regions, offs[q])].holds(offs[q]) && touched(
                regions,
                offs,
                skip,
                n,
            )[a] == regions[memory::located(regions, offs[q])].host_of(offs[q]),
    decreases n,
{
    memory::law_located_is_first(regions, offs[n - 1], 0);
    if a < touched(regions, offs, skip, n - 1).len() {
        law_only_wanted_pages_are_touched(regions, offs, skip, n - 1, a);
        let q = choose|q: int|
            #![trigger offs[q]]
            0 <= q < n - 1 && is_touched(regions, skip, offs[q]) && 0 <= memory::located(
                regions,
                offs[q],
            ) && regions[memory::located(regions, offs[q])].holds(offs[q]) && touched(
                regions,
                offs,
                skip,
                n - 1,
            )[a] == regions[memory::located(regions, offs[q])].host_of(offs[q]);
        assert(touched(regions, offs, skip, n)[a] == regions[memory::located(
            regions,
            offs[q],
        )].host_of(offs[q]));
    } else {
        assert(regions[memory::located(regions, offs[n - 1])].fits());
    }
}

/// Every page of the manifest that lies in guest memory and is not to be skipped is touched.
pub proof fn law_every_wanted_page_is_touched(
    regions: Seq<FileRegion>,
    offs: Seq<u64>,
    skip: Set<u64>,
    n: int,
    q: int,
)
    requires
        0 <= q < n <= offs.len(),
        is_touched(regions, skip, offs[q]),
    ensures
        touched(regions, offs, skip, n).contains(
            regions[memory::located(regions, offs[q])].host_of(offs[q]) as u64,
        ),
    decreases n,
{
    let all = touched(regions, offs, skip, n);
    let before = touched(regions, offs, skip, n - 1);
    let addr = regions[memory::located(regions, offs[q])].host_of(offs[q]) as u64;
    if q == n - 1 {
        assert(all[all.len() - 1] == addr);
    } else {
        law_every_wanted_page_is_touched(regions, offs, skip, n - 1, q);
        let a = before.index_of(addr);
        assert(all[a] == addr);
    }
}

/// The addresses read are those of the manifest's pages, in its order and each once: all pages
/// that lie in guest memory and are not to be skipped, at the place where the first region around
/// them has them, and no others.
pub proof fn law_touched_pages_are_the_wanted_ones(
    regions: Seq<FileRegion>,
    offs: Seq<u64>,
    skip: Set<u64>,
    n: int,
)
    requires
        0 <= n <= offs.len(),
    ensures
        touched(regions, offs, skip, n) == offs.subrange(0, n).filter(
            |offset: u64| !skip.contains(offset) && memory::is_located(regions, offset),
        ).map_values(
            |offset: u64|
                (regions[memory::located(regions, offset)].host_addr + (offset
                    - regions[memory::located(regions, offset)].offset)) as u64,
        ),
    decreases n,
{
    let wanted = |offset: u64| !skip.contains(offset) && memory::is_located(regions, offset);
    let place = |offset: u64|
        (regions[memory::located(regions, offset)].host_addr + (offset - regions[memory::located(
            regions,
            offset,
        )].offset)) as u64;
    let front = offs.subrange(0, n);
    reveal(Seq::filter);
    if n > 0 {
        law_touched_pages_are_the_wanted_ones(regions, offs, skip, n - 1);
        let before = offs.subrange(0, n - 1);
        assert(front.drop_last() =~= before);
        assert(front.last() == offs[n - 1]);
        if wanted(offs[n - 1]) {
            assert(front.filter(wanted) == before.filter(wanted).push(offs[n - 1]));
            assert(front.filter(wanted).map_values(place) =~= before.filter(wanted).map_values(
                place,
            ).push(place(offs[n - 1])));
        } else {
            assert(front.filter(wanted) == before.filter(wanted));
        }
        assert(touched(regions, offs, skip, n) =~= front.filter(wanted).map_values(place));
    } else {
        assert(front.filter(wanted) =~= Seq::<u64>::empty());
        assert(touched(regions, offs, skip, n) =~= front.filter(wanted).map_values(place));
    }
}

/// A page of the manifest is read exactly when it is not to be skipped and some region is around
/// it.
pub proof fn law_touched_pages(regions: Seq<FileRegion>, skip: Set<u64>, offset: u64)
    ensures
        is_touched(regions, skip, offset) <==> !skip.contains(offset) && exists|k: int|
            0 <= k < regions.len() && (#[trigger] regions[k]).offset <= offset < regions[k].offset
                + regions[k].size,
{
    memory::law_located_in_the_first_region_around(regions, offset);
}

/// The pages that a page-offset file with these contents lists, as a set.
pub fn residual_set(contents: &[u8], page_size: u64) -> (pages: HashSet<u64>)
    requires
        page_size > 0,
    ensures
        forall|offset: u64|
            #[trigger] pages@.contains(offset) <==> offsets::page_offsets(
                contents@,
                page_size,
            ).contains(offset),
{
    let offs: Vec<u64> = read_page_offsets(contents, page_size);
    let mut pages: HashSet<u64> = HashSet::new();
    let mut i: usize = 0;
    while i < offs.len()
        invariant
            i <= offs.len(),
            forall|offset: u64|
                #[trigger] pages@.contains(offset) <==> offs@.subrange(0, i as int).contains(
                    offset,
                ),
        decreases offs.len() - i,
    {
        let ghost front = offs@.subrange(0, i as int);
        let ghost next = offs@.subrange(0, i + 1);
        pages.insert(offs[i]);
        proof {
            assert(next =~= front.push(offs@[i as int]));
            assert forall|offset: u64| #[trigger] next.contains(offset) <==> front.contains(offset)
                || offset == offs@[i as int] by {
                if front.contains(offset) {
                    assert(next[front.index_of(offset)] == offset);
                }
                assert(next[i as int] == offs@[i as int]);
                if next.contains(offset) {
                    let k = next.index_of(offset);
                    if k < i {
                        assert(front[k] == offset);
                    }
                }
            }
        }
        i = i + 1;
    }
    assert(offs@.subrange(0, i as int) =~= offs@);
    pages
}

/// The host addresses to read so that the pages of a manifest become resident: `contents` lists
/// their offsets, and those in `skip` are left untouched, so that they still fault.
pub fn prefault_pages(
    guest_memory: &Vec<GuestRegionMmap>,
    contents: &[u8],
    skip: &HashSet<u64>,
    page_size: usize,
) -> (addrs: Vec<u64>)
    requires
        page_size > 0,
        memory::mappable(guest_memory@),
    ensures
        addrs@ == touched(
            memory::file_layout(guest_memory@),
            offsets::page_offsets(contents@, page_size as u64),
            skip@,
            offsets::page_offsets(contents@, page_size as u64).len() as int,
        ),
{
    let regions: Vec<FileRegion> = lay_out(guest_memory);
    let offs: Vec<u64> = read_page_offsets(contents, page_size as u64);
    let mut addrs: Vec<u64> = Vec::new();
    let mut i: usize = 0;
    while i < offs.len()
        invariant
            i <= offs.len(),
            memory::all_fit(regions@),
            addrs@ == touched(regions@, offs@, skip@, i as int),
        decreases offs.len() - i,
    {
        let offset: u64 = offs[i];
        if !skip.contains(&offset) {
            match locate(&regions, offset) {
                Some(region) => {
                    addrs.push(region.host_addr + (offset - region.offset));
                },
                None => {},
            }
        }
        i = i + 1;
    }
    addrs
}

} // verus!
