//! What calls of the library give back: laws over the arguments of a call and any result that it
//! can return.
use std::collections::HashSet;
use std::path::PathBuf;
use vstd::arithmetic::power2;
use vstd::prelude::*;

use crate::backend;
use crate::backend::{
    FileFailure, HybridFailure, MemoryStep, PreparedHybrid, RegisterMode, UffdFailure,
};
use crate::bitmap;
use crate::bitmap::SlotBitmaps;
use crate::config::{
    CreateSnapshotParams, CreateSnapshotStateParams, LoadPhase, LoadSnapshotParams,
    MemBackendConfig, MemBackendType,
};
use crate::create;
use crate::create::{
    CreateSnapshotAction, CreateSnapshotEvent, StateFileAction, StateFileEvent,
    StateSnapshotAction, StateSnapshotEvent,
};
use crate::delta;
use crate::delta::DeltaRun;
use crate::dirty_ring;
use crate::dirty_ring::{DirtyGfn, DirtyRing};
use crate::errors::{
    CreateSnapshotError, GuestMemoryFromFileError, GuestMemoryFromHybridError,
    GuestMemoryFromUffdError, RestoreFromSnapshotError, RestoreFromSnapshotGuestMemoryError,
    SnapShotStateSanityCheckError,
};
use crate::layered;
use crate::layered::{
    CopyOutcome, CopyVerdict, HandshakeStep, IdleStep, LayeredHandler, PageSource, PageTarget,
    Received,
};
use crate::memory;
use crate::memory::{
    FileRegion, GuestMemoryRegionState, GuestMemoryState, GuestRegionMmap, GuestRegionType,
    GuestRegionUffdMapping, HugePageConfig,
};
use crate::offsets;
use crate::prefault;
use crate::ranges;
use crate::ranges::{HostRange, ResidualRanges};
use crate::restore;
use crate::restore::{PrepareAction, PrepareEvent, RestoreAction, RestoreEvent};
use crate::ring_caps;
use crate::ring_caps::{CapProbe, DirtyRingCaps};
use crate::ring_state;
use crate::ring_state::{
    DirtyRingError, DirtyRingState, EnableAction, EnableEvent, HarvesterStep, RingMapping,
};
use crate::sanity;
use crate::sanity::{CpuIdLog, CpuIdMessage, HostCpuId};
use crate::state::{MicrovmState, VmInfo};
use crate::text;
use crate::text::Line;

verus! {

broadcast use vstd::seq::group_seq_axioms;

// ---------- loading guest memory ----------

/// A load from a file only maps the file that was named.
pub proof fn law_call_from_file<'a>(
    path: &'a PathBuf,
    track_dirty_pages: bool,
    steps: Vec<MemoryStep<'a>>,
)
    requires
        call_ensures(backend::guest_memory_from_file, (path, track_dirty_pages), steps),
    ensures
        steps@ == seq![MemoryStep::MapFile { path, track_dirty_pages }],
{
    backend::law_file_load(path, track_dirty_pages);
}

/// A load through a handler maps fresh memory, registers all of it, and then tells the handler.
pub proof fn law_call_from_uffd<'a>(
    socket: &'a PathBuf,
    track_dirty_pages: bool,
    huge_pages: HugePageConfig,
    steps: Vec<MemoryStep<'a>>,
)
    requires
        call_ensures(
            backend::guest_memory_from_uffd,
            (socket, track_dirty_pages, huge_pages),
            steps,
        ),
    ensures
        steps@ == seq![
            MemoryStep::MapAnonymous { track_dirty_pages, huge_pages },
            MemoryStep::BuildUffd,
            MemoryStep::RegisterAll { mode: RegisterMode::Missing },
            MemoryStep::Handshake { socket, with_base: false },
        ],
{
    backend::law_handler_load(socket, track_dirty_pages, huge_pages);
}

/// A precopy load needs a base and nothing else. It maps the base and copies the listed pages
/// whenever there is a list, whether or not dirty pages are to be tracked: two loads that differ
/// in the tracking alone copy the same pages.
pub proof fn law_call_from_precopy<'a>(
    mem_backend: &'a MemBackendConfig,
    track_dirty_pages: bool,
    r: Result<Vec<MemoryStep<'a>>, GuestMemoryFromHybridError>,
)
    requires
        call_ensures(backend::guest_memory_from_precopy, (mem_backend, track_dirty_pages), r),
    ensures
        r is Ok <==> mem_backend.base_mem_path is Some,
        r is Err ==> r->Err_0 is MissingBase,
        r is Ok ==> r->Ok_0@.len() > 0 && r->Ok_0@[0] == (MemoryStep::MapFile {
            path: &mem_backend.base_mem_path->0,
            track_dirty_pages,
        }),
        r is Ok && mem_backend.dirty_pages_path is None ==> r->Ok_0@.len() == 1,
        r is Ok && mem_backend.dirty_pages_path is Some ==> r->Ok_0@.len() == 2 && r->Ok_0@[1] == (
        MemoryStep::ApplyDelta {
            delta: &mem_backend.backend_path,
            list: &mem_backend.dirty_pages_path->0,
        }),
{
    if r is Ok {
        backend::law_precopy_load(mem_backend, &mem_backend.base_mem_path->0, track_dirty_pages);
    }
}

/// A hybrid load in one go needs a base and nothing else. It maps the base first and tells the
/// handler last; the residual pages are isolated and registered whenever they are listed.
pub proof fn law_call_from_hybrid<'a>(
    mem_backend: &'a MemBackendConfig,
    track_dirty_pages: bool,
    huge_pages: HugePageConfig,
    r: Result<Vec<MemoryStep<'a>>, GuestMemoryFromHybridError>,
)
    requires
        call_ensures(
            backend::guest_memory_from_hybrid,
            (mem_backend, track_dirty_pages, huge_pages),
            r,
        ),
    ensures
        r is Ok <==> mem_backend.base_mem_path is Some,
        r is Err ==> r->Err_0 is MissingBase,
        r is Ok ==> {
            let steps = r->Ok_0@;
            let page_size: usize = if huge_pages == HugePageConfig::Small {
                4096
            } else {
                0x20_0000
            };
            &&& steps.len() == 3 + (if mem_backend.dirty_pages_path is Some {
                3int
            } else {
                0int
            }) + (if mem_backend.prefill_pages_path is Some {
                1int
            } else {
                0int
            }) + (if mem_backend.eager_delta_path is Some && mem_backend.eager_pages_path is Some {
                1int
            } else {
                0int
            })
            &&& steps[0] == (MemoryStep::MapFile {
                path: &mem_backend.base_mem_path->0,
                track_dirty_pages,
            })
            &&& steps.contains(MemoryStep::CreateUffd)
            &&& steps.last() == (MemoryStep::Handshake {
                socket: &mem_backend.backend_path,
                with_base: true,
            })
            &&& mem_backend.dirty_pages_path is Some ==> {
                let list = &mem_backend.dirty_pages_path->0;
                &&& steps[1] == (MemoryStep::ReadResidual { list, page_size })
                &&& steps[2] == (MemoryStep::Overlay { list, page_size })
                &&& steps[steps.len() - 2] == (MemoryStep::Register {
                    list,
                    page_size,
                    mode: RegisterMode::Missing,
                })
            }
            &&& mem_backend.prefill_pages_path is Some ==> steps.contains(
                MemoryStep::Prefault { manifest: &mem_backend.prefill_pages_path->0, page_size },
            )
            &&& mem_backend.eager_delta_path is Some && mem_backend.eager_pages_path is Some
                ==> steps.contains(
                MemoryStep::ApplyDelta {
                    delta: &mem_backend.eager_delta_path->0,
                    list: &mem_backend.eager_pages_path->0,
                },
            )
        },
{
    if r is Ok {
        memory::law_page_bytes(huge_pages);
        backend::law_hybrid_load(
            mem_backend,
            &mem_backend.base_mem_path->0,
            track_dirty_pages,
            huge_pages.page_bytes() as usize,
        );
    }
}

/// The first phase of a hybrid load is refused when the request asks for pages to be filled in,
/// and needs a base. It maps the base, and isolates and registers the pages listed.
pub proof fn law_call_prepare_hybrid<'a>(
    mem_backend: &'a MemBackendConfig,
    track_dirty_pages: bool,
    huge_pages: HugePageConfig,
    r: Result<Vec<MemoryStep<'a>>, GuestMemoryFromHybridError>,
)
    requires
        call_ensures(
            backend::prepare_hybrid,
            (mem_backend, track_dirty_pages, huge_pages),
            r,
        ),
    ensures
        ({
            let fills = mem_backend.eager_delta_path is Some || mem_backend.eager_pages_path is Some
                || mem_backend.prefill_pages_path is Some;
            &&& r is Ok <==> !fills && mem_backend.base_mem_path is Some
            &&& fills ==> r is Err && r->Err_0 is InvalidPhase
            &&& !fills && r is Err ==> r->Err_0 is MissingBase
        }),
        r is Ok ==> {
            let steps = r->Ok_0@;
            let page_size: usize = if huge_pages == HugePageConfig::Small {
                4096
            } else {
                0x20_0000
            };
            let path = &mem_backend.base_mem_path->0;
            let list = &mem_backend.dirty_pages_path->0;
            if mem_backend.dirty_pages_path is Some {
                steps == seq![
                    MemoryStep::MapFile { path, track_dirty_pages },
                    MemoryStep::Overlay { list, page_size },
                    MemoryStep::CreateUffd,
                    MemoryStep::Register { list, page_size, mode: RegisterMode::Missing },
                ]
            } else {
                steps == seq![
                    MemoryStep::MapFile { path, track_dirty_pages },
                    MemoryStep::CreateUffd,
                ]
            }
        },
{
    backend::law_filling(mem_backend);
    memory::law_page_bytes(huge_pages);
    if r is Ok {
        backend::law_prepare_load(
            mem_backend,
            &mem_backend.base_mem_path->0,
            track_dirty_pages,
            huge_pages.page_bytes() as usize,
        );
    }
}

/// The second phase of a hybrid load is refused when the request asks for pages to be filled in,
/// and when the memory prepared is not laid out as the state says. It isolates and registers the
/// pages listed and tells the handler.
pub proof fn law_call_finish_hybrid<'a>(
    prepared: &PreparedHybrid,
    mem_backend: &'a MemBackendConfig,
    mem_state: &GuestMemoryState,
    r: Result<Vec<MemoryStep<'a>>, GuestMemoryFromHybridError>,
)
    requires
        call_ensures(backend::finish_prepared_hybrid, (prepared, mem_backend, mem_state), r),
    ensures
        ({
            let fills = mem_backend.eager_delta_path is Some || mem_backend.eager_pages_path is Some
                || mem_backend.prefill_pages_path is Some;
            let fits = prepared.shape().len() == mem_state.regions@.len() && forall|i: int|
                0 <= i < mem_state.regions@.len() ==> #[trigger] prepared.shape()[i] == (
                    mem_state.regions@[i].base_address,
                    mem_state.regions@[i].size,
                );
            &&& r is Ok <==> !fills && fits
            &&& fills ==> r is Err && r->Err_0 is InvalidPhase
            &&& !fills && r is Err ==> r->Err_0 is PreparedMismatch
        }),
        r is Ok ==> {
            let steps = r->Ok_0@;
            let page_size = prepared.page_bytes();
            let list = &mem_backend.dirty_pages_path->0;
            let socket = &mem_backend.backend_path;
            if mem_backend.dirty_pages_path is Some {
                steps == seq![
                    MemoryStep::Overlay { list, page_size },
                    MemoryStep::Register { list, page_size, mode: RegisterMode::Missing },
                    MemoryStep::Handshake { socket, with_base: true },
                ]
            } else {
                steps == seq![MemoryStep::Handshake { socket, with_base: true }]
            }
        },
{
    backend::law_filling(mem_backend);
    memory::law_shape_is_addresses_and_sizes(mem_state.regions@);
    let shape = memory::region_shape(mem_state.regions@);
    if prepared.shape().len() == mem_state.regions@.len() && forall|i: int|
        0 <= i < mem_state.regions@.len() ==> #[trigger] prepared.shape()[i] == (
            mem_state.regions@[i].base_address,
            mem_state.regions@[i].size,
        ) {
        assert(prepared.shape() =~= shape);
    }
    if r is Ok {
        backend::law_finish_load(mem_backend, prepared.page_bytes());
    }
}

/// What a failed step is reported as: mapping, creating, registering, connecting and sending each
/// have their own error, with what went wrong in it. In a load from a shared base, opening,
/// isolating and connecting are reported alike.
pub proof fn law_call_errors(
    file: FileFailure,
    file_error: GuestMemoryFromFileError,
    uffd: UffdFailure,
    uffd_error: GuestMemoryFromUffdError,
    hybrid: HybridFailure,
    hybrid_error: GuestMemoryFromHybridError,
)
    requires
        call_ensures(backend::file_error, (file,), file_error),
        call_ensures(backend::uffd_error, (uffd,), uffd_error),
        call_ensures(backend::hybrid_error, (hybrid,), hybrid_error),
    ensures
        file is Open ==> file_error == GuestMemoryFromFileError::File(file->Open_0),
        file is Mapping ==> file_error == GuestMemoryFromFileError::Restore(file->Mapping_0),
        uffd is Mapping ==> uffd_error == GuestMemoryFromUffdError::Restore(uffd->Mapping_0),
        uffd is Create ==> uffd_error == GuestMemoryFromUffdError::Create(uffd->Create_0),
        uffd is Register ==> uffd_error == GuestMemoryFromUffdError::Register(uffd->Register_0),
        uffd is Connect ==> uffd_error == GuestMemoryFromUffdError::Connect(uffd->Connect_0),
        uffd is Send ==> uffd_error == GuestMemoryFromUffdError::Send(uffd->Send_0),
        hybrid is Open ==> hybrid_error == GuestMemoryFromHybridError::Io(hybrid->Open_0),
        hybrid is Overlay ==> hybrid_error == GuestMemoryFromHybridError::Io(hybrid->Overlay_0),
        hybrid is Connect ==> hybrid_error == GuestMemoryFromHybridError::Io(hybrid->Connect_0),
        hybrid is Mapping ==> hybrid_error == GuestMemoryFromHybridError::Restore(
            hybrid->Mapping_0,
        ),
        hybrid is Create ==> hybrid_error == GuestMemoryFromHybridError::Uffd(hybrid->Create_0),
        hybrid is Register ==> hybrid_error == GuestMemoryFromHybridError::Register(
            hybrid->Register_0,
        ),
        hybrid is Send ==> hybrid_error == GuestMemoryFromHybridError::Send(hybrid->Send_0),
{
}

// ---------- lists of pages ----------

/// Reading a list gives the page of every number in it, each once and in increasing order, and no
/// other page: a number that a line says, with all lines before it text, is there with the bits
/// below the page size cleared, however large it is.
pub proof fn law_call_read_page_offsets(
    contents: &[u8],
    page_size: u64,
    found: Vec<u64>,
    at: int,
    end: int,
    n: u64,
)
    requires
        page_size > 0,
        call_ensures(offsets::read_page_offsets, (contents, page_size), found),
        0 <= at <= end <= contents@.len(),
        at == 0 || contents@[at - 1] == 10,
        end == contents@.len() || contents@[end] == 10,
        forall|i: int| at <= i < end ==> #[trigger] contents@[i] != 10,
        forall|p: int, e: int|
            0 <= p <= e < at && (p == 0 || contents@[p - 1] == 10) && contents@[e] == 10 && (forall|
                i: int,
            |
                p <= i < e ==> #[trigger] contents@[i] != 10) ==> !(text::line_of(
                #[trigger] contents@.subrange(p, e),
            ) is Undecodable),
        text::line_of(contents@.subrange(at, end)) == Line::Number(n),
    ensures
        found@.contains(n & !((page_size - 1) as u64)),
        forall|k: int, l: int| 0 <= k < l < found@.len() ==> found@[k] < found@[l],
{
    offsets::law_every_listed_page_is_read(contents@, page_size, at, end, n);
    assert forall|k: int, l: int| 0 <= k < l < found@.len() implies found@[k] < found@[l] by {
        offsets::law_pages_are_read_in_order(contents@, page_size, k, l);
    }
}

/// Reading a list gives no page that the list does not name.
pub proof fn law_call_read_no_other_page(
    contents: &[u8],
    page_size: u64,
    found: Vec<u64>,
    k: int,
)
    requires
        page_size > 0,
        call_ensures(offsets::read_page_offsets, (contents, page_size), found),
        0 <= k < found@.len(),
    ensures
        exists|at: int, end: int|
            0 <= at <= end <= contents@.len() && (at == 0 || contents@[at - 1] == 10) && (end
                == contents@.len() || contents@[end] == 10) && (text::line_of(
                #[trigger] contents@.subrange(at, end),
            ) matches Line::Number(n) && found@[k] == n & !((page_size - 1) as u64)),
{
    assert(found@.contains(found@[k]));
    offsets::law_only_listed_pages_are_read(contents@, page_size, found@[k]);
}

/// The complete lines of a file that was cut off end behind its last line break.
pub proof fn law_call_complete_lines(contents: &[u8], len: usize)
    requires
        call_ensures(offsets::complete_lines, (contents,), len),
    ensures
        len <= contents@.len(),
        len == 0 || contents@[len - 1] == 10,
        !contents@.subrange(len as int, contents@.len() as int).contains(10),
{
}

// ---------- dirty pages ----------

/// Marking a page sets its bit and no other.
pub proof fn law_call_mark_page(bitmap: &mut Vec<u64>, page: u64, word: int, bit: u64)
    requires
        call_ensures(bitmap::mark_page, (bitmap, page), ()),
        bit < 64,
    ensures
        final(bitmap)@.len() == if old(bitmap)@.len() > page / 64 {
            old(bitmap)@.len() as int
        } else {
            page / 64 + 1
        },
        0 <= word < final(bitmap)@.len() ==> ((final(bitmap)@[word] >> bit) & 1 == 1 <==> word * 64
            + bit == page || (word < old(bitmap)@.len() && (old(bitmap)@[word] >> bit) & 1 == 1)),
{
    bitmap::law_marking_sets_one_bit(bitmap@, page);
}

/// A harvest drains from the cursor on, up to the first entry whose flags are even, whatever the
/// entries name: it reports whether it drained any, stores 2 into the flags of those it drained
/// and changes no other, and moves the cursor over them. `n` is how many it drained.
pub proof fn law_call_harvest_into(
    ring: &mut DirtyRing,
    entries: &mut Vec<DirtyGfn>,
    accum: &mut SlotBitmaps,
    r: bool,
    n: int,
)
    requires
        ring.wf(),
        entries@.len() == ring.count(),
        call_ensures(DirtyRing::harvest_into, (ring, entries, accum), r),
        0 <= n <= entries@.len(),
        forall|i: int|
            0 <= i < entries@.len() && (i - ring.fetch_index()) % (entries@.len() as int) < n ==> (
            #[trigger] entries@[i]).flags % 2 == 1,
        forall|i: int|
            0 <= i < entries@.len() && (i - ring.fetch_index()) % (entries@.len() as int) == n ==> (
            #[trigger] entries@[i]).flags % 2 == 0,
    ensures
        r <==> n > 0,
        final(ring).count() == old(ring).count(),
        final(ring).fetch_index() == (old(ring).fetch_index() + n) % 0x1_0000_0000,
        final(entries)@.len() == old(entries)@.len(),
        forall|i: int|
            0 <= i < old(entries)@.len() ==> (#[trigger] final(entries)@[i]).slot
                == old(entries)@[i].slot && final(entries)@[i].offset == old(entries)@[i].offset
                && final(entries)@[i].flags == if (i - old(ring).fetch_index()) % (
            old(entries)@.len() as int) < n {
                2
            } else {
                old(entries)@[i].flags
            },
{
    lemma_drained(*ring, entries@, n);
    dirty_ring::law_harvest_resets_what_it_drains(*ring, *final(ring), entries@);
}

/// A harvest marks the page of every entry that it drains, and no other page. `n` is how many it
/// drained.
pub proof fn law_call_harvest_marks(
    ring: &mut DirtyRing,
    entries: &mut Vec<DirtyGfn>,
    accum: &mut SlotBitmaps,
    r: bool,
    n: int,
    slot: u32,
    page: u64,
)
    requires
        ring.wf(),
        entries@.len() == ring.count(),
        call_ensures(DirtyRing::harvest_into, (ring, entries, accum), r),
        0 <= n <= entries@.len(),
        forall|i: int|
            0 <= i < entries@.len() && (i - ring.fetch_index()) % (entries@.len() as int) < n ==> (
            #[trigger] entries@[i]).flags % 2 == 1,
        forall|i: int|
            0 <= i < entries@.len() && (i - ring.fetch_index()) % (entries@.len() as int) == n ==> (
            #[trigger] entries@[i]).flags % 2 == 0,
    ensures
        ({
            let before = old(accum)@;
            let after = final(accum)@;
            let word = (page / 64) as int;
            let bit = page % 64;
            (after.contains_key(slot) && word < after[slot]@.len() && (after[slot]@[word] >> bit)
                & 1 == 1) <==> {
                ||| before.contains_key(slot) && word < before[slot]@.len() && (before[slot]@[word]
                    >> bit) & 1 == 1
                ||| exists|i: int|
                    0 <= i < old(entries)@.len() && (i - old(ring).fetch_index()) % (
                    old(entries)@.len() as int) < n && (#[trigger] old(entries)@[i]).slot % 65536
                        == slot && old(entries)@[i].offset == page
            }
        }),
{
    lemma_drained(*ring, entries@, n);
    bitmap::law_bitmaps_are_the_vectors(accum@);
    bitmap::law_bitmaps_are_the_vectors(final(accum)@);
    dirty_ring::law_harvest_marks_the_pages_drained(
        *ring,
        entries@,
        bitmap::bitmaps(accum@),
        slot,
        page,
    );
}

/// The entries before the first clean one are those that are ready.
proof fn lemma_drained(ring: DirtyRing, entries: Seq<DirtyGfn>, n: int)
    requires
        ring.wf(),
        entries.len() == ring.count(),
        0 <= n <= entries.len(),
        forall|i: int|
            0 <= i < entries.len() && (i - ring.fetch_index()) % (entries.len() as int) < n ==> (
            #[trigger] entries[i]).flags % 2 == 1,
        forall|i: int|
            0 <= i < entries.len() && (i - ring.fetch_index()) % (entries.len() as int) == n ==> (
            #[trigger] entries[i]).flags % 2 == 0,
    ensures
        ring.ready(entries) == n,
{
    let c = entries.len() as int;
    let f = ring.fetch_index() as int;
    let ready = ring.ready(entries) as int;
    dirty_ring::law_harvest_drains_up_to_the_first_clean_entry(ring, entries);
    if ready < n {
        lemma_entry_behind(f, c, ready);
        assert(entries[(f + ready) % c].flags % 2 == 0);
    } else if ready > n {
        lemma_entry_behind(f, c, n);
        assert(entries[(f + n) % c].flags % 2 == 0);
    }
}

/// The entry `d` behind the cursor is at that distance from it.
proof fn lemma_entry_behind(f: int, c: int, d: int)
    requires
        0 <= d < c,
    ensures
        0 <= (f + d) % c < c,
        ((f + d) % c - f) % c == d,
{
    vstd::arithmetic::div_mod::lemma_mod_bound(f + d, c);
    vstd::arithmetic::div_mod::lemma_sub_mod_noop(f + d, f, c);
    vstd::arithmetic::div_mod::lemma_sub_mod_noop((f + d) % c, f, c);
    vstd::arithmetic::div_mod::lemma_mod_twice(f + d, c);
    vstd::arithmetic::div_mod::lemma_small_mod(d as nat, c as nat);
    assert(f + d - f == d);
}

/// Prepared memory holds the regions that were mapped, the layout that the state describes, and
/// a mapping for each region.
pub proof fn law_call_prepared(
    guest_memory: Vec<GuestRegionMmap>,
    mem_state: &GuestMemoryState,
    huge_pages: HugePageConfig,
    prepared: PreparedHybrid,
    i: int,
)
    requires
        call_ensures(PreparedHybrid::new, (guest_memory, mem_state, huge_pages), prepared),
    ensures
        prepared.regions() == guest_memory@,
        prepared.page_bytes() == if huge_pages == HugePageConfig::Small {
            4096int
        } else {
            0x20_0000int
        },
        prepared.shape().len() == mem_state.regions@.len(),
        0 <= i < mem_state.regions@.len() ==> prepared.shape()[i] == (
            mem_state.regions@[i].base_address,
            mem_state.regions@[i].size,
        ),
        0 <= i < guest_memory@.len() ==> prepared.mappings().len() == guest_memory@.len()
            && prepared.mappings()[i].base_host_virt_addr == guest_memory@[i].host_addr
            && prepared.mappings()[i].size == guest_memory@[i].size,
{
    memory::law_page_bytes(huge_pages);
    memory::law_shape_is_addresses_and_sizes(mem_state.regions@);
    if 0 <= i < guest_memory@.len() {
        backend::law_prepared_memory(prepared, i);
    }
}

// ---------- taking a snapshot ----------

/// Writing a state syncs the file after it was flushed exactly when the sync is not left out, and
/// reports what failed with its error.
pub proof fn law_call_state_to_file(no_sync: bool, event: StateFileEvent, action: StateFileAction)
    requires
        call_ensures(create::snapshot_state_to_file, (no_sync, event), action),
    ensures
        event is Start <==> action is Open,
        action is Save <==> event is Opened && event->Opened_0 is Ok,
        action is Flush <==> event is Saved && event->Saved_0 is Ok,
        action is Sync <==> event is Flushed && event->Flushed_0 is Ok && !no_sync,
        action is Done && action->Done_0 is Ok <==> {
            ||| event is Flushed && event->Flushed_0 is Ok && no_sync
            ||| event is Synced && event->Synced_0 is Ok
        },
        event is Opened && event->Opened_0 is Err ==> action == StateFileAction::Done(
            Err(CreateSnapshotError::SnapshotBackingFile("open", event->Opened_0->Err_0)),
        ),
        event is Saved && event->Saved_0 is Err ==> action == StateFileAction::Done(
            Err(CreateSnapshotError::SerializeMicrovmState(event->Saved_0->Err_0)),
        ),
        event is Flushed && event->Flushed_0 is Err ==> action == StateFileAction::Done(
            Err(CreateSnapshotError::SnapshotBackingFile("flush", event->Flushed_0->Err_0)),
        ),
        event is Synced && event->Synced_0 is Err ==> action == StateFileAction::Done(
            Err(CreateSnapshotError::SnapshotBackingFile("sync_all", event->Synced_0->Err_0)),
        ),
{
    create::law_state_file_steps(no_sync, event);
}

/// A snapshot writes the state that was saved, with a sync, to the path of the snapshot, and then
/// memory to the path of the memory file, for a KVM VM alone.
pub proof fn law_call_create_snapshot<'a>(
    vm_info: &'a VmInfo,
    params: &'a CreateSnapshotParams,
    event: CreateSnapshotEvent,
    action: CreateSnapshotAction<'a>,
)
    requires
        call_ensures(create::create_snapshot, (vm_info, params, event), action),
    ensures
        event is Start ==> action == CreateSnapshotAction::SaveState(vm_info),
        event is StateSaved && event->StateSaved_0 is Ok ==> action == (
        CreateSnapshotAction::WriteState {
            state: event->StateSaved_0->Ok_0,
            path: &params.snapshot_path,
            no_sync: false,
        }),
        event is StateWritten && event->StateWritten_0 is Ok ==> action is FindKvm,
        event is KvmFound && event->KvmFound_0 ==> action == (CreateSnapshotAction::WriteMemory {
            path: &params.mem_file_path,
            snapshot_type: params.snapshot_type,
        }),
        event is MemoryWritten && event->MemoryWritten_0 is Ok ==> action is MarkQueues,
        event is StateSaved && event->StateSaved_0 is Err ==> action == CreateSnapshotAction::Done(
            Err(CreateSnapshotError::MicrovmState(event->StateSaved_0->Err_0)),
        ),
        event is StateWritten && event->StateWritten_0 is Err ==> action
            == CreateSnapshotAction::Done(event->StateWritten_0),
        event is MemoryWritten && event->MemoryWritten_0 is Err ==> action
            == CreateSnapshotAction::Done(event->MemoryWritten_0),
        event is KvmFound && !event->KvmFound_0 ==> action is Done && action->Done_0 is Err,
        action is Done && action->Done_0 is Ok <==> event is QueuesMarked,
{
    create::law_create_steps(vm_info, params, event, action);
}

/// A snapshot of the state alone writes it to the path of the snapshot, synced unless that was
/// asked to be left out, and reports what came of that.
pub proof fn law_call_create_state_snapshot<'a>(
    vm_info: &'a VmInfo,
    params: &'a CreateSnapshotStateParams,
    event: StateSnapshotEvent,
    action: StateSnapshotAction<'a>,
)
    requires
        call_ensures(create::create_state_snapshot, (vm_info, params, event), action),
    ensures
        event is Start ==> action == StateSnapshotAction::SaveState(vm_info),
        event is StateSaved && event->StateSaved_0 is Ok ==> action == (
        StateSnapshotAction::WriteState {
            state: event->StateSaved_0->Ok_0,
            path: &params.snapshot_path,
            no_sync: params.no_sync,
        }),
        event is StateSaved && event->StateSaved_0 is Err ==> action == StateSnapshotAction::Done(
            Err(CreateSnapshotError::MicrovmState(event->StateSaved_0->Err_0)),
        ),
        event is StateWritten ==> action == StateSnapshotAction::Done(event->StateWritten_0),
{
}

// ---------- loading a snapshot ----------

/// A load begins with the state at the path of the snapshot, and builds the VM from the state it
/// was given back, with a userfaultfd for the backends that have a handler.
pub proof fn law_call_restore<'a>(
    params: &'a LoadSnapshotParams,
    prepared: Option<&PreparedHybrid>,
    event: RestoreEvent,
    action: RestoreAction<'a>,
)
    requires
        call_ensures(restore::restore_from_snapshot, (params, prepared, event), action),
    ensures
        event is Start ==> action == (RestoreAction::LoadState { path: &params.snapshot_path }),
        event is MemoryLoaded && event->loaded is Ok ==> action == (RestoreAction::Build {
            state: event->MemoryLoaded_state,
            with_uffd: params.mem_backend.backend_type == MemBackendType::Uffd
                || params.mem_backend.backend_type == MemBackendType::Hybrid,
            clock_realtime: params.clock_realtime,
        }),
        action is Done && action->Done_0 is Ok <==> event is Built && event->Built_0 is Ok,
        event is StateLoaded && event->StateLoaded_0 is Err ==> action == RestoreAction::Done(
            Err(RestoreFromSnapshotError::File(event->StateLoaded_0->Err_0)),
        ),
        event is Built && event->Built_0 is Err ==> action == RestoreAction::Done(
            Err(RestoreFromSnapshotError::Build(event->Built_0->Err_0)),
        ),
        event is MemoryLoaded && event->loaded is Err ==> action is Done && action->Done_0 is Err
            && action->Done_0->Err_0 is GuestMemory,
{
    if event is MemoryLoaded && event->loaded is Err {
        restore::law_failures_are_reported(
            params.mem_backend.backend_type,
            event->loaded->Err_0,
        );
    }
    restore::law_restore_begins(params, prepared, event, action);
    restore::law_restore_builds_the_vm(params, prepared, event, action);
    match event {
        RestoreEvent::StateLoaded(Ok(loaded)) => {
            restore::law_restore_changes_the_state(params, prepared, loaded, action);
        },
        RestoreEvent::ConfigUpdated { state, updated, huge_pages, host } => {
            restore::law_restore_loads_memory(
                params,
                prepared,
                state,
                updated,
                huge_pages,
                host,
                action,
            );
            if updated is Ok {
                assert(!(action is Done && action->Done_0 is Ok));
            }
        },
        _ => {},
    }
}

/// Once the machine is configured, guest memory that is sound is loaded from its backend, and from
/// no other file: a file backend maps the file at the backend's path and takes no other step.
pub proof fn law_call_restore_memory<'a>(
    params: &'a LoadSnapshotParams,
    prepared: Option<&PreparedHybrid>,
    held: MicrovmState,
    huge_pages: HugePageConfig,
    host: HostCpuId,
    action: RestoreAction<'a>,
)
    requires
        call_ensures(
            restore::restore_from_snapshot,
            (
                params,
                prepared,
                RestoreEvent::ConfigUpdated { state: held, updated: Ok(()), huge_pages, host },
            ),
            action,
        ),
        held.vm_state.memory.regions@.len() > 0,
        forall|j: int|
            0 <= j < held.vm_state.memory.regions@.len() ==> (
            #[trigger] held.vm_state.memory.regions@[j]).region_type == GuestRegionType::Dram
                && held.vm_state.memory.regions@[j].plugged@ == seq![true],
    ensures
        action is LoadMemory ==> action->LoadMemory_state == held && action->LoadMemory_huge_pages
            == huge_pages,
        ({
            let mem_backend = &params.mem_backend;
            let track_dirty_pages = params.track_dirty_pages;
            let socket = &mem_backend.backend_path;
            let steps = action->steps@;
            match mem_backend.backend_type {
                MemBackendType::File => {
                    &&& action is LoadMemory <==> huge_pages == HugePageConfig::Small
                    &&& action is LoadMemory ==> steps == seq![
                        MemoryStep::MapFile { path: &mem_backend.backend_path, track_dirty_pages },
                    ]
                },
                MemBackendType::Uffd => {
                    &&& action is LoadMemory
                    &&& steps.first() == (MemoryStep::MapAnonymous { track_dirty_pages, huge_pages })
                    &&& steps.last() == (MemoryStep::Handshake { socket, with_base: false })
                },
                MemBackendType::Precopy => {
                    let path = &mem_backend.base_mem_path->0;
                    &&& action is LoadMemory <==> mem_backend.base_mem_path is Some
                    &&& action is LoadMemory ==> steps.first() == (MemoryStep::MapFile {
                        path,
                        track_dirty_pages,
                    })
                    &&& action is LoadMemory && mem_backend.dirty_pages_path is Some
                        ==> steps.last() == (MemoryStep::ApplyDelta {
                        delta: &mem_backend.backend_path,
                        list: &mem_backend.dirty_pages_path->0,
                    })
                },
                MemBackendType::Hybrid => {
                    let path = &mem_backend.base_mem_path->0;
                    &&& prepared is None ==> (action is LoadMemory <==> mem_backend.base_mem_path
                        is Some && params.phase != Some(LoadPhase::Resume))
                    &&& prepared is None && action is LoadMemory ==> steps.first() == (
                    MemoryStep::MapFile { path, track_dirty_pages })
                    &&& action is LoadMemory ==> steps.last() == (MemoryStep::Handshake {
                        socket,
                        with_base: true,
                    })
                },
            }
        }),
{
    let regions = held.vm_state.memory.regions@;
    assert(regions[0].region_type == GuestRegionType::Dram);
    sanity::law_memory_without_dram(regions);
    restore::law_restore_loads_memory(params, prepared, held, Ok(()), huge_pages, host, action);
    restore::law_memory_comes_from_its_backend(params, prepared, huge_pages, regions);
    let mem_backend = &params.mem_backend;
    let page_size: usize = if huge_pages == HugePageConfig::Hugetlbfs2M {
        0x20_0000
    } else {
        4096
    };
    if let Some(base) = &mem_backend.base_mem_path {
        backend::law_precopy_load(mem_backend, base, params.track_dirty_pages);
        backend::law_hybrid_load(mem_backend, base, params.track_dirty_pages, page_size);
    }
    if let Some(held) = prepared {
        backend::law_finish_load(mem_backend, held.page_bytes());
    }
}

/// A load changes nothing of the state but the host devices of network devices and the socket of a
/// vsock device, and configures the machine for it.
pub proof fn law_call_restore_state<'a>(
    params: &'a LoadSnapshotParams,
    prepared: Option<&PreparedHybrid>,
    loaded: MicrovmState,
    action: RestoreAction<'a>,
)
    requires
        call_ensures(
            restore::restore_from_snapshot,
            (params, prepared, RestoreEvent::StateLoaded(Ok(loaded))),
            action,
        ),
    ensures
        ({
            let changes = params.network_overrides@;
            let net = restore::net_overridden(
                restore::net_devices(loaded),
                changes,
                changes.len() as int,
            );
            let no_vsock = params.vsock_override is Some
                && loaded.device_states.mmio_state.vsock_device is None
                && loaded.device_states.pci_state.vsock_device is None;
            &&& action is UpdateConfig <==> net is Some && !no_vsock && loaded.vcpu_states@.len()
                <= 255
            &&& action is UpdateConfig ==> restore::net_devices(action->UpdateConfig_state)
                == net->0
            &&& !(action is UpdateConfig) ==> action is Done && action->Done_0 is Err
            &&& params.vsock_override is Some && action is UpdateConfig ==> {
                let devices = action->UpdateConfig_state.device_states;
                let moved = if loaded.device_states.mmio_state.vsock_device is Some {
                    devices.mmio_state.vsock_device
                } else {
                    devices.pci_state.vsock_device
                };
                moved is Some && moved->0.device_state.backend.uds_path
                    == params.vsock_override->0.uds_path
            }
        }),
        action is UpdateConfig ==> {
            let state = action->UpdateConfig_state;
            &&& state.vm_info == loaded.vm_info
            &&& state.kvm_state == loaded.kvm_state
            &&& state.vm_state == loaded.vm_state
            &&& state.vcpu_states == loaded.vcpu_states
            &&& loaded.vcpu_states@.len() <= 255
            &&& action->update.vcpu_count == Some(loaded.vcpu_states@.len() as u8)
            &&& action->update.mem_size_mib == Some(loaded.vm_info.mem_size_mib as usize)
            &&& action->update.track_dirty_pages == Some(params.track_dirty_pages)
            &&& action->update.huge_pages == Some(loaded.vm_info.huge_pages)
        },
{
    restore::law_restore_changes_the_state(params, prepared, loaded, action);
}

/// The first phase is for a hybrid backend alone. It loads the state at the path of the snapshot
/// and prepares the memory that the state describes.
pub proof fn law_call_prepare<'a>(
    params: &'a LoadSnapshotParams,
    event: PrepareEvent,
    action: PrepareAction<'a>,
)
    requires
        call_ensures(restore::prepare_hybrid_from_params, (params, event), action),
    ensures
        event is Start ==> (action is LoadState <==> params.mem_backend.backend_type
            == MemBackendType::Hybrid),
        action is LoadState ==> action->path == &params.snapshot_path,
        event is StateLoaded && event->StateLoaded_0 is Ok ==> {
            let fills = params.mem_backend.eager_delta_path is Some
                || params.mem_backend.eager_pages_path is Some
                || params.mem_backend.prefill_pages_path is Some;
            &&& action is PrepareMemory <==> !fills && params.mem_backend.base_mem_path is Some
            &&& action is PrepareMemory ==> action->memory
                == event->StateLoaded_0->Ok_0.vm_state.memory && action->huge_pages
                == event->StateLoaded_0->Ok_0.vm_info.huge_pages && action->steps@.first() == (
            MemoryStep::MapFile {
                path: &params.mem_backend.base_mem_path->0,
                track_dirty_pages: params.track_dirty_pages,
            })
        },
        action is Done && action->Done_0 is Ok <==> event is MemoryPrepared
            && event->MemoryPrepared_0 is Ok,
        event is MemoryPrepared && event->MemoryPrepared_0 is Err ==> action == PrepareAction::Done(
            Err(
                RestoreFromSnapshotError::GuestMemory(
                    RestoreFromSnapshotGuestMemoryError::Hybrid(event->MemoryPrepared_0->Err_0),
                ),
            ),
        ),
{
    backend::law_filling(&params.mem_backend);
    match event {
        PrepareEvent::MemoryPrepared(Err(err)) => {
            restore::law_prepare_reports(err);
        },
        PrepareEvent::StateLoaded(Ok(state)) => {
            restore::law_prepare_reports(GuestMemoryFromHybridError::InvalidPhase);
            restore::law_prepare_reports(GuestMemoryFromHybridError::MissingBase);
            if let Some(base) = &params.mem_backend.base_mem_path {
                backend::law_prepare_load(
                    &params.mem_backend,
                    base,
                    params.track_dirty_pages,
                    state.vm_info.huge_pages.page_bytes() as usize,
                );
            }
        },
        _ => {
            restore::law_prepare_reports(GuestMemoryFromHybridError::InvalidPhase);
        },
    }
}

/// Memory is sound when it has a DRAM region and every DRAM region has one slot, plugged in.
pub proof fn law_call_check_memory(
    regions: &Vec<GuestMemoryRegionState>,
    fault: Option<SnapShotStateSanityCheckError>,
)
    requires
        call_ensures(sanity::check_memory, (regions,), fault),
    ensures
        fault is None <==> (exists|i: int|
            0 <= i < regions@.len() && (#[trigger] regions@[i]).region_type
                == GuestRegionType::Dram) && forall|j: int|
            0 <= j < regions@.len() && (#[trigger] regions@[j]).region_type == GuestRegionType::Dram
                ==> regions@[j].plugged@ == seq![true],
        fault == Some(SnapShotStateSanityCheckError::NoMemory) <== regions@.len() == 0,
{
    sanity::law_memory_without_dram(regions@);
}

// ---------- guest memory ----------

/// Guest memory can be laid out in a file exactly when its sizes add up to less than 2^64 and each
/// region ends below that on the host.
pub proof fn law_call_is_mappable(guest_memory: &Vec<GuestRegionMmap>, r: bool)
    requires
        call_ensures(memory::is_mappable, (guest_memory,), r),
    ensures
        r <==> guest_memory@.fold_left(
            0int,
            |sum: int, region: GuestRegionMmap| sum + region.size,
        ) <= u64::MAX && forall|i: int|
            0 <= i < guest_memory@.len() ==> (#[trigger] guest_memory@[i]).host_addr
                + guest_memory@[i].size <= u64::MAX,
{
    memory::law_mappable_is_within_limits(guest_memory@);
}

/// The regions lie in the file one behind the other, each as large as it is in memory.
pub proof fn law_call_lay_out(guest_memory: &Vec<GuestRegionMmap>, layout: Vec<FileRegion>, i: int)
    requires
        memory::mappable(guest_memory@),
        call_ensures(memory::lay_out, (guest_memory,), layout),
        0 <= i < guest_memory@.len(),
    ensures
        layout@.len() == guest_memory@.len(),
        layout@[i].host_addr == guest_memory@[i].host_addr,
        layout@[i].size == guest_memory@[i].size,
        i == 0 ==> layout@[i].offset == 0,
        i > 0 ==> layout@[i].offset == layout@[i - 1].offset + guest_memory@[i - 1].size,
{
    memory::law_layout_holds_all_regions(guest_memory@, i);
}

/// A handler is told of every region, where it lies, and how large its pages are.
pub proof fn law_call_create_guest_memory(
    guest_memory: &Vec<GuestRegionMmap>,
    huge_pages: HugePageConfig,
    mappings: Vec<GuestRegionUffdMapping>,
    i: int,
)
    requires
        memory::mappable(guest_memory@),
        call_ensures(memory::create_guest_memory, (guest_memory, huge_pages), mappings),
        0 <= i < guest_memory@.len(),
    ensures
        mappings@.len() == guest_memory@.len(),
        mappings@[i].base_host_virt_addr == guest_memory@[i].host_addr,
        mappings@[i].size == guest_memory@[i].size,
        mappings@[i].page_size == if huge_pages == HugePageConfig::Small {
            4096int
        } else {
            0x20_0000int
        },
        i == 0 ==> mappings@[i].offset == 0,
        i > 0 ==> mappings@[i].offset == mappings@[i - 1].offset + guest_memory@[i - 1].size,
{
    memory::law_page_bytes(huge_pages);
    memory::law_mappings_tell_of_every_region(
        guest_memory@,
        huge_pages.page_bytes() as usize,
        i,
    );
}

/// The ranges of the residual pages hold a byte exactly when the list names its page and some
/// mapping has it.
pub proof fn law_call_residual_ranges(
    mappings: &Vec<GuestRegionUffdMapping>,
    contents: &[u8],
    page_size: usize,
    residual: ResidualRanges,
    byte: u64,
)
    requires
        page_size > 0,
        memory::all_fit(memory::mapped_regions(mappings@)),
        call_ensures(ranges::residual_ranges, (mappings, contents, page_size), residual),
    ensures
        (exists|r: int|
            0 <= r < residual.ranges@.len() && (#[trigger] residual.ranges@[r]).offset <= byte
                < residual.ranges@[r].offset + residual.ranges@[r].len) <==> {
            &&& exists|q: int|
                0 <= q < offsets::page_offsets(contents@, page_size as u64).len()
                    && #[trigger] offsets::page_offsets(contents@, page_size as u64)[q] <= byte
                    < offsets::page_offsets(contents@, page_size as u64)[q] + page_size
            &&& exists|k: int|
                0 <= k < mappings@.len() && (#[trigger] mappings@[k]).offset <= byte
                    < mappings@[k].offset + mappings@[k].size
        },
        residual.pages == residual.ranges@.fold_left(
            0int,
            |sum: int, range: HostRange| sum + range.len as int / page_size as int,
        ),
{
    let regions = memory::mapped_regions(mappings@);
    let offs = offsets::page_offsets(contents@, page_size as u64);
    memory::law_mapped_regions_are_the_mappings(mappings@);
    ranges::law_bytes_in_ranges(regions, offs, page_size as int, byte);
    ranges::law_pages_are_counted_by_range(
        residual.ranges@,
        page_size as int,
        residual.ranges@.len() as int,
    );
    assert(residual.ranges@.subrange(0, residual.ranges@.len() as int) =~= residual.ranges@);
    if exists|k: int|
        0 <= k < regions.len() && (#[trigger] regions[k]).offset <= byte < regions[k].offset
            + regions[k].size {
        let k = choose|k: int|
            0 <= k < regions.len() && (#[trigger] regions[k]).offset <= byte < regions[k].offset
                + regions[k].size;
        assert(mappings@[k].offset <= byte < mappings@[k].offset + mappings@[k].size);
    }
    if exists|k: int|
        0 <= k < mappings@.len() && (#[trigger] mappings@[k]).offset <= byte < mappings@[k].offset
            + mappings@[k].size {
        let k = choose|k: int|
            0 <= k < mappings@.len() && (#[trigger] mappings@[k]).offset <= byte
                < mappings@[k].offset + mappings@[k].size;
        assert(regions[k].offset <= byte < regions[k].offset + regions[k].size);
    }
}

/// Every page that a list names and guest memory has is copied by some run, from its offset in the
/// delta to where the host has it.
pub proof fn law_call_delta_runs(
    guest_memory: &Vec<GuestRegionMmap>,
    contents: &[u8],
    runs: Vec<DeltaRun>,
    q: int,
)
    requires
        memory::mappable(guest_memory@),
        call_ensures(delta::delta_runs, (guest_memory, contents), runs),
        0 <= q < offsets::page_offsets(contents@, 4096).len(),
        memory::is_located(
            memory::file_layout(guest_memory@),
            offsets::page_offsets(contents@, 4096)[q],
        ),
    ensures
        ({
            let offset = offsets::page_offsets(contents@, 4096)[q];
            let regions = memory::file_layout(guest_memory@);
            let region = regions[memory::located(regions, offset)];
            exists|r: int|
                0 <= r < runs@.len() && (#[trigger] runs@[r]).file_off <= offset && offset + 4096
                    <= runs@[r].file_off + runs@[r].len && runs@[r].host + (offset
                    - runs@[r].file_off) == region.host_addr + (offset - region.offset)
        }),
{
    let regions = memory::file_layout(guest_memory@);
    assert forall|i: int| 0 <= i < regions.len() implies (#[trigger] regions[i]).fits() by {
        memory::law_file_layout_is_contiguous(guest_memory@, i);
    }
    delta::law_every_listed_page_is_copied(regions, offsets::page_offsets(contents@, 4096), q);
}

/// Of a read that came short only the whole pages count.
pub proof fn law_call_full_page_bytes(read: i64, bytes: u64)
    requires
        call_ensures(delta::full_page_bytes, (read,), bytes),
    ensures
        read < 0 ==> bytes == 0,
        read >= 0 ==> bytes <= read < bytes + 4096 && bytes % 4096 == 0,
{
}

/// The runs are shared out in order and without a gap, among eight workers at most.
pub proof fn law_call_share_out(
    runs: usize,
    parallelism: Option<usize>,
    chunks: Vec<(usize, usize)>,
    c: int,
)
    requires
        call_ensures(delta::share_out, (runs, parallelism), chunks),
        0 <= c < chunks@.len(),
    ensures
        c == 0 ==> chunks@[c].0 == 0,
        c > 0 ==> chunks@[c].0 == chunks@[c - 1].1,
        c == chunks@.len() - 1 ==> chunks@[c].1 == runs,
        ({
            let threads: int = if parallelism is Some {
                parallelism->0 as int
            } else {
                1
            };
            let most: int = if threads < 8 {
                threads
            } else {
                8
            };
            let workers: int = if runs == 0 {
                1
            } else if most < runs {
                most
            } else {
                runs as int
            };
            workers > 1 && c < chunks@.len() - 1 ==> chunks@[c].1 - chunks@[c].0 == (runs + workers
                - 1) / workers
        }),
{
    delta::law_shares_are_equal(runs as nat, parallelism, c);
}

/// Touching a working set touches each page of the manifest that guest memory has and that is not
/// to be passed over, in order and where the host has it.
pub proof fn law_call_prefault_pages(
    guest_memory: &Vec<GuestRegionMmap>,
    contents: &[u8],
    skip: &HashSet<u64>,
    page_size: usize,
    addrs: Vec<u64>,
)
    requires
        page_size > 0,
        memory::mappable(guest_memory@),
        call_ensures(
            prefault::prefault_pages,
            (guest_memory, contents, skip, page_size),
            addrs,
        ),
    ensures
        ({
            let regions = memory::file_layout(guest_memory@);
            addrs@ == offsets::page_offsets(contents@, page_size as u64).filter(
                |offset: u64| !skip@.contains(offset) && memory::is_located(regions, offset),
            ).map_values(
                |offset: u64|
                    (regions[memory::located(regions, offset)].host_addr + (offset
                        - regions[memory::located(regions, offset)].offset)) as u64,
            )
        }),
{
    let regions = memory::file_layout(guest_memory@);
    let offs = offsets::page_offsets(contents@, page_size as u64);
    prefault::law_touched_pages_are_the_wanted_ones(regions, offs, skip@, offs.len() as int);
    assert(offs.subrange(0, offs.len() as int) =~= offs);
}

/// The residual set holds the pages that the list names.
pub proof fn law_call_residual_set(
    contents: &[u8],
    page_size: u64,
    pages: HashSet<u64>,
    found: Vec<u64>,
)
    requires
        page_size > 0,
        call_ensures(prefault::residual_set, (contents, page_size), pages),
        call_ensures(offsets::read_page_offsets, (contents, page_size), found),
    ensures
        pages@ == found@.to_set(),
{
    assert(pages@ =~= found@.to_set());
}

// ---------- dirty rings of a VM ----------

/// A ring is as large as the host and 1 MiB allow, among the powers of two that hold a page; it is
/// 0 only where there is none.
pub proof fn law_call_clamp_ring_bytes(host_max: usize, page: usize, bytes: usize, other: nat)
    requires
        page > 0,
        call_ensures(ring_caps::clamp_ring_bytes, (host_max, page), bytes),
        power2::is_pow2(other as int),
    ensures
        bytes != 0 ==> power2::is_pow2(bytes as int) && page <= bytes <= host_max && bytes <= 1024
            * 1024,
        page <= other <= host_max && other <= 1024 * 1024 ==> other <= bytes,
{
    ring_caps::law_ring_size(host_max as nat, page as nat, other);
}

/// The ring that is ordered with acquire and release is preferred, and the size is what the host
/// said for the ring that is used. A bitmap beside it is asked for where the host offers one.
pub proof fn law_call_detect(
    probe: CapProbe,
    page: usize,
    caps: Option<DirtyRingCaps>,
    bytes: usize,
)
    requires
        page > 0,
        probe.acq_rel > 0 || probe.legacy > 0,
        call_ensures(ring_caps::detect, (probe, page), caps),
        call_ensures(
            ring_caps::clamp_ring_bytes,
            (
                if probe.acq_rel > 0 {
                    probe.acq_rel as usize
                } else {
                    probe.legacy as usize
                },
                page,
            ),
            bytes,
        ),
    ensures
        caps is Some <==> bytes != 0,
        caps is Some ==> caps->0.ring_bytes == bytes,
        caps is Some ==> (caps->0.with_bitmap <==> probe.with_bitmap > 0),
        caps is Some && probe.acq_rel > 0 ==> caps->0.cap == 223,
        caps is Some && probe.acq_rel <= 0 ==> caps->0.cap == 192,
{
}

/// Without any ring nothing is detected.
pub proof fn law_call_detect_nothing(probe: CapProbe, page: usize, caps: Option<DirtyRingCaps>)
    requires
        page > 0,
        probe.acq_rel <= 0,
        probe.legacy <= 0,
        call_ensures(ring_caps::detect, (probe, page), caps),
    ensures
        caps is None,
{
}

/// What is detected is enabled. A host that refuses the ring stays on its bitmap log; one that
/// refuses the bitmap beside the ring keeps the ring. Rings start with nothing gathered.
pub proof fn law_call_enable(event: EnableEvent, now_ns: u64, action: EnableAction)
    requires
        call_ensures(ring_state::enable, (event, now_ns), action),
    ensures
        event is Probed ==> action is EnableRing || action is UseBitmapLog,
        event is RingAsked && !event->RingAsked_enabled ==> action is UseBitmapLog,
        event is RingAsked && event->RingAsked_enabled && event->RingAsked_caps.with_bitmap
            ==> action is EnableBitmap && action->EnableBitmap_caps == event->RingAsked_caps
            && action->cap == 225,
        event is RingAsked && event->RingAsked_enabled && !event->RingAsked_caps.with_bitmap
            ==> action is UseRing && !action->state.bitmap_active() && action->state.ring_bytes()
            == event->RingAsked_caps.ring_bytes,
        event is BitmapAsked ==> action is UseRing && action->state.bitmap_active()
            == event->BitmapAsked_enabled && action->state.ring_bytes()
            == event->BitmapAsked_caps.ring_bytes,
        action is UseRing ==> action->state.rings().len() == 0 && action->state.accum().dom()
            == Set::<u32>::empty() && !action->state.harvester().running
            && action->state.harvester().period_ms == 150 && action->state.harvester().deadline_ns
            == now_ns,
{
    match action {
        EnableAction::UseRing { state } => match event {
            EnableEvent::RingAsked { caps, .. } => {
                ring_state::law_fresh_rings(state, caps, false, now_ns);
            },
            EnableEvent::BitmapAsked { caps, enabled } => {
                ring_state::law_fresh_rings(state, caps, enabled, now_ns);
            },
            EnableEvent::Probed { probe, page } => {},
        },
        _ => {},
    }
}

/// Where the ring of a vCPU is mapped, and how many entries of 16 bytes it has.
pub proof fn law_call_mmap_ring(
    state: &DirtyRingState,
    page: usize,
    page_offset: u32,
    mapping: RingMapping,
)
    requires
        call_ensures(DirtyRingState::mmap_ring, (state, page, page_offset), mapping),
    ensures
        mapping.offset == page_offset * page,
        mapping.len == state.ring_bytes(),
        mapping.count == state.ring_bytes() / 16,
{
}

/// A vCPU's ring that could not be mapped changes nothing; another is added behind those that are
/// there, with its cursor at 0, and changes nothing else.
pub proof fn law_call_add_vcpu_ring(
    state: &mut DirtyRingState,
    mapped: Result<(), std::io::Error>,
    r: Result<(), DirtyRingError>,
)
    requires
        call_ensures(DirtyRingState::add_vcpu_ring, (state, mapped), r),
    ensures
        r is Ok <==> mapped is Ok,
        mapped is Err ==> r == Err::<(), DirtyRingError>(DirtyRingError::Mmap(mapped->Err_0))
            && *final(state) == *old(state),
        mapped is Ok ==> {
            &&& final(state).ring_bytes() == old(state).ring_bytes()
            &&& final(state).bitmap_active() == old(state).bitmap_active()
            &&& final(state).accum() == old(state).accum()
            &&& final(state).harvester() == old(state).harvester()
            &&& final(state).rings().len() == old(state).rings().len() + 1
            &&& forall|i: int|
                0 <= i < old(state).rings().len() ==> #[trigger] final(state).rings()[i]
                    == old(state).rings()[i]
            &&& final(state).rings().last().count() == old(state).ring_bytes() / 16
            &&& final(state).rings().last().fetch_index() == 0
        },
{
    if mapped is Ok {
        let rings = final(state).rings();
        assert forall|i: int| 0 <= i < state.rings().len() implies #[trigger] rings[i]
            == state.rings()[i] by {
            assert(rings.drop_last()[i] == rings[i]);
        }
    }
}

/// A harvest of all rings marks the page of every entry that some ring has ready, and no other
/// page, and asks for a reset exactly when some ring has one.
pub proof fn law_call_harvest(
    state: &mut DirtyRingState,
    memory: &mut Vec<Vec<DirtyGfn>>,
    reset: bool,
    slot: u32,
    page: u64,
)
    requires
        state.wf(),
        ring_state::backs(ring_state::memories(memory@), state.rings()),
        call_ensures(DirtyRingState::harvest, (state, memory), reset),
    ensures
        reset <==> exists|r: int|
            0 <= r < old(state).rings().len() && (#[trigger] old(memory)@[r])@[(
            old(state).rings()[r].fetch_index() % old(state).rings()[r].count()) as int].flags % 2
                == 1,
        ({
            let before = old(state).accum();
            let after = final(state).accum();
            let word = (page / 64) as int;
            let bit = page % 64;
            (after.contains_key(slot) && word < after[slot].len() && (after[slot][word] >> bit) & 1
                == 1) <==> {
                ||| before.contains_key(slot) && word < before[slot].len() && (before[slot][word]
                    >> bit) & 1 == 1
                ||| exists|r: int, i: int|
                    0 <= r < old(state).rings().len() && 0 <= i < old(memory)@[r]@.len() && (i
                        - old(state).rings()[r].fetch_index() as int) % (
                    old(memory)@[r]@.len() as int) < old(state).rings()[r].ready(old(memory)@[r]@)
                        && (#[trigger] old(memory)@[r]@[i]).slot % 65536 == slot
                        && old(memory)@[r]@[i].offset == page
            }
        }),
{
    lemma_gathered(*state, memory@, slot, page);
}

/// Collecting hands out what was gathered with what is harvested now, and starts anew.
pub proof fn law_call_collect(
    state: &mut DirtyRingState,
    memory: &mut Vec<Vec<DirtyGfn>>,
    r: (SlotBitmaps, bool),
    slot: u32,
    page: u64,
)
    requires
        state.wf(),
        ring_state::backs(ring_state::memories(memory@), state.rings()),
        call_ensures(DirtyRingState::collect, (state, memory), r),
    ensures
        final(state).accum().dom() == Set::<u32>::empty(),
        r.1 <==> exists|r: int|
            0 <= r < old(state).rings().len() && (#[trigger] old(memory)@[r])@[(
            old(state).rings()[r].fetch_index() % old(state).rings()[r].count()) as int].flags % 2
                == 1,
        ({
            let before = old(state).accum();
            let after = r.0@;
            let word = (page / 64) as int;
            let bit = page % 64;
            (after.contains_key(slot) && word < after[slot]@.len() && (after[slot]@[word] >> bit)
                & 1 == 1) <==> {
                ||| before.contains_key(slot) && word < before[slot].len() && (before[slot][word]
                    >> bit) & 1 == 1
                ||| exists|r: int, i: int|
                    0 <= r < old(state).rings().len() && 0 <= i < old(memory)@[r]@.len() && (i
                        - old(state).rings()[r].fetch_index() as int) % (
                    old(memory)@[r]@.len() as int) < old(state).rings()[r].ready(old(memory)@[r]@)
                        && (#[trigger] old(memory)@[r]@[i]).slot % 65536 == slot
                        && old(memory)@[r]@[i].offset == page
            }
        }),
{
    lemma_gathered(*state, memory@, slot, page);
    bitmap::law_bitmaps_are_the_vectors(r.0@);
}

/// What a harvest of all rings gathers, said of the vectors that hold them.
proof fn lemma_gathered(
    state: DirtyRingState,
    memory: Seq<Vec<DirtyGfn>>,
    slot: u32,
    page: u64,
)
    requires
        state.wf(),
        ring_state::backs(ring_state::memories(memory), state.rings()),
    ensures
        state.has_ready(ring_state::memories(memory)) <==> exists|r: int|
            0 <= r < state.rings().len() && (#[trigger] memory[r])@[(state.rings()[r].fetch_index()
                % state.rings()[r].count()) as int].flags % 2 == 1,
        ({
            let before = state.accum();
            let after = state.harvested(ring_state::memories(memory));
            let word = (page / 64) as int;
            let bit = page % 64;
            (after.contains_key(slot) && word < after[slot].len() && (after[slot][word] >> bit) & 1
                == 1) <==> {
                ||| before.contains_key(slot) && word < before[slot].len() && (before[slot][word]
                    >> bit) & 1 == 1
                ||| exists|r: int, i: int|
                    0 <= r < state.rings().len() && 0 <= i < memory[r]@.len() && (i
                        - state.rings()[r].fetch_index() as int) % (memory[r]@.len() as int)
                        < state.rings()[r].ready(memory[r]@) && (#[trigger] memory[r]@[i]).slot
                        % 65536 == slot && memory[r]@[i].offset == page
            }
        }),
{
    let views = ring_state::memories(memory);
    ring_state::law_backing(memory, state.rings());
    ring_state::law_reset_is_asked_for(state, views);
    ring_state::law_harvest_of_all_rings(state, views, slot, page);
    assert forall|r: int| 0 <= r < memory.len() implies #[trigger] views[r] == memory[r]@ by {}
    assert forall|r: int|
        0 <= r < state.rings().len() && (#[trigger] views[r])[(state.rings()[r].fetch_index()
            % state.rings()[r].count()) as int].flags % 2 == 1 implies exists|q: int|
        0 <= q < state.rings().len() && (#[trigger] memory[q])@[(state.rings()[q].fetch_index()
            % state.rings()[q].count()) as int].flags % 2 == 1 by {
        assert(memory[r]@ == views[r]);
    }
    assert forall|r: int|
        0 <= r < state.rings().len() && (#[trigger] memory[r])@[(state.rings()[r].fetch_index()
            % state.rings()[r].count()) as int].flags % 2 == 1 implies exists|q: int|
        0 <= q < state.rings().len() && (#[trigger] views[q])[(state.rings()[q].fetch_index()
            % state.rings()[q].count()) as int].flags % 2 == 1 by {
        assert(memory[r]@ == views[r]);
    }
    assert forall|r: int, i: int|
        0 <= r < state.rings().len() && 0 <= i < views[r].len() && (i
            - state.rings()[r].fetch_index() as int) % (views[r].len() as int)
            < state.rings()[r].ready(views[r]) && (#[trigger] views[r][i]).slot % 65536 == slot
            && views[r][i].offset == page implies exists|q: int, j: int|
        0 <= q < state.rings().len() && 0 <= j < memory[q]@.len() && (j
            - state.rings()[q].fetch_index() as int) % (memory[q]@.len() as int)
            < state.rings()[q].ready(memory[q]@) && (#[trigger] memory[q]@[j]).slot % 65536 == slot
            && memory[q]@[j].offset == page by {
        assert(memory[r]@[i] == views[r][i]);
    }
    assert forall|r: int, i: int|
        0 <= r < state.rings().len() && 0 <= i < memory[r]@.len() && (i
            - state.rings()[r].fetch_index() as int) % (memory[r]@.len() as int)
            < state.rings()[r].ready(memory[r]@) && (#[trigger] memory[r]@[i]).slot % 65536 == slot
            && memory[r]@[i].offset == page implies exists|q: int, j: int|
        0 <= q < state.rings().len() && 0 <= j < views[q].len() && (j
            - state.rings()[q].fetch_index() as int) % (views[q].len() as int)
            < state.rings()[q].ready(views[q]) && (#[trigger] views[q][j]).slot % 65536 == slot
            && views[q][j].offset == page by {
        assert(views[r][i] == memory[r]@[i]);
    }
}

/// Arming a harvester sets it running until 30 seconds from now, with the period asked for within
/// 20 ms and 5 s, and asks for a thread exactly when none runs.
pub proof fn law_call_harvester(
    state: &mut DirtyRingState,
    period_ms: u64,
    now_ns: u64,
    start: bool,
)
    requires
        now_ns + 30_000_000_000 <= u64::MAX,
        call_ensures(DirtyRingState::arm_harvester, (state, period_ms, now_ns), start),
    ensures
        start <==> !old(state).harvester().running,
        final(state).harvester().running,
        final(state).harvester().deadline_ns - now_ns == 30_000_000_000,
        20 <= final(state).harvester().period_ms <= 5000,
        20 <= period_ms <= 5000 ==> final(state).harvester().period_ms == period_ms,
        period_ms < 20 ==> final(state).harvester().period_ms == 20,
        period_ms > 5000 ==> final(state).harvester().period_ms == 5000,
        final(state).rings() == old(state).rings(),
        final(state).accum() == old(state).accum(),
{
}

/// A harvester that looks at its deadline goes on before it, after its period, and stops from it
/// on.
pub proof fn law_call_harvester_step(
    state: &mut DirtyRingState,
    now_ns: u64,
    step: HarvesterStep,
)
    requires
        call_ensures(DirtyRingState::harvester_step, (state, now_ns), step),
    ensures
        now_ns < old(state).harvester().deadline_ns ==> step == HarvesterStep::HarvestAfter(
            old(state).harvester().period_ms,
        ) && final(state).harvester() == old(state).harvester(),
        now_ns >= old(state).harvester().deadline_ns ==> step == HarvesterStep::Stop && !(
        final(state).harvester().running),
        final(state).rings() == old(state).rings(),
        final(state).accum() == old(state).accum(),
{
    ring_state::law_looking(state.harvester(), now_ns);
}

// ---------- serving from two layers ----------

/// A page comes from the delta file exactly when the search found data there at or before the
/// page's offset.
pub proof fn law_call_page_source(data: i64, offset: u64, source: PageSource)
    requires
        call_ensures(layered::page_source, (data, offset), source),
    ensures
        source is Delta <==> 0 <= data && data <= offset,
        source is Base <==> data < 0 || data > offset,
{
}

/// A copy that put bytes in place or found the page there has served it; one that was interrupted
/// before its first byte is tried again; one that found no process ends the handler, and so does
/// every other failure, as a fatal one.
pub proof fn law_call_copy_verdict(outcome: CopyOutcome, verdict: CopyVerdict)
    requires
        call_ensures(layered::copy_verdict, (outcome,), verdict),
    ensures
        verdict is Served <==> outcome is Copied && outcome->Copied_0 > 0 || outcome is Failed
            && outcome->Failed_0 == 17,
        verdict is Retry <==> outcome is PartiallyCopied && (outcome->PartiallyCopied_0 == 0
            || outcome->PartiallyCopied_0 + 11 == usize::MAX + 1),
        verdict is VmGone <==> outcome is Failed && outcome->Failed_0 == 3,
{
}

/// A message with a file is taken at any attempt; without one, the first 49 attempts are followed
/// by another.
pub proof fn law_call_handshake(attempt: u32, received: Received, step: HandshakeStep)
    requires
        call_ensures(layered::handshake_step, (attempt, received), step),
    ensures
        step is Accept <==> received is WithFile,
        step is Retry <==> !(received is WithFile) && attempt < 50,
        step is GiveUp <==> !(received is WithFile) && attempt >= 50,
{
}

/// A fault is served by the page around its address, from as far behind the start of a mapping's
/// contents as the page is behind the start of the first mapping that has it; a page that no
/// mapping has is not served.
pub proof fn law_call_serve_page(
    handler: &LayeredHandler,
    addr: u64,
    target: Option<PageTarget>,
)
    requires
        call_ensures(LayeredHandler::serve_page, (handler, addr), target),
        power2::is_pow2(handler.page_bytes() as int),
        forall|k: int|
            0 <= k < handler.maps().len() ==> (#[trigger] handler.maps()[k]).offset
                + handler.maps()[k].size <= u64::MAX,
    ensures
        ({
            let maps = handler.maps();
            let dst = addr - addr as int % handler.page_bytes() as int;
            &&& target is Some <==> exists|k: int|
                0 <= k < maps.len() && (#[trigger] maps[k]).base_host_virt_addr <= dst
                    < maps[k].base_host_virt_addr + maps[k].size
            &&& target is Some ==> target->0.dst == dst && exists|k: int|
                0 <= k < maps.len() && (#[trigger] maps[k]).base_host_virt_addr <= dst
                    < maps[k].base_host_virt_addr + maps[k].size && target->0.offset
                    - maps[k].offset == dst - maps[k].base_host_virt_addr && forall|j: int|
                    0 <= j < k ==> !((#[trigger] maps[j]).base_host_virt_addr <= dst
                        < maps[j].base_host_virt_addr + maps[j].size)
        }),
{
    layered::law_faulting_page(addr, handler.page_bytes());
    layered::law_target_is_in_the_first_mapping(
        handler.maps(),
        offsets::aligned(addr, handler.page_bytes() as u64),
    );
}

/// Mappings can be served exactly when there is one, the first has a page size that is a power of
/// two, and each ends below 2^64 with room for a page behind its size.
pub proof fn law_call_can_serve(mappings: &Vec<GuestRegionUffdMapping>, r: bool)
    requires
        call_ensures(layered::can_serve, (mappings,), r),
    ensures
        r <==> {
            &&& mappings@.len() > 0
            &&& power2::is_pow2(mappings@[0].page_size as int)
            &&& forall|k: int|
                0 <= k < mappings@.len() ==> (#[trigger] mappings@[k]).offset + mappings@[k].size
                    <= u64::MAX && mappings@[k].base_host_virt_addr + mappings@[k].size <= u64::MAX
                    && mappings@[k].size + mappings@[0].page_size <= usize::MAX
        },
{
    layered::law_served_mappings(mappings@);
}

/// A new handler has all pages of all mappings to copy ahead, mapping by mapping and page by page,
/// and has counted nothing.
pub proof fn law_call_new_handler(
    mappings: Vec<GuestRegionUffdMapping>,
    prefill: bool,
    handler: LayeredHandler,
)
    requires
        mappings@.len() > 0,
        mappings@[0].page_size > 0,
        call_ensures(LayeredHandler::new, (mappings, prefill), handler),
    ensures
        handler.maps() == mappings@,
        handler.page_bytes() == mappings@[0].page_size,
        handler.prefills() == prefill,
        handler.fault_count() == 0,
        ({
            let page_size = mappings@[0].page_size as int;
            handler.to_prefill() == mappings@.map_values(
                |mapping: GuestRegionUffdMapping|
                    Seq::new(
                        ((mapping.size + page_size - 1) / page_size) as nat,
                        |j: int|
                            PageTarget {
                                dst: (mapping.base_host_virt_addr + j * page_size) as u64,
                                offset: (mapping.offset + j * page_size) as u64,
                            },
                    ),
            ).flatten()
        }),
{
    layered::law_prefill_goes_through_the_mappings(mappings@, mappings@[0].page_size as int, 0);
    assert(mappings@.subrange(0, mappings@.len() as int) =~= mappings@);
}

/// While no fault waits, the next pages are copied ahead, up to 64 of them, in order and leaving
/// none out; the handler finishes exactly when it copies ahead and none is left.
pub proof fn law_call_idle_step(handler: &mut LayeredHandler, step: IdleStep)
    requires
        call_ensures(LayeredHandler::idle_step, (handler,), step),
    ensures
        step is Wait <==> !old(handler).prefills(),
        step is Finish <==> old(handler).prefills() && old(handler).to_prefill().len() == 0,
        step is Copy ==> {
            let pages = step->Copy_0@;
            &&& 0 < pages.len() <= 64
            &&& pages + final(handler).to_prefill() == old(handler).to_prefill()
            &&& pages.len() == 64 || final(handler).to_prefill().len() == 0
        },
        final(handler).maps() == old(handler).maps(),
        final(handler).page_bytes() == old(handler).page_bytes(),
        final(handler).fault_count() == old(handler).fault_count(),
{
    layered::law_handlers_alike(*final(handler), *handler);
}

/// A fault counts once, for the file that it was served from, and every 1024th is reported.
pub proof fn law_call_count_fault(handler: &mut LayeredHandler, source: PageSource, report: bool)
    requires
        call_ensures(LayeredHandler::count_fault, (handler, source), report),
    ensures
        final(handler).fault_count() == old(handler).fault_count() + 1,
        source is Delta ==> final(handler).delta_count() == old(handler).delta_count() + 1 && final(
            handler).base_count() == old(handler).base_count(),
        source is Base ==> final(handler).base_count() == old(handler).base_count() + 1 && final(
            handler).delta_count() == old(handler).delta_count(),
        report <==> final(handler).fault_count() % 1024 == 0,
        final(handler).maps() == old(handler).maps(),
        final(handler).to_prefill() == old(handler).to_prefill(),
{
    layered::law_handlers_alike(*final(handler), *handler);
}

/// A range that the guest has given up is unregistered whole, when it is made of whole pages.
pub proof fn law_call_unregister_range(
    handler: &LayeredHandler,
    start: u64,
    end: u64,
    len: Option<u64>,
)
    requires
        call_ensures(LayeredHandler::unregister_range, (handler, start, end), len),
    ensures
        len is Some <==> start as int % handler.page_bytes() as int == 0 && end as int
            % handler.page_bytes() as int == 0 && start < end,
        len is Some ==> start + len->0 == end,
{
}

/// Pages are handed out in order, as many as were asked for unless fewer are left.
pub proof fn law_call_prefill_some(
    handler: &mut LayeredHandler,
    budget: usize,
    pages: Vec<PageTarget>,
)
    requires
        call_ensures(LayeredHandler::prefill_some, (handler, budget), pages),
    ensures
        pages@ == old(handler).to_prefill().subrange(0, pages@.len() as int),
        pages@.len() == if old(handler).to_prefill().len() < budget {
            old(handler).to_prefill().len() as int
        } else {
            budget as int
        },
        final(handler).to_prefill() == old(handler).to_prefill().subrange(
            pages@.len() as int,
            old(handler).to_prefill().len() as int,
        ),
{
    let before = handler.to_prefill();
    let after = final(handler).to_prefill();
    assert(pages@ + after == before);
    assert(before.len() == pages@.len() + after.len());
    assert(before.subrange(0, pages@.len() as int) =~= pages@) by {
        assert((pages@ + after).subrange(0, pages@.len() as int) =~= pages@);
    }
    assert((pages@ + after).subrange(pages@.len() as int, before.len() as int) =~= after);
}

/// The counters are told in the order: faults, from the delta, from the base. The buffer holds a
/// page and at least 4096 bytes.
pub proof fn law_call_handler_sizes(
    handler: &LayeredHandler,
    counters: (u64, u64, u64),
    bytes: usize,
)
    requires
        call_ensures(LayeredHandler::counters, (handler,), counters),
        call_ensures(LayeredHandler::buffer_bytes, (handler,), bytes),
    ensures
        counters.0 == handler.fault_count(),
        counters.1 == handler.delta_count(),
        counters.2 == handler.base_count(),
        handler.page_bytes() <= bytes && 4096 <= bytes,
        bytes == handler.page_bytes() || bytes == 4096,
{
}

// ---------- comparing CPUs ----------

/// The vendors of host and snapshot are logged, and a third line says that they differ, exactly
/// when both are known and do.
pub proof fn law_call_validate_cpu_vendor(
    state: &MicrovmState,
    host: Option<[u8; 12]>,
    log: Vec<CpuIdMessage<[u8; 12]>>,
)
    requires
        state.vcpu_states@.len() > 0,
        call_ensures(sanity::validate_cpu_vendor, (state, host), log),
    ensures
        ({
            let snapshot = state.vcpu_states@[0].vendor_id;
            let differ = host is Some && snapshot is Some && host->0@ != snapshot->0@;
            &&& log@.len() == if differ {
                3int
            } else {
                2int
            }
            &&& host is Some ==> log@[0] == CpuIdMessage::Host(host->0)
            &&& host is None ==> log@[0] == CpuIdMessage::<[u8; 12]>::HostUnknown
            &&& snapshot is Some ==> log@[1] == CpuIdMessage::Snapshot(snapshot->0)
            &&& snapshot is None ==> log@[1] == CpuIdMessage::<[u8; 12]>::SnapshotUnknown
            &&& differ ==> log@[2] == CpuIdMessage::<[u8; 12]>::Differ
        }),
{
    sanity::law_cpu_logs(*state, HostCpuId::Vendor(host), CpuIdLog::Vendor(log));
}

/// The manufacturer of the host and of every vCPU is logged, and a last line says that they
/// differ, exactly when the host's is known and some vCPU's is known and another.
pub proof fn law_call_validate_cpu_manufacturer(
    state: &MicrovmState,
    host: Option<u32>,
    log: Vec<CpuIdMessage<u32>>,
)
    requires
        state.vcpu_states@.len() > 0,
        call_ensures(sanity::validate_cpu_manufacturer_id, (state, host), log),
    ensures
        ({
            let states = state.vcpu_states@;
            let differ = host is Some && exists|k: int|
                0 <= k < states.len() && (#[trigger] states[k]).manufacturer_id is Some
                    && states[k].manufacturer_id->0 != host->0;
            &&& log@.len() == states.len() + if differ {
                2int
            } else {
                1int
            }
            &&& host is Some ==> log@[0] == CpuIdMessage::Host(host->0)
            &&& host is None ==> log@[0] == CpuIdMessage::<u32>::HostUnknown
            &&& differ ==> log@.last() == CpuIdMessage::<u32>::Differ
        }),
{
    sanity::law_cpu_logs(*state, HostCpuId::Manufacturer(host), CpuIdLog::Manufacturer(log));
}

} // verus!
