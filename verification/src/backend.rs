//! Loading guest memory from its backend: the steps to take, in order, and what is reported when
//! one of them fails.
use std::path::PathBuf;
use vstd::arithmetic::power2;
use vstd::prelude::*;

use crate::config::MemBackendConfig;
use crate::delta;
use crate::errors::{
    ComponentError, GuestMemoryFromFileError, GuestMemoryFromHybridError, GuestMemoryFromUffdError,
};
use crate::memory;
use crate::memory::{
    create_guest_memory, FileRegion, GuestMemoryState, GuestRegionMmap, GuestRegionUffdMapping,
    HugePageConfig,
};
use crate::offsets;
use crate::prefault;
use crate::ranges;

verus! {

broadcast use {vstd::seq::group_seq_axioms, vstd::set::group_set_axioms};

/// For which faults a range is registered with a userfaultfd.
#[derive(Clone, Copy, Debug, PartialEq, Eq, Structural)]
pub enum RegisterMode {
    /// Faults on pages that are missing; the handler copies them in.
    Missing,
    /// Faults on pages that are in the page cache but not mapped; the handler lets them through.
    Minor,
}

/// One step of loading guest memory.
#[derive(Clone, Copy, Debug, PartialEq, Eq)]
pub enum MemoryStep<'a> {
    /// Open the file and map the regions of guest memory onto it, back to back, so that writes
    /// stay private.
    MapFile {
        /// The file.
        path: &'a PathBuf,
        /// Whether the pages that are written to are tracked.
        track_dirty_pages: bool,
    },
    /// Map the regions of guest memory onto anonymous memory.
    MapAnonymous {
        /// Whether the pages that are written to are tracked.
        track_dirty_pages: bool,
        /// How it is backed by huge pages.
        huge_pages: HugePageConfig,
    },
    /// Read the list of residual pages: the pages that later steps leave alone.
    ReadResidual {
        /// The file that lists them.
        list: &'a PathBuf,
        /// The page size in bytes.
        page_size: usize,
    },
    /// Replace the ranges of the pages listed by anonymous private memory.
    Overlay {
        /// The file that lists them.
        list: &'a PathBuf,
        /// The page size in bytes.
        page_size: usize,
    },
    /// Read a byte of each page listed that is not residual.
    Prefault {
        /// The file that lists them.
        manifest: &'a PathBuf,
        /// The page size in bytes.
        page_size: usize,
    },
    /// Copy the pages listed from a delta file into guest memory.
    ApplyDelta {
        /// The delta file.
        delta: &'a PathBuf,
        /// The file that lists the pages.
        list: &'a PathBuf,
    },
    /// Create a userfaultfd for all of guest memory by the builder of its crate.
    BuildUffd,
    /// Create a userfaultfd for missing pages by its system calls.
    CreateUffd,
    /// Register all of guest memory with the userfaultfd.
    RegisterAll {
        /// For which faults.
        mode: RegisterMode,
    },
    /// Register the ranges of the pages listed with the userfaultfd.
    Register {
        /// The file that lists them.
        list: &'a PathBuf,
        /// The page size in bytes.
        page_size: usize,
        /// For which faults.
        mode: RegisterMode,
    },
    /// Connect to the page-fault handler and send it the mappings and the userfaultfd.
    Handshake {
        /// The handler's socket.
        socket: &'a PathBuf,
        /// Whether the file of the base is sent along.
        with_base: bool,
    },
}

/// The steps of loading guest memory from a file.
pub open spec fn file_steps<'a>(path: &'a PathBuf, track_dirty_pages: bool) -> Seq<MemoryStep<'a>> {
    seq![MemoryStep::MapFile { path, track_dirty_pages }]
}

/// The steps of loading guest memory through a page-fault handler.
pub open spec fn uffd_steps<'a>(
    socket: &'a PathBuf,
    track_dirty_pages: bool,
    huge_pages: HugePageConfig,
) -> Seq<MemoryStep<'a>> {
    seq![
        MemoryStep::MapAnonymous { track_dirty_pages, huge_pages },
        MemoryStep::BuildUffd,
        MemoryStep::RegisterAll { mode: RegisterMode::Missing },
        MemoryStep::Handshake { socket, with_base: false },
    ]
}

/// The step on the residual pages that are listed, where there is a list.
pub open spec fn residual_step<'a>(
    mem_backend: &'a MemBackendConfig,
    step: spec_fn(&'a PathBuf) -> MemoryStep<'a>,
) -> Seq<MemoryStep<'a>> {
    match &mem_backend.dirty_pages_path {
        Some(list) => seq![step(list)],
        None => Seq::empty(),
    }
}

/// The step that isolates the residual pages, where there are any.
pub open spec fn overlay_steps<'a>(mem_backend: &'a MemBackendConfig, page_size: usize) -> Seq<
    MemoryStep<'a>,
> {
    residual_step(mem_backend, |list: &'a PathBuf| MemoryStep::Overlay { list, page_size })
}

/// The step that registers the residual pages, where there are any.
pub open spec fn register_steps<'a>(mem_backend: &'a MemBackendConfig, page_size: usize) -> Seq<
    MemoryStep<'a>,
> {
    residual_step(
        mem_backend,
        |list: &'a PathBuf|
            MemoryStep::Register { list, page_size, mode: RegisterMode::Missing },
    )
}

/// The steps that fill in pages before the VM resumes, where asked for: the working set is made
/// resident, and then the trusted pages are copied in.
pub open spec fn fill_steps<'a>(mem_backend: &'a MemBackendConfig, page_size: usize) -> Seq<
    MemoryStep<'a>,
> {
    let prefault: Seq<MemoryStep<'a>> = match &mem_backend.prefill_pages_path {
        Some(manifest) => seq![MemoryStep::Prefault { manifest, page_size }],
        None => Seq::empty(),
    };
    let eager: Seq<MemoryStep<'a>> = match (
        &mem_backend.eager_delta_path,
        &mem_backend.eager_pages_path,
    ) {
        (Some(delta), Some(list)) => seq![MemoryStep::ApplyDelta { delta, list }],
        _ => Seq::empty(),
    };
    prefault + eager
}

/// The steps of a hybrid load in one go, from base file `base`.
pub open spec fn hybrid_steps<'a>(
    mem_backend: &'a MemBackendConfig,
    base: &'a PathBuf,
    track_dirty_pages: bool,
    page_size: usize,
) -> Seq<MemoryStep<'a>> {
    seq![MemoryStep::MapFile { path: base, track_dirty_pages }] + residual_step(
        mem_backend,
        |list: &'a PathBuf| MemoryStep::ReadResidual { list, page_size },
    ) + overlay_steps(mem_backend, page_size) + fill_steps(mem_backend, page_size) + seq![
        MemoryStep::CreateUffd,
    ] + register_steps(mem_backend, page_size) + seq![
        MemoryStep::Handshake { socket: &mem_backend.backend_path, with_base: true },
    ]
}

/// The steps of the first phase of a hybrid load in two phases, from base file `base`.
pub open spec fn prepare_steps<'a>(
    mem_backend: &'a MemBackendConfig,
    base: &'a PathBuf,
    track_dirty_pages: bool,
    page_size: usize,
) -> Seq<MemoryStep<'a>> {
    seq![MemoryStep::MapFile { path: base, track_dirty_pages }] + overlay_steps(mem_backend, page_size) + seq![
        MemoryStep::CreateUffd,
    ] + register_steps(mem_backend, page_size)
}

/// The steps of the second phase of a hybrid load in two phases.
pub open spec fn finish_steps<'a>(mem_backend: &'a MemBackendConfig, page_size: usize) -> Seq<
    MemoryStep<'a>,
> {
    overlay_steps(mem_backend, page_size) + register_steps(mem_backend, page_size) + seq![
        MemoryStep::Handshake { socket: &mem_backend.backend_path, with_base: true },
    ]
}

/// The steps of a precopy load from base file `base`.
pub open spec fn precopy_steps<'a>(
    mem_backend: &'a MemBackendConfig,
    base: &'a PathBuf,
    track_dirty_pages: bool,
) -> Seq<MemoryStep<'a>> {
    seq![MemoryStep::MapFile { path: base, track_dirty_pages }] + residual_step(
        mem_backend,
        |list: &'a PathBuf|
            MemoryStep::ApplyDelta { delta: &mem_backend.backend_path, list },
    )
}

/// Whether a request asks for pages to be filled in before the VM resumes, which a load in two
/// phases cannot do: copying into registered pages would wait for the handler forever.
pub open spec fn fills_pages(mem_backend: &MemBackendConfig) -> bool {
    ||| mem_backend.eager_delta_path is Some
    ||| mem_backend.eager_pages_path is Some
    ||| mem_backend.prefill_pages_path is Some
}

/// Whether a step maps guest memory.
pub open spec fn is_mapping(step: MemoryStep<'_>) -> bool {
    step is MapFile || step is MapAnonymous
}

/// Whether a step that maps guest memory has the pages tracked that are written to.
pub open spec fn tracks_dirty_pages(step: MemoryStep<'_>) -> bool {
    match step {
        MemoryStep::MapFile { track_dirty_pages, .. } => track_dirty_pages,
        MemoryStep::MapAnonymous { track_dirty_pages, .. } => track_dirty_pages,
        _ => false,
    }
}

/// Whether a step creates a userfaultfd.
pub open spec fn creates_uffd(step: MemoryStep<'_>) -> bool {
    step is BuildUffd || step is CreateUffd
}

/// Whether the steps map guest memory, if `maps` says so, once and first of all, with dirty pages
/// tracked as `track_dirty_pages` says, and else not at all; create a userfaultfd exactly if
/// `creates` says so; and tell a handler exactly if `tells` says so.
pub open spec fn steps_fit<'a>(
    steps: Seq<MemoryStep<'a>>,
    maps: bool,
    track_dirty_pages: bool,
    creates: bool,
    tells: bool,
) -> bool {
    &&& forall|i: int|
        0 <= i < steps.len() ==> (is_mapping(#[trigger] steps[i]) <==> i == 0 && maps)
    &&& forall|i: int|
        0 <= i < steps.len() && is_mapping(#[trigger] steps[i]) ==> tracks_dirty_pages(steps[i])
            == track_dirty_pages
    &&& maps ==> steps.len() > 0
    &&& creates <==> exists|i: int| 0 <= i < steps.len() && creates_uffd(#[trigger] steps[i])
    &&& tells <==> exists|i: int| 0 <= i < steps.len() && (#[trigger] steps[i]) is Handshake
}

/// A load from a file maps it and does no more.
pub proof fn law_file_steps_fit<'a>(path: &'a PathBuf, track_dirty_pages: bool)
    ensures
        steps_fit(file_steps(path, track_dirty_pages), true, track_dirty_pages, false, false),
{
}

/// A load through a page-fault handler maps memory, creates a userfaultfd and tells the handler.
pub proof fn law_uffd_steps_fit<'a>(
    socket: &'a PathBuf,
    track_dirty_pages: bool,
    huge_pages: HugePageConfig,
)
    ensures
        steps_fit(
            uffd_steps(socket, track_dirty_pages, huge_pages),
            true,
            track_dirty_pages,
            true,
            true,
        ),
{
    let steps = uffd_steps(socket, track_dirty_pages, huge_pages);
    assert(creates_uffd(steps[1]) && steps[3] is Handshake);
}

/// A hybrid load in one go maps memory, creates a userfaultfd and tells the handler.
pub proof fn law_hybrid_steps_fit<'a>(
    mem_backend: &'a MemBackendConfig,
    base: &'a PathBuf,
    track_dirty_pages: bool,
    page_size: usize,
)
    ensures
        steps_fit(
            hybrid_steps(mem_backend, base, track_dirty_pages, page_size),
            true,
            track_dirty_pages,
            true,
            true,
        ),
{
    let steps = hybrid_steps(mem_backend, base, track_dirty_pages, page_size);
    let i = 1 + 2 * overlay_steps(mem_backend, page_size).len() + fill_steps(
        mem_backend,
        page_size,
    ).len();
    assert(creates_uffd(steps[i as int]));
    assert(steps[steps.len() - 1] is Handshake);
}

/// The first phase of a hybrid load maps memory and creates a userfaultfd, but tells no handler.
pub proof fn law_prepare_steps_fit<'a>(
    mem_backend: &'a MemBackendConfig,
    base: &'a PathBuf,
    track_dirty_pages: bool,
    page_size: usize,
)
    ensures
        steps_fit(
            prepare_steps(mem_backend, base, track_dirty_pages, page_size),
            true,
            track_dirty_pages,
            true,
            false,
        ),
{
    let steps = prepare_steps(mem_backend, base, track_dirty_pages, page_size);
    let i = 1 + overlay_steps(mem_backend, page_size).len();
    assert(creates_uffd(steps[i as int]));
}

/// The second phase of a hybrid load maps nothing and creates nothing, and tells the handler.
pub proof fn law_finish_steps_fit<'a>(
    mem_backend: &'a MemBackendConfig,
    track_dirty_pages: bool,
    page_size: usize,
)
    ensures
        steps_fit(
            finish_steps(mem_backend, page_size),
            false,
            track_dirty_pages,
            false,
            true,
        ),
{
    let steps = finish_steps(mem_backend, page_size);
    assert(steps[steps.len() - 1] is Handshake);
}

/// A precopy load maps memory, and no handler serves faults on it.
pub proof fn law_precopy_steps_fit<'a>(
    mem_backend: &'a MemBackendConfig,
    base: &'a PathBuf,
    track_dirty_pages: bool,
)
    ensures
        steps_fit(
            precopy_steps(mem_backend, base, track_dirty_pages),
            true,
            track_dirty_pages,
            false,
            false,
        ),
{
}

/// A load from a file maps that file, with the tracking asked for, and takes no other step.
pub proof fn law_file_load<'a>(path: &'a PathBuf, track_dirty_pages: bool)
    ensures
        file_steps(path, track_dirty_pages).len() == 1,
        file_steps(path, track_dirty_pages)[0] == (MemoryStep::MapFile {
            path,
            track_dirty_pages,
        }),
{
}

/// A load through a handler maps anonymous memory, with the tracking and the huge pages asked for,
/// makes a userfaultfd, registers all of memory for missing pages, and tells the handler at the
/// socket given, in this order and no more.
pub proof fn law_handler_load<'a>(
    socket: &'a PathBuf,
    track_dirty_pages: bool,
    huge_pages: HugePageConfig,
)
    ensures
        ({
            let steps = uffd_steps(socket, track_dirty_pages, huge_pages);
            &&& steps.len() == 4
            &&& steps[0] == (MemoryStep::MapAnonymous { track_dirty_pages, huge_pages })
            &&& steps[1] == MemoryStep::BuildUffd
            &&& steps[2] == (MemoryStep::RegisterAll { mode: RegisterMode::Missing })
            &&& steps[3] == (MemoryStep::Handshake { socket, with_base: false })
        }),
{
}

/// A precopy load maps the base and then, whenever the request lists dirty pages and whatever else
/// it asks for, copies those from the file at the backend's path. It takes no other step.
pub proof fn law_precopy_load<'a>(
    mem_backend: &'a MemBackendConfig,
    base: &'a PathBuf,
    track_dirty_pages: bool,
)
    ensures
        ({
            let steps = precopy_steps(mem_backend, base, track_dirty_pages);
            &&& steps.len() > 0
            &&& steps[0] == (MemoryStep::MapFile { path: base, track_dirty_pages })
            &&& mem_backend.dirty_pages_path is None ==> steps.len() == 1
            &&& mem_backend.dirty_pages_path is Some ==> steps.len() == 2 && steps[1] == (
            MemoryStep::ApplyDelta {
                delta: &mem_backend.backend_path,
                list: &mem_backend.dirty_pages_path->0,
            })
        }),
{
}

/// A hybrid load in one go maps the base first and tells the handler at the backend's path last.
/// In between it makes one userfaultfd; before that it reads and isolates the residual pages, if
/// they are listed, touches the working set, if that is listed, and copies the trusted pages, if
/// both the delta and their list are given; after it, it registers the residual pages, if they are
/// listed. It takes no other step.
pub proof fn law_hybrid_load<'a>(
    mem_backend: &'a MemBackendConfig,
    base: &'a PathBuf,
    track_dirty_pages: bool,
    page_size: usize,
)
    ensures
        ({
            let steps = hybrid_steps(mem_backend, base, track_dirty_pages, page_size);
            let r: int = if mem_backend.dirty_pages_path is Some {
                1
            } else {
                0
            };
            let w: int = if mem_backend.prefill_pages_path is Some {
                1
            } else {
                0
            };
            let e: int = if mem_backend.eager_delta_path is Some
                && mem_backend.eager_pages_path is Some {
                1
            } else {
                0
            };
            &&& steps.len() == 3 + 3 * r + w + e
            &&& steps[0] == (MemoryStep::MapFile { path: base, track_dirty_pages })
            &&& r == 1 ==> {
                let list = &mem_backend.dirty_pages_path->0;
                &&& steps[1] == (MemoryStep::ReadResidual { list, page_size })
                &&& steps[2] == (MemoryStep::Overlay { list, page_size })
                &&& steps[steps.len() - 2] == (MemoryStep::Register {
                    list,
                    page_size,
                    mode: RegisterMode::Missing,
                })
            }
            &&& w == 1 ==> steps[1 + 2 * r] == (MemoryStep::Prefault {
                manifest: &mem_backend.prefill_pages_path->0,
                page_size,
            })
            &&& e == 1 ==> steps[1 + 2 * r + w] == (MemoryStep::ApplyDelta {
                delta: &mem_backend.eager_delta_path->0,
                list: &mem_backend.eager_pages_path->0,
            })
            &&& steps[1 + 2 * r + w + e] == MemoryStep::<'a>::CreateUffd
            &&& steps[steps.len() - 1] == (MemoryStep::Handshake {
                socket: &mem_backend.backend_path,
                with_base: true,
            })
        }),
{
}

/// The first phase maps the base, isolates the pages listed, if any are, makes a userfaultfd, and
/// registers those pages with it. It takes no other step.
pub proof fn law_prepare_load<'a>(
    mem_backend: &'a MemBackendConfig,
    base: &'a PathBuf,
    track_dirty_pages: bool,
    page_size: usize,
)
    ensures
        ({
            let steps = prepare_steps(mem_backend, base, track_dirty_pages, page_size);
            &&& steps.len() > 1
            &&& steps[0] == (MemoryStep::MapFile { path: base, track_dirty_pages })
            &&& mem_backend.dirty_pages_path is None ==> steps.len() == 2 && steps[1]
                == MemoryStep::<'a>::CreateUffd
            &&& mem_backend.dirty_pages_path is Some ==> {
                let list = &mem_backend.dirty_pages_path->0;
                &&& steps.len() == 4
                &&& steps[1] == (MemoryStep::Overlay { list, page_size })
                &&& steps[2] == MemoryStep::<'a>::CreateUffd
                &&& steps[3] == (MemoryStep::Register {
                    list,
                    page_size,
                    mode: RegisterMode::Missing,
                })
            }
        }),
{
}

/// The second phase isolates and registers the pages listed, if any are, and then tells the
/// handler at the backend's path. It takes no other step.
pub proof fn law_finish_load<'a>(mem_backend: &'a MemBackendConfig, page_size: usize)
    ensures
        ({
            let steps = finish_steps(mem_backend, page_size);
            &&& steps.len() > 0
            &&& steps[steps.len() - 1] == (MemoryStep::Handshake {
                socket: &mem_backend.backend_path,
                with_base: true,
            })
            &&& mem_backend.dirty_pages_path is None ==> steps.len() == 1
            &&& mem_backend.dirty_pages_path is Some ==> {
                let list = &mem_backend.dirty_pages_path->0;
                &&& steps.len() == 3
                &&& steps[0] == (MemoryStep::Overlay { list, page_size })
                &&& steps[1] == (MemoryStep::Register {
                    list,
                    page_size,
                    mode: RegisterMode::Missing,
                })
            }
        }),
{
}

/// Touching a working set makes resident the whole pages, of the given size, that the manifest
/// lists, that guest memory has and that are not to be passed over.
pub proof fn law_touched_bytes(
    regions: Seq<FileRegion>,
    contents: Seq<u8>,
    page_size: usize,
    skip: Set<u64>,
    byte: u64,
)
    ensures
        touched_bytes(regions, contents, page_size, skip).contains(byte) <==> exists|q: int|
            0 <= q < offsets::page_offsets(contents, page_size as u64).len() && !skip.contains(
                #[trigger] offsets::page_offsets(contents, page_size as u64)[q],
            ) && memory::is_located(
                regions,
                offsets::page_offsets(contents, page_size as u64)[q],
            ) && offsets::page_offsets(contents, page_size as u64)[q] <= byte
                < offsets::page_offsets(contents, page_size as u64)[q] + page_size,
{
    let listed = offsets::page_offsets(contents, page_size as u64);
    if exists|q: int|
        0 <= q < listed.len() && !skip.contains(#[trigger] listed[q]) && memory::is_located(
            regions,
            listed[q],
        ) && listed[q] <= byte < listed[q] + page_size {
        let q = choose|q: int|
            0 <= q < listed.len() && !skip.contains(#[trigger] listed[q]) && memory::is_located(
                regions,
                listed[q],
            ) && listed[q] <= byte < listed[q] + page_size;
        assert(prefault::is_touched(regions, skip, listed[q]));
    }
}

/// A request asks for pages to be filled in exactly when it gives a delta, a list of its pages, or
/// a working set.
pub proof fn law_filling(mem_backend: &MemBackendConfig)
    ensures
        fills_pages(mem_backend) <==> !(mem_backend.eager_delta_path is None
            && mem_backend.eager_pages_path is None && mem_backend.prefill_pages_path is None),
{
}

/// Whether every step that matches `first` comes before every step that matches `second`.
pub open spec fn all_before<'a>(
    steps: Seq<MemoryStep<'a>>,
    first: spec_fn(MemoryStep<'a>) -> bool,
    second: spec_fn(MemoryStep<'a>) -> bool,
) -> bool {
    forall|i: int, j: int|
        0 <= i < steps.len() && 0 <= j < steps.len() && first(#[trigger] steps[i]) && second(
            #[trigger] steps[j],
        ) ==> i < j
}

/// In a hybrid load in one go, the residual pages are isolated before any page is filled in and
/// before any is registered, pages are filled in before any is registered, and the handler hears
/// of the memory in one handshake, which comes last.
pub proof fn law_hybrid_order<'a>(
    mem_backend: &'a MemBackendConfig,
    base: &'a PathBuf,
    track_dirty_pages: bool,
    page_size: usize,
)
    ensures
        ({
            let steps = hybrid_steps(mem_backend, base, track_dirty_pages, page_size);
            &&& steps[0] == (MemoryStep::MapFile { path: base, track_dirty_pages })
            &&& all_before(
                steps,
                |s: MemoryStep<'a>| s is Overlay,
                |s: MemoryStep<'a>| s is Prefault || s is ApplyDelta || s is Register,
            )
            &&& all_before(
                steps,
                |s: MemoryStep<'a>| s is Prefault || s is ApplyDelta,
                |s: MemoryStep<'a>| s is Register,
            )
            &&& all_before(
                steps,
                |s: MemoryStep<'a>| s is CreateUffd,
                |s: MemoryStep<'a>| s is Register,
            )
            &&& forall|i: int|
                0 <= i < steps.len() ==> ((#[trigger] steps[i]) is Handshake <==> i == steps.len()
                    - 1)
        }),
{
}

/// The prepare phase isolates the residual pages before it registers them, sends nothing to a
/// handler and fills in nothing; the resume phase maps nothing, creates nothing, fills in
/// nothing, and its handshake, the only one, comes last.
pub proof fn law_two_phase_order<'a>(
    mem_backend: &'a MemBackendConfig,
    base: &'a PathBuf,
    track_dirty_pages: bool,
    page_size: usize,
)
    ensures
        ({
            let steps = prepare_steps(mem_backend, base, track_dirty_pages, page_size);
            &&& steps[0] == (MemoryStep::MapFile { path: base, track_dirty_pages })
            &&& all_before(
                steps,
                |s: MemoryStep<'a>| s is Overlay,
                |s: MemoryStep<'a>| s is Register,
            )
            &&& forall|i: int|
                0 <= i < steps.len() ==> !((#[trigger] steps[i]) is Handshake) && !(
                steps[i] is Prefault) && !(steps[i] is ApplyDelta)
        }),
        ({
            let steps = finish_steps(mem_backend, page_size);
            &&& all_before(
                steps,
                |s: MemoryStep<'a>| s is Overlay,
                |s: MemoryStep<'a>| s is Register,
            )
            &&& forall|i: int|
                0 <= i < steps.len() ==> !((#[trigger] steps[i]) is MapFile) && !(
                steps[i] is CreateUffd) && !(steps[i] is Prefault) && !(steps[i] is ApplyDelta)
            &&& forall|i: int|
                0 <= i < steps.len() ==> ((#[trigger] steps[i]) is Handshake <==> i == steps.len()
                    - 1)
        }),
{
}

/// The steps that change something: all but reading the list of residual pages.
pub open spec fn effects<'a>(steps: Seq<MemoryStep<'a>>) -> Seq<MemoryStep<'a>> {
    steps.filter(|s: MemoryStep<'a>| !(s is ReadResidual))
}

/// A load in two phases, the second with nothing new in its list, does what the load in one go
/// does: the same steps in the same order, and the same handshake.
pub proof fn law_two_phases_are_one<'a>(
    first: &'a MemBackendConfig,
    second: &'a MemBackendConfig,
    base: &'a PathBuf,
    track_dirty_pages: bool,
    page_size: usize,
)
    requires
        !fills_pages(first),
        second.dirty_pages_path is None,
        first.backend_path == second.backend_path,
    ensures
        effects(hybrid_steps(first, base, track_dirty_pages, page_size)) == prepare_steps(first, base, track_dirty_pages, page_size)
            + finish_steps(second, page_size),
{
    let changes = |s: MemoryStep<'a>| !(s is ReadResidual);
    let map = seq![MemoryStep::MapFile { path: base, track_dirty_pages }];
    let read = residual_step(
        first,
        |list: &'a PathBuf| MemoryStep::ReadResidual { list, page_size },
    );
    let overlay = overlay_steps(first, page_size);
    let create = seq![MemoryStep::CreateUffd];
    let register = register_steps(first, page_size);
    let handshake = seq![
        MemoryStep::Handshake { socket: &first.backend_path, with_base: true },
    ];
    let nothing = Seq::<MemoryStep<'a>>::empty();
    let rest = overlay + create + register + handshake;
    assert(fill_steps(first, page_size) =~= nothing);
    assert(overlay_steps(second, page_size) == nothing);
    assert(register_steps(second, page_size) == nothing);
    lemma_regroup(map, read, overlay, create, register, handshake);
    Seq::filter_distributes_over_add(map + read, rest, changes);
    Seq::filter_distributes_over_add(map, read, changes);
    lemma_filter_all(map, changes);
    lemma_filter_none(read, changes);
    lemma_filter_all(rest, changes);
    assert(map + nothing =~= map);
}

/// The same steps, grouped in different ways.
proof fn lemma_regroup<A>(
    map: Seq<A>,
    read: Seq<A>,
    overlay: Seq<A>,
    create: Seq<A>,
    register: Seq<A>,
    handshake: Seq<A>,
)
    ensures
        map + read + overlay + Seq::<A>::empty() + create + register + handshake == (map + read) + (
        overlay + create + register + handshake),
        (map + overlay + create + register) + (Seq::<A>::empty() + Seq::<A>::empty() + handshake)
            == map + (overlay + create + register + handshake),
{
    assert(map + read + overlay + Seq::<A>::empty() + create + register + handshake =~= (map + read)
        + (overlay + create + register + handshake));
    assert((map + overlay + create + register) + (Seq::<A>::empty() + Seq::<A>::empty() + handshake)
        =~= map + (overlay + create + register + handshake));
}

/// Filtering keeps a sequence whose elements all satisfy the predicate.
proof fn lemma_filter_all<A>(s: Seq<A>, pred: spec_fn(A) -> bool)
    requires
        forall|i: int| 0 <= i < s.len() ==> pred(#[trigger] s[i]),
    ensures
        s.filter(pred) == s,
    decreases s.len(),
{
    reveal(Seq::filter);
    if s.len() > 0 {
        lemma_filter_all(s.drop_last(), pred);
        assert(pred(s[s.len() - 1]));
        assert(s.drop_last().push(s.last()) =~= s);
    }
}

/// Filtering empties a sequence none of whose elements satisfies the predicate.
proof fn lemma_filter_none<A>(s: Seq<A>, pred: spec_fn(A) -> bool)
    requires
        forall|i: int| 0 <= i < s.len() ==> !pred(#[trigger] s[i]),
    ensures
        s.filter(pred) == Seq::<A>::empty(),
    decreases s.len(),
{
    reveal(Seq::filter);
    if s.len() > 0 {
        lemma_filter_none(s.drop_last(), pred);
        assert(!pred(s[s.len() - 1]));
    }
}

/// The pages that are made resident before the VM resumes are none of the residual ones: no
/// address that is read lies in a range that was isolated for the handler to serve. A residual
/// page that was resident would never fault, and the guest would read stale contents.
pub proof fn law_prefault_avoids_residual_ranges(
    regions: Seq<FileRegion>,
    residual: Seq<u64>,
    manifest: Seq<u64>,
    skip: Set<u64>,
    ps: int,
    a: int,
    r: int,
)
    requires
        memory::all_fit(regions),
        delta::hosts_disjoint(regions),
        ps > 0,
        offsets::strictly_increasing(residual),
        forall|q: int| 0 <= q < residual.len() ==> (#[trigger] residual[q]) as int % ps == 0,
        forall|q: int| 0 <= q < manifest.len() ==> (#[trigger] manifest[q]) as int % ps == 0,
        forall|offset: u64| #[trigger] residual.contains(offset) ==> skip.contains(offset),
        0 <= a < prefault::touched(regions, manifest, skip, manifest.len() as int).len(),
        0 <= r < ranges::ranges_of(regions, residual, ps).len(),
    ensures
        ({
            let addr = prefault::touched(regions, manifest, skip, manifest.len() as int)[a];
            let range = ranges::ranges_of(regions, residual, ps)[r];
            !(range.addr <= addr < range.addr + range.len)
        }),
{
    let n = manifest.len() as int;
    let addr = prefault::touched(regions, manifest, skip, n)[a];
    let range = ranges::ranges_of(regions, residual, ps)[r];
    prefault::law_only_wanted_pages_are_touched(regions, manifest, skip, n, a);
    ranges::law_ranges_lie_within_regions(regions, residual, ps);
    let q = choose|q: int|
        #![trigger manifest[q]]
        0 <= q < n && prefault::is_touched(regions, skip, manifest[q]) && 0 <= memory::located(
            regions,
            manifest[q],
        ) && regions[memory::located(regions, manifest[q])].holds(manifest[q])
            && addr == regions[memory::located(regions, manifest[q])].host_of(manifest[q]);
    let j = memory::located(regions, manifest[q]);
    assert(ranges::lies_within(regions, range));
    let k = choose|k: int| 0 <= k < regions.len() && range.is_within(#[trigger] regions[k]);
    if range.addr <= addr < range.addr + range.len {
        if j == k {
            let offset = manifest[q] as int;
            assert(range.covers(offset));
            ranges::law_ranges_hold_only_listed_pages(regions, residual, ps, r, offset);
            let w = choose|w: int|
                0 <= w < residual.len() && #[trigger] residual[w] <= offset < residual[w] + ps;
            let page = residual[w] as int;
            assert(page == offset) by (nonlinear_arith)
                requires
                    page <= offset < page + ps,
                    page % ps == 0,
                    offset % ps == 0,
                    ps > 0,
            ;
            assert(residual.contains(manifest[q]));
        } else {
            assert(regions[j].fits() && regions[k].fits());
        }
    }
}

/// What the steps taken so far have made of guest memory. Bytes of it are named by their offsets
/// in the memory file.
pub struct MemorySoFar {
    /// The offsets of the pages known to be residual.
    pub residual: Set<u64>,
    /// The bytes that have memory of their own, apart from the shared base.
    pub isolated: Set<u64>,
    /// The bytes whose faults a handler serves.
    pub registered: Set<u64>,
    /// The bytes that are resident before the VM resumes.
    pub resident: Set<u64>,
    /// How many handshakes there were with a handler.
    pub handshakes: nat,
}

/// Before the first step.
pub open spec fn nothing_yet() -> MemorySoFar {
    MemorySoFar {
        residual: Set::empty(),
        isolated: Set::empty(),
        registered: Set::empty(),
        resident: Set::empty(),
        handshakes: 0,
    }
}

/// The bytes in the ranges that stand for the pages that a file with these contents lists.
pub open spec fn range_bytes(regions: Seq<FileRegion>, contents: Seq<u8>, page_size: usize) -> Set<
    u64,
> {
    let listed = offsets::page_offsets(contents, page_size as u64);
    Set::new(
        |byte: u64|
            ranges::is_covered(
                ranges::ranges_of(regions, listed, page_size as int),
                byte as int,
            ),
    )
}

/// The bytes of the pages that are touched for a manifest with these contents.
pub open spec fn touched_bytes(
    regions: Seq<FileRegion>,
    contents: Seq<u8>,
    page_size: usize,
    skip: Set<u64>,
) -> Set<u64> {
    let listed = offsets::page_offsets(contents, page_size as u64);
    Set::new(
        |byte: u64|
            exists|q: int|
                0 <= q < listed.len() && prefault::is_touched(regions, skip, #[trigger] listed[q])
                    && listed[q] <= byte < listed[q] + page_size,
    )
}

/// The bytes of the pages that are copied in from a delta file, where a file with these contents
/// lists them.
pub open spec fn delta_bytes(regions: Seq<FileRegion>, contents: Seq<u8>) -> Set<u64> {
    let listed = offsets::page_offsets(contents, delta::DELTA_PAGE_BYTES);
    let pages = delta::located_pages(regions, listed, listed.len() as int);
    Set::new(
        |byte: u64|
            exists|p: int|
                0 <= p < pages.len() && (#[trigger] pages[p]).0 <= byte < pages[p].0
                    + delta::DELTA_PAGE_BYTES,
    )
}

/// What a step makes of guest memory, laid out in `regions`, where `contents` gives what each
/// file holds.
pub open spec fn after_step<'a>(
    before: MemorySoFar,
    step: MemoryStep<'a>,
    regions: Seq<FileRegion>,
    contents: spec_fn(&'a PathBuf) -> Seq<u8>,
) -> MemorySoFar {
    match step {
        MemoryStep::ReadResidual { list, page_size } => MemorySoFar {
            residual: offsets::page_offsets(contents(list), page_size as u64).to_set(),
            ..before
        },
        MemoryStep::Overlay { list, page_size } => MemorySoFar {
            isolated: before.isolated.union(range_bytes(regions, contents(list), page_size)),
            ..before
        },
        MemoryStep::Prefault { manifest, page_size } => MemorySoFar {
            resident: before.resident.union(
                touched_bytes(regions, contents(manifest), page_size, before.residual),
            ),
            ..before
        },
        MemoryStep::ApplyDelta { list, .. } => MemorySoFar {
            resident: before.resident.union(delta_bytes(regions, contents(list))),
            ..before
        },
        MemoryStep::Register { list, page_size, .. } => MemorySoFar {
            registered: before.registered.union(range_bytes(regions, contents(list), page_size)),
            ..before
        },
        MemoryStep::RegisterAll { .. } => MemorySoFar {
            registered: Set::new(|byte: u64| memory::is_located(regions, byte)),
            ..before
        },
        MemoryStep::Handshake { .. } => MemorySoFar {
            handshakes: before.handshakes + 1,
            ..before
        },
        MemoryStep::MapFile { .. } => before,
        MemoryStep::MapAnonymous { .. } => before,
        MemoryStep::BuildUffd => before,
        MemoryStep::CreateUffd => before,
    }
}

/// What the steps, one after the other, make of guest memory.
pub open spec fn after_steps<'a>(
    before: MemorySoFar,
    steps: Seq<MemoryStep<'a>>,
    regions: Seq<FileRegion>,
    contents: spec_fn(&'a PathBuf) -> Seq<u8>,
) -> MemorySoFar
    decreases steps.len(),
{
    if steps.len() == 0 {
        before
    } else {
        after_step(
            after_steps(before, steps.drop_last(), regions, contents),
            steps[steps.len() - 1],
            regions,
            contents,
        )
    }
}

/// Taking one list of steps after another is taking both joined.
proof fn lemma_after_joined<'a>(
    before: MemorySoFar,
    a: Seq<MemoryStep<'a>>,
    b: Seq<MemoryStep<'a>>,
    regions: Seq<FileRegion>,
    contents: spec_fn(&'a PathBuf) -> Seq<u8>,
)
    ensures
        after_steps(before, a + b, regions, contents) == after_steps(
            after_steps(before, a, regions, contents),
            b,
            regions,
            contents,
        ),
    decreases b.len(),
{
    if b.len() == 0 {
        assert(a + b =~= a);
    } else {
        lemma_after_joined(before, a, b.drop_last(), regions, contents);
        assert((a + b).drop_last() =~= a + b.drop_last());
    }
}

/// Taking at most one step.
proof fn lemma_after_one<'a>(
    before: MemorySoFar,
    steps: Seq<MemoryStep<'a>>,
    regions: Seq<FileRegion>,
    contents: spec_fn(&'a PathBuf) -> Seq<u8>,
)
    requires
        steps.len() <= 1,
    ensures
        after_steps(before, steps, regions, contents) == if steps.len() == 0 {
            before
        } else {
            after_step(before, steps[0], regions, contents)
        },
{
    if steps.len() == 1 {
        assert(steps.drop_last() =~= Seq::<MemoryStep<'a>>::empty());
        reveal_with_fuel(after_steps, 2);
    }
}

/// The bytes of guest memory that belong to the dirty pages a request lists, where it has a list.
pub open spec fn dirty_bytes<'a>(
    mem_backend: &'a MemBackendConfig,
    page_size: usize,
    regions: Seq<FileRegion>,
    contents: spec_fn(&'a PathBuf) -> Seq<u8>,
) -> Set<u64> {
    match &mem_backend.dirty_pages_path {
        Some(list) => Set::new(
            |byte: u64|
                memory::is_located(regions, byte) && ranges::is_listed(
                    offsets::page_offsets(contents(list), page_size as u64),
                    page_size as int,
                    byte as int,
                ),
        ),
        None => Set::empty(),
    }
}

/// The bytes that are copied in before the VM resumes, where a request asks for that.
pub open spec fn eager_bytes<'a>(
    mem_backend: &'a MemBackendConfig,
    regions: Seq<FileRegion>,
    contents: spec_fn(&'a PathBuf) -> Seq<u8>,
) -> Set<u64> {
    match (&mem_backend.eager_delta_path, &mem_backend.eager_pages_path) {
        (Some(_), Some(list)) => delta_bytes(regions, contents(list)),
        _ => Set::empty(),
    }
}

/// The bytes that are made resident before the VM resumes, where a request asks for that.
pub open spec fn warm_bytes<'a>(
    mem_backend: &'a MemBackendConfig,
    page_size: usize,
    regions: Seq<FileRegion>,
    contents: spec_fn(&'a PathBuf) -> Seq<u8>,
    skip: Set<u64>,
) -> Set<u64> {
    match &mem_backend.prefill_pages_path {
        Some(manifest) => touched_bytes(regions, contents(manifest), page_size, skip),
        None => Set::empty(),
    }
}

/// The ranges of a list hold the bytes of guest memory in the pages listed.
proof fn lemma_range_bytes(regions: Seq<FileRegion>, contents: Seq<u8>, page_size: usize)
    requires
        memory::all_fit(regions),
        page_size > 0,
    ensures
        range_bytes(regions, contents, page_size) == Set::new(
            |byte: u64|
                memory::is_located(regions, byte) && ranges::is_listed(
                    offsets::page_offsets(contents, page_size as u64),
                    page_size as int,
                    byte as int,
                ),
        ),
{
    let listed = offsets::page_offsets(contents, page_size as u64);
    let expected = Set::new(
        |byte: u64|
            memory::is_located(regions, byte) && ranges::is_listed(
                listed,
                page_size as int,
                byte as int,
            ),
    );
    assert forall|byte: u64| #[trigger]
        range_bytes(regions, contents, page_size).contains(byte) <==> expected.contains(byte) by {
        ranges::law_ranges_are_the_listed_pages(regions, listed, page_size as int, byte);
    }
    assert(range_bytes(regions, contents, page_size) =~= expected);
}

/// The offsets that a list gives for the pages of guest memory are multiples of the page size.
proof fn lemma_offsets_are_pages(contents: Seq<u8>, huge_pages: HugePageConfig)
    ensures
        ({
            let ps = huge_pages.page_bytes() as usize;
            let listed = offsets::page_offsets(contents, ps as u64);
            &&& ps > 0
            &&& forall|q: int|
                0 <= q < listed.len() ==> (#[trigger] listed[q]) as int % ps as int == 0
        }),
{
    power2::lemma2_to64();
    match huge_pages {
        HugePageConfig::Small => {
            assert(power2::pow2(12) == 4096);
            offsets::law_page_offsets_are_pages(contents, 12);
        },
        HugePageConfig::Hugetlbfs2M => {
            assert(power2::pow2(21) == 0x20_0000);
            offsets::law_page_offsets_are_pages(contents, 21);
        },
    }
}

/// A page that is touched for a manifest, and not among the residual ones, shares no byte with
/// these.
proof fn lemma_touched_avoids_residual(
    regions: Seq<FileRegion>,
    manifest: Seq<u8>,
    residual: Seq<u8>,
    huge_pages: HugePageConfig,
    byte: u64,
)
    requires
        ({
            let ps = huge_pages.page_bytes() as usize;
            let skip = offsets::page_offsets(residual, ps as u64).to_set();
            touched_bytes(regions, manifest, ps, skip).contains(byte)
        }),
    ensures
        ({
            let ps = huge_pages.page_bytes() as usize;
            let listed = offsets::page_offsets(residual, ps as u64);
            !ranges::is_listed(listed, ps as int, byte as int)
        }),
{
    let ps = huge_pages.page_bytes() as usize;
    let wanted = offsets::page_offsets(manifest, ps as u64);
    let listed = offsets::page_offsets(residual, ps as u64);
    let skip = listed.to_set();
    lemma_offsets_are_pages(manifest, huge_pages);
    lemma_offsets_are_pages(residual, huge_pages);
    let q = choose|q: int|
        0 <= q < wanted.len() && prefault::is_touched(regions, skip, #[trigger] wanted[q])
            && wanted[q] <= byte < wanted[q] + ps;
    if ranges::is_listed(listed, ps as int, byte as int) {
        let w = choose|w: int|
            0 <= w < listed.len() && #[trigger] listed[w] <= byte < listed[w] + ps;
        let a = wanted[q] as int;
        let b = listed[w] as int;
        let x = byte as int;
        let p = ps as int;
        assert(a == b) by (nonlinear_arith)
            requires
                a <= x < a + p,
                b <= x < b + p,
                a % p == 0,
                b % p == 0,
                p > 0,
        ;
        assert(skip.contains(wanted[q]));
    }
}

/// Filling in pages changes only what is resident: it adds the working set but for the residual
/// pages, and what is copied in.
proof fn lemma_after_fill<'a>(
    before: MemorySoFar,
    mem_backend: &'a MemBackendConfig,
    page_size: usize,
    regions: Seq<FileRegion>,
    contents: spec_fn(&'a PathBuf) -> Seq<u8>,
)
    ensures
        after_steps(before, fill_steps(mem_backend, page_size), regions, contents) == (MemorySoFar {
            resident: before.resident.union(
                warm_bytes(mem_backend, page_size, regions, contents, before.residual),
            ).union(eager_bytes(mem_backend, regions, contents)),
            ..before
        }),
{
    let warm: Seq<MemoryStep<'a>> = match &mem_backend.prefill_pages_path {
        Some(manifest) => seq![MemoryStep::Prefault { manifest, page_size }],
        None => Seq::empty(),
    };
    let eager: Seq<MemoryStep<'a>> = match (
        &mem_backend.eager_delta_path,
        &mem_backend.eager_pages_path,
    ) {
        (Some(delta), Some(list)) => seq![MemoryStep::ApplyDelta { delta, list }],
        _ => Seq::empty(),
    };
    let warmed = after_steps(before, warm, regions, contents);
    let after = after_steps(warmed, eager, regions, contents);
    let added = warm_bytes(mem_backend, page_size, regions, contents, before.residual);
    lemma_after_joined(before, warm, eager, regions, contents);
    lemma_after_one(before, warm, regions, contents);
    lemma_after_one(warmed, eager, regions, contents);
    assert(warmed.resident =~= before.resident.union(added));
    assert(after.resident =~= before.resident.union(added).union(
        eager_bytes(mem_backend, regions, contents),
    ));
}

/// Isolating the dirty pages of a request isolates their bytes in guest memory.
proof fn lemma_after_overlay<'a>(
    before: MemorySoFar,
    mem_backend: &'a MemBackendConfig,
    page_size: usize,
    regions: Seq<FileRegion>,
    contents: spec_fn(&'a PathBuf) -> Seq<u8>,
)
    requires
        memory::all_fit(regions),
        page_size > 0,
    ensures
        after_steps(before, overlay_steps(mem_backend, page_size), regions, contents) == (
        MemorySoFar {
            isolated: before.isolated.union(
                dirty_bytes(mem_backend, page_size, regions, contents),
            ),
            ..before
        }),
{
    let steps = overlay_steps(mem_backend, page_size);
    lemma_after_one(before, steps, regions, contents);
    match &mem_backend.dirty_pages_path {
        Some(list) => {
            lemma_range_bytes(regions, contents(list), page_size);
        },
        None => {
            assert(before.isolated.union(Set::<u64>::empty()) =~= before.isolated);
        },
    }
}

/// Registering the dirty pages of a request registers their bytes in guest memory.
proof fn lemma_after_register<'a>(
    before: MemorySoFar,
    mem_backend: &'a MemBackendConfig,
    page_size: usize,
    regions: Seq<FileRegion>,
    contents: spec_fn(&'a PathBuf) -> Seq<u8>,
)
    requires
        memory::all_fit(regions),
        page_size > 0,
    ensures
        after_steps(before, register_steps(mem_backend, page_size), regions, contents) == (
        MemorySoFar {
            registered: before.registered.union(
                dirty_bytes(mem_backend, page_size, regions, contents),
            ),
            ..before
        }),
{
    let steps = register_steps(mem_backend, page_size);
    lemma_after_one(before, steps, regions, contents);
    match &mem_backend.dirty_pages_path {
        Some(list) => {
            lemma_range_bytes(regions, contents(list), page_size);
        },
        None => {
            assert(before.registered.union(Set::<u64>::empty()) =~= before.registered);
        },
    }
}

/// The pages that a request names as residual, where it has a list.
pub open spec fn residual_pages<'a>(
    mem_backend: &'a MemBackendConfig,
    page_size: usize,
    contents: spec_fn(&'a PathBuf) -> Seq<u8>,
) -> Set<u64> {
    match &mem_backend.dirty_pages_path {
        Some(list) => offsets::page_offsets(contents(list), page_size as u64).to_set(),
        None => Set::empty(),
    }
}

/// Mapping the base and reading the list of residual pages.
proof fn lemma_after_read<'a>(
    mem_backend: &'a MemBackendConfig,
    base: &'a PathBuf,
    track_dirty_pages: bool,
    page_size: usize,
    regions: Seq<FileRegion>,
    contents: spec_fn(&'a PathBuf) -> Seq<u8>,
)
    ensures
        after_steps(
            nothing_yet(),
            seq![MemoryStep::MapFile { path: base, track_dirty_pages }] + residual_step(
                mem_backend,
                |list: &'a PathBuf| MemoryStep::ReadResidual { list, page_size },
            ),
            regions,
            contents,
        ) == (MemorySoFar {
            residual: residual_pages(mem_backend, page_size, contents),
            ..nothing_yet()
        }),
{
    let map = seq![MemoryStep::MapFile { path: base, track_dirty_pages }];
    let read = residual_step(
        mem_backend,
        |list: &'a PathBuf| MemoryStep::ReadResidual { list, page_size },
    );
    lemma_after_joined(nothing_yet(), map, read, regions, contents);
    lemma_after_one(nothing_yet(), map, regions, contents);
    lemma_after_one(nothing_yet(), read, regions, contents);
}

/// A step that touches no page: a handshake is counted, and nothing else changes.
proof fn lemma_after_plain<'a>(
    before: MemorySoFar,
    step: MemoryStep<'a>,
    regions: Seq<FileRegion>,
    contents: spec_fn(&'a PathBuf) -> Seq<u8>,
)
    requires
        step is CreateUffd || step is Handshake || step is MapFile,
    ensures
        after_steps(before, seq![step], regions, contents) == (MemorySoFar {
            handshakes: before.handshakes + if step is Handshake {
                1nat
            } else {
                0nat
            },
            ..before
        }),
{
    lemma_after_one(before, seq![step], regions, contents);
}

/// The working set but for the residual pages has no byte of these.
proof fn lemma_warm_avoids_dirty<'a>(
    mem_backend: &'a MemBackendConfig,
    huge_pages: HugePageConfig,
    regions: Seq<FileRegion>,
    contents: spec_fn(&'a PathBuf) -> Seq<u8>,
)
    ensures
        ({
            let page_size = huge_pages.page_bytes() as usize;
            let skip = residual_pages(mem_backend, page_size, contents);
            warm_bytes(mem_backend, page_size, regions, contents, skip).disjoint(
                dirty_bytes(mem_backend, page_size, regions, contents),
            )
        }),
{
    let page_size = huge_pages.page_bytes() as usize;
    let skip = residual_pages(mem_backend, page_size, contents);
    let warm = warm_bytes(mem_backend, page_size, regions, contents, skip);
    let dirty = dirty_bytes(mem_backend, page_size, regions, contents);
    assert forall|byte: u64| #[trigger] warm.contains(byte) implies !dirty.contains(byte) by {
        if dirty.contains(byte) {
            let list = mem_backend.dirty_pages_path->0;
            let manifest = mem_backend.prefill_pages_path->0;
            lemma_touched_avoids_residual(
                regions,
                contents(&manifest),
                contents(&list),
                huge_pages,
                byte,
            );
        }
    }
}

/// A hybrid load in one go ends with the residual pages of guest memory, and nothing else,
/// isolated from the shared base and served by the handler, which was told once. What is resident
/// before the VM resumes is the working set but for the residual pages, and what is copied in;
/// where the latter has no residual page either, nothing that the handler is to serve is
/// resident.
pub proof fn law_hybrid_serves_the_residual_pages<'a>(
    mem_backend: &'a MemBackendConfig,
    base: &'a PathBuf,
    track_dirty_pages: bool,
    huge_pages: HugePageConfig,
    regions: Seq<FileRegion>,
    contents: spec_fn(&'a PathBuf) -> Seq<u8>,
)
    requires
        memory::all_fit(regions),
    ensures
        ({
            let page_size = huge_pages.page_bytes() as usize;
            let steps = hybrid_steps(mem_backend, base, track_dirty_pages, page_size);
            let end = after_steps(nothing_yet(), steps, regions, contents);
            let dirty = dirty_bytes(mem_backend, page_size, regions, contents);
            let eager = eager_bytes(mem_backend, regions, contents);
            &&& end.isolated == dirty
            &&& end.registered == dirty
            &&& end.handshakes == 1
            &&& end.resident == warm_bytes(
                mem_backend,
                page_size,
                regions,
                contents,
                end.residual,
            ).union(eager)
            &&& eager.disjoint(dirty) ==> end.resident.disjoint(end.registered)
        }),
{
    let page_size = huge_pages.page_bytes() as usize;
    let start = seq![MemoryStep::MapFile { path: base, track_dirty_pages }] + residual_step(
        mem_backend,
        |list: &'a PathBuf| MemoryStep::ReadResidual { list, page_size },
    );
    let overlay = overlay_steps(mem_backend, page_size);
    let fill = fill_steps(mem_backend, page_size);
    let create = seq![MemoryStep::<'a>::CreateUffd];
    let register = register_steps(mem_backend, page_size);
    let handshake = seq![
        MemoryStep::Handshake { socket: &mem_backend.backend_path, with_base: true },
    ];
    let s0 = nothing_yet();
    let r = regions;
    let f = contents;
    lemma_after_joined(s0, start + overlay + fill + create + register, handshake, r, f);
    lemma_after_joined(s0, start + overlay + fill + create, register, r, f);
    lemma_after_joined(s0, start + overlay + fill, create, r, f);
    lemma_after_joined(s0, start + overlay, fill, r, f);
    lemma_after_joined(s0, start, overlay, r, f);
    let s1 = after_steps(s0, start, r, f);
    let s2 = after_steps(s1, overlay, r, f);
    let s3 = after_steps(s2, fill, r, f);
    let s4 = after_steps(s3, create, r, f);
    let s5 = after_steps(s4, register, r, f);
    let s6 = after_steps(s5, handshake, r, f);
    lemma_after_read(mem_backend, base, track_dirty_pages, page_size, r, f);
    lemma_after_overlay(s1, mem_backend, page_size, r, f);
    lemma_after_fill(s2, mem_backend, page_size, r, f);
    lemma_after_plain(s3, create[0], r, f);
    lemma_after_register(s4, mem_backend, page_size, r, f);
    lemma_after_plain(s5, handshake[0], r, f);
    let dirty = dirty_bytes(mem_backend, page_size, r, f);
    let eager = eager_bytes(mem_backend, r, f);
    let warm = warm_bytes(mem_backend, page_size, r, f, s1.residual);
    assert(Set::<u64>::empty().union(dirty) =~= dirty);
    assert(Set::<u64>::empty().union(warm) =~= warm);
    assert(s6.isolated == dirty && s6.registered == dirty && s6.resident == warm.union(eager));
    lemma_warm_avoids_dirty(mem_backend, huge_pages, r, f);
}

/// A load in two phases ends with the dirty pages of both requests, as far as guest memory has
/// them, and nothing else, isolated from the shared base and served by the handler, which was
/// told once, at the end; nothing is resident.
pub proof fn law_two_phases_serve_the_dirty_pages_of_both<'a>(
    first: &'a MemBackendConfig,
    second: &'a MemBackendConfig,
    base: &'a PathBuf,
    track_dirty_pages: bool,
    page_size: usize,
    regions: Seq<FileRegion>,
    contents: spec_fn(&'a PathBuf) -> Seq<u8>,
)
    requires
        memory::all_fit(regions),
        page_size > 0,
    ensures
        ({
            let held = after_steps(
                nothing_yet(),
                prepare_steps(first, base, track_dirty_pages, page_size),
                regions,
                contents,
            );
            let end = after_steps(held, finish_steps(second, page_size), regions, contents);
            let dirty = dirty_bytes(first, page_size, regions, contents).union(
                dirty_bytes(second, page_size, regions, contents),
            );
            &&& held.handshakes == 0
            &&& end.isolated == dirty
            &&& end.registered == dirty
            &&& end.resident == Set::<u64>::empty()
            &&& end.handshakes == 1
        }),
{
    let map = seq![MemoryStep::MapFile { path: base, track_dirty_pages }];
    let overlay = overlay_steps(first, page_size);
    let create = seq![MemoryStep::<'a>::CreateUffd];
    let register = register_steps(first, page_size);
    let last_overlay = overlay_steps(second, page_size);
    let last_register = register_steps(second, page_size);
    let handshake = seq![
        MemoryStep::Handshake { socket: &second.backend_path, with_base: true },
    ];
    let s0 = nothing_yet();
    let r = regions;
    let f = contents;
    lemma_after_joined(s0, map + overlay + create, register, r, f);
    lemma_after_joined(s0, map + overlay, create, r, f);
    lemma_after_joined(s0, map, overlay, r, f);
    let s1 = after_steps(s0, map, r, f);
    let s2 = after_steps(s1, overlay, r, f);
    let s3 = after_steps(s2, create, r, f);
    let s4 = after_steps(s3, register, r, f);
    lemma_after_plain(s0, map[0], r, f);
    lemma_after_overlay(s1, first, page_size, r, f);
    lemma_after_plain(s2, create[0], r, f);
    lemma_after_register(s3, first, page_size, r, f);
    lemma_after_joined(s4, last_overlay + last_register, handshake, r, f);
    lemma_after_joined(s4, last_overlay, last_register, r, f);
    let s5 = after_steps(s4, last_overlay, r, f);
    let s6 = after_steps(s5, last_register, r, f);
    lemma_after_overlay(s4, second, page_size, r, f);
    lemma_after_register(s5, second, page_size, r, f);
    lemma_after_plain(s6, handshake[0], r, f);
    let dirty = dirty_bytes(first, page_size, r, f);
    assert(Set::<u64>::empty().union(dirty) =~= dirty);
}

/// After a precopy load whose request lists dirty pages, whatever tracking it asks for, exactly
/// the bytes of the listed pages that lie in guest memory are resident from the delta; without a
/// list none are. No page is left to a handler.
pub proof fn law_precopy_copies_the_dirty_pages<'a>(
    mem_backend: &'a MemBackendConfig,
    base: &'a PathBuf,
    track_dirty_pages: bool,
    regions: Seq<FileRegion>,
    contents: spec_fn(&'a PathBuf) -> Seq<u8>,
    byte: u64,
)
    ensures
        ({
            let end = after_steps(
                nothing_yet(),
                precopy_steps(mem_backend, base, track_dirty_pages),
                regions,
                contents,
            );
            &&& end.resident.contains(byte) <==> mem_backend.dirty_pages_path is Some && exists|
                q: int,
            |
                #![trigger offsets::page_offsets(
                    contents(&mem_backend.dirty_pages_path->0),
                    4096,
                )[q]]
                {
                    let listed = offsets::page_offsets(
                        contents(&mem_backend.dirty_pages_path->0),
                        4096,
                    );
                    0 <= q < listed.len() && memory::is_located(regions, listed[q]) && listed[q]
                        <= byte < listed[q] + 4096
                }
            &&& end.registered == Set::<u64>::empty()
            &&& end.isolated == Set::<u64>::empty()
            &&& end.handshakes == 0
        }),
{
    let map = seq![MemoryStep::MapFile { path: base, track_dirty_pages }];
    let copy = residual_step(
        mem_backend,
        |list: &'a PathBuf| MemoryStep::ApplyDelta { delta: &mem_backend.backend_path, list },
    );
    let end = after_steps(
        nothing_yet(),
        precopy_steps(mem_backend, base, track_dirty_pages),
        regions,
        contents,
    );
    lemma_after_joined(nothing_yet(), map, copy, regions, contents);
    lemma_after_one(nothing_yet(), map, regions, contents);
    lemma_after_one(nothing_yet(), copy, regions, contents);
    if let Some(list) = &mem_backend.dirty_pages_path {
        let listed = offsets::page_offsets(contents(list), 4096);
        let n = listed.len() as int;
        let pages = delta::located_pages(regions, listed, n);
        assert(end.resident == Set::<u64>::empty().union(delta_bytes(regions, contents(list))));
        if end.resident.contains(byte) {
            let p = choose|p: int|
                0 <= p < pages.len() && (#[trigger] pages[p]).0 <= byte < pages[p].0
                    + delta::DELTA_PAGE_BYTES;
            delta::lemma_located_pages(regions, listed, n, pages[p]);
            assert(pages.contains(pages[p]));
            let q = choose|q: int|
                0 <= q < n && memory::is_located(regions, #[trigger] listed[q]) && pages[p] == (
                    listed[q] as int,
                    delta::host_at(regions, listed[q]),
                );
            assert(listed[q] <= byte < listed[q] + 4096);
        }
        assert forall|q: int|
            0 <= q < n && memory::is_located(regions, #[trigger] listed[q]) && listed[q] <= byte
                < listed[q] + 4096 implies end.resident.contains(byte) by {
            let page = (listed[q] as int, delta::host_at(regions, listed[q]));
            delta::lemma_located_pages(regions, listed, n, page);
            let p = pages.index_of(page);
            assert(pages[p].0 <= byte < pages[p].0 + delta::DELTA_PAGE_BYTES);
        }
    }
}

/// Loading guest memory from a file.
pub fn guest_memory_from_file<'a>(path: &'a PathBuf, track_dirty_pages: bool) -> (steps: Vec<
    MemoryStep<'a>,
>)
    ensures
        steps@ == file_steps(path, track_dirty_pages),
{
    let mut steps: Vec<MemoryStep<'a>> = Vec::new();
    steps.push(MemoryStep::MapFile { path, track_dirty_pages });
    assert(steps@ =~= file_steps(path, track_dirty_pages));
    steps
}

/// Loading guest memory through a page-fault handler that listens at `socket`.
pub fn guest_memory_from_uffd<'a>(
    socket: &'a PathBuf,
    track_dirty_pages: bool,
    huge_pages: HugePageConfig,
) -> (steps: Vec<MemoryStep<'a>>)
    ensures
        steps@ == uffd_steps(socket, track_dirty_pages, huge_pages),
{
    let mut steps: Vec<MemoryStep<'a>> = Vec::new();
    steps.push(MemoryStep::MapAnonymous { track_dirty_pages, huge_pages });
    steps.push(MemoryStep::BuildUffd);
    steps.push(MemoryStep::RegisterAll { mode: RegisterMode::Missing });
    steps.push(MemoryStep::Handshake { socket, with_base: false });
    assert(steps@ =~= uffd_steps(socket, track_dirty_pages, huge_pages));
    steps
}

/// Loading guest memory from a shared base, in one go: the residual pages are served by a
/// page-fault handler, the trusted pages are copied in, and the working set is made resident.
pub fn guest_memory_from_hybrid<'a>(
    mem_backend: &'a MemBackendConfig,
    track_dirty_pages: bool,
    huge_pages: HugePageConfig,
) -> (r: Result<Vec<MemoryStep<'a>>, GuestMemoryFromHybridError>)
    ensures
        match r {
            Ok(steps) => mem_backend.base_mem_path is Some && steps@ == hybrid_steps(
                mem_backend,
                &mem_backend.base_mem_path->0,
                track_dirty_pages,
                huge_pages.page_bytes() as usize,
            ),
            Err(err) => mem_backend.base_mem_path is None && err is MissingBase,
        },
{
    let base: &'a PathBuf = match &mem_backend.base_mem_path {
        Some(base) => base,
        None => return Err(GuestMemoryFromHybridError::MissingBase),
    };
    let page_size: usize = huge_pages.page_size();
    let mut steps: Vec<MemoryStep<'a>> = Vec::new();
    steps.push(MemoryStep::MapFile { path: base, track_dirty_pages });
    if let Some(list) = &mem_backend.dirty_pages_path {
        steps.push(MemoryStep::ReadResidual { list, page_size });
        steps.push(MemoryStep::Overlay { list, page_size });
    }
    if let Some(manifest) = &mem_backend.prefill_pages_path {
        steps.push(MemoryStep::Prefault { manifest, page_size });
    }
    if let (Some(delta), Some(list)) = (
        &mem_backend.eager_delta_path,
        &mem_backend.eager_pages_path,
    ) {
        steps.push(MemoryStep::ApplyDelta { delta, list });
    }
    steps.push(MemoryStep::CreateUffd);
    if let Some(list) = &mem_backend.dirty_pages_path {
        steps.push(MemoryStep::Register { list, page_size, mode: RegisterMode::Missing });
    }
    steps.push(MemoryStep::Handshake { socket: &mem_backend.backend_path, with_base: true });
    assert(steps@ =~= hybrid_steps(mem_backend, base, track_dirty_pages, page_size));
    Ok(steps)
}

/// Whether a request asks for pages to be filled in before the VM resumes.
fn asks_to_fill(mem_backend: &MemBackendConfig) -> (r: bool)
    ensures
        r == fills_pages(mem_backend),
{
    mem_backend.eager_delta_path.is_some() || mem_backend.eager_pages_path.is_some()
        || mem_backend.prefill_pages_path.is_some()
}

/// The first phase of a hybrid load in two phases: the base is mapped, and the dirty pages so
/// far are isolated and registered. What comes of it is held until the second phase.
pub fn prepare_hybrid<'a>(
    mem_backend: &'a MemBackendConfig,
    track_dirty_pages: bool,
    huge_pages: HugePageConfig,
) -> (r: Result<Vec<MemoryStep<'a>>, GuestMemoryFromHybridError>)
    ensures
        match r {
            Ok(steps) => !fills_pages(mem_backend) && mem_backend.base_mem_path is Some && steps@
                == prepare_steps(
                mem_backend,
                &mem_backend.base_mem_path->0,
                track_dirty_pages,
                huge_pages.page_bytes() as usize,
            ),
            Err(err) => if fills_pages(mem_backend) {
                err is InvalidPhase
            } else {
                mem_backend.base_mem_path is None && err is MissingBase
            },
        },
{
    if asks_to_fill(mem_backend) {
        return Err(GuestMemoryFromHybridError::InvalidPhase);
    }
    let base: &'a PathBuf = match &mem_backend.base_mem_path {
        Some(base) => base,
        None => return Err(GuestMemoryFromHybridError::MissingBase),
    };
    let page_size: usize = huge_pages.page_size();
    let mut steps: Vec<MemoryStep<'a>> = Vec::new();
    steps.push(MemoryStep::MapFile { path: base, track_dirty_pages });
    if let Some(list) = &mem_backend.dirty_pages_path {
        steps.push(MemoryStep::Overlay { list, page_size });
    }
    steps.push(MemoryStep::CreateUffd);
    if let Some(list) = &mem_backend.dirty_pages_path {
        steps.push(MemoryStep::Register { list, page_size, mode: RegisterMode::Missing });
    }
    assert(steps@ =~= prepare_steps(mem_backend, base, track_dirty_pages, page_size));
    Ok(steps)
}

/// Guest memory that the first phase of a hybrid load has prepared. The userfaultfd and the file
/// of the base are held beside it, and nothing can fault on it yet: no vCPU runs.
#[derive(Debug)]
pub struct PreparedHybrid {
    guest_memory: Vec<GuestRegionMmap>,
    backend_mappings: Vec<GuestRegionUffdMapping>,
    page_size: usize,
    region_shape: Vec<(u64, usize)>,
}

impl PreparedHybrid {
    /// The regions that were mapped.
    pub closed spec fn regions(&self) -> Seq<GuestRegionMmap> {
        self.guest_memory@
    }

    /// The mappings for the page-fault handler.
    pub closed spec fn mappings(&self) -> Seq<GuestRegionUffdMapping> {
        self.backend_mappings@
    }

    /// The page size in bytes.
    pub closed spec fn page_bytes(&self) -> usize {
        self.page_size
    }

    /// The layout of the memory that was mapped: guest address and size of each region.
    pub closed spec fn shape(&self) -> Seq<(u64, usize)> {
        self.region_shape@
    }

    /// The mappings are those of the regions that were mapped.
    pub open spec fn wf(&self) -> bool {
        &&& memory::mappable(self.regions())
        &&& self.mappings() == memory::backend_mappings(self.regions(), self.page_bytes())
        &&& memory::all_fit(memory::mapped_regions(self.mappings()))
        &&& self.page_bytes() > 0
    }

    /// What the first phase holds, once it has mapped the memory that `mem_state` describes.
    pub fn new(
        guest_memory: Vec<GuestRegionMmap>,
        mem_state: &GuestMemoryState,
        huge_pages: HugePageConfig,
    ) -> (prepared: PreparedHybrid)
        requires
            memory::mappable(guest_memory@),
        ensures
            prepared.wf(),
            prepared.regions() == guest_memory@,
            prepared.page_bytes() == huge_pages.page_bytes(),
            prepared.shape() == memory::region_shape(mem_state.regions@),
    {
        let backend_mappings: Vec<GuestRegionUffdMapping> = create_guest_memory(
            &guest_memory,
            huge_pages,
        );
        PreparedHybrid {
            guest_memory,
            backend_mappings,
            page_size: huge_pages.page_size(),
            region_shape: mem_state.regions(),
        }
    }

    /// The regions that were mapped.
    pub fn guest_memory(&self) -> (guest_memory: &Vec<GuestRegionMmap>)
        ensures
            guest_memory@ == self.regions(),
    {
        &self.guest_memory
    }

    /// The mappings for the page-fault handler.
    pub fn backend_mappings(&self) -> (mappings: &Vec<GuestRegionUffdMapping>)
        ensures
            mappings@ == self.mappings(),
    {
        &self.backend_mappings
    }
}

/// Prepared memory has a mapping for every region that was mapped, in order: of its host address
/// and size, with its contents behind those of the regions before it, and with its pages.
pub proof fn law_prepared_memory(prepared: PreparedHybrid, i: int)
    requires
        prepared.wf(),
        0 <= i < prepared.regions().len(),
    ensures
        prepared.page_bytes() > 0,
        prepared.mappings().len() == prepared.regions().len(),
        prepared.mappings()[i].base_host_virt_addr == prepared.regions()[i].host_addr,
        prepared.mappings()[i].size == prepared.regions()[i].size,
        prepared.mappings()[i].page_size == prepared.page_bytes(),
        i == 0 ==> prepared.mappings()[i].offset == 0,
        i > 0 ==> prepared.mappings()[i].offset == prepared.mappings()[i - 1].offset
            + prepared.regions()[i - 1].size,
{
    memory::law_mappings_tell_of_every_region(prepared.regions(), prepared.page_bytes(), i);
}

/// Whether two layouts are the same.
fn same_shape(a: &Vec<(u64, usize)>, b: &Vec<(u64, usize)>) -> (r: bool)
    ensures
        r == (a@ == b@),
{
    if a.len() != b.len() {
        return false;
    }
    let mut i: usize = 0;
    while i < a.len()
        invariant
            i <= a.len(),
            a.len() == b.len(),
            forall|k: int| 0 <= k < i ==> a@[k] == b@[k],
        decreases a.len() - i,
    {
        if a[i].0 != b[i].0 || a[i].1 != b[i].1 {
            assert(a@[i as int] != b@[i as int]);
            return false;
        }
        i = i + 1;
    }
    assert(a@ =~= b@);
    true
}

/// The second phase of a hybrid load in two phases, on the memory that the first prepared: the
/// last dirty pages are isolated and registered, and then the handler hears of the memory. The
/// snapshot must lay out memory as the one that was prepared for.
pub fn finish_prepared_hybrid<'a>(
    prepared: &PreparedHybrid,
    mem_backend: &'a MemBackendConfig,
    mem_state: &GuestMemoryState,
) -> (r: Result<Vec<MemoryStep<'a>>, GuestMemoryFromHybridError>)
    requires
        prepared.wf(),
    ensures
        match r {
            Ok(steps) => !fills_pages(mem_backend) && memory::region_shape(mem_state.regions@)
                == prepared.shape() && steps@ == finish_steps(mem_backend, prepared.page_bytes()),
            Err(err) => if fills_pages(mem_backend) {
                err is InvalidPhase
            } else {
                memory::region_shape(mem_state.regions@) != prepared.shape()
                    && err is PreparedMismatch
            },
        },
{
    if asks_to_fill(mem_backend) {
        return Err(GuestMemoryFromHybridError::InvalidPhase);
    }
    if !same_shape(&mem_state.regions(), &prepared.region_shape) {
        return Err(GuestMemoryFromHybridError::PreparedMismatch);
    }
    let page_size: usize = prepared.page_size;
    let mut steps: Vec<MemoryStep<'a>> = Vec::new();
    if let Some(list) = &mem_backend.dirty_pages_path {
        steps.push(MemoryStep::Overlay { list, page_size });
        steps.push(MemoryStep::Register { list, page_size, mode: RegisterMode::Missing });
    }
    steps.push(MemoryStep::Handshake { socket: &mem_backend.backend_path, with_base: true });
    assert(steps@ =~= finish_steps(mem_backend, page_size));
    Ok(steps)
}

/// Loading guest memory from a shared base with the dirty pages copied in. No handler serves
/// page faults.
pub fn guest_memory_from_precopy<'a>(
    mem_backend: &'a MemBackendConfig,
    track_dirty_pages: bool,
) -> (r: Result<Vec<MemoryStep<'a>>, GuestMemoryFromHybridError>)
    ensures
        match r {
            Ok(steps) => mem_backend.base_mem_path is Some && steps@ == precopy_steps(
                mem_backend,
                &mem_backend.base_mem_path->0,
                track_dirty_pages,
            ),
            Err(err) => mem_backend.base_mem_path is None && err is MissingBase,
        },
        r matches Ok(steps) && mem_backend.dirty_pages_path is Some ==> r->Ok_0@.len() == 2
            && r->Ok_0@[1] == (MemoryStep::ApplyDelta {
            delta: &mem_backend.backend_path,
            list: &mem_backend.dirty_pages_path->0,
        }),
{
    let base: &'a PathBuf = match &mem_backend.base_mem_path {
        Some(base) => base,
        None => return Err(GuestMemoryFromHybridError::MissingBase),
    };
    let mut steps: Vec<MemoryStep<'a>> = Vec::new();
    steps.push(MemoryStep::MapFile { path: base, track_dirty_pages });
    if let Some(list) = &mem_backend.dirty_pages_path {
        steps.push(MemoryStep::ApplyDelta { delta: &mem_backend.backend_path, list });
    }
    assert(steps@ =~= precopy_steps(mem_backend, base, track_dirty_pages));
    Ok(steps)
}

/// Why a step of a load from a file failed.
#[derive(Debug)]
pub enum FileFailure {
    /// The file could not be opened.
    Open(std::io::Error),
    /// Guest memory could not be mapped.
    Mapping(ComponentError),
}

/// What a load from a file reports when a step fails.
pub fn file_error(failure: FileFailure) -> (err: GuestMemoryFromFileError)
    ensures
        err == match failure {
            FileFailure::Open(err) => GuestMemoryFromFileError::File(err),
            FileFailure::Mapping(err) => GuestMemoryFromFileError::Restore(err),
        },
{
    match failure {
        FileFailure::Open(err) => GuestMemoryFromFileError::File(err),
        FileFailure::Mapping(err) => GuestMemoryFromFileError::Restore(err),
    }
}

/// Why a step of a load through a page-fault handler failed.
#[derive(Debug)]
pub enum UffdFailure {
    /// Guest memory could not be mapped.
    Mapping(ComponentError),
    /// The userfaultfd could not be created.
    Create(ComponentError),
    /// A region could not be registered with the userfaultfd.
    Register(ComponentError),
    /// The handler's socket could not be connected to.
    Connect(std::io::Error),
    /// The file descriptor could not be sent.
    Send(vmm_sys_util::errno::Error),
}

/// What a load through a page-fault handler reports when a step fails.
pub fn uffd_error(failure: UffdFailure) -> (err: GuestMemoryFromUffdError)
    ensures
        err == match failure {
            UffdFailure::Mapping(err) => GuestMemoryFromUffdError::Restore(err),
            UffdFailure::Create(err) => GuestMemoryFromUffdError::Create(err),
            UffdFailure::Register(err) => GuestMemoryFromUffdError::Register(err),
            UffdFailure::Connect(err) => GuestMemoryFromUffdError::Connect(err),
            UffdFailure::Send(err) => GuestMemoryFromUffdError::Send(err),
        },
{
    match failure {
        UffdFailure::Mapping(err) => GuestMemoryFromUffdError::Restore(err),
        UffdFailure::Create(err) => GuestMemoryFromUffdError::Create(err),
        UffdFailure::Register(err) => GuestMemoryFromUffdError::Register(err),
        UffdFailure::Connect(err) => GuestMemoryFromUffdError::Connect(err),
        UffdFailure::Send(err) => GuestMemoryFromUffdError::Send(err),
    }
}

/// Why a step of a load from a shared base failed.
#[derive(Debug)]
pub enum HybridFailure {
    /// A file could not be opened or its handle not be copied.
    Open(std::io::Error),
    /// Guest memory could not be mapped.
    Mapping(ComponentError),
    /// A range could not be replaced by anonymous memory.
    Overlay(std::io::Error),
    /// The userfaultfd could not be created.
    Create(std::io::Error),
    /// A range could not be registered with the userfaultfd.
    Register(ComponentError),
    /// The handler's socket could not be connected to.
    Connect(std::io::Error),
    /// The file descriptors could not be sent.
    Send(vmm_sys_util::errno::Error),
}

/// What a load from a shared base reports when a step fails.
pub fn hybrid_error(failure: HybridFailure) -> (err: GuestMemoryFromHybridError)
    ensures
        err == match failure {
            HybridFailure::Open(err) => GuestMemoryFromHybridError::Io(err),
            HybridFailure::Mapping(err) => GuestMemoryFromHybridError::Restore(err),
            HybridFailure::Overlay(err) => GuestMemoryFromHybridError::Io(err),
            HybridFailure::Create(err) => GuestMemoryFromHybridError::Uffd(err),
            HybridFailure::Register(err) => GuestMemoryFromHybridError::Register(err),
            HybridFailure::Connect(err) => GuestMemoryFromHybridError::Io(err),
            HybridFailure::Send(err) => GuestMemoryFromHybridError::Send(err),
        },
{
    match failure {
        HybridFailure::Open(err) => GuestMemoryFromHybridError::Io(err),
        HybridFailure::Mapping(err) => GuestMemoryFromHybridError::Restore(err),
        HybridFailure::Overlay(err) => GuestMemoryFromHybridError::Io(err),
        HybridFailure::Create(err) => GuestMemoryFromHybridError::Uffd(err),
        HybridFailure::Register(err) => GuestMemoryFromHybridError::Register(err),
        HybridFailure::Connect(err) => GuestMemoryFromHybridError::Io(err),
        HybridFailure::Send(err) => GuestMemoryFromHybridError::Send(err),
    }
}

} // verus!
