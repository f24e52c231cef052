//! A page-fault handler that serves guest memory from two layers, a delta file over a base file:
//! where a page is found and where it goes, which pages are copied ahead of their faults, and
//! what a copy's outcome means.
use vstd::arithmetic::power;
use vstd::arithmetic::power2;
use vstd::prelude::*;

use crate::external::{errno_again, errno_exists, errno_no_process};
use crate::memory;
use crate::memory::{GuestRegionMmap, GuestRegionUffdMapping};
use crate::offsets;

verus! {

broadcast use vstd::seq::group_seq_axioms;

/// The smallest size in bytes of the buffer that a page is read into.
pub const MIN_BUFFER_BYTES: usize = 4096;

/// How many pages are copied ahead before the handler looks for faults again.
pub const PREFILL_BATCH: usize = 64;

/// How often, in faults, the handler reports its counters.
pub const REPORT_EVERY: u64 = 1024;

/// How many times the handler tries to receive the mappings.
pub const HANDSHAKE_ATTEMPTS: u32 = 50;

/// Whether the mapping has host address `addr`.
pub open spec fn has_address(mapping: GuestRegionUffdMapping, addr: u64) -> bool {
    mapping.base_host_virt_addr <= addr < mapping.base_host_virt_addr + mapping.size
}

impl GuestRegionUffdMapping {
    /// Whether the mapping has host address `fault_page_addr`.
    pub fn contains(&self, fault_page_addr: u64) -> (r: bool)
        requires
            self.file_region().fits(),
        ensures
            r == has_address(*self, fault_page_addr),
            r <==> self.base_host_virt_addr <= fault_page_addr < self.base_host_virt_addr
                + self.size,
    {
        fault_page_addr >= self.base_host_virt_addr && fault_page_addr < self.base_host_virt_addr
            + self.size as u64
    }
}

/// Where a page is copied to, and where in the files its contents are.
#[derive(Clone, Copy, Debug, PartialEq, Eq, Structural)]
pub struct PageTarget {
    /// Host address of the page.
    pub dst: u64,
    /// Offset of its contents.
    pub offset: u64,
}

/// Which file a page comes from.
#[derive(Clone, Copy, Debug, PartialEq, Eq, Structural)]
pub enum PageSource {
    /// The base.
    Base,
    /// The delta.
    Delta,
}

/// Which file a page at `offset` comes from. `data` is where, from that offset on, a search found
/// the first data in the delta file; it is negative when the search found none.
pub fn page_source(data: i64, offset: u64) -> (source: PageSource)
    ensures
        source == if 0 <= data <= offset {
            PageSource::Delta
        } else {
            PageSource::Base
        },
{
    if data >= 0 && data as u64 <= offset {
        PageSource::Delta
    } else {
        PageSource::Base
    }
}

/// What came of copying a page to the VM.
#[derive(Clone, Copy, Debug, PartialEq, Eq, Structural)]
pub enum CopyOutcome {
    /// This many bytes were copied.
    Copied(usize),
    /// Only so many bytes were copied; the number may be an error's, negated.
    PartiallyCopied(usize),
    /// The copy failed with this error number.
    Failed(i32),
    /// The copy failed in another way.
    OtherError,
}

/// What to make of a copy's outcome.
#[derive(Clone, Copy, Debug, PartialEq, Eq, Structural)]
pub enum CopyVerdict {
    /// The page is in place.
    Served,
    /// Try again later.
    Retry,
    /// The VM is gone: stop.
    VmGone,
    /// The handler cannot go on.
    Fatal,
}

/// What to make of a copy's outcome: a page that is in place already counts as served, and a
/// copy that was interrupted before its first byte is tried again.
pub fn copy_verdict(outcome: CopyOutcome) -> (verdict: CopyVerdict)
    ensures
        verdict == match outcome {
            CopyOutcome::Copied(n) => if n > 0 {
                CopyVerdict::Served
            } else {
                CopyVerdict::Fatal
            },
            CopyOutcome::PartiallyCopied(n) => if n == 0 || n == usize::MAX - 10 {
                CopyVerdict::Retry
            } else {
                CopyVerdict::Fatal
            },
            CopyOutcome::Failed(errno) => if errno == 17 {
                CopyVerdict::Served
            } else if errno == 3 {
                CopyVerdict::VmGone
            } else {
                CopyVerdict::Fatal
            },
            CopyOutcome::OtherError => CopyVerdict::Fatal,
        },
{
    match outcome {
        CopyOutcome::Copied(n) => {
            if n > 0 {
                CopyVerdict::Served
            } else {
                CopyVerdict::Fatal
            }
        },
        CopyOutcome::PartiallyCopied(n) => {
            // The number that an error number reads as once it is negated and taken as a size.
            let interrupted: usize = usize::MAX - (errno_again() - 1) as usize;
            if n == 0 || n == interrupted {
                CopyVerdict::Retry
            } else {
                CopyVerdict::Fatal
            }
        },
        CopyOutcome::Failed(errno) => {
            if errno == errno_exists() {
                CopyVerdict::Served
            } else if errno == errno_no_process() {
                CopyVerdict::VmGone
            } else {
                CopyVerdict::Fatal
            }
        },
        CopyOutcome::OtherError => CopyVerdict::Fatal,
    }
}

/// The index of the first mapping from `from` on that has host address `addr`, or the number of
/// mappings when there is none.
pub open spec fn mapping_with(
    mappings: Seq<GuestRegionUffdMapping>,
    addr: u64,
    from: int,
) -> int
    decreases mappings.len() - from,
{
    if from >= mappings.len() || has_address(mappings[from], addr) {
        from
    } else {
        mapping_with(mappings, addr, from + 1)
    }
}

/// Where a page whose host address is `dst` goes and comes from, if some mapping has it.
pub open spec fn target_of(mappings: Seq<GuestRegionUffdMapping>, dst: u64) -> Option<PageTarget> {
    let k = mapping_with(mappings, dst, 0);
    if k < mappings.len() {
        Some(
            PageTarget {
                dst,
                offset: (mappings[k].offset + (dst - mappings[k].base_host_virt_addr)) as u64,
            },
        )
    } else {
        None
    }
}

/// The pages of the mappings that are still to be copied ahead, when those before mapping
/// `region` and those before `at` in it have been.
pub open spec fn pages_from(
    mappings: Seq<GuestRegionUffdMapping>,
    page_size: int,
    region: int,
    at: int,
) -> Seq<PageTarget>
    decreases
            mappings.len() - region,
            (if 0 <= region < mappings.len() && at < mappings[region].size {
                mappings[region].size - at
            } else {
                0
            }),
{
    if region < 0 || region >= mappings.len() || page_size <= 0 {
        Seq::empty()
    } else if at >= mappings[region].size {
        pages_from(mappings, page_size, region + 1, 0)
    } else {
        seq![
            PageTarget {
                dst: (mappings[region].base_host_virt_addr + at) as u64,
                offset: (mappings[region].offset + at) as u64,
            },
        ] + pages_from(mappings, page_size, region, at + page_size)
    }
}

/// Whether the mappings are ones that a handler can serve with pages of this size: they end below
/// the top of their address ranges.
pub open spec fn servable(mappings: Seq<GuestRegionUffdMapping>, page_size: int) -> bool {
    forall|k: int|
        0 <= k < mappings.len() ==> (#[trigger] mappings[k]).file_region().fits()
            && mappings[k].size + page_size <= usize::MAX
}

/// Whether a handler can serve these mappings: there is one, the page size of the first is a
/// power of two, and all end below the top of their address ranges.
pub open spec fn is_served(mappings: Seq<GuestRegionUffdMapping>) -> bool {
    &&& mappings.len() > 0
    &&& power2::is_pow2(mappings[0].page_size as int)
    &&& servable(mappings, mappings[0].page_size as int)
}

/// Whether a number is a power of two.
fn is_power_of_two(n: usize) -> (r: bool)
    ensures
        r == power2::is_pow2(n as int),
{
    reveal(power2::is_pow2);
    if n == 0 {
        return false;
    }
    let mut rest: usize = n;
    while rest > 1
        invariant
            rest >= 1,
            power2::is_pow2(n as int) == power2::is_pow2(rest as int),
        decreases rest,
    {
        reveal(power2::is_pow2);
        if rest % 2 != 0 {
            return false;
        }
        rest = rest / 2;
    }
    true
}

/// Whether a handler can serve these mappings.
pub fn can_serve(mappings: &Vec<GuestRegionUffdMapping>) -> (r: bool)
    ensures
        r == is_served(mappings@),
{
    if mappings.len() == 0 {
        return false;
    }
    let page_size: usize = mappings[0].page_size;
    if !is_power_of_two(page_size) {
        return false;
    }
    let mut i: usize = 0;
    while i < mappings.len()
        invariant
            i <= mappings.len(),
            mappings.len() > 0,
            page_size == mappings@[0].page_size,
            forall|k: int|
                0 <= k < i ==> (#[trigger] mappings@[k]).file_region().fits() && mappings@[k].size
                    + page_size <= usize::MAX,
        decreases mappings.len() - i,
    {
        let mapping: GuestRegionUffdMapping = mappings[i];
        let size: u64 = mapping.size as u64;
        if mapping.base_host_virt_addr > u64::MAX - size || mapping.offset > u64::MAX - size
            || mapping.size > usize::MAX - page_size {
            assert(!(mappings@[i as int].file_region().fits() && mappings@[i as int].size
                + page_size <= usize::MAX));
            return false;
        }
        i = i + 1;
    }
    true
}

/// The state of the handler: the mappings it serves, what it has counted, and how far it has
/// copied pages ahead.
#[derive(Debug)]
pub struct LayeredHandler {
    mappings: Vec<GuestRegionUffdMapping>,
    page_size: usize,
    faults: u64,
    delta_hits: u64,
    base_hits: u64,
    prefill: bool,
    prefill_region: usize,
    prefill_offset: usize,
}

/// What a handler does while no fault waits to be served.
#[derive(Debug, PartialEq, Eq)]
pub enum IdleStep {
    /// Copy these pages ahead of their faults.
    Copy(Vec<PageTarget>),
    /// Every page has been handed out to be copied ahead: unregister all mappings and stop.
    Finish,
    /// Wait a little.
    Wait,
}

impl LayeredHandler {
    /// The mappings served.
    pub closed spec fn maps(&self) -> Seq<GuestRegionUffdMapping> {
        self.mappings@
    }

    /// The page size in bytes.
    pub closed spec fn page_bytes(&self) -> usize {
        self.page_size
    }

    /// The faults served so far.
    pub closed spec fn fault_count(&self) -> u64 {
        self.faults
    }

    /// How many pages came from the delta file.
    pub closed spec fn delta_count(&self) -> u64 {
        self.delta_hits
    }

    /// How many pages came from the base file.
    pub closed spec fn base_count(&self) -> u64 {
        self.base_hits
    }

    /// Whether pages are copied ahead of their faults.
    pub closed spec fn prefills(&self) -> bool {
        self.prefill
    }

    /// The pages that are still to be copied ahead.
    pub closed spec fn to_prefill(&self) -> Seq<PageTarget> {
        pages_from(
            self.mappings@,
            self.page_size as int,
            self.prefill_region as int,
            self.prefill_offset as int,
        )
    }

    /// The page size is a power of two, the mappings can be served, and every page that was
    /// served came from one of the files.
    pub closed spec fn wf(&self) -> bool {
        &&& power2::is_pow2(self.page_size as int)
        &&& self.page_size > 0
        &&& servable(self.mappings@, self.page_size as int)
        &&& self.prefill_region <= self.mappings@.len()
        &&& self.faults == self.delta_hits + self.base_hits
        &&& self.prefill_region < self.mappings@.len() ==> self.prefill_offset
            <= self.mappings@[self.prefill_region as int].size + self.page_size
    }

    /// Whether two handlers serve the same mappings in the same way.
    pub open spec fn serves_like(&self, other: &LayeredHandler) -> bool {
        &&& self.maps() == other.maps()
        &&& self.page_bytes() == other.page_bytes()
        &&& self.prefills() == other.prefills()
    }

    /// Whether two handlers have counted the same.
    pub open spec fn counts_like(&self, other: &LayeredHandler) -> bool {
        &&& self.fault_count() == other.fault_count()
        &&& self.delta_count() == other.delta_count()
        &&& self.base_count() == other.base_count()
    }

    /// A handler of these mappings that has done nothing yet. The page size is that of the first.
    pub fn new(mappings: Vec<GuestRegionUffdMapping>, prefill: bool) -> (handler: LayeredHandler)
        requires
            is_served(mappings@),
        ensures
            handler.wf(),
            handler.maps() == mappings@,
            handler.page_bytes() == mappings@[0].page_size,
            handler.prefills() == prefill,
            handler.fault_count() == 0,
            handler.delta_count() == 0,
            handler.base_count() == 0,
            handler.to_prefill() == pages_from(mappings@, mappings@[0].page_size as int, 0, 0),
    {
        let page_size: usize = mappings[0].page_size;
        assert(page_size > 0) by {
            reveal(power2::is_pow2);
        }
        LayeredHandler {
            mappings,
            page_size,
            faults: 0,
            delta_hits: 0,
            base_hits: 0,
            prefill,
            prefill_region: 0,
            prefill_offset: 0,
        }
    }

    /// The mappings served.
    pub fn mappings(&self) -> (mappings: &Vec<GuestRegionUffdMapping>)
        ensures
            mappings@ == self.maps(),
    {
        &self.mappings
    }

    /// The page size in bytes.
    pub fn page_size(&self) -> (page_size: usize)
        ensures
            page_size == self.page_bytes(),
    {
        self.page_size
    }

    /// The counters: faults, pages from the delta file, pages from the base file.
    pub fn counters(&self) -> (counters: (u64, u64, u64))
        ensures
            counters == (self.fault_count(), self.delta_count(), self.base_count()),
    {
        (self.faults, self.delta_hits, self.base_hits)
    }

    /// The size in bytes of the buffer that a page is read into.
    pub fn buffer_bytes(&self) -> (bytes: usize)
        ensures
            bytes == if self.page_bytes() >= MIN_BUFFER_BYTES {
                self.page_bytes()
            } else {
                MIN_BUFFER_BYTES
            },
            bytes >= self.page_bytes() && bytes >= 4096,
            bytes == self.page_bytes() || bytes == 4096,
    {
        if self.page_size >= MIN_BUFFER_BYTES {
            self.page_size
        } else {
            MIN_BUFFER_BYTES
        }
    }

    /// Where the page that was touched at host address `addr` goes and comes from. Absent when
    /// the address is outside all mappings.
    pub fn serve_page(&self, addr: u64) -> (target: Option<PageTarget>)
        requires
            self.wf(),
        ensures
            target == target_of(self.maps(), offsets::aligned(addr, self.page_bytes() as u64)),
            target matches Some(page) ==> page.dst == addr - addr as int % self.page_bytes() as int,
    {
        let mask: u64 = !(self.page_size as u64 - 1);
        let dst: u64 = addr & mask;
        let mut i: usize = 0;
        while i < self.mappings.len()
            invariant
                i <= self.mappings.len(),
                self.wf(),
                servable(self.mappings@, self.page_size as int),
                dst == offsets::aligned(addr, self.page_size as u64),
                mapping_with(self.mappings@, dst, 0) == mapping_with(
                    self.mappings@,
                    dst,
                    i as int,
                ),
            decreases self.mappings.len() - i,
        {
            let mapping: GuestRegionUffdMapping = self.mappings[i];
            assert(self.mappings@[i as int].file_region().fits());
            if mapping.contains(dst) {
                proof {
                    law_faulting_page(addr, self.page_size);
                }
                return Some(
                    PageTarget {
                        dst,
                        offset: mapping.offset + (dst - mapping.base_host_virt_addr),
                    },
                );
            }
            i = i + 1;
        }
        None
    }

    /// Counts a fault that was served from `source`, and tells whether the counters are to be
    /// reported once the page is in place.
    pub fn count_fault(&mut self, source: PageSource) -> (report: bool)
        requires
            old(self).wf(),
            old(self).fault_count() < u64::MAX,
        ensures
            final(self).wf(),
            final(self).serves_like(old(self)),
            final(self).to_prefill() == old(self).to_prefill(),
            final(self).fault_count() == old(self).fault_count() + 1,
            final(self).delta_count() == old(self).delta_count() + (if source == PageSource::Delta {
                1int
            } else {
                0int
            }),
            final(self).base_count() == old(self).base_count() + (if source == PageSource::Base {
                1int
            } else {
                0int
            }),
            report == (final(self).fault_count() % REPORT_EVERY == 0),
            report <==> final(self).fault_count() % 1024 == 0,
    {
        match source {
            PageSource::Delta => {
                self.delta_hits = self.delta_hits + 1;
            },
            PageSource::Base => {
                self.base_hits = self.base_hits + 1;
            },
        }
        self.faults = self.faults + 1;
        self.faults % REPORT_EVERY == 0
    }

    /// The next pages to copy ahead of their faults, no more than `budget`.
    pub fn prefill_some(&mut self, budget: usize) -> (pages: Vec<PageTarget>)
        requires
            old(self).wf(),
        ensures
            final(self).wf(),
            final(self).serves_like(old(self)),
            final(self).counts_like(old(self)),
            pages@ + final(self).to_prefill() == old(self).to_prefill(),
            pages@.len() <= budget,
            pages@.len() < budget ==> final(self).to_prefill().len() == 0,
    {
        let mut pages: Vec<PageTarget> = Vec::new();
        assert(pages@ + self.to_prefill() =~= old(self).to_prefill());
        while self.prefill_region < self.mappings.len() && pages.len() < budget
            invariant
                self.wf(),
                self.serves_like(old(self)),
                self.counts_like(old(self)),
                pages@ + self.to_prefill() == old(self).to_prefill(),
                pages@.len() <= budget,
            decreases
                    self.mappings@.len() - self.prefill_region,
                    self.mappings@[self.prefill_region as int].size + self.page_size
                        - self.prefill_offset,
        {
            let mapping: GuestRegionUffdMapping = self.mappings[self.prefill_region];
            let ghost before = pages@;
            let ghost ahead = self.to_prefill();
            assert(mapping.file_region().fits());
            if self.prefill_offset >= mapping.size {
                self.prefill_region = self.prefill_region + 1;
                self.prefill_offset = 0;
                assert(self.to_prefill() == ahead);
            } else {
                let page: PageTarget = PageTarget {
                    dst: mapping.base_host_virt_addr + self.prefill_offset as u64,
                    offset: mapping.offset + self.prefill_offset as u64,
                };
                pages.push(page);
                self.prefill_offset = self.prefill_offset + self.page_size;
                assert(ahead == seq![page] + self.to_prefill());
                assert(before + (seq![page] + self.to_prefill()) =~= pages@ + self.to_prefill());
            }
        }
        pages
    }

    /// Decides what to do while no fault waits to be served: copy the next pages ahead, and stop
    /// once each has been handed out. A copy ahead that was interrupted is not repeated. Without
    /// copying ahead there is nothing to do but wait.
    pub fn idle_step(&mut self) -> (step: IdleStep)
        requires
            old(self).wf(),
        ensures
            final(self).wf(),
            final(self).serves_like(old(self)),
            final(self).counts_like(old(self)),
            match step {
                IdleStep::Copy(pages) => {
                    &&& old(self).prefills()
                    &&& 0 < pages@.len() <= PREFILL_BATCH
                    &&& pages@.len() <= 64
                    &&& pages@.len() < 64 ==> final(self).to_prefill().len() == 0
                    &&& pages@ + final(self).to_prefill() == old(self).to_prefill()
                    &&& pages@.len() < PREFILL_BATCH ==> final(self).to_prefill().len() == 0
                },
                IdleStep::Finish => old(self).prefills() && old(self).to_prefill().len() == 0
                    && final(self).to_prefill().len() == 0,
                IdleStep::Wait => !old(self).prefills() && final(self).to_prefill()
                    == old(self).to_prefill(),
            },
    {
        if !self.prefill {
            return IdleStep::Wait;
        }
        let pages: Vec<PageTarget> = self.prefill_some(PREFILL_BATCH);
        if pages.len() > 0 {
            IdleStep::Copy(pages)
        } else {
            assert(pages@ + self.to_prefill() =~= self.to_prefill());
            IdleStep::Finish
        }
    }

    /// The length of a range that the guest has given up, to be unregistered. Absent when it is
    /// not made of whole pages.
    pub fn unregister_range(&self, start: u64, end: u64) -> (len: Option<u64>)
        requires
            self.wf(),
        ensures
            len == if start as int % self.page_bytes() as int == 0 && end as int
                % self.page_bytes() as int == 0 && start < end {
                Some((end - start) as u64)
            } else {
                None::<u64>
            },
    {
        let page_size: u64 = self.page_size as u64;
        if start % page_size == 0 && end % page_size == 0 && end > start {
            Some(end - start)
        } else {
            None
        }
    }
}

/// Handlers serve alike when they agree on the mappings, the page size and copying ahead, and
/// count alike when they agree on all three counters.
pub proof fn law_handlers_alike(one: LayeredHandler, other: LayeredHandler)
    ensures
        one.serves_like(&other) <==> one.maps() == other.maps() && one.page_bytes()
            == other.page_bytes() && one.prefills() == other.prefills(),
        one.counts_like(&other) <==> one.fault_count() == other.fault_count() && one.delta_count()
            == other.delta_count() && one.base_count() == other.base_count(),
{
}

/// Searching for a mapping finds the first that has the address.
proof fn lemma_mapping_with(mappings: Seq<GuestRegionUffdMapping>, addr: u64, from: int)
    requires
        0 <= from <= mappings.len(),
    ensures
        from <= mapping_with(mappings, addr, from) <= mappings.len(),
        mapping_with(mappings, addr, from) < mappings.len() ==> has_address(
            mappings[mapping_with(mappings, addr, from)],
            addr,
        ),
        forall|k: int|
            from <= k < mapping_with(mappings, addr, from) ==> !has_address(
                #[trigger] mappings[k],
                addr,
            ),
    decreases mappings.len() - from,
{
    if from < mappings.len() && !has_address(mappings[from], addr) {
        lemma_mapping_with(mappings, addr, from + 1);
    }
}

/// A fault is served by the whole page around its address.
pub proof fn law_faulting_page(addr: u64, page_size: usize)
    requires
        power2::is_pow2(page_size as int),
    ensures
        page_size > 0,
        offsets::aligned(addr, page_size as u64) == addr - addr as int % page_size as int,
{
    power2::is_pow2_equiv(page_size as int);
    let e = choose|e: nat| power::pow(2, e) == page_size as int;
    power2::lemma_pow2(e);
    power2::lemma_pow2_pos(e);
    assert(e < 64) by {
        if e >= 64 {
            power2::lemma2_to64_rest();
            if e > 64 {
                power2::lemma_pow2_strictly_increases(64, e);
            }
        }
    }
    offsets::law_aligned_rounds_down(addr, e);
}

/// A page is served exactly when some mapping has its address, from where the first such mapping
/// has it: as far behind the start of the mapping's contents as the page is behind the start of
/// the mapping.
pub proof fn law_target_is_in_the_first_mapping(
    mappings: Seq<GuestRegionUffdMapping>,
    dst: u64,
)
    requires
        forall|k: int|
            0 <= k < mappings.len() ==> (#[trigger] mappings[k]).offset + mappings[k].size
                <= u64::MAX,
    ensures
        target_of(mappings, dst) is Some <==> exists|k: int|
            0 <= k < mappings.len() && (#[trigger] mappings[k]).base_host_virt_addr <= dst
                < mappings[k].base_host_virt_addr + mappings[k].size,
        target_of(mappings, dst) matches Some(page) ==> page.dst == dst && exists|k: int|
            0 <= k < mappings.len() && (#[trigger] mappings[k]).base_host_virt_addr <= dst
                < mappings[k].base_host_virt_addr + mappings[k].size && page.offset
                - mappings[k].offset == dst - mappings[k].base_host_virt_addr && forall|j: int|
                0 <= j < k ==> !((#[trigger] mappings[j]).base_host_virt_addr <= dst
                    < mappings[j].base_host_virt_addr + mappings[j].size),
{
    lemma_mapping_with(mappings, dst, 0);
    let k = mapping_with(mappings, dst, 0);
    if k < mappings.len() {
        assert(has_address(mappings[k], dst));
        assert forall|j: int| 0 <= j < k implies !((
        #[trigger] mappings[j]).base_host_virt_addr <= dst < mappings[j].base_host_virt_addr
            + mappings[j].size) by {
            assert(!has_address(mappings[j], dst));
        }
        assert(mappings[k].offset + mappings[k].size <= u64::MAX);
    }
    if exists|k: int|
        0 <= k < mappings.len() && (#[trigger] mappings[k]).base_host_virt_addr <= dst
            < mappings[k].base_host_virt_addr + mappings[k].size {
        let j = choose|k: int|
            0 <= k < mappings.len() && (#[trigger] mappings[k]).base_host_virt_addr <= dst
                < mappings[k].base_host_virt_addr + mappings[k].size;
        assert(has_address(mappings[j], dst));
    }
}

/// Mappings can be served exactly when there is one, the first has a page size that is a power of
/// two, and each ends below 2^64, on the host and in the files, with room for a page behind its
/// size.
pub proof fn law_served_mappings(mappings: Seq<GuestRegionUffdMapping>)
    ensures
        is_served(mappings) <==> {
            &&& mappings.len() > 0
            &&& power2::is_pow2(mappings[0].page_size as int)
            &&& forall|k: int|
                0 <= k < mappings.len() ==> (#[trigger] mappings[k]).offset + mappings[k].size
                    <= u64::MAX && mappings[k].base_host_virt_addr + mappings[k].size <= u64::MAX
                    && mappings[k].size + mappings[0].page_size <= usize::MAX
        },
{
    if is_served(mappings) {
        assert forall|k: int| 0 <= k < mappings.len() implies (#[trigger] mappings[k]).offset
            + mappings[k].size <= u64::MAX && mappings[k].base_host_virt_addr + mappings[k].size
            <= u64::MAX && mappings[k].size + mappings[0].page_size <= usize::MAX by {
            assert(mappings[k].file_region().fits());
        }
    }
    if {
        &&& mappings.len() > 0
        &&& power2::is_pow2(mappings[0].page_size as int)
        &&& forall|k: int|
            0 <= k < mappings.len() ==> (#[trigger] mappings[k]).offset + mappings[k].size
                <= u64::MAX && mappings[k].base_host_virt_addr + mappings[k].size <= u64::MAX
                && mappings[k].size + mappings[0].page_size <= usize::MAX
    } {
        assert forall|k: int| 0 <= k < mappings.len() implies (
        #[trigger] mappings[k]).file_region().fits() && mappings[k].size + mappings[0].page_size
            <= usize::MAX by {
            assert(mappings[k].offset + mappings[k].size <= u64::MAX);
        }
    }
}

/// What is left of one mapping to copy ahead: a page every `page_size` bytes.
proof fn lemma_pages_of_mapping(
    mappings: Seq<GuestRegionUffdMapping>,
    page_size: int,
    region: int,
    at: int,
)
    requires
        0 <= region < mappings.len(),
        page_size > 0,
        0 <= at,
    ensures
        ({
            let mapping = mappings[region];
            let left: nat = if at < mapping.size {
                ((mapping.size - at + page_size - 1) / page_size) as nat
            } else {
                0
            };
            pages_from(mappings, page_size, region, at) == Seq::new(
                left,
                |j: int|
                    PageTarget {
                        dst: (mapping.base_host_virt_addr + (at + j * page_size)) as u64,
                        offset: (mapping.offset + (at + j * page_size)) as u64,
                    },
            ) + pages_from(mappings, page_size, region + 1, 0)
        }),
    decreases
            (if at < mappings[region].size {
                mappings[region].size - at
            } else {
                0
            }),
{
    let mapping = mappings[region];
    let rest = pages_from(mappings, page_size, region + 1, 0);
    let all = pages_from(mappings, page_size, region, at);
    let page = |from: int, j: int|
        PageTarget {
            dst: (mapping.base_host_virt_addr + (from + j * page_size)) as u64,
            offset: (mapping.offset + (from + j * page_size)) as u64,
        };
    let left: nat = if at < mapping.size {
        ((mapping.size - at + page_size - 1) / page_size) as nat
    } else {
        0
    };
    let here = Seq::new(left, |j: int| page(at, j));
    if at < mapping.size {
        let next = at + page_size;
        let size = mapping.size as int;
        lemma_pages_of_mapping(mappings, page_size, region, next);
        let fewer: nat = if next < size {
            ((size - next + page_size - 1) / page_size) as nat
        } else {
            0
        };
        assert(left == fewer + 1) by (nonlinear_arith)
            requires
                at < size,
                page_size > 0,
                next == at + page_size,
                left == (size - at + page_size - 1) / page_size,
                next < size ==> fewer == (size - next + page_size - 1) / page_size,
                next >= size ==> fewer == 0,
        ;
        let there = Seq::new(fewer, |j: int| page(next, j));
        assert(here =~= seq![page(at, 0)] + there) by {
            assert forall|j: int| 0 <= j < left implies here[j] == (seq![page(at, 0)] + there)[j] by {
                if j > 0 {
                    assert(at + j * page_size == next + (j - 1) * page_size) by (nonlinear_arith)
                        requires
                            next == at + page_size,
                    ;
                }
            }
        }
        assert(0 * page_size == 0) by (nonlinear_arith);
        assert(all == seq![page(at, 0)] + pages_from(mappings, page_size, region, next));
        assert(pages_from(mappings, page_size, region, next) =~= there + rest);
        assert(all =~= here + rest);
    } else {
        assert(all =~= here + rest);
    }
    assert(here =~= Seq::new(
        left,
        |j: int|
            PageTarget {
                dst: (mapping.base_host_virt_addr + (at + j * page_size)) as u64,
                offset: (mapping.offset + (at + j * page_size)) as u64,
            },
    ));
}

/// What is copied ahead is every mapping in turn, and of each the page at every multiple of the
/// page size below its size, in order: page `j` is that many pages behind the start of the
/// mapping, and its contents as far behind the start of the mapping's contents.
pub proof fn law_prefill_goes_through_the_mappings(
    mappings: Seq<GuestRegionUffdMapping>,
    page_size: int,
    region: int,
)
    requires
        0 <= region <= mappings.len(),
        page_size > 0,
    ensures
        pages_from(mappings, page_size, region, 0) == mappings.subrange(
            region,
            mappings.len() as int,
        ).map_values(
            |mapping: GuestRegionUffdMapping|
                Seq::new(
                    ((mapping.size + page_size - 1) / page_size) as nat,
                    |j: int|
                        PageTarget {
                            dst: (mapping.base_host_virt_addr + j * page_size) as u64,
                            offset: (mapping.offset + j * page_size) as u64,
                        },
                ),
        ).flatten(),
    decreases mappings.len() - region,
{
    let pages = |mapping: GuestRegionUffdMapping|
        Seq::new(
            ((mapping.size + page_size - 1) / page_size) as nat,
            |j: int|
                PageTarget {
                    dst: (mapping.base_host_virt_addr + j * page_size) as u64,
                    offset: (mapping.offset + j * page_size) as u64,
                },
        );
    let left = mappings.subrange(region, mappings.len() as int);
    if region < mappings.len() {
        law_prefill_goes_through_the_mappings(mappings, page_size, region + 1);
        lemma_pages_of_mapping(mappings, page_size, region, 0);
        let after = mappings.subrange(region + 1, mappings.len() as int);
        assert(left.map_values(pages).drop_first() =~= after.map_values(pages));
        assert(left.map_values(pages).first() == pages(mappings[region]));
        let size = mappings[region].size as int;
        if size == 0 {
            assert((page_size - 1) / page_size == 0) by (nonlinear_arith)
                requires
                    page_size > 0,
            ;
        }
        assert(pages_from(mappings, page_size, region, 0) =~= pages(mappings[region]) + pages_from(
            mappings,
            page_size,
            region + 1,
            0,
        ));
    } else {
        assert(left.map_values(pages) =~= Seq::<Seq<PageTarget>>::empty());
    }
}

/// Every address of guest memory is served, and no other: the handler that is told of guest
/// memory by the monitor's mappings reads, for a page at a host address, the bytes of the memory
/// file that are mapped at that address.
pub proof fn law_faults_are_served_from_the_layout(
    guest_memory: Seq<GuestRegionMmap>,
    page_size: usize,
    dst: u64,
)
    requires
        memory::mappable(guest_memory),
    ensures
        ({
            let mappings = memory::backend_mappings(guest_memory, page_size);
            let layout = memory::file_layout(guest_memory);
            &&& target_of(mappings, dst) is Some <==> exists|k: int|
                0 <= k < mappings.len() && has_address(#[trigger] mappings[k], dst)
            &&& target_of(mappings, dst) matches Some(target) ==> {
                &&& target.dst == dst
                &&& memory::is_located(layout, target.offset)
                &&& layout[memory::located(layout, target.offset)].host_of(target.offset) == dst
            }
        }),
{
    let mappings = memory::backend_mappings(guest_memory, page_size);
    let layout = memory::file_layout(guest_memory);
    lemma_mapping_with(mappings, dst, 0);
    let k = mapping_with(mappings, dst, 0);
    if k < mappings.len() {
        assert(has_address(mappings[k], dst));
        memory::law_file_layout_is_contiguous(guest_memory, k);
        let offset = (mappings[k].offset + (dst - mappings[k].base_host_virt_addr)) as u64;
        assert(layout[k].holds(offset));
        memory::law_file_offsets_have_one_region(guest_memory, offset);
        memory::law_located_is_first(layout, offset, 0);
        assert(memory::located(layout, offset) == k);
    }
}

/// Whether no two mappings share host memory.
pub open spec fn mappings_disjoint(mappings: Seq<GuestRegionUffdMapping>) -> bool {
    forall|j: int, k: int|
        0 <= j < k < mappings.len() ==> (#[trigger] mappings[j]).base_host_virt_addr
            + mappings[j].size <= (#[trigger] mappings[k]).base_host_virt_addr
            || mappings[k].base_host_virt_addr + mappings[k].size
            <= mappings[j].base_host_virt_addr
}

/// Whether `page` is the one at `at` in mapping `k`.
pub open spec fn is_page_at(
    mappings: Seq<GuestRegionUffdMapping>,
    k: int,
    at: int,
    page: PageTarget,
) -> bool {
    &&& 0 <= k < mappings.len()
    &&& 0 <= at < mappings[k].size
    &&& page.dst == mappings[k].base_host_virt_addr + at
    &&& page.offset == mappings[k].offset + at
}

/// The pages still to be copied ahead are pages of the mappings, none before the place that has
/// been reached.
proof fn lemma_pages_from(
    mappings: Seq<GuestRegionUffdMapping>,
    page_size: int,
    region: int,
    at: int,
    p: int,
)
    requires
        servable(mappings, page_size),
        page_size > 0,
        0 <= region,
        0 <= at,
        0 <= p < pages_from(mappings, page_size, region, at).len(),
    ensures
        exists|k: int, c: int|
            #[trigger] is_page_at(
                mappings,
                k,
                c,
                pages_from(mappings, page_size, region, at)[p],
            ) && (k > region || (k == region && c >= at)),
    decreases
            mappings.len() - region,
            (if region < mappings.len() && at < mappings[region].size {
                mappings[region].size - at
            } else {
                0
            }),
{
    let pages = pages_from(mappings, page_size, region, at);
    if at >= mappings[region].size {
        lemma_pages_from(mappings, page_size, region + 1, 0, p);
    } else if p == 0 {
        assert(mappings[region].file_region().fits());
        assert(is_page_at(mappings, region, at, pages[0]));
    } else {
        lemma_pages_from(mappings, page_size, region, at + page_size, p - 1);
        let tail = pages_from(mappings, page_size, region, at + page_size);
        assert(pages[p] == tail[p - 1]);
        let (k, c) = choose|k: int, c: int| #[trigger]
            is_page_at(mappings, k, c, tail[p - 1]) && (k > region || (k == region && c >= at
                + page_size));
        assert(is_page_at(mappings, k, c, pages[p]));
    }
}

/// No page is copied ahead twice.
pub proof fn law_prefill_visits_no_page_twice(
    mappings: Seq<GuestRegionUffdMapping>,
    page_size: int,
    region: int,
    at: int,
    p: int,
    q: int,
)
    requires
        servable(mappings, page_size),
        mappings_disjoint(mappings),
        page_size > 0,
        0 <= region,
        0 <= at,
        0 <= p < q < pages_from(mappings, page_size, region, at).len(),
    ensures
        pages_from(mappings, page_size, region, at)[p].dst != pages_from(
            mappings,
            page_size,
            region,
            at,
        )[q].dst,
    decreases
            mappings.len() - region,
            (if region < mappings.len() && at < mappings[region].size {
                mappings[region].size - at
            } else {
                0
            }),
{
    let pages = pages_from(mappings, page_size, region, at);
    if at >= mappings[region].size {
        law_prefill_visits_no_page_twice(mappings, page_size, region + 1, 0, p, q);
    } else {
        let tail = pages_from(mappings, page_size, region, at + page_size);
        assert(pages[q] == tail[q - 1]);
        if p == 0 {
            lemma_pages_from(mappings, page_size, region, at + page_size, q - 1);
            let (k, c) = choose|k: int, c: int| #[trigger]
                is_page_at(mappings, k, c, tail[q - 1]) && (k > region || (k == region && c >= at
                    + page_size));
            assert(mappings[region].file_region().fits());
            assert(mappings[k].file_region().fits());
        } else {
            assert(pages[p] == tail[p - 1]);
            law_prefill_visits_no_page_twice(
                mappings,
                page_size,
                region,
                at + page_size,
                p - 1,
                q - 1,
            );
        }
    }
}

/// Every page of every mapping is handed out to be copied ahead, unless it lies before the place
/// that has been reached: once the handler has no more pages to copy, it has handed out all.
pub proof fn law_prefill_visits_every_page(
    mappings: Seq<GuestRegionUffdMapping>,
    page_size: int,
    region: int,
    at: int,
    k: int,
    n: int,
)
    requires
        servable(mappings, page_size),
        page_size > 0,
        0 <= region <= k < mappings.len(),
        0 <= at,
        0 <= n,
        k == region ==> n >= at && (n - at) % page_size == 0,
        k > region ==> n % page_size == 0,
        n < mappings[k].size,
    ensures
        exists|p: int|
            0 <= p < pages_from(mappings, page_size, region, at).len() && is_page_at(
                mappings,
                k,
                n,
                #[trigger] pages_from(mappings, page_size, region, at)[p],
            ),
    decreases
            mappings.len() - region,
            (if region < mappings.len() && at < mappings[region].size {
                mappings[region].size - at
            } else {
                0
            }),
{
    let pages = pages_from(mappings, page_size, region, at);
    if at >= mappings[region].size {
        law_prefill_visits_every_page(mappings, page_size, region + 1, 0, k, n);
    } else if k == region && n == at {
        assert(mappings[region].file_region().fits());
        assert(is_page_at(mappings, k, n, pages[0]));
    } else {
        if k == region {
            assert(n >= at + page_size && (n - (at + page_size)) % page_size == 0)
                by (nonlinear_arith)
                requires
                    n > at,
                    (n - at) % page_size == 0,
                    page_size > 0,
            ;
        }
        law_prefill_visits_every_page(mappings, page_size, region, at + page_size, k, n);
        let tail = pages_from(mappings, page_size, region, at + page_size);
        let p = choose|p: int|
            0 <= p < tail.len() && is_page_at(mappings, k, n, #[trigger] tail[p]);
        assert(pages[p + 1] == tail[p]);
    }
}

/// A page that is copied ahead comes from where a fault on it would be served from.
pub proof fn law_prefill_agrees_with_faults(
    mappings: Seq<GuestRegionUffdMapping>,
    page_size: int,
    p: int,
)
    requires
        servable(mappings, page_size),
        mappings_disjoint(mappings),
        page_size > 0,
        0 <= p < pages_from(mappings, page_size, 0, 0).len(),
    ensures
        target_of(mappings, pages_from(mappings, page_size, 0, 0)[p].dst) == Some(
            pages_from(mappings, page_size, 0, 0)[p],
        ),
{
    let page = pages_from(mappings, page_size, 0, 0)[p];
    lemma_pages_from(mappings, page_size, 0, 0, p);
    let (k, c) = choose|k: int, c: int| #[trigger]
        is_page_at(mappings, k, c, page) && (k > 0 || (k == 0 && c >= 0));
    assert(has_address(mappings[k], page.dst));
    lemma_mapping_with(mappings, page.dst, 0);
    let j = mapping_with(mappings, page.dst, 0);
    assert(mappings[k].file_region().fits());
    assert(j == k) by {
        if j < k {
            assert(has_address(mappings[j], page.dst));
        }
    }
}

/// What came of an attempt to receive the mappings and the userfaultfd.
#[derive(Clone, Copy, Debug, PartialEq, Eq, Structural)]
pub enum Received {
    /// A message with a file descriptor.
    WithFile,
    /// A message without one.
    WithoutFile,
    /// An error.
    Failed,
}

/// What to do after an attempt to receive the mappings.
#[derive(Clone, Copy, Debug, PartialEq, Eq, Structural)]
pub enum HandshakeStep {
    /// Take the message.
    Accept,
    /// Wait a little and try again.
    Retry,
    /// Wait a little and give up.
    GiveUp,
}

/// Decides what to do after attempt number `attempt`, counted from 1, to receive the mappings.
pub fn handshake_step(attempt: u32, received: Received) -> (step: HandshakeStep)
    ensures
        step == match received {
            Received::WithFile => HandshakeStep::Accept,
            _ => if attempt < HANDSHAKE_ATTEMPTS {
                HandshakeStep::Retry
            } else {
                HandshakeStep::GiveUp
            },
        },
{
    match received {
        Received::WithFile => HandshakeStep::Accept,
        _ => {
            if attempt < HANDSHAKE_ATTEMPTS {
                HandshakeStep::Retry
            } else {
                HandshakeStep::GiveUp
            }
        },
    }
}

} // verus!
