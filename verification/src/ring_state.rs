//! The dirty rings of one VM: enabling them, harvesting all of them, handing out what was
//! harvested, and the schedule of the periodic background harvester.
use std::collections::HashMap;

use vstd::prelude::*;
use vstd::arithmetic::power2;

use crate::bitmap;
use crate::bitmap::SlotBitmaps;
use crate::dirty_ring;
use crate::dirty_ring::{DirtyGfn, DirtyRing, DESIRED_RING_BYTES, RING_ENTRY_BYTES};
use crate::external::cap_dirty_log_ring_with_bitmap;
use crate::ring_caps;
use crate::ring_caps::{detect, CapProbe, DirtyRingCaps};

verus! {

broadcast use {
    vstd::seq::group_seq_axioms,
    vstd::map::group_map_axioms,
    vstd::std_specs::hash::group_hash_axioms,
};

/// Errors that abort the creation of a VM or a vCPU once the ring is in use: KVM then logs dirty
/// pages into rings that must be readable.
#[derive(Debug)]
pub enum DirtyRingError {
    /// A vCPU's ring could not be mapped.
    Mmap(std::io::Error),
}

// ---------- the background harvester ----------

/// The shortest harvest period, in milliseconds.
pub const MIN_PERIOD_MS: u64 = 20;

/// The longest harvest period, in milliseconds.
pub const MAX_PERIOD_MS: u64 = 5000;

/// The harvest period before the harvester is armed for the first time, in milliseconds.
pub const INITIAL_PERIOD_MS: u64 = 150;

/// How long the harvester outlives the last request that armed it, in nanoseconds.
pub const HARVESTER_TTL_NS: u64 = 30_000_000_000;

/// `period_ms`, kept within the shortest and the longest period.
pub open spec fn clamped_period(period_ms: u64) -> u64 {
    if period_ms < MIN_PERIOD_MS {
        MIN_PERIOD_MS
    } else if period_ms > MAX_PERIOD_MS {
        MAX_PERIOD_MS
    } else {
        period_ms
    }
}

/// Control block of the periodic background harvester. Times are readings of one monotonic
/// clock, in nanoseconds.
#[derive(Clone, Copy, Debug, PartialEq, Eq, Structural)]
pub struct HarvesterCtl {
    /// A harvester thread is alive.
    pub running: bool,
    /// Time between two harvests, in milliseconds.
    pub period_ms: u64,
    /// The thread ends once the clock has reached this.
    pub deadline_ns: u64,
}

/// What the harvester thread does next.
#[derive(Clone, Copy, Debug, PartialEq, Eq, Structural)]
pub enum HarvesterStep {
    /// Sleep for this many milliseconds, then harvest.
    HarvestAfter(u64),
    /// End: nobody has armed the harvester for its whole time to live.
    Stop,
}

impl HarvesterCtl {
    /// The control block after an arming request at time `now_ns`.
    pub open spec fn armed(self, period_ms: u64, now_ns: u64) -> HarvesterCtl {
        HarvesterCtl {
            running: true,
            period_ms: clamped_period(period_ms),
            deadline_ns: (now_ns + HARVESTER_TTL_NS) as u64,
        }
    }

    /// The control block after the harvester thread has looked at it at time `now_ns`.
    pub open spec fn stepped(self, now_ns: u64) -> HarvesterCtl {
        HarvesterCtl { running: self.running && now_ns < self.deadline_ns, ..self }
    }

    /// What the harvester thread does after looking at the block at time `now_ns`.
    pub open spec fn next(self, now_ns: u64) -> HarvesterStep {
        if now_ns >= self.deadline_ns {
            HarvesterStep::Stop
        } else {
            HarvesterStep::HarvestAfter(self.period_ms)
        }
    }
}

/// A request sets the period, kept between 20 and 5000 milliseconds, and lets the harvester live
/// for thirty seconds from then on.
pub proof fn law_arming(ctl: HarvesterCtl, period_ms: u64, now_ns: u64)
    requires
        now_ns + 30 * 1_000_000_000 <= u64::MAX,
    ensures
        ({
            let armed = ctl.armed(period_ms, now_ns);
            &&& armed.running
            &&& armed.deadline_ns == now_ns + 30 * 1_000_000_000
            &&& 20 <= armed.period_ms <= 5000
            &&& 20 <= period_ms <= 5000 ==> armed.period_ms == period_ms
            &&& period_ms < 20 ==> armed.period_ms == 20
            &&& period_ms > 5000 ==> armed.period_ms == 5000
        }),
{
}

/// The thread goes on exactly while its deadline is ahead: it then harvests after the period, and
/// the control block stays as it is. Else it stops, and the block says so.
pub proof fn law_looking(ctl: HarvesterCtl, now_ns: u64)
    ensures
        now_ns < ctl.deadline_ns ==> ctl.next(now_ns) == HarvesterStep::HarvestAfter(ctl.period_ms)
            && ctl.stepped(now_ns) == ctl,
        now_ns >= ctl.deadline_ns ==> ctl.next(now_ns) == HarvesterStep::Stop && !ctl.stepped(
            now_ns,
        ).running,
        ctl.stepped(now_ns).period_ms == ctl.period_ms,
        ctl.stepped(now_ns).deadline_ns == ctl.deadline_ns,
{
}

/// An armed harvester does not end within its time to live, whatever looks it took before:
/// it keeps harvesting at the requested period.
pub proof fn law_armed_harvester_keeps_running(
    ctl: HarvesterCtl,
    period_ms: u64,
    armed_ns: u64,
    now_ns: u64,
)
    requires
        armed_ns + HARVESTER_TTL_NS <= u64::MAX,
        now_ns < armed_ns + HARVESTER_TTL_NS,
    ensures
        ctl.armed(period_ms, armed_ns).next(now_ns) == HarvesterStep::HarvestAfter(
            clamped_period(period_ms),
        ),
        ctl.armed(period_ms, armed_ns).stepped(now_ns) == ctl.armed(period_ms, armed_ns),
{
}

/// A harvester that nobody arms again ends once its time to live is over.
pub proof fn law_unarmed_harvester_ends(
    ctl: HarvesterCtl,
    period_ms: u64,
    armed_ns: u64,
    now_ns: u64,
)
    requires
        armed_ns + HARVESTER_TTL_NS <= now_ns,
    ensures
        ctl.armed(period_ms, armed_ns).next(now_ns) == HarvesterStep::Stop,
        !ctl.armed(period_ms, armed_ns).stepped(now_ns).running,
{
}

/// What can happen to the harvester.
pub enum HarvesterEvent {
    /// A request arms it.
    Arm {
        /// The period asked for, in milliseconds.
        period_ms: u64,
        /// When.
        now_ns: u64,
    },
    /// Its thread looks at the control block.
    Look {
        /// When.
        now_ns: u64,
    },
}

/// The harvester as it runs.
pub struct HarvesterRun {
    /// Its control block.
    pub ctl: HarvesterCtl,
    /// Whether its thread is alive.
    pub alive: bool,
}

impl HarvesterRun {
    /// The harvester after an event: a request starts the thread where the block says that none
    /// is running, a thread told to stop ends, and where there is no thread nothing looks.
    pub open spec fn after_event(self, event: HarvesterEvent) -> HarvesterRun {
        match event {
            HarvesterEvent::Arm { period_ms, now_ns } => HarvesterRun {
                ctl: self.ctl.armed(period_ms, now_ns),
                alive: self.alive || !self.ctl.running,
            },
            HarvesterEvent::Look { now_ns } => if self.alive {
                HarvesterRun {
                    ctl: self.ctl.stepped(now_ns),
                    alive: !(self.ctl.next(now_ns) is Stop),
                }
            } else {
                self
            },
        }
    }

    /// The harvester after several events, in their order.
    pub open spec fn after_events(self, events: Seq<HarvesterEvent>) -> HarvesterRun
        decreases events.len(),
    {
        if events.len() == 0 {
            self
        } else {
            self.after_events(events.drop_last()).after_event(events.last())
        }
    }
}

/// The period and the time of the last request among `events`.
pub open spec fn last_arm(events: Seq<HarvesterEvent>) -> Option<(u64, u64)>
    decreases events.len(),
{
    if events.len() == 0 {
        None
    } else {
        match events.last() {
            HarvesterEvent::Arm { period_ms, now_ns } => Some((period_ms, now_ns)),
            HarvesterEvent::Look { .. } => last_arm(events.drop_last()),
        }
    }
}

/// Whether there is a request among `events` and every look after the last one falls within its
/// time to live.
pub open spec fn kept_armed(events: Seq<HarvesterEvent>) -> bool
    decreases events.len(),
{
    events.len() > 0 && match events.last() {
        HarvesterEvent::Arm { now_ns, .. } => now_ns + HARVESTER_TTL_NS <= u64::MAX,
        HarvesterEvent::Look { now_ns } => {
            &&& kept_armed(events.drop_last())
            &&& last_arm(events.drop_last()) matches Some((_, armed_ns))
            &&& now_ns < armed_ns + HARVESTER_TTL_NS
        },
    }
}

/// Whatever happens and in whichever order, the control block says that a thread is running
/// exactly while one is alive: no request is lost to a thread that is about to end, and no
/// second thread is started beside a living one.
pub proof fn law_harvester_is_alive_while_running(run: HarvesterRun, events: Seq<HarvesterEvent>)
    requires
        run.alive == run.ctl.running,
    ensures
        run.after_events(events).alive == run.after_events(events).ctl.running,
    decreases events.len(),
{
    if events.len() > 0 {
        law_harvester_is_alive_while_running(run, events.drop_last());
    }
}

/// Through any events, requests renewed any number of times among them, the harvester is alive
/// for the whole time to live of the last request, and harvests at that request's period.
pub proof fn law_harvester_outlives_its_last_request(
    run: HarvesterRun,
    events: Seq<HarvesterEvent>,
    now_ns: u64,
)
    requires
        run.alive == run.ctl.running,
        kept_armed(events),
    ensures
        last_arm(events) matches Some((period_ms, armed_ns)) && {
            let after = run.after_events(events);
            &&& after.alive
            &&& after.ctl.running
            &&& after.ctl.period_ms == clamped_period(period_ms)
            &&& after.ctl.deadline_ns == armed_ns + HARVESTER_TTL_NS
            &&& now_ns < armed_ns + HARVESTER_TTL_NS ==> after.ctl.next(now_ns)
                == HarvesterStep::HarvestAfter(clamped_period(period_ms))
            &&& now_ns >= armed_ns + HARVESTER_TTL_NS ==> !after.after_event(
                HarvesterEvent::Look { now_ns },
            ).alive
        },
    decreases events.len(),
{
    let before = events.drop_last();
    law_harvester_is_alive_while_running(run, before);
    match events.last() {
        HarvesterEvent::Arm { .. } => {},
        HarvesterEvent::Look { now_ns: look_ns } => {
            law_harvester_outlives_its_last_request(run, before, look_ns);
        },
    }
}

// ---------- all rings of a VM ----------

/// The contents of the rings' memories.
pub open spec fn memories(memory: Seq<Vec<DirtyGfn>>) -> Seq<Seq<DirtyGfn>> {
    memory.map_values(|m: Vec<DirtyGfn>| m@)
}

/// Whether `memory` holds the entries of `rings`, ring by ring.
pub open spec fn backs(memory: Seq<Seq<DirtyGfn>>, rings: Seq<DirtyRing>) -> bool {
    &&& memory.len() == rings.len()
    &&& forall|i: int|
        0 <= i < rings.len() ==> (#[trigger] memory[i]).len() == rings[i].count()
            && dirty_ring::pages_addressable(memory[i])
}

/// The contents are those of the vectors, and they back the rings exactly when there is one per
/// ring, of the ring's size, all of whose page numbers can index a bitmap.
pub proof fn law_backing(memory: Seq<Vec<DirtyGfn>>, rings: Seq<DirtyRing>)
    ensures
        memories(memory).len() == memory.len(),
        forall|r: int| 0 <= r < memory.len() ==> #[trigger] memories(memory)[r] == memory[r]@,
        backs(memories(memory), rings) <==> {
            &&& memory.len() == rings.len()
            &&& forall|r: int|
                0 <= r < rings.len() ==> (#[trigger] memory[r])@.len() == rings[r].count()
            &&& forall|r: int, i: int|
                0 <= r < rings.len() && 0 <= i < rings[r].count() ==> (
                #[trigger] memory[r]@[i]).offset / 64 < usize::MAX
        },
{
    let contents = memories(memory);
    if backs(contents, rings) {
        assert forall|r: int| 0 <= r < rings.len() implies (#[trigger] memory[r])@.len()
            == rings[r].count() by {
            assert(contents[r] == memory[r]@);
        }
        assert forall|r: int, i: int| 0 <= r < rings.len() && 0 <= i < rings[r].count() implies (
        #[trigger] memory[r]@[i]).offset / 64 < usize::MAX by {
            assert(contents[r] == memory[r]@);
            assert(dirty_ring::pages_addressable(contents[r]));
        }
    }
    if {
        &&& memory.len() == rings.len()
        &&& forall|r: int|
            0 <= r < rings.len() ==> (#[trigger] memory[r])@.len() == rings[r].count()
        &&& forall|r: int, i: int|
            0 <= r < rings.len() && 0 <= i < rings[r].count() ==> (
            #[trigger] memory[r]@[i]).offset / 64 < usize::MAX
    } {
        assert forall|r: int| 0 <= r < rings.len() implies (#[trigger] contents[r]).len()
            == rings[r].count() && dirty_ring::pages_addressable(contents[r]) by {
            assert(contents[r] == memory[r]@);
        }
    }
}

/// The bitmaps after the first `n` rings have been harvested.
pub open spec fn harvested_rings(
    slots: Map<u32, Seq<u64>>,
    rings: Seq<DirtyRing>,
    memory: Seq<Seq<DirtyGfn>>,
    n: nat,
) -> Map<u32, Seq<u64>>
    decreases n,
{
    if n == 0 {
        slots
    } else {
        dirty_ring::recorded(
            harvested_rings(slots, rings, memory, (n - 1) as nat),
            memory[n - 1],
            rings[n - 1].position(),
            rings[n - 1].ready(memory[n - 1]),
        )
    }
}

/// Whether entry `k` of ring `i`, counted from the ring's cursor, is drained by a harvest of
/// `rings` and names page `page` of memslot `slot`.
pub open spec fn drains(
    rings: Seq<DirtyRing>,
    memory: Seq<Seq<DirtyGfn>>,
    i: int,
    k: int,
    slot: u32,
    page: u64,
) -> bool {
    &&& 0 <= k < rings[i].ready(memory[i])
    &&& dirty_ring::entry_at(memory[i], rings[i].position(), k).memslot() == slot
    &&& dirty_ring::entry_at(memory[i], rings[i].position(), k).offset == page
}

/// A harvest of all rings loses no page and invents none: a page is marked afterwards exactly
/// when it was marked before or some ring's drained entry names it.
pub proof fn law_harvest_marks_exactly(
    slots: Map<u32, Seq<u64>>,
    rings: Seq<DirtyRing>,
    memory: Seq<Seq<DirtyGfn>>,
    n: nat,
    slot: u32,
    page: u64,
)
    requires
        n <= rings.len(),
        memory.len() == rings.len(),
    ensures
        bitmap::slot_page_marked(harvested_rings(slots, rings, memory, n), slot, page) <==> {
            ||| bitmap::slot_page_marked(slots, slot, page)
            ||| exists|i: int, k: int| 0 <= i < n && #[trigger] drains(rings, memory, i, k, slot, page)
        },
    decreases n,
{
    if n > 0 {
        let i = n - 1;
        let before = harvested_rings(slots, rings, memory, (n - 1) as nat);
        law_harvest_marks_exactly(slots, rings, memory, (n - 1) as nat, slot, page);
        dirty_ring::law_recorded_marks_exactly(
            before,
            memory[i],
            rings[i].position(),
            rings[i].ready(memory[i]),
            slot,
            page,
        );
        if bitmap::slot_page_marked(harvested_rings(slots, rings, memory, n), slot, page)
            && !bitmap::slot_page_marked(before, slot, page) {
            let k = choose|k: int|
                0 <= k < rings[i].ready(memory[i]) && (#[trigger] dirty_ring::entry_at(
                    memory[i],
                    rings[i].position(),
                    k,
                )).memslot() == slot && dirty_ring::entry_at(
                    memory[i],
                    rings[i].position(),
                    k,
                ).offset == page;
            assert(drains(rings, memory, i, k, slot, page));
        }
        if exists|j: int, k: int| 0 <= j < n && #[trigger] drains(rings, memory, j, k, slot, page) {
            let (j, k) = choose|j: int, k: int|
                0 <= j < n && #[trigger] drains(rings, memory, j, k, slot, page);
            if j == i {
                let e = dirty_ring::entry_at(memory[i], rings[i].position(), k);
                assert(e.memslot() == slot && e.offset == page);
            }
        }
    }
}

/// The dirty rings of one VM. The accumulator bridges a harvest that a full ring forces in the
/// middle of a round to the next export.
#[derive(Debug)]
pub struct DirtyRingState {
    /// Size of each vCPU's ring in bytes.
    ring_bytes: usize,
    /// Whether the per-memslot bitmap is active beside the ring, and must be harvested too.
    pub with_bitmap: bool,
    /// One ring per vCPU, in vCPU order.
    rings: Vec<DirtyRing>,
    /// Pages dirtied since they were last collected, by memslot.
    accum: SlotBitmaps,
    /// Control block of the background harvester.
    harvester: HarvesterCtl,
}

impl DirtyRingState {
    /// Size of each vCPU's ring in bytes.
    pub closed spec fn ring_bytes(&self) -> nat {
        self.ring_bytes as nat
    }

    /// Whether the per-memslot bitmap is active beside the ring: the value of `with_bitmap`.
    pub closed spec fn bitmap_active(&self) -> bool {
        self.with_bitmap
    }

    /// The rings, in vCPU order.
    pub closed spec fn rings(&self) -> Seq<DirtyRing> {
        self.rings@
    }

    /// The pages dirtied since they were last collected, by memslot.
    pub closed spec fn accum(&self) -> Map<u32, Seq<u64>> {
        bitmap::bitmaps(self.accum@)
    }

    /// The control block of the background harvester.
    pub closed spec fn harvester(&self) -> HarvesterCtl {
        self.harvester
    }

    /// Every ring has the negotiated size, a power of two that holds at least one entry.
    pub open spec fn wf(&self) -> bool {
        &&& power2::is_pow2(self.ring_bytes() as int)
        &&& RING_ENTRY_BYTES <= self.ring_bytes() <= DESIRED_RING_BYTES
        &&& forall|i: int|
            0 <= i < self.rings().len() ==> (#[trigger] self.rings()[i]).wf()
                && self.rings()[i].count() == self.ring_bytes() / RING_ENTRY_BYTES as nat
    }

    /// The accumulator after a harvest of all rings, whose entries are `memory`.
    pub open spec fn harvested(&self, memory: Seq<Seq<DirtyGfn>>) -> Map<u32, Seq<u64>> {
        harvested_rings(self.accum(), self.rings(), memory, self.rings().len())
    }

    /// Whether a harvest of `memory` drains anything.
    pub open spec fn has_ready(&self, memory: Seq<Seq<DirtyGfn>>) -> bool {
        exists|i: int| 0 <= i < self.rings().len() && (#[trigger] self.rings()[i]).ready(memory[i]) > 0
    }

    /// Whether `next` differs from this state at most in its accumulator and in its rings'
    /// cursors, which have moved over what a harvest of `memory` drains.
    pub open spec fn harvest_moves_to(&self, next: &DirtyRingState, memory: Seq<Seq<DirtyGfn>>) -> bool {
        &&& next.ring_bytes() == self.ring_bytes()
        &&& next.bitmap_active() == self.bitmap_active()
        &&& next.harvester() == self.harvester()
        &&& next.rings().len() == self.rings().len()
        &&& forall|i: int|
            0 <= i < self.rings().len() ==> self.rings()[i].advanced_to(
                #[trigger] &next.rings()[i],
                self.rings()[i].ready(memory[i]),
            )
    }

    /// Whether `after` is `memory` with every drained entry marked for reset and no other entry
    /// changed.
    pub open spec fn resets(&self, memory: Seq<Seq<DirtyGfn>>, after: Seq<Seq<DirtyGfn>>) -> bool {
        &&& after.len() == memory.len()
        &&& forall|i: int|
            0 <= i < memory.len() ==> #[trigger] after[i] == dirty_ring::reset_marked(
                memory[i],
                self.rings()[i].position(),
                self.rings()[i].ready(memory[i]),
            )
    }

    /// Registers the ring of a freshly created vCPU; `mapped` says whether the ring could be
    /// mapped.
    pub fn add_vcpu_ring(&mut self, mapped: Result<(), std::io::Error>) -> (r: Result<
        (),
        DirtyRingError,
    >)
        requires
            old(self).wf(),
        ensures
            final(self).wf(),
            mapped matches Err(err) ==> r == Err::<(), DirtyRingError>(DirtyRingError::Mmap(err))
                && *final(self) == *old(self),
            mapped is Ok ==> {
                &&& r is Ok
                &&& final(self).ring_bytes() == old(self).ring_bytes()
                &&& final(self).bitmap_active() == old(self).bitmap_active()
                &&& final(self).accum() == old(self).accum()
                &&& final(self).harvester() == old(self).harvester()
                &&& final(self).rings().len() == old(self).rings().len() + 1
                &&& final(self).rings().drop_last() == old(self).rings()
                &&& final(self).rings().last().count() == old(self).ring_bytes()
                    / RING_ENTRY_BYTES as nat
                &&& final(self).rings().last().fetch_index() == 0
            },
    {
        match mapped {
            Err(err) => Err(DirtyRingError::Mmap(err)),
            Ok(()) => {
                proof {
                    lemma_ring_count(self.ring_bytes as int);
                }
                let count: u32 = (self.ring_bytes / RING_ENTRY_BYTES) as u32;
                self.rings.push(DirtyRing::new(count));
                assert(self.rings().drop_last() =~= old(self).rings());
                Ok(())
            },
        }
    }

    /// Drains all rings, whose entries are `memory`, into the accumulator. Returns whether
    /// anything was drained, that is, whether the rings must be reset. The pages are recorded
    /// before the reset, so that none is lost although no export has run yet.
    pub fn harvest(&mut self, memory: &mut Vec<Vec<DirtyGfn>>) -> (reset: bool)
        requires
            old(self).wf(),
            backs(memories(old(memory)@), old(self).rings()),
        ensures
            final(self).wf(),
            final(self).accum() == old(self).harvested(memories(old(memory)@)),
            old(self).harvest_moves_to(final(self), memories(old(memory)@)),
            old(self).resets(memories(old(memory)@), memories(final(memory)@)),
            reset == old(self).has_ready(memories(old(memory)@)),
    {
        let ghost before = memories(memory@);
        let mut reset: bool = false;
        let mut i: usize = 0;
        while i < self.rings.len()
            invariant
                i <= self.rings.len(),
                old(self).wf(),
                self.ring_bytes == old(self).ring_bytes,
                self.with_bitmap == old(self).with_bitmap,
                self.harvester == old(self).harvester,
                self.rings.len() == old(self).rings.len(),
                before == memories(old(memory)@),
                backs(before, old(self).rings@),
                memory.len() == before.len(),
                forall|j: int|
                    i <= j < self.rings.len() ==> #[trigger] self.rings[j] == old(self).rings[j],
                forall|j: int| i <= j < before.len() ==> (#[trigger] memory[j])@ == before[j],
                forall|j: int|
                    0 <= j < i ==> (#[trigger] self.rings[j]).wf() && old(self).rings[j].advanced_to(
                        &self.rings[j],
                        old(self).rings[j].ready(before[j]),
                    ),
                forall|j: int|
                    0 <= j < i ==> (#[trigger] memory[j])@ == dirty_ring::reset_marked(
                        before[j],
                        old(self).rings[j].position(),
                        old(self).rings[j].ready(before[j]),
                    ),
                bitmap::bitmaps(self.accum@) == harvested_rings(
                    old(self).accum(),
                    old(self).rings@,
                    before,
                    i as nat,
                ),
                reset == exists|j: int|
                    0 <= j < i && (#[trigger] old(self).rings()[j]).ready(before[j]) > 0,
            decreases self.rings.len() - i,
        {
            assert(old(self).rings()[i as int].wf());
            assert(before[i as int] == memory[i as int]@);
            let harvested: bool = self.rings[i].harvest_into(&mut memory[i], &mut self.accum);
            if harvested {
                reset = true;
                assert(old(self).rings()[i as int].ready(before[i as int]) > 0);
            }
            i = i + 1;
        }
        assert forall|j: int| 0 <= j < self.rings().len() implies (#[trigger] self.rings()[j]).wf()
            && self.rings()[j].count() == self.ring_bytes() / RING_ENTRY_BYTES as nat by {
            assert(self.rings[j].wf());
            assert(old(self).rings()[j].wf());
        }
        reset
    }

    /// Drains all rings, whose entries are `memory`, and hands out the pages dirtied since the
    /// previous call, leaving the accumulator empty. Also returns whether the rings must be
    /// reset.
    pub fn collect(&mut self, memory: &mut Vec<Vec<DirtyGfn>>) -> (r: (SlotBitmaps, bool))
        requires
            old(self).wf(),
            backs(memories(old(memory)@), old(self).rings()),
        ensures
            final(self).wf(),
            bitmap::bitmaps(r.0@) == old(self).harvested(memories(old(memory)@)),
            final(self).accum() == Map::<u32, Seq<u64>>::empty(),
            old(self).harvest_moves_to(final(self), memories(old(memory)@)),
            old(self).resets(memories(old(memory)@), memories(final(memory)@)),
            r.1 == old(self).has_ready(memories(old(memory)@)),
    {
        let reset: bool = self.harvest(memory);
        let ghost harvested = *self;
        let mut collected: SlotBitmaps = HashMap::new();
        std::mem::swap(&mut collected, &mut self.accum);
        assert(self.accum() =~= Map::<u32, Seq<u64>>::empty());
        assert(self.rings() == harvested.rings());
        assert forall|i: int| 0 <= i < self.rings().len() implies (#[trigger] self.rings()[i]).wf()
            && self.rings()[i].count() == self.ring_bytes() / RING_ENTRY_BYTES as nat by {
            assert(harvested.rings()[i].wf());
        }
        (collected, reset)
    }

    /// Arms the background harvester, or arms it again, at time `now_ns`. Returns whether the
    /// caller must start the harvester thread.
    pub fn arm_harvester(&mut self, period_ms: u64, now_ns: u64) -> (start: bool)
        requires
            old(self).wf(),
            now_ns + HARVESTER_TTL_NS <= u64::MAX,
        ensures
            final(self).wf(),
            final(self).harvester() == old(self).harvester().armed(period_ms, now_ns),
            final(self).harvester().running,
            final(self).harvester().deadline_ns == now_ns + 30_000_000_000,
            final(self).harvester().period_ms == if period_ms < 20 {
                20
            } else if period_ms > 5000 {
                5000
            } else {
                period_ms
            },
            start == !old(self).harvester().running,
            final(self).ring_bytes() == old(self).ring_bytes(),
            final(self).bitmap_active() == old(self).bitmap_active(),
            final(self).rings() == old(self).rings(),
            final(self).accum() == old(self).accum(),
    {
        let period: u64 = if period_ms < MIN_PERIOD_MS {
            MIN_PERIOD_MS
        } else if period_ms > MAX_PERIOD_MS {
            MAX_PERIOD_MS
        } else {
            period_ms
        };
        let start: bool = !self.harvester.running;
        self.harvester = HarvesterCtl {
            running: true,
            period_ms: period,
            deadline_ns: now_ns + HARVESTER_TTL_NS,
        };
        assert(self.rings() == old(self).rings());
        start
    }

    /// What the harvester thread does next, at time `now_ns`.
    pub fn harvester_step(&mut self, now_ns: u64) -> (step: HarvesterStep)
        requires
            old(self).wf(),
        ensures
            final(self).wf(),
            step == old(self).harvester().next(now_ns),
            final(self).harvester() == old(self).harvester().stepped(now_ns),
            step == HarvesterStep::Stop <==> now_ns >= old(self).harvester().deadline_ns,
            step != HarvesterStep::Stop ==> step == HarvesterStep::HarvestAfter(
                old(self).harvester().period_ms,
            ),
            step == HarvesterStep::Stop ==> !final(self).harvester().running,
            final(self).ring_bytes() == old(self).ring_bytes(),
            final(self).bitmap_active() == old(self).bitmap_active(),
            final(self).rings() == old(self).rings(),
            final(self).accum() == old(self).accum(),
    {
        let expired: bool = now_ns >= self.harvester.deadline_ns;
        if expired {
            self.harvester.running = false;
        }
        assert(self.rings() == old(self).rings());
        if expired {
            HarvesterStep::Stop
        } else {
            HarvesterStep::HarvestAfter(self.harvester.period_ms)
        }
    }
}

/// A ring of a power-of-two size holds a number of entries that divides 2^32.
proof fn lemma_ring_count(ring_bytes: int)
    requires
        power2::is_pow2(ring_bytes),
        RING_ENTRY_BYTES <= ring_bytes <= DESIRED_RING_BYTES,
    ensures
        0 < ring_bytes / RING_ENTRY_BYTES as int <= u32::MAX,
        0x1_0000_0000nat % ((ring_bytes / RING_ENTRY_BYTES as int) as nat) == 0,
{
    reveal_with_fuel(power2::is_pow2, 6);
    let count = ring_bytes / 16;
    assert(ring_bytes / 2 / 2 / 2 / 2 == count);
    assert(power2::is_pow2(count));
    assert(power2::is_pow2(0x1_0000_0000int)) by {
        reveal_with_fuel(power2::is_pow2, 34);
    }
    ring_caps::lemma_pow2_divides(count, 0x1_0000_0000);
}

/// Whether a harvest of `rings` drains an entry that names page `page` of memslot `slot`.
pub open spec fn drains_page(
    rings: Seq<DirtyRing>,
    memory: Seq<Seq<DirtyGfn>>,
    slot: u32,
    page: u64,
) -> bool {
    exists|r: int, k: int| 0 <= r < rings.len() && #[trigger] drains(rings, memory, r, k, slot, page)
}

/// Whether the states follow each other by harvests, the first with nothing accumulated: state
/// `i` is the one before the harvest of `memory[i]`. Between two harvests the guest may log
/// anything, and rings may be added.
pub open spec fn harvests_follow(
    states: Seq<DirtyRingState>,
    memory: Seq<Seq<Seq<DirtyGfn>>>,
) -> bool {
    &&& 0 < states.len() == memory.len()
    &&& states[0].accum() == Map::<u32, Seq<u64>>::empty()
    &&& forall|i: int|
        0 <= i < states.len() ==> (#[trigger] memory[i]).len() == states[i].rings().len()
    &&& forall|i: int|
        #![trigger states[i]]
        0 < i < states.len() ==> states[i].accum() == states[i - 1].harvested(memory[i - 1])
}

/// However many harvests precede an export, as full rings and the background harvester force
/// them, the export collects exactly the pages that one of these harvests, or its own, drained
/// since the export before it: no page is lost, and none is invented.
pub proof fn law_collect_returns_all_harvests(
    states: Seq<DirtyRingState>,
    memory: Seq<Seq<Seq<DirtyGfn>>>,
    slot: u32,
    page: u64,
)
    requires
        harvests_follow(states, memory),
    ensures
        bitmap::slot_page_marked(states.last().harvested(memory.last()), slot, page)
            <==> exists|i: int|
            0 <= i < states.len() && #[trigger] drains_page(
                states[i].rings(),
                memory[i],
                slot,
                page,
            ),
    decreases states.len(),
{
    let last = states.len() - 1;
    let rings = states[last].rings();
    assert(memory[last].len() == rings.len());
    law_harvest_marks_exactly(
        states[last].accum(),
        rings,
        memory[last],
        rings.len(),
        slot,
        page,
    );
    if last > 0 {
        let earlier = states.drop_last();
        let earlier_memory = memory.drop_last();
        assert(harvests_follow(earlier, earlier_memory)) by {
            assert forall|i: int| 0 <= i < earlier.len() implies (
            #[trigger] earlier_memory[i]).len() == earlier[i].rings().len() by {
                assert(earlier_memory[i] == memory[i]);
            }
            assert forall|i: int| #![trigger earlier[i]] 0 < i < earlier.len() implies
                earlier[i].accum() == earlier[i - 1].harvested(earlier_memory[i - 1]) by {
                assert(earlier[i] == states[i]);
            }
        }
        law_collect_returns_all_harvests(earlier, earlier_memory, slot, page);
        assert(states[last].accum() == earlier.last().harvested(earlier_memory.last()));
        if bitmap::slot_page_marked(states[last].accum(), slot, page) {
            let i = choose|i: int|
                0 <= i < earlier.len() && #[trigger] drains_page(
                    earlier[i].rings(),
                    earlier_memory[i],
                    slot,
                    page,
                );
            assert(drains_page(states[i].rings(), memory[i], slot, page));
        }
        assert forall|i: int|
            0 <= i < last && #[trigger] drains_page(
                states[i].rings(),
                memory[i],
                slot,
                page,
            ) implies bitmap::slot_page_marked(states[last].accum(), slot, page) by {
            assert(drains_page(earlier[i].rings(), earlier_memory[i], slot, page));
        }
    } else {
        assert(!bitmap::slot_page_marked(states[last].accum(), slot, page));
    }
    assert(bitmap::slot_page_marked(states[last].harvested(memory[last]), slot, page) <==> (
    bitmap::slot_page_marked(states[last].accum(), slot, page) || drains_page(
        rings,
        memory[last],
        slot,
        page,
    )));
}

/// A harvest of all rings marks exactly the pages that were marked before and those that the
/// drained entries of any ring name: an entry's page is its offset, and its memslot the low 16
/// bits of its slot. Position `i` of ring `r`, of `c` entries and with a cursor that has counted
/// `f`, is drained when fewer entries lie between the cursor and it than the ring has ready.
pub proof fn law_harvest_of_all_rings(
    state: DirtyRingState,
    memory: Seq<Seq<DirtyGfn>>,
    slot: u32,
    page: u64,
)
    requires
        state.wf(),
        backs(memory, state.rings()),
    ensures
        ({
            let before = state.accum();
            let after = state.harvested(memory);
            let word = (page / 64) as int;
            let bit = page % 64;
            (after.contains_key(slot) && word < after[slot].len() && (after[slot][word] >> bit) & 1
                == 1) <==> {
                ||| before.contains_key(slot) && word < before[slot].len() && (before[slot][word]
                    >> bit) & 1 == 1
                ||| exists|r: int, i: int|
                    0 <= r < state.rings().len() && 0 <= i < memory[r].len() && (i
                        - state.rings()[r].fetch_index() as int) % (memory[r].len() as int)
                        < state.rings()[r].ready(memory[r]) && (#[trigger] memory[r][i]).slot
                        % 65536 == slot && memory[r][i].offset == page
            }
        }),
{
    lemma_harvest_of_rings(state, memory, state.rings().len(), slot, page);
}

proof fn lemma_harvest_of_rings(
    state: DirtyRingState,
    memory: Seq<Seq<DirtyGfn>>,
    n: nat,
    slot: u32,
    page: u64,
)
    requires
        state.wf(),
        backs(memory, state.rings()),
        n <= state.rings().len(),
    ensures
        ({
            let before = state.accum();
            let after = harvested_rings(state.accum(), state.rings(), memory, n);
            let word = (page / 64) as int;
            let bit = page % 64;
            (after.contains_key(slot) && word < after[slot].len() && (after[slot][word] >> bit) & 1
                == 1) <==> {
                ||| before.contains_key(slot) && word < before[slot].len() && (before[slot][word]
                    >> bit) & 1 == 1
                ||| exists|r: int, i: int|
                    0 <= r < n && 0 <= i < memory[r].len() && (i
                        - state.rings()[r].fetch_index() as int) % (memory[r].len() as int)
                        < state.rings()[r].ready(memory[r]) && (#[trigger] memory[r][i]).slot
                        % 65536 == slot && memory[r][i].offset == page
            }
        }),
    decreases n,
{
    if n > 0 {
        lemma_harvest_of_rings(state, memory, (n - 1) as nat, slot, page);
        let ring = state.rings()[n - 1];
        assert(ring.wf());
        assert(memory[n - 1].len() == ring.count());
        dirty_ring::law_harvest_marks_the_pages_drained(
            ring,
            memory[n - 1],
            harvested_rings(state.accum(), state.rings(), memory, (n - 1) as nat),
            slot,
            page,
        );
    }
}

/// A harvest asks for a reset exactly when the entry at the cursor of some ring has the lowest bit
/// of its flags set.
pub proof fn law_reset_is_asked_for(state: DirtyRingState, memory: Seq<Seq<DirtyGfn>>)
    requires
        state.wf(),
        backs(memory, state.rings()),
    ensures
        state.has_ready(memory) <==> exists|r: int|
            0 <= r < state.rings().len() && (#[trigger] memory[r])[(state.rings()[r].fetch_index()
                % state.rings()[r].count()) as int].flags % 2 == 1,
{
    assert forall|r: int| 0 <= r < state.rings().len() implies ((
    #[trigger] state.rings()[r]).ready(memory[r]) > 0 <==> memory[r][(
    state.rings()[r].fetch_index() % state.rings()[r].count()) as int].flags % 2 == 1) by {
        assert(state.rings()[r].wf());
        assert(memory[r].len() == state.rings()[r].count());
        dirty_ring::law_cursor_entry_decides(state.rings()[r], memory[r]);
    }
    if exists|r: int|
        0 <= r < state.rings().len() && (#[trigger] memory[r])[(state.rings()[r].fetch_index()
            % state.rings()[r].count()) as int].flags % 2 == 1 {
        let r = choose|r: int|
            0 <= r < state.rings().len() && (#[trigger] memory[r])[(state.rings()[r].fetch_index()
                % state.rings()[r].count()) as int].flags % 2 == 1;
        assert(state.rings()[r].ready(memory[r]) > 0);
    }
    if state.has_ready(memory) {
        let r = choose|r: int|
            0 <= r < state.rings().len() && (#[trigger] state.rings()[r]).ready(memory[r]) > 0;
        assert(memory[r][(state.rings()[r].fetch_index() % state.rings()[r].count()) as int].flags
            % 2 == 1);
    }
}

/// A harvest moves each ring's cursor over the entries it drains, stores 2 into their flags, and
/// changes nothing else of the rings, their entries, or the state but its accumulator.
pub proof fn law_harvest_leaves_the_rest(
    state: DirtyRingState,
    next: DirtyRingState,
    memory: Seq<Seq<DirtyGfn>>,
    after: Seq<Seq<DirtyGfn>>,
    r: int,
)
    requires
        state.wf(),
        backs(memory, state.rings()),
        state.harvest_moves_to(&next, memory),
        state.resets(memory, after),
        0 <= r < state.rings().len(),
    ensures
        next.ring_bytes() == state.ring_bytes(),
        next.bitmap_active() == state.bitmap_active(),
        next.harvester() == state.harvester(),
        next.rings().len() == state.rings().len(),
        after.len() == memory.len(),
        ({
            let ring = state.rings()[r];
            let c = ring.count() as int;
            let f = ring.fetch_index() as int;
            let n = ring.ready(memory[r]) as int;
            &&& next.rings()[r].count() == c
            &&& next.rings()[r].fetch_index() == (f + n) % 0x1_0000_0000
            &&& after[r].len() == c
            &&& forall|i: int|
                0 <= i < c ==> (#[trigger] after[r][i]).slot == memory[r][i].slot
                    && after[r][i].offset == memory[r][i].offset && after[r][i].flags == if (i - f)
                    % c < n {
                    2
                } else {
                    memory[r][i].flags
                }
        }),
{
    let ring = state.rings()[r];
    assert(ring.wf());
    assert(memory[r].len() == ring.count());
    assert(ring.advanced_to(&next.rings()[r], ring.ready(memory[r])));
    dirty_ring::law_harvest_resets_what_it_drains(ring, next.rings()[r], memory[r]);
    assert(after[r] == dirty_ring::reset_marked(
        memory[r],
        ring.position(),
        ring.ready(memory[r]),
    ));
}

/// When nothing was written between two exports, the second one collects nothing.
pub proof fn law_collect_again_returns_nothing(
    state: DirtyRingState,
    next: DirtyRingState,
    memory: Seq<Seq<DirtyGfn>>,
    after: Seq<Seq<DirtyGfn>>,
)
    requires
        state.wf(),
        backs(memory, state.rings()),
        next.accum() == Map::<u32, Seq<u64>>::empty(),
        state.harvest_moves_to(&next, memory),
        state.resets(memory, after),
    ensures
        !next.has_ready(after),
        next.harvested(after) == Map::<u32, Seq<u64>>::empty(),
{
    law_harvest_again_finds_nothing(state, next, memory, after);
}

/// When nothing was written between two harvests, the second one drains nothing, and the
/// accumulator stays as it is.
pub proof fn law_harvest_again_finds_nothing(
    state: DirtyRingState,
    next: DirtyRingState,
    memory: Seq<Seq<DirtyGfn>>,
    after: Seq<Seq<DirtyGfn>>,
)
    requires
        state.wf(),
        backs(memory, state.rings()),
        state.harvest_moves_to(&next, memory),
        state.resets(memory, after),
    ensures
        !next.has_ready(after),
        next.harvested(after) == next.accum(),
{
    assert forall|i: int| 0 <= i < next.rings().len() implies (#[trigger] next.rings()[i]).ready(
        after[i],
    ) == 0 by {
        assert(state.rings()[i].wf());
        assert(memory[i].len() == state.rings()[i].count());
        assert(after[i] == dirty_ring::reset_marked(
            memory[i],
            state.rings()[i].position(),
            state.rings()[i].ready(memory[i]),
        ));
        dirty_ring::law_second_harvest_is_empty(state.rings()[i], next.rings()[i], memory[i]);
    }
    lemma_harvest_of_nothing(next.accum(), next.rings(), after, next.rings().len());
}

/// Rings without a ready entry leave the bitmaps as they are.
proof fn lemma_harvest_of_nothing(
    slots: Map<u32, Seq<u64>>,
    rings: Seq<DirtyRing>,
    memory: Seq<Seq<DirtyGfn>>,
    n: nat,
)
    requires
        n <= rings.len(),
        forall|i: int| 0 <= i < rings.len() ==> (#[trigger] rings[i]).ready(memory[i]) == 0,
    ensures
        harvested_rings(slots, rings, memory, n) == slots,
    decreases n,
{
    if n > 0 {
        lemma_harvest_of_nothing(slots, rings, memory, (n - 1) as nat);
        assert(rings[n - 1].ready(memory[n - 1]) == 0);
    }
}

// ---------- enabling the rings ----------

/// What has happened while the rings of a VM are being enabled.
#[derive(Clone, Copy, Debug, PartialEq, Eq, Structural)]
pub enum EnableEvent {
    /// The host answered the capability probes; its pages have `page` bytes.
    Probed {
        /// The host's answers.
        probe: CapProbe,
        /// The host's page size in bytes.
        page: usize,
    },
    /// The ring capability was asked to be enabled.
    RingAsked {
        /// What was negotiated.
        caps: DirtyRingCaps,
        /// Whether it could be enabled.
        enabled: bool,
    },
    /// The bitmap beside the ring was asked to be enabled.
    BitmapAsked {
        /// What was negotiated.
        caps: DirtyRingCaps,
        /// Whether it could be enabled.
        enabled: bool,
    },
}

/// What to do next to enable the rings of a VM.
#[derive(Debug)]
pub enum EnableAction {
    /// Leave the VM on the classic per-memslot bitmap: there is no usable ring.
    UseBitmapLog,
    /// Enable capability `caps.cap` with `caps.ring_bytes` as its first argument.
    EnableRing {
        /// What was negotiated.
        caps: DirtyRingCaps,
    },
    /// Enable capability number `cap`, the bitmap beside the ring.
    EnableBitmap {
        /// The capability's number.
        cap: u32,
        /// What was negotiated.
        caps: DirtyRingCaps,
    },
    /// The rings are enabled.
    UseRing {
        /// The state to drive them with.
        state: DirtyRingState,
    },
}

impl DirtyRingCaps {
    /// The ring has a size that a ring can have.
    pub open spec fn usable(self) -> bool {
        &&& power2::is_pow2(self.ring_bytes as int)
        &&& RING_ENTRY_BYTES <= self.ring_bytes <= DESIRED_RING_BYTES
    }
}

impl EnableEvent {
    /// The event can occur: pages hold at least one ring entry, and what was negotiated is
    /// what an earlier action named.
    pub open spec fn wf(self) -> bool {
        match self {
            EnableEvent::Probed { page, .. } => page >= RING_ENTRY_BYTES,
            EnableEvent::RingAsked { caps, .. } => caps.usable(),
            EnableEvent::BitmapAsked { caps, .. } => caps.usable(),
        }
    }

    /// The probe that starts negotiation finds a usable ring.
    pub open spec fn finds_ring(probe: CapProbe, page: usize) -> bool {
        probe.offers_ring() && ring_caps::ring_bytes_for(probe.host_max(), page as nat) != 0
    }
}

/// A ring of any power of two from one entry of 16 bytes to 1 MiB can be used. The state admits
/// rings of that size only, each never empty and of a size that divides 2^32.
pub proof fn law_usable_rings(caps: DirtyRingCaps, state: DirtyRingState)
    ensures
        caps.usable() <==> power2::is_pow2(caps.ring_bytes as int) && 16 <= caps.ring_bytes
            <= 1024 * 1024,
        state.wf() <==> power2::is_pow2(state.ring_bytes() as int) && 16 <= state.ring_bytes()
            <= 1024 * 1024 && forall|r: int|
            0 <= r < state.rings().len() ==> (#[trigger] state.rings()[r]).count()
                == state.ring_bytes() / 16 && state.rings()[r].count() > 0 && 0x1_0000_0000nat
                % state.rings()[r].count() == 0,
{
    if state.wf() {
        assert forall|r: int| 0 <= r < state.rings().len() implies (
        #[trigger] state.rings()[r]).count() == state.ring_bytes() / 16
            && state.rings()[r].count() > 0 && 0x1_0000_0000nat % state.rings()[r].count()
            == 0 by {
            assert(state.rings()[r].wf());
        }
    }
}

/// Negotiation finds a ring exactly when the host offers one of at least a page, the
/// acquire/release kind before the legacy kind.
pub proof fn law_ring_is_found(probe: CapProbe, page: usize)
    ensures
        EnableEvent::finds_ring(probe, page) <==> {
            ||| probe.acq_rel > 0 && ring_caps::ring_bytes_for(probe.acq_rel as nat, page as nat)
                != 0
            ||| probe.acq_rel <= 0 && probe.legacy > 0 && ring_caps::ring_bytes_for(
                probe.legacy as nat,
                page as nat,
            ) != 0
        },
{
    ring_caps::law_probe_answers(probe);
}

/// Fresh rings have the size that was negotiated, no ring and no page yet, and a harvester that
/// has not been started.
pub proof fn law_fresh_rings(
    state: DirtyRingState,
    caps: DirtyRingCaps,
    with_bitmap: bool,
    now_ns: u64,
)
    requires
        state.is_fresh(caps, with_bitmap, now_ns),
    ensures
        state.wf(),
        state.ring_bytes() == caps.ring_bytes,
        state.bitmap_active() == with_bitmap,
        state.rings().len() == 0,
        state.accum().dom() == Set::<u32>::empty(),
        !state.harvester().running,
        state.harvester().period_ms == 150,
        state.harvester().deadline_ns == now_ns,
{
}

/// Every event on which the rings can be enabled is admitted: any answer of a host whose pages
/// hold a ring entry, and any outcome for a ring that can be used.
pub proof fn law_enable_admits(event: EnableEvent)
    ensures
        event.wf() <==> match event {
            EnableEvent::Probed { page, .. } => page >= 16,
            EnableEvent::RingAsked { caps, .. } => caps.usable(),
            EnableEvent::BitmapAsked { caps, .. } => caps.usable(),
        },
{
}

/// Decides the next step of enabling the dirty rings of a freshly created VM, before it has any
/// vCPU or memslot. A host without a usable ring, or one that refuses to enable it, stays on
/// the classic bitmap. A host that refuses only the bitmap beside the ring keeps the ring.
pub fn enable(event: EnableEvent, now_ns: u64) -> (action: EnableAction)
    requires
        event.wf(),
    ensures
        match event {
            EnableEvent::Probed { probe, page } => if EnableEvent::finds_ring(probe, page) {
                &&& action matches EnableAction::EnableRing { caps }
                &&& caps.usable()
                &&& caps.cap == if probe.acq_rel > 0 { 223u32 } else { 192u32 }
                &&& caps.ring_bytes == ring_caps::ring_bytes_for(probe.host_max(), page as nat)
                &&& caps.with_bitmap == (probe.with_bitmap > 0)
            } else {
                action is UseBitmapLog
            },
            EnableEvent::RingAsked { caps, enabled } => if !enabled {
                action is UseBitmapLog
            } else if caps.with_bitmap {
                action == (EnableAction::EnableBitmap { cap: 225, caps })
            } else {
                &&& action matches EnableAction::UseRing { state }
                &&& state.is_fresh(caps, false, now_ns)
            },
            EnableEvent::BitmapAsked { caps, enabled } => {
                &&& action matches EnableAction::UseRing { state }
                &&& state.is_fresh(caps, enabled, now_ns)
            },
        },
{
    match event {
        EnableEvent::Probed { probe, page } => match detect(probe, page) {
            Some(caps) => {
                proof {
                    ring_caps::law_ring_bytes_within_limits(probe.host_max(), page as nat);
                }
                EnableAction::EnableRing { caps }
            },
            None => EnableAction::UseBitmapLog,
        },
        EnableEvent::RingAsked { caps, enabled } => if !enabled {
            EnableAction::UseBitmapLog
        } else if caps.with_bitmap {
            EnableAction::EnableBitmap { cap: cap_dirty_log_ring_with_bitmap(), caps }
        } else {
            EnableAction::UseRing { state: DirtyRingState::new(caps, false, now_ns) }
        },
        EnableEvent::BitmapAsked { caps, enabled } => EnableAction::UseRing {
            state: DirtyRingState::new(caps, enabled, now_ns),
        },
    }
}

impl DirtyRingState {
    /// Whether this is the state of rings enabled with `caps` at time `now_ns`: no ring yet,
    /// nothing accumulated, no harvester.
    pub open spec fn is_fresh(&self, caps: DirtyRingCaps, with_bitmap: bool, now_ns: u64) -> bool {
        &&& self.wf()
        &&& self.ring_bytes() == caps.ring_bytes
        &&& self.bitmap_active() == with_bitmap
        &&& self.rings() == Seq::<DirtyRing>::empty()
        &&& self.accum() == Map::<u32, Seq<u64>>::empty()
        &&& self.harvester() == HarvesterCtl {
            running: false,
            period_ms: INITIAL_PERIOD_MS,
            deadline_ns: now_ns,
        }
    }

    /// The state of rings enabled with `caps` at time `now_ns`.
    fn new(caps: DirtyRingCaps, with_bitmap: bool, now_ns: u64) -> (state: DirtyRingState)
        requires
            caps.usable(),
        ensures
            state.is_fresh(caps, with_bitmap, now_ns),
    {
        let state = DirtyRingState {
            ring_bytes: caps.ring_bytes,
            with_bitmap,
            rings: Vec::new(),
            accum: HashMap::new(),
            harvester: HarvesterCtl {
                running: false,
                period_ms: INITIAL_PERIOD_MS,
                deadline_ns: now_ns,
            },
        };
        assert(state.accum() =~= Map::<u32, Seq<u64>>::empty());
        state
    }

    /// Where and how large the mapping of a vCPU's ring is: the file offset, for a ring that
    /// starts `page_offset` pages into the vCPU's file, the length in bytes, and the number of
    /// entries.
    pub fn mmap_ring(&self, page: usize, page_offset: u32) -> (mapping: RingMapping)
        requires
            self.wf(),
            page_offset * page <= i64::MAX,
        ensures
            mapping.offset == page_offset * page,
            mapping.len == self.ring_bytes(),
            mapping.count == self.ring_bytes() / RING_ENTRY_BYTES as nat,
    {
        proof {
            lemma_ring_count(self.ring_bytes as int);
            if page_offset > 0 {
                assert(page <= page_offset * page) by (nonlinear_arith)
                    requires
                        page_offset > 0,
                ;
            }
        }
        let offset: i64 = if page_offset == 0 {
            0
        } else {
            page_offset as i64 * page as i64
        };
        RingMapping {
            offset,
            len: self.ring_bytes,
            count: (self.ring_bytes / RING_ENTRY_BYTES) as u32,
        }
    }
}

/// Where and how large the mapping of a vCPU's ring is.
#[derive(Clone, Copy, Debug, PartialEq, Eq, Structural)]
pub struct RingMapping {
    /// Offset in the vCPU's file.
    pub offset: i64,
    /// Length in bytes.
    pub len: usize,
    /// Number of entries.
    pub count: u32,
}

} // verus!
