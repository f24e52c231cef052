//! Checks on a loaded state before a VM is built from it.
use vstd::prelude::*;

use crate::errors::SnapShotStateSanityCheckError;
use crate::memory::{GuestMemoryRegionState, GuestRegionType};
use crate::state::{MicrovmState, VcpuState};

verus! {

broadcast use vstd::seq::group_seq_axioms;

/// What is logged of the CPU that a snapshot was taken on and of the host's.
#[derive(Debug, PartialEq, Eq)]
pub enum CpuIdMessage<T> {
    /// The host's CPU has this ID.
    Host(T),
    /// The snapshot's CPU has this ID.
    Snapshot(T),
    /// Warning: the two differ.
    Differ,
    /// Warning: the host's ID could not be had.
    HostUnknown,
    /// Warning: the snapshot's ID could not be had.
    SnapshotUnknown,
}

/// What is logged of the two IDs, where known: the host's first, then the snapshot's, then
/// whether they differ.
pub open spec fn cpu_id_log<T>(host: Option<T>, snapshot: Option<T>, differ: bool) -> Seq<
    CpuIdMessage<T>,
> {
    let first: CpuIdMessage<T> = match host {
        Some(id) => CpuIdMessage::Host(id),
        None => CpuIdMessage::HostUnknown,
    };
    let second: CpuIdMessage<T> = match snapshot {
        Some(id) => CpuIdMessage::Snapshot(id),
        None => CpuIdMessage::SnapshotUnknown,
    };
    if host is Some && snapshot is Some && differ {
        seq![first, second, CpuIdMessage::Differ]
    } else {
        seq![first, second]
    }
}

/// Builds the log of two IDs.
fn build_log<T: Copy>(host: Option<T>, snapshot: Option<T>, differ: bool) -> (log: Vec<
    CpuIdMessage<T>,
>)
    ensures
        log@ == cpu_id_log(host, snapshot, differ),
{
    let mut log: Vec<CpuIdMessage<T>> = Vec::new();
    let mut both: bool = true;
    match host {
        Some(id) => log.push(CpuIdMessage::Host(id)),
        None => {
            log.push(CpuIdMessage::HostUnknown);
            both = false;
        },
    }
    match snapshot {
        Some(id) => log.push(CpuIdMessage::Snapshot(id)),
        None => {
            log.push(CpuIdMessage::SnapshotUnknown);
            both = false;
        },
    }
    if both && differ {
        log.push(CpuIdMessage::Differ);
    }
    assert(log@ =~= cpu_id_log(host, snapshot, differ));
    log
}

/// Whether two vendor IDs, where both are known, differ.
pub open spec fn vendors_differ(host: Option<[u8; 12]>, snapshot: Option<[u8; 12]>) -> bool {
    host is Some && snapshot is Some && host->0@ != snapshot->0@
}

/// Compares the CPU vendor of a snapshot, which is that of its first vCPU, with the host's. A
/// difference is logged and no error.
pub fn validate_cpu_vendor(microvm_state: &MicrovmState, host_vendor_id: Option<[u8; 12]>) -> (log:
    Vec<CpuIdMessage<[u8; 12]>>)
    requires
        microvm_state.vcpu_states@.len() > 0,
    ensures
        log@ == cpu_id_log(
            host_vendor_id,
            microvm_state.vcpu_states@[0].vendor_id,
            vendors_differ(host_vendor_id, microvm_state.vcpu_states@[0].vendor_id),
        ),
{
    let snapshot_vendor_id: Option<[u8; 12]> = microvm_state.vcpu_states[0].vendor_id;
    let mut differ: bool = false;
    if let (Some(host_id), Some(snapshot_id)) = (host_vendor_id, snapshot_vendor_id) {
        let mut i: usize = 0;
        while i < 12
            invariant
                i <= 12,
                differ == exists|k: int|
                    0 <= k < i && #[trigger] host_id@[k] != #[trigger] snapshot_id@[k],
            decreases 12 - i,
        {
            if host_id[i] != snapshot_id[i] {
                differ = true;
                assert(host_id@[i as int] != snapshot_id@[i as int]);
            }
            i = i + 1;
        }
        if !differ {
            assert(host_id@ =~= snapshot_id@);
        }
    }
    build_log(host_vendor_id, snapshot_vendor_id, differ)
}

/// Whether the host's CPU manufacturer is known and some vCPU state has another.
pub open spec fn manufacturers_differ(host: Option<u32>, states: Seq<VcpuState>) -> bool {
    host is Some && exists|k: int|
        0 <= k < states.len() && (#[trigger] states[k]).manufacturer_id is Some
            && states[k].manufacturer_id != host
}

/// Whether the manufacturer of some vCPU state is unknown.
pub open spec fn manufacturer_missing(states: Seq<VcpuState>) -> bool {
    exists|k: int| 0 <= k < states.len() && (#[trigger] states[k]).manufacturer_id is None
}

/// What is logged of the manufacturer of a vCPU state.
pub open spec fn manufacturer_message(state: VcpuState) -> CpuIdMessage<u32> {
    match state.manufacturer_id {
        Some(id) => CpuIdMessage::Snapshot(id),
        None => CpuIdMessage::SnapshotUnknown,
    }
}

/// What is logged of the manufacturers: the host's first, then that of each vCPU state in turn,
/// then whether one of these differs from the host's.
pub open spec fn manufacturer_log(host: Option<u32>, states: Seq<VcpuState>) -> Seq<
    CpuIdMessage<u32>,
> {
    let first: CpuIdMessage<u32> = match host {
        Some(id) => CpuIdMessage::Host(id),
        None => CpuIdMessage::HostUnknown,
    };
    let ids = seq![first] + states.map_values(|state: VcpuState| manufacturer_message(state));
    if manufacturers_differ(host, states) {
        ids.push(CpuIdMessage::Differ)
    } else {
        ids
    }
}

/// Whether `log` is the log of the manufacturers: it says that they differ exactly when the
/// host's is known and some vCPU state has another, and that one is unknown exactly when some
/// vCPU state has none.
pub open spec fn logs_manufacturers(
    host: Option<u32>,
    states: Seq<VcpuState>,
    log: Seq<CpuIdMessage<u32>>,
) -> bool {
    &&& log == manufacturer_log(host, states)
    &&& log.contains(CpuIdMessage::Differ) <==> manufacturers_differ(host, states)
    &&& log.contains(CpuIdMessage::SnapshotUnknown) <==> manufacturer_missing(states)
}

/// The log says what it is to say.
proof fn lemma_manufacturer_log(host: Option<u32>, states: Seq<VcpuState>)
    ensures
        logs_manufacturers(host, states, manufacturer_log(host, states)),
{
    let log = manufacturer_log(host, states);
    assert forall|i: int| 1 <= i <= states.len() implies #[trigger] log[i] == manufacturer_message(
        states[i - 1],
    ) by {}
    if manufacturers_differ(host, states) {
        assert(log[states.len() as int + 1] == CpuIdMessage::<u32>::Differ);
    }
    if log.contains(CpuIdMessage::SnapshotUnknown) {
        let i = log.index_of(CpuIdMessage::SnapshotUnknown);
        assert(1 <= i <= states.len());
        assert(states[i - 1].manufacturer_id is None);
    }
    if manufacturer_missing(states) {
        let k = choose|k: int|
            0 <= k < states.len() && (#[trigger] states[k]).manufacturer_id is None;
        assert(log[k + 1] == CpuIdMessage::<u32>::SnapshotUnknown);
    }
}

/// Compares the CPU manufacturer of each vCPU state of a snapshot with the host's. A difference
/// is logged and no error.
pub fn validate_cpu_manufacturer_id(microvm_state: &MicrovmState, host_cpu_id: Option<u32>) -> (log:
    Vec<CpuIdMessage<u32>>)
    requires
        microvm_state.vcpu_states@.len() > 0,
    ensures
        logs_manufacturers(host_cpu_id, microvm_state.vcpu_states@, log@),
{
    let states: &Vec<VcpuState> = &microvm_state.vcpu_states;
    let mut log: Vec<CpuIdMessage<u32>> = Vec::new();
    match host_cpu_id {
        Some(id) => log.push(CpuIdMessage::Host(id)),
        None => log.push(CpuIdMessage::HostUnknown),
    }
    let ghost first = log@[0];
    let ghost messages = states@.map_values(|state: VcpuState| manufacturer_message(state));
    let mut differ: bool = false;
    let mut k: usize = 0;
    assert(log@ =~= seq![first] + messages.subrange(0, 0));
    while k < states.len()
        invariant
            k <= states.len(),
            messages == states@.map_values(|state: VcpuState| manufacturer_message(state)),
            log@ == seq![first] + messages.subrange(0, k as int),
            differ == (host_cpu_id is Some && exists|m: int|
                0 <= m < k && (#[trigger] states@[m]).manufacturer_id is Some
                    && states@[m].manufacturer_id != host_cpu_id),
        decreases states.len() - k,
    {
        match states[k].manufacturer_id {
            Some(id) => {
                log.push(CpuIdMessage::Snapshot(id));
                if let Some(host_id) = host_cpu_id {
                    if host_id != id {
                        differ = true;
                        assert(states@[k as int].manufacturer_id != host_cpu_id);
                    }
                }
            },
            None => log.push(CpuIdMessage::SnapshotUnknown),
        }
        k = k + 1;
        assert(log@ =~= seq![first] + messages.subrange(0, k as int));
    }
    if differ {
        log.push(CpuIdMessage::Differ);
    }
    proof {
        assert(messages.subrange(0, k as int) =~= messages);
        lemma_manufacturer_log(host_cpu_id, states@);
    }
    log
}

/// What the host knows of its CPU.
#[derive(Clone, Copy, Debug, PartialEq, Eq)]
pub enum HostCpuId {
    /// On x86_64, the vendor ID, if it could be had.
    Vendor(Option<[u8; 12]>),
    /// On aarch64, the manufacturer ID, if it could be had.
    Manufacturer(Option<u32>),
}

/// The log of a comparison of CPUs.
#[derive(Debug, PartialEq, Eq)]
pub enum CpuIdLog {
    /// Of vendors.
    Vendor(Vec<CpuIdMessage<[u8; 12]>>),
    /// Of manufacturers.
    Manufacturer(Vec<CpuIdMessage<u32>>),
}

/// Whether `log` is what is logged of the CPU that a state was saved on and of the host's.
pub open spec fn logs_cpus(state: MicrovmState, host: HostCpuId, log: CpuIdLog) -> bool {
    match host {
        HostCpuId::Vendor(id) => log matches CpuIdLog::Vendor(messages) && messages@ == cpu_id_log(
            id,
            state.vcpu_states@[0].vendor_id,
            vendors_differ(id, state.vcpu_states@[0].vendor_id),
        ),
        HostCpuId::Manufacturer(id) => log matches CpuIdLog::Manufacturer(messages)
            && logs_manufacturers(id, state.vcpu_states@, messages@),
    }
}

/// What is wrong with a DRAM region, if anything: it must have exactly one slot, and that must
/// be plugged.
pub open spec fn dram_fault(region: GuestMemoryRegionState) -> Option<
    SnapShotStateSanityCheckError,
> {
    if region.region_type != GuestRegionType::Dram {
        None
    } else if region.plugged@.len() != 1 {
        Some(SnapShotStateSanityCheckError::DramMemoryTooManySlots)
    } else if !region.plugged@[0] {
        Some(SnapShotStateSanityCheckError::DramMemoryUnplugged)
    } else {
        None
    }
}

/// What is wrong with the first faulty DRAM region from index `i` on, if there is one.
pub open spec fn first_dram_fault(regions: Seq<GuestMemoryRegionState>, i: int) -> Option<
    SnapShotStateSanityCheckError,
>
    decreases regions.len() - i,
{
    if i >= regions.len() {
        None
    } else if dram_fault(regions[i]) is Some {
        dram_fault(regions[i])
    } else {
        first_dram_fault(regions, i + 1)
    }
}

/// Whether some region is DRAM.
pub open spec fn has_dram(regions: Seq<GuestMemoryRegionState>) -> bool {
    exists|i: int|
        0 <= i < regions.len() && (#[trigger] regions[i]).region_type == GuestRegionType::Dram
}

/// What is wrong with guest memory, if anything.
pub open spec fn memory_fault(regions: Seq<GuestMemoryRegionState>) -> Option<
    SnapShotStateSanityCheckError,
> {
    if regions.len() == 0 {
        Some(SnapShotStateSanityCheckError::NoMemory)
    } else if !has_dram(regions) {
        Some(SnapShotStateSanityCheckError::NoDramMemory)
    } else {
        first_dram_fault(regions, 0)
    }
}

/// Nothing is wrong with guest memory exactly when there is a DRAM region and every DRAM region
/// has exactly one slot, which is plugged.
pub proof fn law_sound_memory(regions: Seq<GuestMemoryRegionState>)
    ensures
        memory_fault(regions) is None <==> has_dram(regions) && forall|i: int|
            0 <= i < regions.len() && (#[trigger] regions[i]).region_type == GuestRegionType::Dram
                ==> regions[i].plugged@ == seq![true],
{
    lemma_first_dram_fault(regions, 0);
    if has_dram(regions) {
        if memory_fault(regions) is None {
            assert forall|i: int|
                0 <= i < regions.len() && (#[trigger] regions[i]).region_type
                    == GuestRegionType::Dram implies regions[i].plugged@ == seq![true] by {
                assert(dram_fault(regions[i]) is None);
                assert(regions[i].plugged@ =~= seq![true]);
            }
        } else {
            let i = choose|i: int|
                0 <= i < regions.len() && dram_fault(#[trigger] regions[i]) is Some;
            assert(regions[i].plugged@ != seq![true]);
        }
    }
}

/// A first fault is found exactly when some region is faulty.
proof fn lemma_first_dram_fault(regions: Seq<GuestMemoryRegionState>, from: int)
    requires
        0 <= from <= regions.len(),
    ensures
        first_dram_fault(regions, from) is Some <==> exists|i: int|
            from <= i < regions.len() && dram_fault(#[trigger] regions[i]) is Some,
    decreases regions.len() - from,
{
    if from < regions.len() {
        lemma_first_dram_fault(regions, from + 1);
        if first_dram_fault(regions, from) is Some && dram_fault(regions[from]) is None {
            let i = choose|i: int|
                from + 1 <= i < regions.len() && dram_fault(#[trigger] regions[i]) is Some;
            assert(dram_fault(regions[i]) is Some);
        }
    }
}

/// Without a region there is no memory, and without a DRAM region no DRAM. Memory is sound exactly
/// when it has a DRAM region and every DRAM region is made of one plugged slot; regions of other
/// kinds do not matter.
pub proof fn law_memory_without_dram(regions: Seq<GuestMemoryRegionState>)
    ensures
        regions.len() == 0 ==> memory_fault(regions) == Some(
            SnapShotStateSanityCheckError::NoMemory,
        ),
        regions.len() > 0 && (forall|i: int|
            0 <= i < regions.len() ==> (#[trigger] regions[i]).region_type
                == GuestRegionType::Hotpluggable) ==> memory_fault(regions) == Some(
            SnapShotStateSanityCheckError::NoDramMemory,
        ),
        memory_fault(regions) is None <==> (exists|i: int|
            0 <= i < regions.len() && (#[trigger] regions[i]).region_type == GuestRegionType::Dram)
            && forall|j: int|
            0 <= j < regions.len() && (#[trigger] regions[j]).region_type == GuestRegionType::Dram
                ==> regions[j].plugged@ == seq![true],
{
    law_sound_memory(regions);
}

/// The first DRAM region that is not made of one plugged slot decides what is wrong: it has
/// another number of slots, or its one slot is unplugged.
pub proof fn law_first_faulty_region_decides(regions: Seq<GuestMemoryRegionState>, i: int)
    requires
        0 <= i < regions.len(),
        regions[i].region_type == GuestRegionType::Dram,
        regions[i].plugged@ != seq![true],
        forall|j: int|
            0 <= j < i && (#[trigger] regions[j]).region_type == GuestRegionType::Dram
                ==> regions[j].plugged@ == seq![true],
    ensures
        regions[i].plugged@.len() != 1 ==> memory_fault(regions) == Some(
            SnapShotStateSanityCheckError::DramMemoryTooManySlots,
        ),
        regions[i].plugged@.len() == 1 ==> memory_fault(regions) == Some(
            SnapShotStateSanityCheckError::DramMemoryUnplugged,
        ),
{
    if regions[i].plugged@.len() == 1 && regions[i].plugged@[0] {
        assert(regions[i].plugged@ =~= seq![true]);
    }
    assert(has_dram(regions));
    lemma_first_fault_is_found(regions, 0, i);
}

/// The first fault from index `from` on is that of region `i`, when no region before it is faulty.
proof fn lemma_first_fault_is_found(regions: Seq<GuestMemoryRegionState>, from: int, i: int)
    requires
        0 <= from <= i < regions.len(),
        dram_fault(regions[i]) is Some,
        forall|j: int|
            0 <= j < i && (#[trigger] regions[j]).region_type == GuestRegionType::Dram
                ==> regions[j].plugged@ == seq![true],
    ensures
        first_dram_fault(regions, from) == dram_fault(regions[i]),
    decreases i - from,
{
    if from < i {
        if regions[from].region_type == GuestRegionType::Dram {
            assert(regions[from].plugged@ == seq![true]);
        }
        assert(dram_fault(regions[from]) is None);
        lemma_first_fault_is_found(regions, from + 1, i);
    }
}

/// What is logged of the CPUs. Of vendors: the host's, then that of the first vCPU, and then, if
/// both are known and differ in some byte, that they differ. Of manufacturers: the host's, then
/// that of each vCPU in turn, and then, if the host's is known and some vCPU has another, that
/// they differ. What is not known is said to be unknown.
pub proof fn law_cpu_logs(state: MicrovmState, host: HostCpuId, log: CpuIdLog)
    requires
        logs_cpus(state, host, log),
        state.vcpu_states@.len() > 0,
    ensures
        host matches HostCpuId::Vendor(id) ==> (log matches CpuIdLog::Vendor(messages) && {
            let snapshot = state.vcpu_states@[0].vendor_id;
            let differ = id is Some && snapshot is Some && id->0@ != snapshot->0@;
            &&& messages@.len() == if differ {
                3int
            } else {
                2int
            }
            &&& id is Some ==> messages@[0] == CpuIdMessage::Host(id->0)
            &&& id is None ==> messages@[0] == CpuIdMessage::<[u8; 12]>::HostUnknown
            &&& snapshot is Some ==> messages@[1] == CpuIdMessage::Snapshot(snapshot->0)
            &&& snapshot is None ==> messages@[1] == CpuIdMessage::<[u8; 12]>::SnapshotUnknown
            &&& differ ==> messages@[2] == CpuIdMessage::<[u8; 12]>::Differ
        }),
        host matches HostCpuId::Manufacturer(id) ==> (log matches CpuIdLog::Manufacturer(messages)
            && {
            let states = state.vcpu_states@;
            let differ = id is Some && exists|k: int|
                0 <= k < states.len() && (#[trigger] states[k]).manufacturer_id is Some
                    && states[k].manufacturer_id->0 != id->0;
            &&& messages@.len() == states.len() + if differ {
                2int
            } else {
                1int
            }
            &&& id is Some ==> messages@[0] == CpuIdMessage::Host(id->0)
            &&& id is None ==> messages@[0] == CpuIdMessage::<u32>::HostUnknown
            &&& forall|k: int|
                0 <= k < states.len() ==> messages@[k + 1] == match (
                #[trigger] states[k]).manufacturer_id {
                    Some(known) => CpuIdMessage::Snapshot(known),
                    None => CpuIdMessage::SnapshotUnknown,
                }
            &&& differ ==> messages@[states.len() as int + 1] == CpuIdMessage::<u32>::Differ
        }),
{
    if let HostCpuId::Manufacturer(id) = host {
        let states = state.vcpu_states@;
        if let CpuIdLog::Manufacturer(messages) = log {
            assert(messages@ == manufacturer_log(id, states));
            assert(manufacturers_differ(id, states) <==> id is Some && exists|k: int|
                0 <= k < states.len() && (#[trigger] states[k]).manufacturer_id is Some
                    && states[k].manufacturer_id->0 != id->0) by {
                if manufacturers_differ(id, states) {
                    let k = choose|k: int|
                        0 <= k < states.len() && (#[trigger] states[k]).manufacturer_id is Some
                            && states[k].manufacturer_id != id;
                    assert(states[k].manufacturer_id->0 != id->0);
                }
                if id is Some && exists|k: int|
                    0 <= k < states.len() && (#[trigger] states[k]).manufacturer_id is Some
                        && states[k].manufacturer_id->0 != id->0 {
                    let k = choose|k: int|
                        0 <= k < states.len() && (#[trigger] states[k]).manufacturer_id is Some
                            && states[k].manufacturer_id->0 != id->0;
                    assert(states[k].manufacturer_id != id);
                }
            }
            assert forall|k: int| 0 <= k < states.len() implies messages@[k + 1] == match (
            #[trigger] states[k]).manufacturer_id {
                Some(known) => CpuIdMessage::Snapshot(known),
                None => CpuIdMessage::SnapshotUnknown,
            } by {}
        }
    }
}

/// What is wrong with guest memory, if anything.
pub fn check_memory(regions: &Vec<GuestMemoryRegionState>) -> (fault: Option<
    SnapShotStateSanityCheckError,
>)
    ensures
        fault == memory_fault(regions@),
{
    if regions.len() == 0 {
        return Some(SnapShotStateSanityCheckError::NoMemory);
    }
    let mut found: bool = false;
    let mut i: usize = 0;
    while i < regions.len()
        invariant
            i <= regions.len(),
            found == exists|k: int|
                0 <= k < i && (#[trigger] regions@[k]).region_type == GuestRegionType::Dram,
        decreases regions.len() - i,
    {
        if regions[i].region_type == GuestRegionType::Dram {
            found = true;
        }
        i = i + 1;
    }
    if !found {
        return Some(SnapShotStateSanityCheckError::NoDramMemory);
    }
    assert(has_dram(regions@));
    let mut j: usize = 0;
    while j < regions.len()
        invariant
            j <= regions.len(),
            regions@.len() > 0,
            has_dram(regions@),
            first_dram_fault(regions@, 0) == first_dram_fault(regions@, j as int),
        decreases regions.len() - j,
    {
        if regions[j].region_type == GuestRegionType::Dram {
            if regions[j].plugged.len() != 1 {
                return Some(SnapShotStateSanityCheckError::DramMemoryTooManySlots);
            }
            if !regions[j].plugged[0] {
                return Some(SnapShotStateSanityCheckError::DramMemoryUnplugged);
            }
        }
        j = j + 1;
    }
    None
}

/// Checks a loaded state: guest memory must be sound. The CPU it was saved on is compared with
/// the host's, and the log of that comparison is returned.
pub fn snapshot_state_sanity_check(microvm_state: &MicrovmState, host: HostCpuId) -> (r: Result<
    CpuIdLog,
    SnapShotStateSanityCheckError,
>)
    requires
        memory_fault(microvm_state.vm_state.memory.regions@) is None
            ==> microvm_state.vcpu_states@.len() > 0,
    ensures
        match r {
            Err(fault) => memory_fault(microvm_state.vm_state.memory.regions@) == Some(fault),
            Ok(log) => {
                &&& memory_fault(microvm_state.vm_state.memory.regions@) is None
                &&& logs_cpus(*microvm_state, host, log)
            },
        },
{
    if let Some(fault) = check_memory(&microvm_state.vm_state.memory.regions) {
        return Err(fault);
    }
    match host {
        HostCpuId::Vendor(id) => Ok(CpuIdLog::Vendor(validate_cpu_vendor(microvm_state, id))),
        HostCpuId::Manufacturer(id) => Ok(
            CpuIdLog::Manufacturer(validate_cpu_manufacturer_id(microvm_state, id)),
        ),
    }
}

} // verus!
