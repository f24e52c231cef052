//! Loading a snapshot: the changes that a load makes to the state, which step comes after which,
//! and what is reported when one fails.
use std::path::PathBuf;
use vstd::prelude::*;

use crate::backend;
use crate::backend::{
    finish_prepared_hybrid, guest_memory_from_file, guest_memory_from_hybrid,
    guest_memory_from_precopy, guest_memory_from_uffd, prepare_hybrid, MemoryStep, PreparedHybrid,
};
use crate::config::{
    LoadPhase, LoadSnapshotParams, MemBackendConfig, MemBackendType, NetworkOverride,
    VsockOverride,
};
use crate::errors::{
    BuildMicrovmFromSnapshotError, GuestMemoryFromFileError, GuestMemoryFromHybridError,
    GuestMemoryFromUffdError, MachineConfigError, RestoreFromSnapshotError,
    RestoreFromSnapshotGuestMemoryError, SnapshotStateFromFileError,
};
use crate::memory;
use crate::memory::{GuestMemoryRegionState, GuestMemoryState, HugePageConfig};
use crate::sanity;
use crate::sanity::{snapshot_state_sanity_check, CpuIdLog, HostCpuId};
use crate::state::{
    ConnectedState, MachineConfigUpdate, MicrovmState, NetState, VsockBackendState, VsockState,
};

verus! {

broadcast use vstd::seq::group_seq_axioms;

/// The index of the first device from `from` on with this ID, or the number of devices when
/// there is none.
pub open spec fn find_net(devices: Seq<ConnectedState<NetState>>, id: Seq<char>, from: int) -> int
    decreases devices.len() - from,
{
    if from >= devices.len() || devices[from].device_state.id@ == id {
        from
    } else {
        find_net(devices, id, from + 1)
    }
}

/// A network device, moved to another host device.
pub open spec fn renamed(device: ConnectedState<NetState>, name: String) -> ConnectedState<
    NetState,
> {
    ConnectedState {
        device_state: NetState { tap_if_name: name, ..device.device_state },
        ..device
    }
}

/// The network devices on MMIO and on PCI.
pub struct NetDevices {
    /// Those on MMIO.
    pub mmio: Seq<ConnectedState<NetState>>,
    /// Those on PCI.
    pub pci: Seq<ConnectedState<NetState>>,
}

/// The network devices of a state.
pub open spec fn net_devices(state: MicrovmState) -> NetDevices {
    NetDevices {
        mmio: state.device_states.mmio_state.net_devices@,
        pci: state.device_states.pci_state.net_devices@,
    }
}

/// The network devices after one change: the first with the ID, those on MMIO before those on
/// PCI, is moved to the new host device. Absent when no device has the ID.
pub open spec fn net_changed(devices: NetDevices, change: NetworkOverride) -> Option<NetDevices> {
    let i = find_net(devices.mmio, change.iface_id@, 0);
    let j = find_net(devices.pci, change.iface_id@, 0);
    if i < devices.mmio.len() {
        Some(
            NetDevices {
                mmio: devices.mmio.update(i, renamed(devices.mmio[i], change.host_dev_name)),
                pci: devices.pci,
            },
        )
    } else if j < devices.pci.len() {
        Some(
            NetDevices {
                mmio: devices.mmio,
                pci: devices.pci.update(j, renamed(devices.pci[j], change.host_dev_name)),
            },
        )
    } else {
        None
    }
}

/// The network devices after the first `n` changes, one after the other. Absent when one of them
/// names no device.
pub open spec fn net_overridden(
    devices: NetDevices,
    changes: Seq<NetworkOverride>,
    n: int,
) -> Option<NetDevices>
    decreases n,
{
    if n <= 0 {
        Some(devices)
    } else {
        match net_overridden(devices, changes, n - 1) {
            Some(before) => net_changed(before, changes[n - 1]),
            None => None,
        }
    }
}

/// A vsock device, moved to another host socket.
pub open spec fn moved(device: ConnectedState<VsockState>, path: String) -> ConnectedState<
    VsockState,
> {
    ConnectedState {
        device_state: VsockState {
            backend: VsockBackendState { uds_path: path },
            ..device.device_state
        },
        ..device
    }
}

/// Whether there is a vsock device.
pub open spec fn has_vsock(state: MicrovmState) -> bool {
    state.device_states.mmio_state.vsock_device is Some
        || state.device_states.pci_state.vsock_device is Some
}

/// Finding a device: the index found is that of the first with the ID.
proof fn lemma_find_net(devices: Seq<ConnectedState<NetState>>, id: Seq<char>, from: int)
    requires
        0 <= from <= devices.len(),
    ensures
        from <= find_net(devices, id, from) <= devices.len(),
        find_net(devices, id, from) < devices.len() ==> devices[find_net(
            devices,
            id,
            from,
        )].device_state.id@ == id,
        forall|i: int|
            from <= i < find_net(devices, id, from) ==> (#[trigger] devices[i]).device_state.id@
                != id,
    decreases devices.len() - from,
{
    if from < devices.len() && devices[from].device_state.id@ != id {
        lemma_find_net(devices, id, from + 1);
    }
}

/// Moves the first device with an ID to another host device, and tells whether there was one.
fn rename_first(devices: &mut Vec<ConnectedState<NetState>>, id: &String, name: &String) -> (found:
    bool)
    ensures
        ({
            let i = find_net(old(devices)@, id@, 0);
            &&& found == (i < old(devices)@.len())
            &&& found ==> final(devices)@ == old(devices)@.update(
                i,
                renamed(old(devices)@[i], *name),
            )
            &&& !found ==> final(devices)@ == old(devices)@
        }),
{
    let mut i: usize = 0;
    while i < devices.len()
        invariant
            i <= devices.len(),
            devices@ == old(devices)@,
            find_net(devices@, id@, 0) == find_net(devices@, id@, i as int),
        decreases devices.len() - i,
    {
        if devices[i].device_state.id == *id {
            let new_name: String = name.clone();
            devices[i].device_state.tap_if_name = new_name;
            assert(devices@ =~= old(devices)@.update(
                i as int,
                renamed(old(devices)@[i as int], *name),
            ));
            return true;
        }
        i = i + 1;
    }
    false
}

/// Whether the changes can be made: each names a network device, and there is a vsock device if
/// one is to be moved.
pub open spec fn overrides_apply(state: MicrovmState, params: &LoadSnapshotParams) -> bool {
    &&& net_overridden(
        net_devices(state),
        params.network_overrides@,
        params.network_overrides@.len() as int,
    ) is Some
    &&& params.vsock_override is Some ==> has_vsock(state)
}

/// Whether `after` is `before` with the vsock device moved as asked for: the one on MMIO, if
/// there is one, else the one on PCI.
pub open spec fn vsock_overridden(
    before: MicrovmState,
    change: Option<VsockOverride>,
    after: MicrovmState,
) -> bool {
    let mmio = before.device_states.mmio_state.vsock_device;
    let pci = before.device_states.pci_state.vsock_device;
    let path = change->0.uds_path;
    &&& after.device_states.mmio_state.vsock_device == if change is Some && mmio is Some {
        Some(moved(mmio->0, path))
    } else {
        mmio
    }
    &&& after.device_states.pci_state.vsock_device == if change is Some && mmio is None
        && pci is Some {
        Some(moved(pci->0, path))
    } else {
        pci
    }
}

/// Whether two states agree on all but the network and vsock devices.
pub open spec fn alike_elsewhere(before: MicrovmState, after: MicrovmState) -> bool {
    &&& after.vm_info == before.vm_info
    &&& after.kvm_state == before.kvm_state
    &&& after.vm_state == before.vm_state
    &&& after.vcpu_states == before.vcpu_states
    &&& after.device_states.mmio_state.saved == before.device_states.mmio_state.saved
    &&& after.device_states.pci_state.saved == before.device_states.pci_state.saved
}

/// Whether `after` is the loaded state `before` with the changes that the load asks for.
pub open spec fn is_overridden(
    before: MicrovmState,
    params: &LoadSnapshotParams,
    after: MicrovmState,
) -> bool {
    &&& alike_elsewhere(before, after)
    &&& net_overridden(
        net_devices(before),
        params.network_overrides@,
        params.network_overrides@.len() as int,
    ) == Some(net_devices(after))
    &&& vsock_overridden(before, params.vsock_override, after)
}

/// Once a change names no device, all that follow fail too.
proof fn lemma_net_failure_stays(devices: NetDevices, changes: Seq<NetworkOverride>, n: int, m: int)
    requires
        0 <= n <= m,
        net_overridden(devices, changes, n) is None,
    ensures
        net_overridden(devices, changes, m) is None,
    decreases m - n,
{
    if n < m {
        lemma_net_failure_stays(devices, changes, n, m - 1);
    }
}

/// Whether two network devices are the same but for their host device.
pub open spec fn same_but_host_device(
    before: ConnectedState<NetState>,
    after: ConnectedState<NetState>,
) -> bool {
    after == renamed(before, after.device_state.tap_if_name)
}

/// Whether two sets of network devices are the same but for their host devices.
pub open spec fn same_but_host_devices(before: NetDevices, after: NetDevices) -> bool {
    &&& after.mmio.len() == before.mmio.len()
    &&& after.pci.len() == before.pci.len()
    &&& forall|i: int|
        0 <= i < before.mmio.len() ==> same_but_host_device(
            #[trigger] before.mmio[i],
            #[trigger] after.mmio[i],
        )
    &&& forall|i: int|
        0 <= i < before.pci.len() ==> same_but_host_device(
            #[trigger] before.pci[i],
            #[trigger] after.pci[i],
        )
}

/// Whether one of the first `n` changes is to the device with this ID.
pub open spec fn is_named(changes: Seq<NetworkOverride>, n: int, id: Seq<char>) -> bool {
    exists|c: int| 0 <= c < n && (#[trigger] changes[c]).iface_id@ == id
}

/// The changes move network devices to other host devices and leave everything else about them
/// alone; a device that no change names stays as it is.
pub proof fn law_overrides_only_move_named_devices(
    devices: NetDevices,
    changes: Seq<NetworkOverride>,
    n: int,
)
    requires
        0 <= n <= changes.len(),
        net_overridden(devices, changes, n) is Some,
    ensures
        ({
            let after = net_overridden(devices, changes, n)->0;
            &&& same_but_host_devices(devices, after)
            &&& forall|i: int|
                0 <= i < devices.mmio.len() && !is_named(
                    changes,
                    n,
                    (#[trigger] devices.mmio[i]).device_state.id@,
                ) ==> after.mmio[i] == devices.mmio[i]
            &&& forall|i: int|
                0 <= i < devices.pci.len() && !is_named(
                    changes,
                    n,
                    (#[trigger] devices.pci[i]).device_state.id@,
                ) ==> after.pci[i] == devices.pci[i]
        }),
    decreases n,
{
    if n > 0 {
        law_overrides_only_move_named_devices(devices, changes, n - 1);
        let before = net_overridden(devices, changes, n - 1)->0;
        let after = net_overridden(devices, changes, n)->0;
        let change = changes[n - 1];
        lemma_find_net(before.mmio, change.iface_id@, 0);
        lemma_find_net(before.pci, change.iface_id@, 0);
        assert forall|i: int|
            0 <= i < devices.mmio.len() && !is_named(
                changes,
                n,
                (#[trigger] devices.mmio[i]).device_state.id@,
            ) implies after.mmio[i] == devices.mmio[i] by {
            let id = devices.mmio[i].device_state.id@;
            assert(changes[n - 1].iface_id@ != id);
            assert(!is_named(changes, n - 1, id));
            assert(same_but_host_device(devices.mmio[i], before.mmio[i]));
        }
        assert forall|i: int|
            0 <= i < devices.pci.len() && !is_named(
                changes,
                n,
                (#[trigger] devices.pci[i]).device_state.id@,
            ) implies after.pci[i] == devices.pci[i] by {
            let id = devices.pci[i].device_state.id@;
            assert(changes[n - 1].iface_id@ != id);
            assert(!is_named(changes, n - 1, id));
            assert(same_but_host_device(devices.pci[i], before.pci[i]));
        }
    }
}

/// The host device of the first network device with this ID, those on MMIO before those on PCI.
pub open spec fn host_device(devices: NetDevices, id: Seq<char>) -> Option<String> {
    let i = find_net(devices.mmio, id, 0);
    let j = find_net(devices.pci, id, 0);
    if i < devices.mmio.len() {
        Some(devices.mmio[i].device_state.tap_if_name)
    } else if j < devices.pci.len() {
        Some(devices.pci[j].device_state.tap_if_name)
    } else {
        None
    }
}

/// Devices with the same IDs are found at the same place.
proof fn lemma_find_net_by_id(
    a: Seq<ConnectedState<NetState>>,
    b: Seq<ConnectedState<NetState>>,
    id: Seq<char>,
    from: int,
)
    requires
        0 <= from <= a.len(),
        a.len() == b.len(),
        forall|i: int|
            0 <= i < a.len() ==> (#[trigger] a[i]).device_state.id == (
            #[trigger] b[i]).device_state.id,
    ensures
        find_net(a, id, from) == find_net(b, id, from),
    decreases a.len() - from,
{
    if from < a.len() {
        assert(a[from].device_state.id == b[from].device_state.id);
        lemma_find_net_by_id(a, b, id, from + 1);
    }
}

/// What a change does to the host device of a given ID: it sets that of the ID it names, and
/// leaves those of other IDs alone.
proof fn lemma_host_device_changed(devices: NetDevices, change: NetworkOverride, id: Seq<char>)
    requires
        net_changed(devices, change) is Some,
    ensures
        host_device(net_changed(devices, change)->0, id) == if id == change.iface_id@ {
            Some(change.host_dev_name)
        } else {
            host_device(devices, id)
        },
{
    let after = net_changed(devices, change)->0;
    lemma_find_net(devices.mmio, change.iface_id@, 0);
    lemma_find_net(devices.pci, change.iface_id@, 0);
    lemma_find_net(devices.mmio, id, 0);
    lemma_find_net(devices.pci, id, 0);
    lemma_find_net_by_id(devices.mmio, after.mmio, id, 0);
    lemma_find_net_by_id(devices.pci, after.pci, id, 0);
}

/// Where several changes name the same device, the last one wins.
pub proof fn law_last_override_wins(
    devices: NetDevices,
    changes: Seq<NetworkOverride>,
    n: int,
    c: int,
)
    requires
        0 <= c < n <= changes.len(),
        net_overridden(devices, changes, n) is Some,
        forall|d: int|
            c < d < n ==> (#[trigger] changes[d]).iface_id@ != changes[c].iface_id@,
    ensures
        host_device(net_overridden(devices, changes, n)->0, changes[c].iface_id@) == Some(
            changes[c].host_dev_name,
        ),
    decreases n,
{
    let before = net_overridden(devices, changes, n - 1)->0;
    lemma_host_device_changed(before, changes[n - 1], changes[c].iface_id@);
    if c < n - 1 {
        law_last_override_wins(devices, changes, n - 1, c);
    }
}

/// Finding a device fails exactly when no device has the ID.
proof fn lemma_net_is_missing(devices: Seq<ConnectedState<NetState>>, id: Seq<char>)
    ensures
        find_net(devices, id, 0) >= devices.len() <==> forall|i: int|
            0 <= i < devices.len() ==> (#[trigger] devices[i]).device_state.id@ != id,
{
    lemma_find_net(devices, id, 0);
}

/// The changes fail exactly when one of them names an ID that no device has, on MMIO or on PCI.
pub proof fn law_unknown_network_device(
    devices: NetDevices,
    changes: Seq<NetworkOverride>,
    n: int,
)
    requires
        0 <= n <= changes.len(),
    ensures
        net_overridden(devices, changes, n) is None <==> exists|c: int|
            #![trigger changes[c]]
            0 <= c < n && (forall|i: int|
                0 <= i < devices.mmio.len() ==> (#[trigger] devices.mmio[i]).device_state.id@
                    != changes[c].iface_id@) && (forall|i: int|
                0 <= i < devices.pci.len() ==> (#[trigger] devices.pci[i]).device_state.id@
                    != changes[c].iface_id@),
    decreases n,
{
    if n > 0 {
        law_unknown_network_device(devices, changes, n - 1);
        if net_overridden(devices, changes, n - 1) is Some {
            let before = net_overridden(devices, changes, n - 1)->0;
            let id = changes[n - 1].iface_id@;
            law_overrides_only_move_named_devices(devices, changes, n - 1);
            assert forall|i: int| 0 <= i < devices.mmio.len() implies (
            #[trigger] devices.mmio[i]).device_state.id == before.mmio[i].device_state.id by {
                assert(same_but_host_device(devices.mmio[i], before.mmio[i]));
            }
            assert forall|i: int| 0 <= i < devices.pci.len() implies (
            #[trigger] devices.pci[i]).device_state.id == before.pci[i].device_state.id by {
                assert(same_but_host_device(devices.pci[i], before.pci[i]));
            }
            lemma_find_net_by_id(devices.mmio, before.mmio, id, 0);
            lemma_find_net_by_id(devices.pci, before.pci, id, 0);
            lemma_net_is_missing(devices.mmio, id);
            lemma_net_is_missing(devices.pci, id);
            assert(changes[n - 1].iface_id@ == id);
        }
    }
}

/// What the changes make of a network device on MMIO. Its ID, what was saved of it and its
/// transport stay. It is moved by the last change that names its ID, unless a device before it has
/// that ID too; otherwise it stays as it is.
pub proof fn law_override_on_mmio(
    devices: NetDevices,
    changes: Seq<NetworkOverride>,
    n: int,
    i: int,
    c: int,
)
    requires
        0 <= n <= changes.len(),
        net_overridden(devices, changes, n) is Some,
        0 <= i < devices.mmio.len(),
    ensures
        ({
            let before = devices.mmio[i];
            let after = net_overridden(devices, changes, n)->0.mmio[i];
            let first = forall|j: int|
                0 <= j < i ==> (#[trigger] devices.mmio[j]).device_state.id@
                    != before.device_state.id@;
            &&& net_overridden(devices, changes, n)->0.mmio.len() == devices.mmio.len()
            &&& after.transport == before.transport
            &&& after.device_state.id == before.device_state.id
            &&& after.device_state.saved == before.device_state.saved
            &&& first && 0 <= c < n && changes[c].iface_id@ == before.device_state.id@ && (forall|
                d: int,
            |
                c < d < n ==> (#[trigger] changes[d]).iface_id@ != before.device_state.id@)
                ==> after.device_state.tap_if_name == changes[c].host_dev_name
            &&& !first || (forall|d: int|
                0 <= d < n ==> (#[trigger] changes[d]).iface_id@ != before.device_state.id@)
                ==> after == before
        }),
    decreases n,
{
    if n > 0 {
        law_override_on_mmio(devices, changes, n - 1, i, c);
        let mid = net_overridden(devices, changes, n - 1)->0;
        let id = changes[n - 1].iface_id@;
        law_overrides_only_move_named_devices(devices, changes, n - 1);
        assert forall|j: int| 0 <= j < devices.mmio.len() implies (
        #[trigger] devices.mmio[j]).device_state.id == mid.mmio[j].device_state.id by {
            assert(same_but_host_device(devices.mmio[j], mid.mmio[j]));
        }
        lemma_find_net_by_id(devices.mmio, mid.mmio, id, 0);
        lemma_find_net(devices.mmio, id, 0);
        let k = find_net(devices.mmio, id, 0);
        if k < devices.mmio.len() && k < i {
            assert(devices.mmio[k].device_state.id@ == id);
        }
    }
}

/// What the changes make of a network device on PCI. Its ID, what was saved of it and its
/// transport stay. It is moved by the last change that names its ID, unless a device on MMIO or
/// one before it on PCI has that ID too; otherwise it stays as it is.
pub proof fn law_override_on_pci(
    devices: NetDevices,
    changes: Seq<NetworkOverride>,
    n: int,
    i: int,
    c: int,
)
    requires
        0 <= n <= changes.len(),
        net_overridden(devices, changes, n) is Some,
        0 <= i < devices.pci.len(),
    ensures
        ({
            let before = devices.pci[i];
            let after = net_overridden(devices, changes, n)->0.pci[i];
            let first = (forall|j: int|
                0 <= j < i ==> (#[trigger] devices.pci[j]).device_state.id@
                    != before.device_state.id@) && (forall|j: int|
                0 <= j < devices.mmio.len() ==> (#[trigger] devices.mmio[j]).device_state.id@
                    != before.device_state.id@);
            &&& net_overridden(devices, changes, n)->0.pci.len() == devices.pci.len()
            &&& after.transport == before.transport
            &&& after.device_state.id == before.device_state.id
            &&& after.device_state.saved == before.device_state.saved
            &&& first && 0 <= c < n && changes[c].iface_id@ == before.device_state.id@ && (forall|
                d: int,
            |
                c < d < n ==> (#[trigger] changes[d]).iface_id@ != before.device_state.id@)
                ==> after.device_state.tap_if_name == changes[c].host_dev_name
            &&& !first || (forall|d: int|
                0 <= d < n ==> (#[trigger] changes[d]).iface_id@ != before.device_state.id@)
                ==> after == before
        }),
    decreases n,
{
    if n > 0 {
        law_override_on_pci(devices, changes, n - 1, i, c);
        let mid = net_overridden(devices, changes, n - 1)->0;
        let id = changes[n - 1].iface_id@;
        law_overrides_only_move_named_devices(devices, changes, n - 1);
        assert forall|j: int| 0 <= j < devices.mmio.len() implies (
        #[trigger] devices.mmio[j]).device_state.id == mid.mmio[j].device_state.id by {
            assert(same_but_host_device(devices.mmio[j], mid.mmio[j]));
        }
        assert forall|j: int| 0 <= j < devices.pci.len() implies (
        #[trigger] devices.pci[j]).device_state.id == mid.pci[j].device_state.id by {
            assert(same_but_host_device(devices.pci[j], mid.pci[j]));
        }
        lemma_find_net_by_id(devices.mmio, mid.mmio, id, 0);
        lemma_find_net_by_id(devices.pci, mid.pci, id, 0);
        lemma_find_net(devices.mmio, id, 0);
        lemma_find_net(devices.pci, id, 0);
        let m = find_net(devices.mmio, id, 0);
        let k = find_net(devices.pci, id, 0);
        if m < devices.mmio.len() {
            assert(devices.mmio[m].device_state.id@ == id);
        }
        if k < devices.pci.len() && k < i {
            assert(devices.pci[k].device_state.id@ == id);
        }
    }
}

/// The network devices of a state are those of its two buses.
pub proof fn law_network_devices_of_a_state(state: MicrovmState)
    ensures
        net_devices(state).mmio == state.device_states.mmio_state.net_devices@,
        net_devices(state).pci == state.device_states.pci_state.net_devices@,
{
}

/// Makes the changes to a loaded state that the load asks for.
fn apply_overrides(loaded: MicrovmState, params: &LoadSnapshotParams) -> (r: Result<
    MicrovmState,
    SnapshotStateFromFileError,
>)
    ensures
        match r {
            Ok(after) => overrides_apply(loaded, params) && is_overridden(loaded, params, after),
            Err(err) => {
                let net = net_overridden(
                    net_devices(loaded),
                    params.network_overrides@,
                    params.network_overrides@.len() as int,
                );
                &&& !overrides_apply(loaded, params)
                &&& net is None ==> err is UnknownNetworkDevice
                &&& net is Some ==> err is UnknownVsockDevice
            },
        },
{
    let ghost before = loaded;
    let ghost changes = params.network_overrides@;
    let mut state: MicrovmState = loaded;
    let mut n: usize = 0;
    while n < params.network_overrides.len()
        invariant
            n <= params.network_overrides.len(),
            before == loaded,
            changes == params.network_overrides@,
            alike_elsewhere(before, state),
            state.device_states.mmio_state.vsock_device
                == before.device_states.mmio_state.vsock_device,
            state.device_states.pci_state.vsock_device
                == before.device_states.pci_state.vsock_device,
            net_overridden(net_devices(before), changes, n as int) == Some(net_devices(state)),
        decreases params.network_overrides.len() - n,
    {
        let ghost held = net_devices(state);
        let change: &NetworkOverride = &params.network_overrides[n];
        let on_mmio: bool = rename_first(
            &mut state.device_states.mmio_state.net_devices,
            &change.iface_id,
            &change.host_dev_name,
        );
        if !on_mmio {
            let on_pci: bool = rename_first(
                &mut state.device_states.pci_state.net_devices,
                &change.iface_id,
                &change.host_dev_name,
            );
            if !on_pci {
                proof {
                    assert(net_changed(held, changes[n as int]) is None);
                    assert(net_overridden(net_devices(before), changes, n + 1) is None);
                    lemma_net_failure_stays(
                        net_devices(before),
                        changes,
                        n + 1,
                        changes.len() as int,
                    );
                }
                return Err(SnapshotStateFromFileError::UnknownNetworkDevice);
            }
        }
        n = n + 1;
    }
    if let Some(change) = &params.vsock_override {
        let path: String = change.uds_path.clone();
        if state.device_states.mmio_state.vsock_device.is_some() {
            set_vsock_path(&mut state.device_states.mmio_state.vsock_device, path);
        } else if state.device_states.pci_state.vsock_device.is_some() {
            set_vsock_path(&mut state.device_states.pci_state.vsock_device, path);
        } else {
            return Err(SnapshotStateFromFileError::UnknownVsockDevice);
        }
    }
    Ok(state)
}

/// Moves a vsock device to another host socket.
fn set_vsock_path(device: &mut Option<ConnectedState<VsockState>>, path: String)
    requires
        *old(device) is Some,
    ensures
        *final(device) == Some(moved(old(device)->0, path)),
{
    match device {
        Some(device) => {
            device.device_state.backend.uds_path = path;
        },
        None => {},
    }
}

/// Why guest memory could not be loaded.
#[derive(Debug)]
pub enum MemoryFailure {
    /// A load from a file failed.
    File(GuestMemoryFromFileError),
    /// A load through a page-fault handler failed.
    Uffd(GuestMemoryFromUffdError),
    /// A load from a shared base failed.
    Base(GuestMemoryFromHybridError),
}

/// What is reported of a failure to load guest memory from this kind of backend.
pub open spec fn reported(
    backend_type: MemBackendType,
    failure: MemoryFailure,
) -> RestoreFromSnapshotError {
    RestoreFromSnapshotError::GuestMemory(
        match failure {
            MemoryFailure::File(err) => RestoreFromSnapshotGuestMemoryError::File(err),
            MemoryFailure::Uffd(err) => RestoreFromSnapshotGuestMemoryError::Uffd(err),
            MemoryFailure::Base(err) => if backend_type == MemBackendType::Precopy {
                RestoreFromSnapshotGuestMemoryError::Precopy(err)
            } else {
                RestoreFromSnapshotGuestMemoryError::Hybrid(err)
            },
        },
    )
}

/// What is reported of a failure to load guest memory from this kind of backend.
fn report(backend_type: MemBackendType, failure: MemoryFailure) -> (err: RestoreFromSnapshotError)
    ensures
        err == reported(backend_type, failure),
{
    RestoreFromSnapshotError::GuestMemory(
        match failure {
            MemoryFailure::File(err) => RestoreFromSnapshotGuestMemoryError::File(err),
            MemoryFailure::Uffd(err) => RestoreFromSnapshotGuestMemoryError::Uffd(err),
            MemoryFailure::Base(err) => {
                if backend_type == MemBackendType::Precopy {
                    RestoreFromSnapshotGuestMemoryError::Precopy(err)
                } else {
                    RestoreFromSnapshotGuestMemoryError::Hybrid(err)
                }
            },
        },
    )
}

/// The steps of loading guest memory, or why it cannot be loaded this way. The second phase of a
/// hybrid load needs the memory that the first prepared.
pub open spec fn memory_plan<'a>(
    params: &'a LoadSnapshotParams,
    prepared: Option<&PreparedHybrid>,
    huge_pages: HugePageConfig,
    regions: Seq<GuestMemoryRegionState>,
) -> Result<Seq<MemoryStep<'a>>, MemoryFailure> {
    let mem_backend = &params.mem_backend;
    match mem_backend.backend_type {
        MemBackendType::File => if huge_pages == HugePageConfig::Hugetlbfs2M {
            Err(MemoryFailure::File(GuestMemoryFromFileError::HugetlbfsSnapshot))
        } else {
            Ok(backend::file_steps(&mem_backend.backend_path, params.track_dirty_pages))
        },
        MemBackendType::Uffd => Ok(
            backend::uffd_steps(&mem_backend.backend_path, params.track_dirty_pages, huge_pages),
        ),
        MemBackendType::Hybrid => match prepared {
            Some(prepared) => if backend::fills_pages(mem_backend) {
                Err(MemoryFailure::Base(GuestMemoryFromHybridError::InvalidPhase))
            } else if memory::region_shape(regions) != prepared.shape() {
                Err(MemoryFailure::Base(GuestMemoryFromHybridError::PreparedMismatch))
            } else {
                Ok(backend::finish_steps(mem_backend, prepared.page_bytes()))
            },
            None => if params.phase == Some(LoadPhase::Resume) {
                Err(MemoryFailure::Base(GuestMemoryFromHybridError::InvalidPhase))
            } else {
                match &mem_backend.base_mem_path {
                    Some(base) => Ok(
                        backend::hybrid_steps(
                            mem_backend,
                            base,
                            params.track_dirty_pages,
                            huge_pages.page_bytes() as usize,
                        ),
                    ),
                    None => Err(MemoryFailure::Base(GuestMemoryFromHybridError::MissingBase)),
                }
            },
        },
        MemBackendType::Precopy => match &mem_backend.base_mem_path {
            Some(base) => Ok(
                backend::precopy_steps(mem_backend, base, params.track_dirty_pages),
            ),
            None => Err(MemoryFailure::Base(GuestMemoryFromHybridError::MissingBase)),
        },
    }
}

/// Whether a request is the second phase of a hybrid load in two phases.
fn resumes(phase: Option<LoadPhase>) -> (r: bool)
    ensures
        r == (phase == Some(LoadPhase::Resume)),
{
    match phase {
        Some(phase) => phase == LoadPhase::Resume,
        None => false,
    }
}

/// The steps of loading guest memory, or why it cannot be loaded this way.
fn plan_memory<'a>(
    params: &'a LoadSnapshotParams,
    prepared: Option<&PreparedHybrid>,
    huge_pages: HugePageConfig,
    mem_state: &GuestMemoryState,
) -> (r: Result<Vec<MemoryStep<'a>>, MemoryFailure>)
    requires
        prepared is Some ==> prepared->0.wf(),
    ensures
        match r {
            Ok(steps) => memory_plan(params, prepared, huge_pages, mem_state.regions@) == Ok::<
                Seq<MemoryStep<'a>>,
                MemoryFailure,
            >(steps@),
            Err(failure) => memory_plan(params, prepared, huge_pages, mem_state.regions@) == Err::<
                Seq<MemoryStep<'a>>,
                MemoryFailure,
            >(failure),
        },
{
    let mem_backend: &'a MemBackendConfig = &params.mem_backend;
    match mem_backend.backend_type {
        MemBackendType::File => {
            if huge_pages.is_hugetlbfs() {
                Err(MemoryFailure::File(GuestMemoryFromFileError::HugetlbfsSnapshot))
            } else {
                Ok(guest_memory_from_file(&mem_backend.backend_path, params.track_dirty_pages))
            }
        },
        MemBackendType::Uffd => Ok(
            guest_memory_from_uffd(
                &mem_backend.backend_path,
                params.track_dirty_pages,
                huge_pages,
            ),
        ),
        MemBackendType::Hybrid => {
            let planned: Result<Vec<MemoryStep<'a>>, GuestMemoryFromHybridError> = match prepared {
                Some(prepared) => finish_prepared_hybrid(prepared, mem_backend, mem_state),
                None => {
                    if resumes(params.phase) {
                        Err(GuestMemoryFromHybridError::InvalidPhase)
                    } else {
                        guest_memory_from_hybrid(mem_backend, params.track_dirty_pages, huge_pages)
                    }
                },
            };
            match planned {
                Ok(steps) => Ok(steps),
                Err(err) => Err(MemoryFailure::Base(err)),
            }
        },
        MemBackendType::Precopy => match guest_memory_from_precopy(
            mem_backend,
            params.track_dirty_pages,
        ) {
            Ok(steps) => Ok(steps),
            Err(err) => Err(MemoryFailure::Base(err)),
        },
    }
}

/// Guest memory is loaded from the files that the request names for its backend: a file backend
/// maps the backend's path, and that only with small pages; a handler is told at the backend's
/// path; a shared base is mapped from the path of the base, and is missing without one; a load in
/// two phases goes on from memory of the same layout that a first phase prepared, and a second
/// phase without it is refused.
pub proof fn law_memory_comes_from_its_backend(
    params: &LoadSnapshotParams,
    prepared: Option<&PreparedHybrid>,
    huge_pages: HugePageConfig,
    regions: Seq<GuestMemoryRegionState>,
)
    ensures
        ({
            let plan = memory_plan(params, prepared, huge_pages, regions);
            let track_dirty_pages = params.track_dirty_pages;
            let page_size: usize = if huge_pages == HugePageConfig::Hugetlbfs2M {
                0x20_0000
            } else {
                4096
            };
            match params.mem_backend.backend_type {
                MemBackendType::File => {
                    &&& huge_pages == HugePageConfig::Hugetlbfs2M ==> plan == Err::<
                        Seq<MemoryStep<'_>>,
                        MemoryFailure,
                    >(MemoryFailure::File(GuestMemoryFromFileError::HugetlbfsSnapshot))
                    &&& huge_pages == HugePageConfig::Small ==> plan is Ok && plan->Ok_0.len() == 1
                        && plan->Ok_0[0] == (MemoryStep::MapFile {
                        path: &params.mem_backend.backend_path,
                        track_dirty_pages,
                    })
                },
                MemBackendType::Uffd => {
                    &&& plan is Ok
                    &&& plan->Ok_0.len() == 4
                    &&& plan->Ok_0[0] == (MemoryStep::MapAnonymous { track_dirty_pages, huge_pages })
                    &&& plan->Ok_0[1] == MemoryStep::BuildUffd
                    &&& plan->Ok_0[2] == (MemoryStep::RegisterAll {
                        mode: backend::RegisterMode::Missing,
                    })
                    &&& plan->Ok_0[3] == (MemoryStep::Handshake {
                        socket: &params.mem_backend.backend_path,
                        with_base: false,
                    })
                },
                MemBackendType::Hybrid => match prepared {
                    Some(held) => {
                        let fills = params.mem_backend.eager_delta_path is Some
                            || params.mem_backend.eager_pages_path is Some
                            || params.mem_backend.prefill_pages_path is Some;
                        let alike = held.shape().len() == regions.len() && forall|i: int|
                            0 <= i < regions.len() ==> held.shape()[i].0 == (
                            #[trigger] regions[i]).base_address && held.shape()[i].1
                                == regions[i].size;
                        &&& fills ==> plan == Err::<Seq<MemoryStep<'_>>, MemoryFailure>(
                            MemoryFailure::Base(GuestMemoryFromHybridError::InvalidPhase),
                        )
                        &&& !fills && !alike ==> plan == Err::<Seq<MemoryStep<'_>>, MemoryFailure>(
                            MemoryFailure::Base(GuestMemoryFromHybridError::PreparedMismatch),
                        )
                        &&& !fills && alike ==> plan == Ok::<Seq<MemoryStep<'_>>, MemoryFailure>(
                            backend::finish_steps(&params.mem_backend, held.page_bytes()),
                        )
                    },
                    None => {
                        let base = params.mem_backend.base_mem_path;
                        let resumes = params.phase == Some(LoadPhase::Resume);
                        &&& resumes ==> plan == Err::<Seq<MemoryStep<'_>>, MemoryFailure>(
                            MemoryFailure::Base(GuestMemoryFromHybridError::InvalidPhase),
                        )
                        &&& !resumes && base is None ==> plan == Err::<
                            Seq<MemoryStep<'_>>,
                            MemoryFailure,
                        >(MemoryFailure::Base(GuestMemoryFromHybridError::MissingBase))
                        &&& !resumes && base is Some ==> plan == Ok::<
                            Seq<MemoryStep<'_>>,
                            MemoryFailure,
                        >(
                            backend::hybrid_steps(
                                &params.mem_backend,
                                &base->0,
                                track_dirty_pages,
                                page_size,
                            ),
                        )
                    },
                },
                MemBackendType::Precopy => {
                    let base = params.mem_backend.base_mem_path;
                    &&& base is None ==> plan == Err::<Seq<MemoryStep<'_>>, MemoryFailure>(
                        MemoryFailure::Base(GuestMemoryFromHybridError::MissingBase),
                    )
                    &&& base is Some ==> plan == Ok::<Seq<MemoryStep<'_>>, MemoryFailure>(
                        backend::precopy_steps(&params.mem_backend, &base->0, track_dirty_pages),
                    )
                },
            }
        }),
{
    memory::law_page_bytes(huge_pages);
    if let Some(held) = prepared {
        memory::law_shape_is_addresses_and_sizes(regions);
        let shape = memory::region_shape(regions);
        if held.shape().len() == regions.len() && forall|i: int|
            0 <= i < regions.len() ==> held.shape()[i].0 == (#[trigger] regions[i]).base_address
                && held.shape()[i].1 == regions[i].size {
            assert forall|i: int| 0 <= i < shape.len() implies shape[i] == held.shape()[i] by {
                assert(held.shape()[i].0 == regions[i].base_address);
                assert(shape[i].0 == regions[i].base_address);
            }
            assert(shape =~= held.shape());
        }
        if shape == held.shape() {
            assert forall|i: int| 0 <= i < regions.len() implies held.shape()[i].0 == (
            #[trigger] regions[i]).base_address && held.shape()[i].1 == regions[i].size by {
                assert(shape[i].0 == regions[i].base_address);
            }
        }
    }
}

/// A failure is reported as it is, under the backend that was asked for.
pub proof fn law_failures_are_reported(backend_type: MemBackendType, failure: MemoryFailure)
    ensures
        reported(backend_type, failure) matches RestoreFromSnapshotError::GuestMemory(report) && {
            &&& failure matches MemoryFailure::File(err) ==> report
                == RestoreFromSnapshotGuestMemoryError::File(err)
            &&& failure matches MemoryFailure::Uffd(err) ==> report
                == RestoreFromSnapshotGuestMemoryError::Uffd(err)
            &&& failure matches MemoryFailure::Base(err) ==> report == if backend_type
                == MemBackendType::Precopy {
                RestoreFromSnapshotGuestMemoryError::Precopy(err)
            } else {
                RestoreFromSnapshotGuestMemoryError::Hybrid(err)
            }
        },
{
}

/// Whether a VM whose memory comes from this kind of backend has a userfaultfd: a handler serves
/// its faults.
pub open spec fn has_uffd(backend_type: MemBackendType) -> bool {
    backend_type == MemBackendType::Uffd || backend_type == MemBackendType::Hybrid
}

/// Whether a handler serves the faults of a VM whose memory comes from this kind of backend.
fn serves_faults(backend_type: MemBackendType) -> (r: bool)
    ensures
        r == has_uffd(backend_type),
{
    backend_type == MemBackendType::Uffd || backend_type == MemBackendType::Hybrid
}

/// Whether a load goes on from memory that a first phase prepared.
pub open spec fn uses_prepared(
    params: &LoadSnapshotParams,
    prepared: Option<&PreparedHybrid>,
) -> bool {
    params.mem_backend.backend_type == MemBackendType::Hybrid && prepared is Some
}

/// Guest memory is mapped once, first of all and with the tracking of dirty pages that the request
/// asks for, unless a first phase has mapped it. A userfaultfd comes from that phase or is created
/// by the steps exactly where the backend has one, and exactly there a handler hears of it.
pub proof fn law_plan_fits_its_backend(
    params: &LoadSnapshotParams,
    prepared: Option<&PreparedHybrid>,
    huge_pages: HugePageConfig,
    regions: Seq<GuestMemoryRegionState>,
)
    requires
        memory_plan(params, prepared, huge_pages, regions) is Ok,
    ensures
        backend::steps_fit(
            memory_plan(params, prepared, huge_pages, regions)->Ok_0,
            !uses_prepared(params, prepared),
            params.track_dirty_pages,
            has_uffd(params.mem_backend.backend_type) && !uses_prepared(params, prepared),
            has_uffd(params.mem_backend.backend_type),
        ),
{
    let mem_backend = &params.mem_backend;
    let track_dirty_pages = params.track_dirty_pages;
    match mem_backend.backend_type {
        MemBackendType::File => {
            backend::law_file_steps_fit(&mem_backend.backend_path, track_dirty_pages);
        },
        MemBackendType::Uffd => {
            backend::law_uffd_steps_fit(&mem_backend.backend_path, track_dirty_pages, huge_pages);
        },
        MemBackendType::Hybrid => match prepared {
            Some(prepared) => {
                backend::law_finish_steps_fit(
                    mem_backend,
                    track_dirty_pages,
                    prepared.page_bytes(),
                );
            },
            None => {
                backend::law_hybrid_steps_fit(
                    mem_backend,
                    &mem_backend.base_mem_path->0,
                    track_dirty_pages,
                    huge_pages.page_bytes() as usize,
                );
            },
        },
        MemBackendType::Precopy => {
            backend::law_precopy_steps_fit(
                mem_backend,
                &mem_backend.base_mem_path->0,
                track_dirty_pages,
            );
        },
    }
}

/// What has happened while a snapshot is being loaded.
#[derive(Debug)]
pub enum RestoreEvent {
    /// Nothing yet.
    Start,
    /// The state was asked to be loaded from its file.
    StateLoaded(Result<MicrovmState, SnapshotStateFromFileError>),
    /// The machine configuration was asked to be updated.
    ConfigUpdated {
        /// The state.
        state: MicrovmState,
        /// How the update went.
        updated: Result<(), MachineConfigError>,
        /// How guest memory is backed by huge pages, by the configuration as it is now.
        huge_pages: HugePageConfig,
        /// What the host knows of its CPU.
        host: HostCpuId,
    },
    /// Guest memory was asked to be loaded.
    MemoryLoaded {
        /// The state.
        state: MicrovmState,
        /// How that went.
        loaded: Result<(), MemoryFailure>,
    },
    /// The VM was asked to be built.
    Built(Result<(), BuildMicrovmFromSnapshotError>),
}

/// What to do next to load a snapshot.
#[derive(Debug)]
pub enum RestoreAction<'a> {
    /// Load the state from its file.
    LoadState {
        /// The file.
        path: &'a PathBuf,
    },
    /// Update the machine configuration.
    UpdateConfig {
        /// The state.
        state: MicrovmState,
        /// The changes.
        update: MachineConfigUpdate,
    },
    /// Load guest memory.
    LoadMemory {
        /// The state.
        state: MicrovmState,
        /// What to log of the CPUs.
        log: CpuIdLog,
        /// How guest memory is backed by huge pages, which the mappings sent to a handler tell.
        huge_pages: HugePageConfig,
        /// The steps, in order.
        steps: Vec<MemoryStep<'a>>,
    },
    /// Build the VM, paused, on the guest memory that was loaded.
    Build {
        /// The state.
        state: MicrovmState,
        /// Whether the VM gets the userfaultfd that its memory was registered with.
        with_uffd: bool,
        /// Whether the guest's clock advances by the time since the snapshot was taken.
        clock_realtime: bool,
    },
    /// Stop and report this.
    Done(Result<(), RestoreFromSnapshotError>),
}

impl RestoreEvent {
    /// The event can occur: the memory size is one that this machine can address, and a state
    /// with sound memory, whose configuration was accepted, has a vCPU.
    pub open spec fn wf(self) -> bool {
        match self {
            RestoreEvent::StateLoaded(Ok(state)) => state.vm_info.mem_size_mib <= usize::MAX,
            RestoreEvent::ConfigUpdated { state, updated, .. } => updated is Ok
                && sanity::memory_fault(state.vm_state.memory.regions@) is None
                ==> state.vcpu_states@.len() > 0,
            _ => true,
        }
    }
}

/// The changes to the machine configuration that a state asks for.
pub open spec fn config_update(
    state: MicrovmState,
    params: &LoadSnapshotParams,
) -> MachineConfigUpdate {
    MachineConfigUpdate {
        vcpu_count: Some(state.vcpu_states@.len() as u8),
        mem_size_mib: Some(state.vm_info.mem_size_mib as usize),
        smt: Some(state.vm_info.smt),
        cpu_template: Some(state.vm_info.cpu_template),
        track_dirty_pages: Some(params.track_dirty_pages),
        huge_pages: Some(state.vm_info.huge_pages),
    }
}

/// Whether `action` is the step after a state was loaded: the changes are made to it, and the
/// machine is configured for it.
pub open spec fn after_load(
    params: &LoadSnapshotParams,
    loaded: MicrovmState,
    action: RestoreAction<'_>,
) -> bool {
    let net = net_overridden(
        net_devices(loaded),
        params.network_overrides@,
        params.network_overrides@.len() as int,
    );
    if net is None {
        action == RestoreAction::Done(
            Err(RestoreFromSnapshotError::File(SnapshotStateFromFileError::UnknownNetworkDevice)),
        )
    } else if params.vsock_override is Some && !has_vsock(loaded) {
        action == RestoreAction::Done(
            Err(RestoreFromSnapshotError::File(SnapshotStateFromFileError::UnknownVsockDevice)),
        )
    } else if loaded.vcpu_states@.len() > u8::MAX {
        action == RestoreAction::Done(
            Err(
                RestoreFromSnapshotError::Build(
                    BuildMicrovmFromSnapshotError::VmUpdateConfig(
                        MachineConfigError::InvalidVcpuCount,
                    ),
                ),
            ),
        )
    } else {
        &&& action matches RestoreAction::UpdateConfig { state, update }
        &&& is_overridden(loaded, params, state)
        &&& update == config_update(loaded, params)
    }
}

/// Whether `action` is the step after the machine was configured: the state is checked, and
/// guest memory is loaded from its backend.
pub open spec fn after_config(
    params: &LoadSnapshotParams,
    prepared: Option<&PreparedHybrid>,
    held: MicrovmState,
    huge_pages: HugePageConfig,
    host: HostCpuId,
    action: RestoreAction<'_>,
) -> bool {
    let regions = held.vm_state.memory.regions@;
    match sanity::memory_fault(regions) {
        Some(fault) => action == RestoreAction::Done(Err(RestoreFromSnapshotError::Invalid(fault))),
        None => match memory_plan(params, prepared, huge_pages, regions) {
            Err(failure) => action == RestoreAction::Done(
                Err(reported(params.mem_backend.backend_type, failure)),
            ),
            Ok(plan) => {
                &&& action matches RestoreAction::LoadMemory {
                    state,
                    log,
                    huge_pages: given,
                    steps,
                }
                &&& state == held
                &&& given == huge_pages
                &&& sanity::logs_cpus(held, host, log)
                &&& steps@ == plan
            },
        },
    }
}

/// Whether `action` is the step after `event` while a snapshot is being loaded.
pub open spec fn restore_step(
    params: &LoadSnapshotParams,
    prepared: Option<&PreparedHybrid>,
    event: RestoreEvent,
    action: RestoreAction<'_>,
) -> bool {
    match event {
        RestoreEvent::Start => action == (RestoreAction::LoadState { path: &params.snapshot_path }),
        RestoreEvent::StateLoaded(Ok(loaded)) => after_load(params, loaded, action),
        RestoreEvent::StateLoaded(Err(err)) => action == RestoreAction::Done(
            Err(RestoreFromSnapshotError::File(err)),
        ),
        RestoreEvent::ConfigUpdated { state, updated, huge_pages, host } => match updated {
            Err(err) => action == RestoreAction::Done(
                Err(
                    RestoreFromSnapshotError::Build(
                        BuildMicrovmFromSnapshotError::VmUpdateConfig(err),
                    ),
                ),
            ),
            Ok(_) => after_config(params, prepared, state, huge_pages, host, action),
        },
        RestoreEvent::MemoryLoaded { state, loaded } => match loaded {
            Err(failure) => action == RestoreAction::Done(
                Err(reported(params.mem_backend.backend_type, failure)),
            ),
            Ok(_) => action == (RestoreAction::Build {
                state,
                with_uffd: has_uffd(params.mem_backend.backend_type),
                clock_realtime: params.clock_realtime,
            }),
        },
        RestoreEvent::Built(Ok(_)) => action == RestoreAction::Done(Ok(())),
        RestoreEvent::Built(Err(err)) => action == RestoreAction::Done(
            Err(RestoreFromSnapshotError::Build(err)),
        ),
    }
}

/// Every state with a memory size that the machine can express can be loaded, and every one with
/// a vCPU, or with memory that is refused anyway, can be checked.
pub proof fn law_restore_admits(event: RestoreEvent)
    ensures
        event matches RestoreEvent::StateLoaded(Ok(state)) ==> (event.wf()
            <==> state.vm_info.mem_size_mib <= usize::MAX),
        event matches RestoreEvent::ConfigUpdated { state, updated, .. } ==> (event.wf()
            <==> state.vcpu_states@.len() > 0 || updated is Err || sanity::memory_fault(
            state.vm_state.memory.regions@,
        ) is Some),
        event is Start || event is MemoryLoaded || event is Built ==> event.wf(),
        event matches RestoreEvent::StateLoaded(Err(_)) ==> event.wf(),
{
}

/// Each thing that a load asks for is answered by what came of it, well or not, with the state
/// that was handed out where one was; nothing answers the end.
pub proof fn law_restore_answers(action: RestoreAction<'_>, event: RestoreEvent)
    ensures
        event is StateLoaded ==> (restore_answers(action, event) <==> action is LoadState),
        event is ConfigUpdated ==> (restore_answers(action, event) <==> action is UpdateConfig
            && action->UpdateConfig_state == event->ConfigUpdated_state),
        event is MemoryLoaded ==> (restore_answers(action, event) <==> action is LoadMemory
            && action->LoadMemory_state == event->MemoryLoaded_state),
        event is Built ==> (restore_answers(action, event) <==> action is Build),
        event is Start ==> !restore_answers(action, event),
{
}

/// A load begins with the state file that the request names; a state that cannot be had ends it.
pub proof fn law_restore_begins(
    params: &LoadSnapshotParams,
    prepared: Option<&PreparedHybrid>,
    event: RestoreEvent,
    action: RestoreAction<'_>,
)
    requires
        restore_step(params, prepared, event, action),
    ensures
        event is Start ==> action == (RestoreAction::LoadState { path: &params.snapshot_path }),
        event matches RestoreEvent::StateLoaded(Err(err)) ==> action == RestoreAction::Done(
            Err(RestoreFromSnapshotError::File(err)),
        ),
{
}

/// A state that was loaded is refused when a change names a network device that it does not have,
/// or then a vsock device when it has none, or then when it has more than 255 vCPUs. Otherwise
/// nothing of it changes but the host devices of its network devices and the socket of its vsock
/// device, the one on MMIO before the one on PCI, and the machine is configured for it.
pub proof fn law_restore_changes_the_state(
    params: &LoadSnapshotParams,
    prepared: Option<&PreparedHybrid>,
    loaded: MicrovmState,
    action: RestoreAction<'_>,
)
    requires
        restore_step(params, prepared, RestoreEvent::StateLoaded(Ok(loaded)), action),
    ensures
        ({
            let changes = params.network_overrides@;
            let net = net_overridden(net_devices(loaded), changes, changes.len() as int);
            let mmio = loaded.device_states.mmio_state;
            let pci = loaded.device_states.pci_state;
            let no_vsock = params.vsock_override is Some && mmio.vsock_device is None
                && pci.vsock_device is None;
            let vcpus = loaded.vcpu_states@.len();
            &&& net is None ==> action == RestoreAction::Done(
                Err(
                    RestoreFromSnapshotError::File(
                        SnapshotStateFromFileError::UnknownNetworkDevice,
                    ),
                ),
            )
            &&& net is Some && no_vsock ==> action == RestoreAction::Done(
                Err(RestoreFromSnapshotError::File(SnapshotStateFromFileError::UnknownVsockDevice)),
            )
            &&& net is Some && !no_vsock && vcpus > 255 ==> action == RestoreAction::Done(
                Err(
                    RestoreFromSnapshotError::Build(
                        BuildMicrovmFromSnapshotError::VmUpdateConfig(
                            MachineConfigError::InvalidVcpuCount,
                        ),
                    ),
                ),
            )
            &&& net is Some && !no_vsock && vcpus <= 255 ==> {
                &&& action matches RestoreAction::UpdateConfig { state, update }
                &&& state.vm_info == loaded.vm_info
                &&& state.kvm_state == loaded.kvm_state
                &&& state.vm_state == loaded.vm_state
                &&& state.vcpu_states == loaded.vcpu_states
                &&& state.device_states.mmio_state.saved == mmio.saved
                &&& state.device_states.pci_state.saved == pci.saved
                &&& net_devices(state) == net->0
                &&& params.vsock_override is None || mmio.vsock_device is None
                    ==> state.device_states.mmio_state.vsock_device == mmio.vsock_device
                &&& params.vsock_override is None || mmio.vsock_device is Some || pci.vsock_device
                    is None ==> state.device_states.pci_state.vsock_device == pci.vsock_device
                &&& params.vsock_override is Some && mmio.vsock_device is Some ==> {
                    let moved = state.device_states.mmio_state.vsock_device;
                    &&& moved is Some
                    &&& moved->0.device_state.backend.uds_path == params.vsock_override->0.uds_path
                    &&& moved->0.device_state.saved == mmio.vsock_device->0.device_state.saved
                    &&& moved->0.transport == mmio.vsock_device->0.transport
                }
                &&& params.vsock_override is Some && mmio.vsock_device is None ==> {
                    let moved = state.device_states.pci_state.vsock_device;
                    &&& moved is Some
                    &&& moved->0.device_state.backend.uds_path == params.vsock_override->0.uds_path
                    &&& moved->0.device_state.saved == pci.vsock_device->0.device_state.saved
                    &&& moved->0.transport == pci.vsock_device->0.transport
                }
                &&& update.vcpu_count == Some(vcpus as u8)
                &&& update.mem_size_mib == Some(loaded.vm_info.mem_size_mib as usize)
                &&& update.smt == Some(loaded.vm_info.smt)
                &&& update.cpu_template == Some(loaded.vm_info.cpu_template)
                &&& update.track_dirty_pages == Some(params.track_dirty_pages)
                &&& update.huge_pages == Some(loaded.vm_info.huge_pages)
            }
        }),
{
}

/// Once the machine is configured, memory that is not sound ends the load, and so does a backend
/// that cannot load it. Otherwise the CPUs are compared, and memory is loaded by the steps for its
/// backend, with the state and the huge pages as they are.
pub proof fn law_restore_loads_memory(
    params: &LoadSnapshotParams,
    prepared: Option<&PreparedHybrid>,
    held: MicrovmState,
    updated: Result<(), MachineConfigError>,
    huge_pages: HugePageConfig,
    host: HostCpuId,
    action: RestoreAction<'_>,
)
    requires
        restore_step(
            params,
            prepared,
            RestoreEvent::ConfigUpdated { state: held, updated, huge_pages, host },
            action,
        ),
    ensures
        ({
            let regions = held.vm_state.memory.regions@;
            let fault = sanity::memory_fault(regions);
            let plan = memory_plan(params, prepared, huge_pages, regions);
            &&& updated matches Err(err) ==> action == RestoreAction::Done(
                Err(
                    RestoreFromSnapshotError::Build(
                        BuildMicrovmFromSnapshotError::VmUpdateConfig(err),
                    ),
                ),
            )
            &&& updated is Ok && fault is Some ==> action == RestoreAction::Done(
                Err(RestoreFromSnapshotError::Invalid(fault->0)),
            )
            &&& updated is Ok && fault is None && plan is Err ==> action == RestoreAction::Done(
                Err(reported(params.mem_backend.backend_type, plan->Err_0)),
            )
            &&& updated is Ok && fault is None && plan is Ok ==> {
                &&& action matches RestoreAction::LoadMemory {
                    state,
                    log,
                    huge_pages: given,
                    steps,
                }
                &&& state == held
                &&& given == huge_pages
                &&& steps@ == plan->Ok_0
                &&& sanity::logs_cpus(held, host, log)
            }
        }),
{
}

/// Once memory is loaded the VM is built from the state as it is, with a userfaultfd exactly for
/// the backends that have a handler, and with the clock as asked for; a failure ends the load.
/// Once it is built the load has succeeded, and a failure to build it is reported as it is.
pub proof fn law_restore_builds_the_vm(
    params: &LoadSnapshotParams,
    prepared: Option<&PreparedHybrid>,
    event: RestoreEvent,
    action: RestoreAction<'_>,
)
    requires
        restore_step(params, prepared, event, action),
    ensures
        event matches RestoreEvent::MemoryLoaded { state: held, loaded } ==> {
            &&& loaded matches Err(failure) ==> action == RestoreAction::Done(
                Err(reported(params.mem_backend.backend_type, failure)),
            )
            &&& loaded is Ok ==> {
                &&& action matches RestoreAction::Build { state, with_uffd, clock_realtime }
                &&& state == held
                &&& clock_realtime == params.clock_realtime
                &&& with_uffd <==> params.mem_backend.backend_type == MemBackendType::Uffd
                    || params.mem_backend.backend_type == MemBackendType::Hybrid
            }
        },
        event matches RestoreEvent::Built(built) ==> {
            &&& built is Ok ==> action is Done && action->Done_0 is Ok
            &&& built is Err ==> action == RestoreAction::Done(
                Err(RestoreFromSnapshotError::Build(built->Err_0)),
            )
        },
{
}

/// Decides the next step of loading a snapshot, which ends with a VM that is built and paused.
/// Memory that a first phase prepared is used where the backend is a hybrid one.
pub fn restore_from_snapshot<'a>(
    params: &'a LoadSnapshotParams,
    prepared: Option<&PreparedHybrid>,
    event: RestoreEvent,
) -> (action: RestoreAction<'a>)
    requires
        event.wf(),
        prepared is Some ==> prepared->0.wf(),
    ensures
        restore_step(params, prepared, event, action),
{
    match event {
        RestoreEvent::Start => RestoreAction::LoadState { path: &params.snapshot_path },
        RestoreEvent::StateLoaded(Ok(loaded)) => {
            let state: MicrovmState = match apply_overrides(loaded, params) {
                Ok(state) => state,
                Err(err) => return RestoreAction::Done(Err(RestoreFromSnapshotError::File(err))),
            };
            let vcpus: usize = state.vcpu_states.len();
            if vcpus > 255 {
                return RestoreAction::Done(
                    Err(
                        RestoreFromSnapshotError::Build(
                            BuildMicrovmFromSnapshotError::VmUpdateConfig(
                                MachineConfigError::InvalidVcpuCount,
                            ),
                        ),
                    ),
                );
            }
            let update: MachineConfigUpdate = MachineConfigUpdate {
                vcpu_count: Some(vcpus as u8),
                mem_size_mib: Some(state.vm_info.mem_size_mib as usize),
                smt: Some(state.vm_info.smt),
                cpu_template: Some(state.vm_info.cpu_template),
                track_dirty_pages: Some(params.track_dirty_pages),
                huge_pages: Some(state.vm_info.huge_pages),
            };
            RestoreAction::UpdateConfig { state, update }
        },
        RestoreEvent::StateLoaded(Err(err)) => RestoreAction::Done(
            Err(RestoreFromSnapshotError::File(err)),
        ),
        RestoreEvent::ConfigUpdated { state, updated, huge_pages, host } => {
            match updated {
                Err(err) => return RestoreAction::Done(
                    Err(
                        RestoreFromSnapshotError::Build(
                            BuildMicrovmFromSnapshotError::VmUpdateConfig(err),
                        ),
                    ),
                ),
                Ok(_) => {},
            }
            let log: CpuIdLog = match snapshot_state_sanity_check(&state, host) {
                Ok(log) => log,
                Err(fault) => return RestoreAction::Done(
                    Err(RestoreFromSnapshotError::Invalid(fault)),
                ),
            };
            match plan_memory(params, prepared, huge_pages, &state.vm_state.memory) {
                Ok(steps) => RestoreAction::LoadMemory { state, log, huge_pages, steps },
                Err(failure) => RestoreAction::Done(
                    Err(report(params.mem_backend.backend_type, failure)),
                ),
            }
        },
        RestoreEvent::MemoryLoaded { state, loaded } => match loaded {
            Err(failure) => RestoreAction::Done(
                Err(report(params.mem_backend.backend_type, failure)),
            ),
            Ok(_) => RestoreAction::Build {
                state,
                with_uffd: serves_faults(params.mem_backend.backend_type),
                clock_realtime: params.clock_realtime,
            },
        },
        RestoreEvent::Built(Ok(_)) => RestoreAction::Done(Ok(())),
        RestoreEvent::Built(Err(err)) => RestoreAction::Done(
            Err(RestoreFromSnapshotError::Build(err)),
        ),
    }
}

/// Whether `event` is an answer to `action`; the state is handed back as it was given out.
pub open spec fn restore_answers(action: RestoreAction<'_>, event: RestoreEvent) -> bool {
    match action {
        RestoreAction::LoadState { .. } => event is StateLoaded,
        RestoreAction::UpdateConfig { state: given, .. } => event matches
            RestoreEvent::ConfigUpdated { state, .. } && state == given,
        RestoreAction::LoadMemory { state: given, .. } => event matches
            RestoreEvent::MemoryLoaded { state, .. } && state == given,
        RestoreAction::Build { .. } => event is Built,
        RestoreAction::Done(_) => false,
    }
}

/// Whether `events` and `actions` are what happens, from the start, while a snapshot is being
/// loaded.
pub open spec fn is_restore_run(
    params: &LoadSnapshotParams,
    prepared: Option<&PreparedHybrid>,
    events: Seq<RestoreEvent>,
    actions: Seq<RestoreAction<'_>>,
) -> bool {
    &&& events.len() > 0
    &&& events.len() == actions.len()
    &&& events[0] is Start
    &&& forall|i: int|
        #![trigger actions[i]]
        0 <= i < events.len() ==> restore_step(params, prepared, events[i], actions[i])
    &&& forall|i: int|
        #![trigger events[i]]
        0 < i < events.len() ==> restore_answers(actions[i - 1], events[i])
}

/// A snapshot counts as loaded only after the VM was built from the state that the file holds,
/// with the changes asked for and nothing else changed, on memory that was found sound and
/// loaded by the steps of its backend, with a userfaultfd where the backend has one, and with the
/// machine configured for that state.
pub proof fn law_restore_success(
    params: &LoadSnapshotParams,
    prepared: Option<&PreparedHybrid>,
    events: Seq<RestoreEvent>,
    actions: Seq<RestoreAction<'_>>,
)
    requires
        is_restore_run(params, prepared, events, actions),
        actions[actions.len() - 1] matches RestoreAction::Done(Ok(_)),
    ensures
        events.len() == 5,
        actions[0] == (RestoreAction::LoadState { path: &params.snapshot_path }),
        events[1] matches RestoreEvent::StateLoaded(Ok(loaded)) && (actions[3] matches
            RestoreAction::Build { state, with_uffd, clock_realtime } && {
            &&& is_overridden(loaded, params, state)
            &&& with_uffd == has_uffd(params.mem_backend.backend_type)
            &&& clock_realtime == params.clock_realtime
            &&& sanity::memory_fault(state.vm_state.memory.regions@) is None
            &&& actions[1] == (RestoreAction::UpdateConfig {
                state,
                update: config_update(loaded, params),
            })
            &&& events[2] matches RestoreEvent::ConfigUpdated { updated, huge_pages, .. }
                && updated is Ok && (actions[2] matches RestoreAction::LoadMemory {
                huge_pages: given,
                steps,
                ..
            } && given == huge_pages && memory_plan(
                params,
                prepared,
                huge_pages,
                state.vm_state.memory.regions@,
            ) == Ok::<
                Seq<MemoryStep<'_>>,
                MemoryFailure,
            >(steps@))
        }),
        events[3] matches RestoreEvent::MemoryLoaded { loaded: Ok(_), .. },
        events[4] matches RestoreEvent::Built(Ok(_)),
{
    let n = events.len() as int;
    assert(restore_step(params, prepared, events[n - 1], actions[n - 1]));
    assert(events[n - 1] is Built);
    assert(restore_answers(actions[n - 2], events[n - 1]));
    assert(restore_step(params, prepared, events[n - 2], actions[n - 2]));
    assert(events[n - 2] is MemoryLoaded);
    assert(restore_answers(actions[n - 3], events[n - 2]));
    assert(restore_step(params, prepared, events[n - 3], actions[n - 3]));
    assert(events[n - 3] is ConfigUpdated);
    assert(restore_answers(actions[n - 4], events[n - 3]));
    assert(restore_step(params, prepared, events[n - 4], actions[n - 4]));
    assert(events[n - 4] is StateLoaded);
    assert(restore_answers(actions[n - 5], events[n - 4]));
    assert(restore_step(params, prepared, events[n - 5], actions[n - 5]));
    assert(events[n - 5] is Start);
    assert(n == 5);
}

/// What has happened while the first phase of a hybrid load runs.
#[derive(Debug)]
pub enum PrepareEvent {
    /// Nothing yet.
    Start,
    /// The state was asked to be loaded from its file.
    StateLoaded(Result<MicrovmState, SnapshotStateFromFileError>),
    /// Guest memory was asked to be prepared.
    MemoryPrepared(Result<(), GuestMemoryFromHybridError>),
}

/// What to do next in the first phase of a hybrid load.
#[derive(Debug)]
pub enum PrepareAction<'a> {
    /// Load the state from its file: only its memory layout and page size are used.
    LoadState {
        /// The file.
        path: &'a PathBuf,
    },
    /// Prepare guest memory and hold it.
    PrepareMemory {
        /// The memory layout.
        memory: GuestMemoryState,
        /// How guest memory is backed by huge pages.
        huge_pages: HugePageConfig,
        /// The steps, in order.
        steps: Vec<MemoryStep<'a>>,
    },
    /// Stop and report this.
    Done(Result<(), RestoreFromSnapshotError>),
}

/// What the first phase of a hybrid load reports of an error.
pub open spec fn prepare_failed(err: GuestMemoryFromHybridError) -> PrepareAction<'static> {
    PrepareAction::Done(
        Err(
            RestoreFromSnapshotError::GuestMemory(RestoreFromSnapshotGuestMemoryError::Hybrid(err)),
        ),
    )
}

/// An error of the first phase is reported as one of a hybrid load.
pub proof fn law_prepare_reports(err: GuestMemoryFromHybridError)
    ensures
        prepare_failed(err) == PrepareAction::Done(
            Err(
                RestoreFromSnapshotError::GuestMemory(
                    RestoreFromSnapshotGuestMemoryError::Hybrid(err),
                ),
            ),
        ),
{
}

/// Decides the next step of the first phase of a hybrid load. The snapshot may be that of the
/// base: only the layout of its memory is used, and the second phase checks it.
pub fn prepare_hybrid_from_params<'a>(params: &'a LoadSnapshotParams, event: PrepareEvent) -> (
action: PrepareAction<'a>)
    ensures
        match event {
            PrepareEvent::Start => if params.mem_backend.backend_type != MemBackendType::Hybrid {
                action == prepare_failed(GuestMemoryFromHybridError::InvalidPhase)
            } else {
                action == (PrepareAction::LoadState { path: &params.snapshot_path })
            },
            PrepareEvent::StateLoaded(Err(err)) => action == PrepareAction::Done(
                Err(RestoreFromSnapshotError::File(err)),
            ),
            PrepareEvent::StateLoaded(Ok(state)) => if backend::fills_pages(&params.mem_backend) {
                action == prepare_failed(GuestMemoryFromHybridError::InvalidPhase)
            } else if params.mem_backend.base_mem_path is None {
                action == prepare_failed(GuestMemoryFromHybridError::MissingBase)
            } else {
                &&& action matches PrepareAction::PrepareMemory { memory, huge_pages, steps }
                &&& memory == state.vm_state.memory
                &&& huge_pages == state.vm_info.huge_pages
                &&& steps@ == backend::prepare_steps(
                    &params.mem_backend,
                    &params.mem_backend.base_mem_path->0,
                    params.track_dirty_pages,
                    state.vm_info.huge_pages.page_bytes() as usize,
                )
            },
            PrepareEvent::MemoryPrepared(Ok(_)) => action == PrepareAction::Done(Ok(())),
            PrepareEvent::MemoryPrepared(Err(err)) => action == prepare_failed(err),
        },
{
    match event {
        PrepareEvent::Start => {
            if params.mem_backend.backend_type != MemBackendType::Hybrid {
                return PrepareAction::Done(
                    Err(
                        RestoreFromSnapshotError::GuestMemory(
                            RestoreFromSnapshotGuestMemoryError::Hybrid(
                                GuestMemoryFromHybridError::InvalidPhase,
                            ),
                        ),
                    ),
                );
            }
            PrepareAction::LoadState { path: &params.snapshot_path }
        },
        PrepareEvent::StateLoaded(Err(err)) => PrepareAction::Done(
            Err(RestoreFromSnapshotError::File(err)),
        ),
        PrepareEvent::StateLoaded(Ok(state)) => {
            let huge_pages: HugePageConfig = state.vm_info.huge_pages;
            match prepare_hybrid(&params.mem_backend, params.track_dirty_pages, huge_pages) {
                Ok(steps) => PrepareAction::PrepareMemory {
                    memory: state.vm_state.memory,
                    huge_pages,
                    steps,
                },
                Err(err) => PrepareAction::Done(
                    Err(
                        RestoreFromSnapshotError::GuestMemory(
                            RestoreFromSnapshotGuestMemoryError::Hybrid(err),
                        ),
                    ),
                ),
            }
        },
        PrepareEvent::MemoryPrepared(Ok(_)) => PrepareAction::Done(Ok(())),
        PrepareEvent::MemoryPrepared(Err(err)) => PrepareAction::Done(
            Err(
                RestoreFromSnapshotError::GuestMemory(
                    RestoreFromSnapshotGuestMemoryError::Hybrid(err),
                ),
            ),
        ),
    }
}

} // verus!
