//! Taking and loading snapshots.
use std::path::PathBuf;

use vm_snapshot::backend::{
    file_error, finish_prepared_hybrid, guest_memory_from_file, guest_memory_from_hybrid,
    guest_memory_from_precopy, guest_memory_from_uffd, hybrid_error, prepare_hybrid, uffd_error,
    FileFailure, HybridFailure, MemoryStep, PreparedHybrid, RegisterMode, UffdFailure,
};
use vm_snapshot::config::{
    default_dirty_memory_sync, CreateSnapshotParams, CreateSnapshotStateParams, LoadPhase,
    LoadSnapshotParams, MemBackendConfig, MemBackendType, NetworkOverride, SnapshotType, VsockOverride,
};
use vm_snapshot::create::{
    create_snapshot, create_state_snapshot, snapshot_state_to_file, CreateSnapshotAction,
    CreateSnapshotEvent, StateFileAction, StateFileEvent, StateSnapshotAction, StateSnapshotEvent,
};
use vm_snapshot::errors::{
    BuildMicrovmFromSnapshotError, ComponentError, CreateSnapshotError, GuestMemoryFromFileError,
    GuestMemoryFromHybridError, GuestMemoryFromUffdError, MachineConfigError, MicrovmStateError,
    RestoreFromSnapshotError, RestoreFromSnapshotGuestMemoryError, SnapShotStateSanityCheckError,
    SnapshotStateFromFileError,
};
use vm_snapshot::memory::{
    GuestMemoryRegionState, GuestMemoryState, GuestRegionMmap, GuestRegionType, HugePageConfig,
};
use vm_snapshot::restore::{
    prepare_hybrid_from_params, restore_from_snapshot, MemoryFailure, PrepareAction, PrepareEvent,
    RestoreAction, RestoreEvent,
};
use vm_snapshot::sanity::{
    check_memory, snapshot_state_sanity_check, validate_cpu_manufacturer_id, validate_cpu_vendor,
    CpuIdLog, CpuIdMessage, HostCpuId,
};
use vm_snapshot::state::{
    BootSource, BootSourceConfig, ConnectedState, MachineConfig, MachineConfigUpdate, MicrovmState,
    NetState, StaticCpuTemplate, VcpuState, VmInfo, VmResources, Vmm, VsockBackendState,
    VsockState, SNAPSHOT_VERSION_MAJOR, SNAPSHOT_VERSION_MINOR, SNAPSHOT_VERSION_PATCH,
};

const INTEL: [u8; 12] = *b"GenuineIntel";
const AMD: [u8; 12] = *b"AuthenticAMD";

fn io_error() -> std::io::Error {
    std::io::Error::from_raw_os_error(libc::EIO)
}

fn component(detail: &str) -> ComponentError {
    ComponentError { detail: detail.to_string() }
}

fn dram(plugged: Vec<bool>) -> GuestMemoryRegionState {
    GuestMemoryRegionState {
        base_address: 0,
        size: 0x20000,
        region_type: GuestRegionType::Dram,
        plugged,
    }
}

fn hotpluggable() -> GuestMemoryRegionState {
    GuestMemoryRegionState {
        base_address: 0x1_0000_0000,
        size: 0x20000,
        region_type: GuestRegionType::Hotpluggable,
        plugged: vec![false, true],
    }
}

fn vcpu() -> VcpuState {
    VcpuState { vendor_id: Some(INTEL), manufacturer_id: Some(0x41), saved: vec![] }
}

fn net(id: &str, tap: &str) -> ConnectedState<NetState> {
    ConnectedState {
        device_state: NetState {
            id: id.to_string(),
            tap_if_name: tap.to_string(),
            saved: vec![1, 2],
        },
        transport: vec![3],
    }
}

fn vsock(path: &str) -> ConnectedState<VsockState> {
    ConnectedState {
        device_state: VsockState {
            backend: VsockBackendState { uds_path: path.to_string() },
            saved: vec![4],
        },
        transport: vec![5],
    }
}

fn state_with(regions: Vec<GuestMemoryRegionState>) -> MicrovmState {
    let mut state = MicrovmState::default();
    state.vm_info.mem_size_mib = 128;
    state.vm_state.memory.regions = regions;
    state.vcpu_states = vec![vcpu(), vcpu()];
    state
}

fn sound_state() -> MicrovmState {
    state_with(vec![dram(vec![true])])
}

fn backend(backend_type: MemBackendType) -> MemBackendConfig {
    MemBackendConfig {
        backend_path: PathBuf::from("/run/backend"),
        backend_type,
        ..MemBackendConfig::default()
    }
}

fn load_params(mem_backend: MemBackendConfig) -> LoadSnapshotParams {
    LoadSnapshotParams {
        snapshot_path: PathBuf::from("/snap/state"),
        mem_backend,
        track_dirty_pages: true,
        resume_vm: false,
        network_overrides: vec![],
        vsock_override: None,
        clock_realtime: true,
        phase: None,
    }
}

fn config_updated(state: MicrovmState, huge_pages: HugePageConfig) -> RestoreEvent {
    RestoreEvent::ConfigUpdated {
        state,
        updated: Ok(()),
        huge_pages,
        host: HostCpuId::Vendor(Some(INTEL)),
    }
}

// ---------- what is said of a VM ----------

fn machine() -> MachineConfig {
    MachineConfig {
        vcpu_count: 2,
        mem_size_mib: 256,
        smt: true,
        cpu_template: StaticCpuTemplate::T2,
        track_dirty_pages: false,
        huge_pages: HugePageConfig::Hugetlbfs2M,
    }
}

fn boot() -> BootSourceConfig {
    BootSourceConfig {
        kernel_image_path: "/boot/vmlinux".to_string(),
        initrd_path: None,
        boot_args: Some("quiet".to_string()),
    }
}

#[test]
fn vm_info_comes_from_resources_and_from_a_vm() {
    let expected = VmInfo {
        mem_size_mib: 256,
        smt: true,
        cpu_template: StaticCpuTemplate::T2,
        boot_source: boot(),
        huge_pages: HugePageConfig::Hugetlbfs2M,
    };
    let resources =
        VmResources { machine_config: machine(), boot_source: BootSource { config: boot() } };
    assert_eq!(VmInfo::from(&resources), expected);
    let vmm = Vmm { machine_config: machine(), boot_source_config: boot() };
    assert_eq!(VmInfo::from(&vmm), expected);
    assert_eq!(expected.clone(), expected);
}

#[test]
fn defaults() {
    assert_eq!(SnapshotType::default(), SnapshotType::Full);
    assert_eq!(MemBackendType::default(), MemBackendType::File);
    assert!(default_dirty_memory_sync());
    let info = VmInfo::default();
    assert_eq!(info.mem_size_mib, 0);
    assert_eq!(info.boot_source, BootSourceConfig::default());
    assert_eq!(info.cpu_template, StaticCpuTemplate::default());
    assert_eq!(
        (SNAPSHOT_VERSION_MAJOR, SNAPSHOT_VERSION_MINOR, SNAPSHOT_VERSION_PATCH),
        (10, 0, 0)
    );
    assert!(GuestMemoryState::default().regions.is_empty());
}

// ---------- taking a snapshot ----------

#[test]
fn a_state_file_is_opened_written_flushed_and_synced() {
    assert!(matches!(
        snapshot_state_to_file(false, StateFileEvent::Start),
        StateFileAction::Open
    ));
    assert!(matches!(
        snapshot_state_to_file(false, StateFileEvent::Opened(Ok(()))),
        StateFileAction::Save
    ));
    assert!(matches!(
        snapshot_state_to_file(false, StateFileEvent::Saved(Ok(()))),
        StateFileAction::Flush
    ));
    assert!(matches!(
        snapshot_state_to_file(false, StateFileEvent::Flushed(Ok(()))),
        StateFileAction::Sync
    ));
    assert!(matches!(
        snapshot_state_to_file(true, StateFileEvent::Flushed(Ok(()))),
        StateFileAction::Done(Ok(()))
    ));
    assert!(matches!(
        snapshot_state_to_file(false, StateFileEvent::Synced(Ok(()))),
        StateFileAction::Done(Ok(()))
    ));
}

fn backing_file_operation(action: StateFileAction) -> &'static str {
    match action {
        StateFileAction::Done(Err(CreateSnapshotError::SnapshotBackingFile(operation, err))) => {
            assert_eq!(err.raw_os_error(), Some(libc::EIO));
            operation
        }
        other => panic!("unexpected action: {other:?}"),
    }
}

#[test]
fn state_file_errors_name_the_operation() {
    let opened = snapshot_state_to_file(false, StateFileEvent::Opened(Err(io_error())));
    assert_eq!(backing_file_operation(opened), "open");
    let flushed = snapshot_state_to_file(true, StateFileEvent::Flushed(Err(io_error())));
    assert_eq!(backing_file_operation(flushed), "flush");
    let synced = snapshot_state_to_file(false, StateFileEvent::Synced(Err(io_error())));
    assert_eq!(backing_file_operation(synced), "sync_all");
    match snapshot_state_to_file(false, StateFileEvent::Saved(Err(component("too large")))) {
        StateFileAction::Done(Err(CreateSnapshotError::SerializeMicrovmState(err))) => {
            assert_eq!(err.detail, "too large")
        }
        other => panic!("unexpected action: {other:?}"),
    }
}

fn create_params() -> CreateSnapshotParams {
    CreateSnapshotParams {
        snapshot_type: SnapshotType::Diff,
        snapshot_path: PathBuf::from("/snap/state"),
        mem_file_path: PathBuf::from("/snap/mem"),
    }
}

#[test]
fn a_snapshot_is_taken_step_by_step() {
    let info = VmInfo { mem_size_mib: 7, ..VmInfo::default() };
    let params = create_params();
    match create_snapshot(&info, &params, CreateSnapshotEvent::Start) {
        CreateSnapshotAction::SaveState(said) => assert_eq!(said.mem_size_mib, 7),
        other => panic!("unexpected action: {other:?}"),
    }
    match create_snapshot(&info, &params, CreateSnapshotEvent::StateSaved(Ok(sound_state()))) {
        CreateSnapshotAction::WriteState { state, path, no_sync } => {
            assert_eq!(state.vm_info.mem_size_mib, 128);
            assert_eq!(path, &params.snapshot_path);
            assert!(!no_sync);
        }
        other => panic!("unexpected action: {other:?}"),
    }
    assert!(matches!(
        create_snapshot(&info, &params, CreateSnapshotEvent::StateWritten(Ok(()))),
        CreateSnapshotAction::FindKvm
    ));
    match create_snapshot(&info, &params, CreateSnapshotEvent::KvmFound(true)) {
        CreateSnapshotAction::WriteMemory { path, snapshot_type } => {
            assert_eq!(path, &params.mem_file_path);
            assert_eq!(snapshot_type, SnapshotType::Diff);
        }
        other => panic!("unexpected action: {other:?}"),
    }
    assert!(matches!(
        create_snapshot(&info, &params, CreateSnapshotEvent::MemoryWritten(Ok(()))),
        CreateSnapshotAction::MarkQueues
    ));
    assert!(matches!(
        create_snapshot(&info, &params, CreateSnapshotEvent::QueuesMarked),
        CreateSnapshotAction::Done(Ok(()))
    ));
}

#[test]
fn a_snapshot_stops_at_the_first_error() {
    let info = VmInfo::default();
    let params = create_params();
    let unsaved =
        CreateSnapshotEvent::StateSaved(Err(MicrovmStateError::UnexpectedVcpuResponse));
    assert!(matches!(
        create_snapshot(&info, &params, unsaved),
        CreateSnapshotAction::Done(Err(CreateSnapshotError::MicrovmState(
            MicrovmStateError::UnexpectedVcpuResponse
        )))
    ));
    let unwritten = CreateSnapshotEvent::StateWritten(Err(
        CreateSnapshotError::SerializeMicrovmState(component("x")),
    ));
    assert!(matches!(
        create_snapshot(&info, &params, unwritten),
        CreateSnapshotAction::Done(Err(CreateSnapshotError::SerializeMicrovmState(_)))
    ));
    match create_snapshot(&info, &params, CreateSnapshotEvent::KvmFound(false)) {
        CreateSnapshotAction::Done(Err(CreateSnapshotError::MicrovmState(
            MicrovmStateError::NotAllowed(reason),
        ))) => assert_eq!(reason, "snapshot requires KVM"),
        other => panic!("unexpected action: {other:?}"),
    }
    let no_memory =
        CreateSnapshotEvent::MemoryWritten(Err(CreateSnapshotError::Memory(component("y"))));
    assert!(matches!(
        create_snapshot(&info, &params, no_memory),
        CreateSnapshotAction::Done(Err(CreateSnapshotError::Memory(_)))
    ));
}

#[test]
fn a_state_snapshot_may_leave_out_the_sync() {
    let info = VmInfo::default();
    let params =
        CreateSnapshotStateParams { snapshot_path: PathBuf::from("/snap/state"), no_sync: true };
    assert!(matches!(
        create_state_snapshot(&info, &params, StateSnapshotEvent::Start),
        StateSnapshotAction::SaveState(_)
    ));
    match create_state_snapshot(&info, &params, StateSnapshotEvent::StateSaved(Ok(sound_state()))) {
        StateSnapshotAction::WriteState { path, no_sync, .. } => {
            assert_eq!(path, &params.snapshot_path);
            assert!(no_sync);
        }
        other => panic!("unexpected action: {other:?}"),
    }
    assert!(matches!(
        create_state_snapshot(&info, &params, StateSnapshotEvent::StateWritten(Ok(()))),
        StateSnapshotAction::Done(Ok(()))
    ));
    let unsaved = StateSnapshotEvent::StateSaved(Err(MicrovmStateError::SignalVcpu(component("z"))));
    assert!(matches!(
        create_state_snapshot(&info, &params, unsaved),
        StateSnapshotAction::Done(Err(CreateSnapshotError::MicrovmState(
            MicrovmStateError::SignalVcpu(_)
        )))
    ));
}

// ---------- checks on a loaded state ----------

fn fault_of(regions: Vec<GuestMemoryRegionState>) -> Option<SnapShotStateSanityCheckError> {
    snapshot_state_sanity_check(&state_with(regions), HostCpuId::Vendor(None)).err()
}

#[test]
fn memory_is_checked() {
    assert_eq!(fault_of(vec![]), Some(SnapShotStateSanityCheckError::NoMemory));
    assert_eq!(fault_of(vec![hotpluggable()]), Some(SnapShotStateSanityCheckError::NoDramMemory));
    assert_eq!(
        fault_of(vec![hotpluggable(), dram(vec![])]),
        Some(SnapShotStateSanityCheckError::DramMemoryTooManySlots)
    );
    assert_eq!(
        fault_of(vec![dram(vec![true]), dram(vec![true, true]), dram(vec![false])]),
        Some(SnapShotStateSanityCheckError::DramMemoryTooManySlots)
    );
    assert_eq!(
        fault_of(vec![dram(vec![false])]),
        Some(SnapShotStateSanityCheckError::DramMemoryUnplugged)
    );
    assert_eq!(fault_of(vec![dram(vec![true]), hotpluggable(), dram(vec![true])]), None);
}

#[test]
fn cpu_vendors_are_compared() {
    let state = sound_state();
    assert_eq!(
        validate_cpu_vendor(&state, Some(INTEL)),
        vec![CpuIdMessage::Host(INTEL), CpuIdMessage::Snapshot(INTEL)]
    );
    assert_eq!(
        validate_cpu_vendor(&state, Some(AMD)),
        vec![CpuIdMessage::Host(AMD), CpuIdMessage::Snapshot(INTEL), CpuIdMessage::Differ]
    );
    assert_eq!(
        validate_cpu_vendor(&state, None),
        vec![CpuIdMessage::HostUnknown, CpuIdMessage::Snapshot(INTEL)]
    );
    let mut unknown = sound_state();
    unknown.vcpu_states[0].vendor_id = None;
    assert_eq!(
        validate_cpu_vendor(&unknown, Some(AMD)),
        vec![CpuIdMessage::Host(AMD), CpuIdMessage::SnapshotUnknown]
    );
    assert_eq!(
        validate_cpu_vendor(&unknown, None),
        vec![CpuIdMessage::HostUnknown, CpuIdMessage::SnapshotUnknown]
    );
}

#[test]
fn cpu_manufacturers_are_compared() {
    let state = sound_state();
    assert_eq!(
        validate_cpu_manufacturer_id(&state, Some(0x41)),
        vec![CpuIdMessage::Host(0x41), CpuIdMessage::Snapshot(0x41), CpuIdMessage::Snapshot(0x41)]
    );
    assert_eq!(
        validate_cpu_manufacturer_id(&state, Some(0x42)),
        vec![
            CpuIdMessage::Host(0x42),
            CpuIdMessage::Snapshot(0x41),
            CpuIdMessage::Snapshot(0x41),
            CpuIdMessage::Differ,
        ]
    );
    let mut unknown = sound_state();
    unknown.vcpu_states[0].manufacturer_id = None;
    assert_eq!(
        validate_cpu_manufacturer_id(&unknown, None),
        vec![
            CpuIdMessage::HostUnknown,
            CpuIdMessage::SnapshotUnknown,
            CpuIdMessage::Snapshot(0x41),
        ]
    );
    match snapshot_state_sanity_check(&state, HostCpuId::Manufacturer(Some(0x42))) {
        Ok(CpuIdLog::Manufacturer(log)) => assert_eq!(log.len(), 4),
        other => panic!("unexpected result: {other:?}"),
    }
}

#[test]
fn the_manufacturer_of_each_vcpu_counts() {
    let mut mixed = sound_state();
    mixed.vcpu_states[1].manufacturer_id = Some(0x51);
    assert_eq!(
        validate_cpu_manufacturer_id(&mixed, Some(0x41)),
        vec![
            CpuIdMessage::Host(0x41),
            CpuIdMessage::Snapshot(0x41),
            CpuIdMessage::Snapshot(0x51),
            CpuIdMessage::Differ,
        ]
    );
    // Nothing differs from a manufacturer that is not known.
    assert!(!validate_cpu_manufacturer_id(&mixed, None).contains(&CpuIdMessage::Differ));
    mixed.vcpu_states[1].manufacturer_id = None;
    assert_eq!(
        validate_cpu_manufacturer_id(&mixed, Some(0x41)),
        vec![CpuIdMessage::Host(0x41), CpuIdMessage::Snapshot(0x41), CpuIdMessage::SnapshotUnknown]
    );
}

#[test]
fn memory_is_checked_without_a_vcpu() {
    assert_eq!(check_memory(&vec![]), Some(SnapShotStateSanityCheckError::NoMemory));
    assert_eq!(check_memory(&vec![dram(vec![true])]), None);
    let mut no_vcpu = state_with(vec![hotpluggable()]);
    no_vcpu.vcpu_states.clear();
    assert_eq!(
        snapshot_state_sanity_check(&no_vcpu, HostCpuId::Vendor(None)).err(),
        Some(SnapShotStateSanityCheckError::NoDramMemory)
    );
}

// ---------- loading guest memory ----------

#[test]
fn file_and_handler_backends() {
    let path = PathBuf::from("/run/backend");
    assert_eq!(
        guest_memory_from_file(&path, true),
        vec![MemoryStep::MapFile { path: &path, track_dirty_pages: true }]
    );
    assert_eq!(
        guest_memory_from_file(&path, false),
        vec![MemoryStep::MapFile { path: &path, track_dirty_pages: false }]
    );
    assert_eq!(
        guest_memory_from_uffd(&path, false, HugePageConfig::Hugetlbfs2M),
        vec![
            MemoryStep::MapAnonymous {
                track_dirty_pages: false,
                huge_pages: HugePageConfig::Hugetlbfs2M,
            },
            MemoryStep::BuildUffd,
            MemoryStep::RegisterAll { mode: RegisterMode::Missing },
            MemoryStep::Handshake { socket: &path, with_base: false },
        ]
    );
}

fn full_hybrid() -> MemBackendConfig {
    MemBackendConfig {
        base_mem_path: Some(PathBuf::from("/dev/shm/base")),
        dirty_pages_path: Some(PathBuf::from("/x/residual")),
        eager_delta_path: Some(PathBuf::from("/x/delta")),
        eager_pages_path: Some(PathBuf::from("/x/trusted")),
        prefill_pages_path: Some(PathBuf::from("/x/warm")),
        ..backend(MemBackendType::Hybrid)
    }
}

#[test]
fn a_hybrid_load_isolates_fills_registers_and_shakes_hands() {
    let config = full_hybrid();
    let base = config.base_mem_path.as_ref().unwrap();
    let list = config.dirty_pages_path.as_ref().unwrap();
    let steps = guest_memory_from_hybrid(&config, true, HugePageConfig::Small).unwrap();
    assert_eq!(
        steps,
        vec![
            MemoryStep::MapFile { path: base, track_dirty_pages: true },
            MemoryStep::ReadResidual { list, page_size: 4096 },
            MemoryStep::Overlay { list, page_size: 4096 },
            MemoryStep::Prefault {
                manifest: config.prefill_pages_path.as_ref().unwrap(),
                page_size: 4096,
            },
            MemoryStep::ApplyDelta {
                delta: config.eager_delta_path.as_ref().unwrap(),
                list: config.eager_pages_path.as_ref().unwrap(),
            },
            MemoryStep::CreateUffd,
            MemoryStep::Register { list, page_size: 4096, mode: RegisterMode::Missing },
            MemoryStep::Handshake { socket: &config.backend_path, with_base: true },
        ]
    );
}

#[test]
fn a_hybrid_load_needs_both_eager_files() {
    let config = MemBackendConfig {
        base_mem_path: Some(PathBuf::from("/dev/shm/base")),
        eager_pages_path: Some(PathBuf::from("/x/trusted")),
        ..backend(MemBackendType::Hybrid)
    };
    let steps = guest_memory_from_hybrid(&config, true, HugePageConfig::Small).unwrap();
    assert_eq!(
        steps,
        vec![
            MemoryStep::MapFile {
                path: config.base_mem_path.as_ref().unwrap(),
                track_dirty_pages: true,
            },
            MemoryStep::CreateUffd,
            MemoryStep::Handshake { socket: &config.backend_path, with_base: true },
        ]
    );
    let no_base = backend(MemBackendType::Hybrid);
    assert!(matches!(
        guest_memory_from_hybrid(&no_base, true, HugePageConfig::Small),
        Err(GuestMemoryFromHybridError::MissingBase)
    ));
}

fn plain_hybrid(list: Option<&str>) -> MemBackendConfig {
    MemBackendConfig {
        base_mem_path: Some(PathBuf::from("/dev/shm/base")),
        dirty_pages_path: list.map(PathBuf::from),
        ..backend(MemBackendType::Hybrid)
    }
}

fn prepared() -> PreparedHybrid {
    let mem_state = GuestMemoryState { regions: vec![dram(vec![true])] };
    let guest_memory = vec![GuestRegionMmap { host_addr: 0x10_0000, size: 0x20000 }];
    PreparedHybrid::new(guest_memory, &mem_state, HugePageConfig::Small)
}

#[test]
fn two_phases_do_what_one_does() {
    let first = plain_hybrid(Some("/x/residual"));
    let second = plain_hybrid(None);
    let mem_state = GuestMemoryState { regions: vec![dram(vec![true])] };
    let held = prepared();
    let mut steps = prepare_hybrid(&first, true, HugePageConfig::Small).unwrap();
    steps.extend(finish_prepared_hybrid(&held, &second, &mem_state).unwrap());
    let mut one_go = guest_memory_from_hybrid(&first, true, HugePageConfig::Small).unwrap();
    one_go.retain(|step| !matches!(step, MemoryStep::ReadResidual { .. }));
    assert_eq!(steps, one_go);
    assert_eq!(held.guest_memory().len(), 1);
    assert_eq!(held.backend_mappings()[0].base_host_virt_addr, 0x10_0000);
}

#[test]
fn the_second_phase_registers_the_last_dirty_pages() {
    let config = plain_hybrid(Some("/x/last"));
    let mem_state = GuestMemoryState { regions: vec![dram(vec![true])] };
    let list = config.dirty_pages_path.as_ref().unwrap();
    assert_eq!(
        finish_prepared_hybrid(&prepared(), &config, &mem_state).unwrap(),
        vec![
            MemoryStep::Overlay { list, page_size: 4096 },
            MemoryStep::Register { list, page_size: 4096, mode: RegisterMode::Missing },
            MemoryStep::Handshake { socket: &config.backend_path, with_base: true },
        ]
    );
}

#[test]
fn two_phases_fill_in_nothing_and_keep_the_layout() {
    let mem_state = GuestMemoryState { regions: vec![dram(vec![true])] };
    assert!(matches!(
        prepare_hybrid(&full_hybrid(), true, HugePageConfig::Small),
        Err(GuestMemoryFromHybridError::InvalidPhase)
    ));
    assert!(matches!(
        prepare_hybrid(&backend(MemBackendType::Hybrid), true, HugePageConfig::Small),
        Err(GuestMemoryFromHybridError::MissingBase)
    ));
    assert!(matches!(
        finish_prepared_hybrid(&prepared(), &full_hybrid(), &mem_state),
        Err(GuestMemoryFromHybridError::InvalidPhase)
    ));
    let other = GuestMemoryState { regions: vec![dram(vec![true]), hotpluggable()] };
    assert!(matches!(
        finish_prepared_hybrid(&prepared(), &plain_hybrid(None), &other),
        Err(GuestMemoryFromHybridError::PreparedMismatch)
    ));
}

#[test]
fn precopy_copies_the_delta_in() {
    let config = MemBackendConfig {
        base_mem_path: Some(PathBuf::from("/base")),
        dirty_pages_path: Some(PathBuf::from("/x/dirty")),
        ..backend(MemBackendType::Precopy)
    };
    assert_eq!(
        guest_memory_from_precopy(&config, true).unwrap(),
        vec![
            MemoryStep::MapFile {
                path: config.base_mem_path.as_ref().unwrap(),
                track_dirty_pages: true,
            },
            MemoryStep::ApplyDelta {
                delta: &config.backend_path,
                list: config.dirty_pages_path.as_ref().unwrap(),
            },
        ]
    );
    assert!(matches!(
        guest_memory_from_precopy(&backend(MemBackendType::Precopy), true),
        Err(GuestMemoryFromHybridError::MissingBase)
    ));
}

#[test]
fn failures_of_a_base_load_are_reported_by_kind() {
    assert!(matches!(
        hybrid_error(HybridFailure::Open(io_error())),
        GuestMemoryFromHybridError::Io(_)
    ));
    assert!(matches!(
        hybrid_error(HybridFailure::Mapping(component("m"))),
        GuestMemoryFromHybridError::Restore(_)
    ));
    assert!(matches!(
        hybrid_error(HybridFailure::Overlay(io_error())),
        GuestMemoryFromHybridError::Io(_)
    ));
    assert!(matches!(
        hybrid_error(HybridFailure::Create(io_error())),
        GuestMemoryFromHybridError::Uffd(_)
    ));
    assert!(matches!(
        hybrid_error(HybridFailure::Register(component("r"))),
        GuestMemoryFromHybridError::Register(_)
    ));
    assert!(matches!(
        hybrid_error(HybridFailure::Connect(io_error())),
        GuestMemoryFromHybridError::Io(_)
    ));
    match hybrid_error(HybridFailure::Send(vmm_sys_util::errno::Error::new(libc::EPIPE))) {
        GuestMemoryFromHybridError::Send(err) => assert_eq!(err.errno(), libc::EPIPE),
        other => panic!("unexpected error: {other:?}"),
    }
}

#[test]
fn failures_of_a_file_load_are_reported_by_kind() {
    match file_error(FileFailure::Open(io_error())) {
        GuestMemoryFromFileError::File(err) => assert_eq!(err.raw_os_error(), Some(libc::EIO)),
        other => panic!("unexpected error: {other:?}"),
    }
    assert!(matches!(
        file_error(FileFailure::Mapping(component("m"))),
        GuestMemoryFromFileError::Restore(_)
    ));
}

#[test]
fn failures_of_a_handler_load_are_reported_by_kind() {
    assert!(matches!(
        uffd_error(UffdFailure::Mapping(component("m"))),
        GuestMemoryFromUffdError::Restore(_)
    ));
    assert!(matches!(
        uffd_error(UffdFailure::Create(component("c"))),
        GuestMemoryFromUffdError::Create(_)
    ));
    assert!(matches!(
        uffd_error(UffdFailure::Register(component("r"))),
        GuestMemoryFromUffdError::Register(_)
    ));
    assert!(matches!(
        uffd_error(UffdFailure::Connect(io_error())),
        GuestMemoryFromUffdError::Connect(_)
    ));
    match uffd_error(UffdFailure::Send(vmm_sys_util::errno::Error::new(libc::EPIPE))) {
        GuestMemoryFromUffdError::Send(err) => assert_eq!(err.errno(), libc::EPIPE),
        other => panic!("unexpected error: {other:?}"),
    }
}

// ---------- loading a snapshot ----------

#[test]
fn a_load_starts_with_the_state() {
    let params = load_params(backend(MemBackendType::File));
    match restore_from_snapshot(&params, None, RestoreEvent::Start) {
        RestoreAction::LoadState { path } => assert_eq!(path, &params.snapshot_path),
        other => panic!("unexpected action: {other:?}"),
    }
    let missing =
        RestoreEvent::StateLoaded(Err(SnapshotStateFromFileError::Open(io_error())));
    assert!(matches!(
        restore_from_snapshot(&params, None, missing),
        RestoreAction::Done(Err(RestoreFromSnapshotError::File(SnapshotStateFromFileError::Open(
            _
        ))))
    ));
    let broken =
        RestoreEvent::StateLoaded(Err(SnapshotStateFromFileError::Load(component("crc"))));
    assert!(matches!(
        restore_from_snapshot(&params, None, broken),
        RestoreAction::Done(Err(RestoreFromSnapshotError::File(SnapshotStateFromFileError::Load(
            _
        ))))
    ));
}

fn change(id: &str, tap: &str) -> NetworkOverride {
    NetworkOverride { iface_id: id.to_string(), host_dev_name: tap.to_string() }
}

#[test]
fn devices_are_changed_and_the_machine_is_configured() {
    let mut params = load_params(backend(MemBackendType::File));
    params.network_overrides =
        vec![change("eth0", "tap7"), change("eth1", "tap8"), change("eth0", "tap9")];
    params.vsock_override = Some(VsockOverride { uds_path: "/new.sock".to_string() });
    let mut state = sound_state();
    state.device_states.mmio_state.net_devices = vec![net("eth2", "tap2"), net("eth0", "tap0")];
    state.device_states.pci_state.net_devices = vec![net("eth0", "tap5"), net("eth1", "tap1")];
    state.device_states.pci_state.vsock_device = Some(vsock("/old.sock"));
    match restore_from_snapshot(&params, None, RestoreEvent::StateLoaded(Ok(state))) {
        RestoreAction::UpdateConfig { state, update } => {
            let devices = &state.device_states;
            assert_eq!(
                devices.mmio_state.net_devices,
                vec![net("eth2", "tap2"), net("eth0", "tap9")]
            );
            assert_eq!(
                devices.pci_state.net_devices,
                vec![net("eth0", "tap5"), net("eth1", "tap8")]
            );
            assert_eq!(devices.mmio_state.vsock_device, None);
            assert_eq!(devices.pci_state.vsock_device, Some(vsock("/new.sock")));
            assert_eq!(
                update,
                MachineConfigUpdate {
                    vcpu_count: Some(2),
                    mem_size_mib: Some(128),
                    smt: Some(false),
                    cpu_template: Some(StaticCpuTemplate::Unset),
                    track_dirty_pages: Some(true),
                    huge_pages: Some(HugePageConfig::Small),
                }
            );
        }
        other => panic!("unexpected action: {other:?}"),
    }
}

#[test]
fn the_vsock_device_on_mmio_comes_first() {
    let mut params = load_params(backend(MemBackendType::File));
    params.vsock_override = Some(VsockOverride { uds_path: "/new.sock".to_string() });
    let mut state = sound_state();
    state.device_states.mmio_state.vsock_device = Some(vsock("/a.sock"));
    state.device_states.pci_state.vsock_device = Some(vsock("/b.sock"));
    match restore_from_snapshot(&params, None, RestoreEvent::StateLoaded(Ok(state))) {
        RestoreAction::UpdateConfig { state, .. } => {
            assert_eq!(state.device_states.mmio_state.vsock_device, Some(vsock("/new.sock")));
            assert_eq!(state.device_states.pci_state.vsock_device, Some(vsock("/b.sock")));
        }
        other => panic!("unexpected action: {other:?}"),
    }
}

#[test]
fn unknown_devices_and_too_many_vcpus_are_refused() {
    let mut params = load_params(backend(MemBackendType::File));
    params.network_overrides = vec![change("eth9", "tap9")];
    params.vsock_override = Some(VsockOverride { uds_path: "/new.sock".to_string() });
    assert!(matches!(
        restore_from_snapshot(&params, None, RestoreEvent::StateLoaded(Ok(sound_state()))),
        RestoreAction::Done(Err(RestoreFromSnapshotError::File(
            SnapshotStateFromFileError::UnknownNetworkDevice
        )))
    ));
    params.network_overrides = vec![];
    assert!(matches!(
        restore_from_snapshot(&params, None, RestoreEvent::StateLoaded(Ok(sound_state()))),
        RestoreAction::Done(Err(RestoreFromSnapshotError::File(
            SnapshotStateFromFileError::UnknownVsockDevice
        )))
    ));
    params.vsock_override = None;
    let mut crowded = sound_state();
    while crowded.vcpu_states.len() < 256 {
        crowded.vcpu_states.push(vcpu());
    }
    assert!(matches!(
        restore_from_snapshot(&params, None, RestoreEvent::StateLoaded(Ok(crowded))),
        RestoreAction::Done(Err(RestoreFromSnapshotError::Build(
            BuildMicrovmFromSnapshotError::VmUpdateConfig(MachineConfigError::InvalidVcpuCount)
        )))
    ));
}

#[test]
fn configuration_and_sanity_are_checked_before_memory() {
    let params = load_params(backend(MemBackendType::File));
    let refused = RestoreEvent::ConfigUpdated {
        state: sound_state(),
        updated: Err(MachineConfigError::Other(component("smt"))),
        huge_pages: HugePageConfig::Small,
        host: HostCpuId::Vendor(None),
    };
    assert!(matches!(
        restore_from_snapshot(&params, None, refused),
        RestoreAction::Done(Err(RestoreFromSnapshotError::Build(
            BuildMicrovmFromSnapshotError::VmUpdateConfig(MachineConfigError::Other(_))
        )))
    ));
    let unsound = config_updated(state_with(vec![]), HugePageConfig::Small);
    assert!(matches!(
        restore_from_snapshot(&params, None, unsound),
        RestoreAction::Done(Err(RestoreFromSnapshotError::Invalid(
            SnapShotStateSanityCheckError::NoMemory
        )))
    ));
}

fn steps_of<'a>(
    params: &'a LoadSnapshotParams,
    held: Option<&PreparedHybrid>,
    huge_pages: HugePageConfig,
) -> Vec<MemoryStep<'a>> {
    match restore_from_snapshot(params, held, config_updated(sound_state(), huge_pages)) {
        RestoreAction::LoadMemory { state, log, huge_pages: given, steps } => {
            assert_eq!(given, huge_pages);
            assert_eq!(state.vcpu_states.len(), 2);
            assert_eq!(
                log,
                CpuIdLog::Vendor(vec![CpuIdMessage::Host(INTEL), CpuIdMessage::Snapshot(INTEL)])
            );
            steps
        }
        other => panic!("unexpected action: {other:?}"),
    }
}

#[test]
fn memory_is_loaded_by_its_backend() {
    let file = load_params(backend(MemBackendType::File));
    assert_eq!(steps_of(&file, None, HugePageConfig::Small).len(), 1);
    let uffd = load_params(backend(MemBackendType::Uffd));
    assert_eq!(
        steps_of(&uffd, None, HugePageConfig::Hugetlbfs2M)[0],
        MemoryStep::MapAnonymous {
            track_dirty_pages: true,
            huge_pages: HugePageConfig::Hugetlbfs2M,
        }
    );
    let hybrid = load_params(full_hybrid());
    assert_eq!(steps_of(&hybrid, None, HugePageConfig::Small).len(), 8);
    let two_phase = load_params(plain_hybrid(Some("/x/last")));
    assert_eq!(steps_of(&two_phase, Some(&prepared()), HugePageConfig::Small).len(), 3);
    let precopy = load_params(MemBackendConfig {
        base_mem_path: Some(PathBuf::from("/base")),
        ..backend(MemBackendType::Precopy)
    });
    assert_eq!(steps_of(&precopy, None, HugePageConfig::Small).len(), 1);
}

#[test]
fn memory_that_cannot_be_loaded_is_refused() {
    let file = load_params(backend(MemBackendType::File));
    let huge = config_updated(sound_state(), HugePageConfig::Hugetlbfs2M);
    assert!(matches!(
        restore_from_snapshot(&file, None, huge),
        RestoreAction::Done(Err(RestoreFromSnapshotError::GuestMemory(
            RestoreFromSnapshotGuestMemoryError::File(GuestMemoryFromFileError::HugetlbfsSnapshot)
        )))
    ));
    let precopy = load_params(backend(MemBackendType::Precopy));
    let event = config_updated(sound_state(), HugePageConfig::Small);
    assert!(matches!(
        restore_from_snapshot(&precopy, None, event),
        RestoreAction::Done(Err(RestoreFromSnapshotError::GuestMemory(
            RestoreFromSnapshotGuestMemoryError::Precopy(GuestMemoryFromHybridError::MissingBase)
        )))
    ));
    let hybrid = load_params(backend(MemBackendType::Hybrid));
    let event = config_updated(sound_state(), HugePageConfig::Small);
    assert!(matches!(
        restore_from_snapshot(&hybrid, None, event),
        RestoreAction::Done(Err(RestoreFromSnapshotError::GuestMemory(
            RestoreFromSnapshotGuestMemoryError::Hybrid(GuestMemoryFromHybridError::MissingBase)
        )))
    ));
}

#[test]
fn a_resume_needs_prepared_memory() {
    let mut params = load_params(plain_hybrid(Some("/x/last")));
    params.phase = Some(LoadPhase::Resume);
    let event = config_updated(sound_state(), HugePageConfig::Small);
    assert!(matches!(
        restore_from_snapshot(&params, None, event),
        RestoreAction::Done(Err(RestoreFromSnapshotError::GuestMemory(
            RestoreFromSnapshotGuestMemoryError::Hybrid(GuestMemoryFromHybridError::InvalidPhase)
        )))
    ));
    assert_eq!(steps_of(&params, Some(&prepared()), HugePageConfig::Small).len(), 3);
    // Without a base as well: the phase is what is wrong first.
    params.mem_backend.base_mem_path = None;
    let event = config_updated(sound_state(), HugePageConfig::Small);
    assert!(matches!(
        restore_from_snapshot(&params, None, event),
        RestoreAction::Done(Err(RestoreFromSnapshotError::GuestMemory(
            RestoreFromSnapshotGuestMemoryError::Hybrid(GuestMemoryFromHybridError::InvalidPhase)
        )))
    ));
}

fn memory_error(backend_type: MemBackendType, failure: MemoryFailure) -> RestoreFromSnapshotError {
    let params = load_params(backend(backend_type));
    let event = RestoreEvent::MemoryLoaded { state: sound_state(), loaded: Err(failure) };
    match restore_from_snapshot(&params, None, event) {
        RestoreAction::Done(Err(err)) => err,
        other => panic!("unexpected action: {other:?}"),
    }
}

#[test]
fn memory_errors_are_reported_by_backend() {
    let file = MemoryFailure::File(GuestMemoryFromFileError::File(io_error()));
    assert!(matches!(
        memory_error(MemBackendType::File, file),
        RestoreFromSnapshotError::GuestMemory(RestoreFromSnapshotGuestMemoryError::File(_))
    ));
    let uffd = MemoryFailure::Uffd(GuestMemoryFromUffdError::Create(component("uffd")));
    assert!(matches!(
        memory_error(MemBackendType::Uffd, uffd),
        RestoreFromSnapshotError::GuestMemory(RestoreFromSnapshotGuestMemoryError::Uffd(_))
    ));
    let hybrid = MemoryFailure::Base(GuestMemoryFromHybridError::Io(io_error()));
    assert!(matches!(
        memory_error(MemBackendType::Hybrid, hybrid),
        RestoreFromSnapshotError::GuestMemory(RestoreFromSnapshotGuestMemoryError::Hybrid(_))
    ));
    let precopy = MemoryFailure::Base(GuestMemoryFromHybridError::Io(io_error()));
    assert!(matches!(
        memory_error(MemBackendType::Precopy, precopy),
        RestoreFromSnapshotError::GuestMemory(RestoreFromSnapshotGuestMemoryError::Precopy(_))
    ));
}

#[test]
fn a_load_ends_with_the_vm_built() {
    let params = load_params(backend(MemBackendType::File));
    let loaded = RestoreEvent::MemoryLoaded { state: sound_state(), loaded: Ok(()) };
    match restore_from_snapshot(&params, None, loaded) {
        RestoreAction::Build { state, with_uffd, clock_realtime } => {
            assert_eq!(state.vm_info.mem_size_mib, 128);
            assert!(!with_uffd);
            assert!(clock_realtime);
        }
        other => panic!("unexpected action: {other:?}"),
    }
    assert!(matches!(
        restore_from_snapshot(&params, None, RestoreEvent::Built(Ok(()))),
        RestoreAction::Done(Ok(()))
    ));
    let failed = BuildMicrovmFromSnapshotError::Other(component("devices"));
    assert!(matches!(
        restore_from_snapshot(&params, None, RestoreEvent::Built(Err(failed))),
        RestoreAction::Done(Err(RestoreFromSnapshotError::Build(
            BuildMicrovmFromSnapshotError::Other(_)
        )))
    ));
}

fn built_with_uffd(backend_type: MemBackendType, held: Option<&PreparedHybrid>) -> bool {
    let params = load_params(backend(backend_type));
    let loaded = RestoreEvent::MemoryLoaded { state: sound_state(), loaded: Ok(()) };
    match restore_from_snapshot(&params, held, loaded) {
        RestoreAction::Build { with_uffd, .. } => with_uffd,
        other => panic!("unexpected action: {other:?}"),
    }
}

#[test]
fn a_vm_gets_a_userfaultfd_where_a_handler_serves_it() {
    assert!(!built_with_uffd(MemBackendType::File, None));
    assert!(built_with_uffd(MemBackendType::Uffd, None));
    assert!(built_with_uffd(MemBackendType::Hybrid, None));
    assert!(built_with_uffd(MemBackendType::Hybrid, Some(&prepared())));
    assert!(!built_with_uffd(MemBackendType::Precopy, None));
    // Memory that is held for a hybrid load changes nothing for another.
    assert!(!built_with_uffd(MemBackendType::File, Some(&prepared())));
    assert!(!built_with_uffd(MemBackendType::Precopy, Some(&prepared())));
}

#[test]
fn memory_is_mapped_with_the_tracking_asked_for() {
    let base = Some(PathBuf::from("/base"));
    for track in [false, true] {
        for backend_type in [
            MemBackendType::File,
            MemBackendType::Uffd,
            MemBackendType::Hybrid,
            MemBackendType::Precopy,
        ] {
            let mut params = load_params(MemBackendConfig {
                base_mem_path: base.clone(),
                ..backend(backend_type)
            });
            params.track_dirty_pages = track;
            let flags: Vec<bool> = steps_of(&params, None, HugePageConfig::Small)
                .iter()
                .filter_map(|step| match step {
                    MemoryStep::MapFile { track_dirty_pages, .. } => Some(*track_dirty_pages),
                    MemoryStep::MapAnonymous { track_dirty_pages, .. } => Some(*track_dirty_pages),
                    _ => None,
                })
                .collect();
            assert_eq!(flags, vec![track]);
        }
    }
}

#[test]
fn preparing_is_for_hybrid_backends_only() {
    let file = load_params(backend(MemBackendType::File));
    assert!(matches!(
        prepare_hybrid_from_params(&file, PrepareEvent::Start),
        PrepareAction::Done(Err(RestoreFromSnapshotError::GuestMemory(
            RestoreFromSnapshotGuestMemoryError::Hybrid(GuestMemoryFromHybridError::InvalidPhase)
        )))
    ));
    let hybrid = load_params(plain_hybrid(Some("/x/residual")));
    assert!(matches!(
        prepare_hybrid_from_params(&hybrid, PrepareEvent::Start),
        PrepareAction::LoadState { .. }
    ));
    match prepare_hybrid_from_params(&hybrid, PrepareEvent::StateLoaded(Ok(sound_state()))) {
        PrepareAction::PrepareMemory { memory, huge_pages, steps } => {
            assert_eq!(memory.regions(), vec![(0, 0x20000)]);
            assert_eq!(huge_pages, HugePageConfig::Small);
            assert_eq!(steps.len(), 4);
            assert!(matches!(steps[0], MemoryStep::MapFile { track_dirty_pages: true, .. }));
        }
        other => panic!("unexpected action: {other:?}"),
    }
    assert!(matches!(
        prepare_hybrid_from_params(&hybrid, PrepareEvent::MemoryPrepared(Ok(()))),
        PrepareAction::Done(Ok(()))
    ));
    let unregistered = GuestMemoryFromHybridError::Register(component("range"));
    assert!(matches!(
        prepare_hybrid_from_params(&hybrid, PrepareEvent::MemoryPrepared(Err(unregistered))),
        PrepareAction::Done(Err(RestoreFromSnapshotError::GuestMemory(
            RestoreFromSnapshotGuestMemoryError::Hybrid(GuestMemoryFromHybridError::Register(_))
        )))
    ));
    let missing = SnapshotStateFromFileError::Open(io_error());
    assert!(matches!(
        prepare_hybrid_from_params(&hybrid, PrepareEvent::StateLoaded(Err(missing))),
        PrepareAction::Done(Err(RestoreFromSnapshotError::File(_)))
    ));
    let filling = load_params(full_hybrid());
    assert!(matches!(
        prepare_hybrid_from_params(&filling, PrepareEvent::StateLoaded(Ok(sound_state()))),
        PrepareAction::Done(Err(RestoreFromSnapshotError::GuestMemory(
            RestoreFromSnapshotGuestMemoryError::Hybrid(GuestMemoryFromHybridError::InvalidPhase)
        )))
    ));
}
