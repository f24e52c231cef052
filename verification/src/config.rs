//! What a user asks for when a snapshot is taken or loaded.
use std::path::PathBuf;
use vstd::prelude::*;

verus! {

/// The kinds of snapshot that can be taken.
#[derive(Clone, Copy, Debug, PartialEq, Eq, Structural)]
pub enum SnapshotType {
    /// Diff snapshot.
    Diff,
    /// Full snapshot.
    Full,
}

impl Default for SnapshotType {
    fn default() -> (snapshot_type: SnapshotType)
        ensures
            snapshot_type == SnapshotType::Full,
    {
        SnapshotType::Full
    }
}

/// How guest memory is populated when a VM resumes from a snapshot.
#[derive(Clone, Copy, Debug, PartialEq, Eq, Structural)]
pub enum MemBackendType {
    /// From a file that holds the guest memory.
    File,
    /// By a separate process that serves page faults.
    Uffd,
    /// From a shared base that the kernel serves, but for the dirty pages that have not arrived
    /// yet: a separate process serves those.
    Hybrid,
    /// From a shared base, with the dirty pages copied in before the VM resumes. No process
    /// serves page faults.
    Precopy,
}

impl Default for MemBackendType {
    fn default() -> (backend_type: MemBackendType)
        ensures
            backend_type == MemBackendType::File,
    {
        MemBackendType::File
    }
}

/// What a user asks for when a snapshot is taken.
#[derive(Debug, PartialEq, Eq)]
pub struct CreateSnapshotParams {
    /// The kind of snapshot.
    pub snapshot_type: SnapshotType,
    /// The file that will hold the state of the VM.
    pub snapshot_path: PathBuf,
    /// The file that will hold the guest memory.
    pub mem_file_path: PathBuf,
}

/// What a user asks for when a snapshot of the state alone is taken.
#[derive(Debug, PartialEq, Eq)]
pub struct CreateSnapshotStateParams {
    /// The file that will hold the state of the VM.
    pub snapshot_path: PathBuf,
    /// Whether to leave out the sync of the file to durable storage.
    pub no_sync: bool,
}

/// What a user asks for when dirty guest memory alone is exported.
#[derive(Debug, PartialEq, Eq)]
pub struct DirtyMemoryParams {
    /// The file that will receive the dirty pages.
    pub mem_file_path: PathBuf,
    /// Whether to sync the file to durable storage.
    pub sync: bool,
    /// Whether to mark the pages of virtio queues dirty first.
    pub mark_virtio_queues: bool,
    /// Whether the pages are copied on a background thread: the request returns once the dirty
    /// bitmap is captured, and the file appears, by a rename, when the copy is complete. When the
    /// copy fails, a file with `.err` added to its name is written instead.
    pub background: bool,
    /// With dirty rings, the period in milliseconds of a harvester that runs beside the guest.
    /// 0 stands for none: the rings are harvested once per request.
    pub harvest_ms: u64,
}

/// Whether an export of dirty memory that does not say is synced.
pub fn default_dirty_memory_sync() -> (sync: bool)
    ensures
        sync,
{
    true
}

/// Gives a network device another host device when a snapshot is loaded.
#[derive(Debug, PartialEq, Eq)]
pub struct NetworkOverride {
    /// The interface to change.
    pub iface_id: String,
    /// The name of its new host device.
    pub host_dev_name: String,
}

/// Gives the vsock device another host socket when a snapshot is loaded.
#[derive(Debug, PartialEq, Eq)]
pub struct VsockOverride {
    /// The path of the new socket.
    pub uds_path: String,
}

/// The phases of a hybrid load in two steps.
#[derive(Clone, Copy, Debug, PartialEq, Eq, Structural)]
pub enum LoadPhase {
    /// Map the base, isolate and register the dirty pages so far, and hold the memory.
    Prepare,
    /// Finish on the memory held: register the last dirty pages, shake hands, restore, resume.
    Resume,
}

/// What is to be loaded, once the user's configuration is settled.
#[derive(Debug, PartialEq, Eq)]
pub struct LoadSnapshotParams {
    /// The file that holds the state of the VM.
    pub snapshot_path: PathBuf,
    /// Where guest memory comes from.
    pub mem_backend: MemBackendConfig,
    /// Whether dirty pages are tracked from now on.
    pub track_dirty_pages: bool,
    /// Whether the VM resumes once it is loaded.
    pub resume_vm: bool,
    /// The network devices to change.
    pub network_overrides: Vec<NetworkOverride>,
    /// The change to the vsock device, if any.
    pub vsock_override: Option<VsockOverride>,
    /// On x86_64, whether the guest's clock advances by the time since the snapshot was taken.
    pub clock_realtime: bool,
    /// The phase of a hybrid load in two steps; absent, the load is done in one.
    pub phase: Option<LoadPhase>,
}

/// What a user asks for when a snapshot is loaded.
#[derive(Debug)]
pub struct LoadSnapshotConfig {
    /// The file that holds the state of the VM.
    pub snapshot_path: PathBuf,
    /// The file that holds the guest memory. Only where `mem_backend` is absent.
    pub mem_file_path: Option<PathBuf>,
    /// Where guest memory comes from. Absent only where `mem_file_path` is given.
    pub mem_backend: Option<MemBackendConfig>,
    /// Whether dirty pages are tracked from now on. Deprecated in favour of
    /// `track_dirty_pages`.
    pub enable_diff_snapshots: bool,
    /// Whether dirty pages are tracked from now on.
    pub track_dirty_pages: bool,
    /// Whether the VM resumes once it is loaded.
    pub resume_vm: bool,
    /// The network devices to change.
    pub network_overrides: Vec<NetworkOverride>,
    /// The change to the vsock device, if any.
    pub vsock_override: Option<VsockOverride>,
    /// On x86_64, whether the guest's clock advances by the time since the snapshot was taken.
    pub clock_realtime: bool,
    /// The phase of a hybrid load in two steps; absent, the load is done in one.
    pub phase: Option<LoadPhase>,
}

/// Where guest memory comes from.
#[derive(Debug, Default, PartialEq, Eq)]
pub struct MemBackendConfig {
    /// The backend: the memory file, the delta file or the socket of the page-fault handler.
    pub backend_path: PathBuf,
    /// How memory is populated.
    pub backend_type: MemBackendType,
    /// For a hybrid or a precopy load, the file of the shared base.
    pub base_mem_path: Option<PathBuf>,
    /// The file that lists the offsets of dirty pages. In a hybrid load these are the residual
    /// pages, the only ones that are served on demand.
    pub dirty_pages_path: Option<PathBuf>,
    /// For a hybrid load, a delta file whose pages are copied in before the VM resumes.
    pub eager_delta_path: Option<PathBuf>,
    /// For a hybrid load, the file that lists the pages to copy from `eager_delta_path`; they
    /// are not among the residual pages.
    pub eager_pages_path: Option<PathBuf>,
    /// For a hybrid load, the file that lists the pages of the base to make resident before the
    /// VM resumes. Residual pages in it are skipped, so that they still fault.
    pub prefill_pages_path: Option<PathBuf>,
}

/// Whether a VM is paused or resumed.
#[derive(Debug)]
pub enum VmState {
    /// Paused, so that a snapshot of it can be taken.
    Paused,
    /// Resumed, as it is to be after a snapshot is loaded.
    Resumed,
}

/// What taking and loading snapshots needs to know of a VM.
#[derive(Debug)]
pub struct Vm {
    /// Whether the VM is paused or resumed.
    pub state: VmState,
}

} // verus!
