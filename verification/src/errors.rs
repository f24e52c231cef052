//! What can go wrong while a snapshot is taken or loaded.
use vstd::prelude::*;

verus! {

/// An error of another part of the monitor, or of a userfaultfd, carried as text.
#[derive(Debug, PartialEq, Eq)]
pub struct ComponentError {
    /// What went wrong.
    pub detail: String,
}

/// Errors of saving and restoring the state of a VM.
#[derive(Debug)]
pub enum MicrovmStateError {
    /// The operation is not allowed.
    NotAllowed(String),
    /// Devices cannot be restored.
    RestoreDevices(ComponentError),
    /// The state of a vCPU cannot be saved.
    SaveVcpuState(ComponentError),
    /// The state of the KVM VM cannot be saved.
    SaveVmState(ComponentError),
    /// A vCPU cannot be signalled.
    SignalVcpu(ComponentError),
    /// A vCPU is in an unexpected state.
    UnexpectedVcpuResponse,
}

/// Errors of taking a snapshot.
#[derive(Debug)]
pub enum CreateSnapshotError {
    /// The dirty bitmap cannot be had.
    DirtyBitmap(ComponentError),
    /// The memory file cannot be written.
    Memory(ComponentError),
    /// An operation on the memory file failed.
    MemoryBackingFile(&'static str, std::io::Error),
    /// The state of the VM cannot be saved.
    MicrovmState(MicrovmStateError),
    /// The state of the VM cannot be serialized.
    SerializeMicrovmState(ComponentError),
    /// An operation on the snapshot file failed.
    SnapshotBackingFile(&'static str, std::io::Error),
}

/// Errors of the checks on a loaded state.
#[derive(Clone, Copy, Debug, PartialEq, Eq, Structural)]
pub enum SnapShotStateSanityCheckError {
    /// No memory region.
    NoMemory,
    /// No DRAM region.
    NoDramMemory,
    /// A DRAM region does not have exactly one slot.
    DramMemoryTooManySlots,
    /// A DRAM region is unplugged.
    DramMemoryUnplugged,
}

/// Errors of the machine configuration.
#[derive(Debug)]
pub enum MachineConfigError {
    /// The number of vCPUs is not one that a VM can have.
    InvalidVcpuCount,
    /// Any other.
    Other(ComponentError),
}

/// Errors of building a VM from a loaded state.
#[derive(Debug)]
pub enum BuildMicrovmFromSnapshotError {
    /// The machine configuration cannot be updated.
    VmUpdateConfig(MachineConfigError),
    /// Any other.
    Other(ComponentError),
}

/// Errors of loading a snapshot.
#[derive(Debug)]
pub enum RestoreFromSnapshotError {
    /// The state cannot be had from its file.
    File(SnapshotStateFromFileError),
    /// The state is not valid.
    Invalid(SnapShotStateSanityCheckError),
    /// Guest memory cannot be loaded.
    GuestMemory(RestoreFromSnapshotGuestMemoryError),
    /// The VM cannot be built.
    Build(BuildMicrovmFromSnapshotError),
}

/// Errors of loading guest memory, by backend.
#[derive(Debug)]
pub enum RestoreFromSnapshotGuestMemoryError {
    /// From a file.
    File(GuestMemoryFromFileError),
    /// From a page-fault handler.
    Uffd(GuestMemoryFromUffdError),
    /// From a shared base and a page-fault handler.
    Hybrid(GuestMemoryFromHybridError),
    /// From a shared base and a delta file.
    Precopy(GuestMemoryFromHybridError),
}

/// Errors of having a state from its file.
#[derive(Debug)]
pub enum SnapshotStateFromFileError {
    /// The file cannot be opened.
    Open(std::io::Error),
    /// The state cannot be loaded from the file.
    Load(ComponentError),
    /// A network device to change is not in the state.
    UnknownNetworkDevice,
    /// The vsock device to change is not in the state.
    UnknownVsockDevice,
}

/// Errors of loading guest memory from a file.
#[derive(Debug)]
pub enum GuestMemoryFromFileError {
    /// The file cannot be opened.
    File(std::io::Error),
    /// Guest memory cannot be mapped.
    Restore(ComponentError),
    /// A snapshot backed by hugetlbfs cannot be restored by mapping the file.
    HugetlbfsSnapshot,
}

/// Errors of loading guest memory through a page-fault handler.
#[derive(Debug)]
pub enum GuestMemoryFromUffdError {
    /// Guest memory cannot be mapped.
    Restore(ComponentError),
    /// The userfaultfd cannot be created.
    Create(ComponentError),
    /// A region cannot be registered with the userfaultfd.
    Register(ComponentError),
    /// The handler's socket cannot be connected to.
    Connect(std::io::Error),
    /// The file descriptor cannot be sent.
    Send(vmm_sys_util::errno::Error),
}

/// Errors of loading guest memory from a shared base.
#[derive(Debug)]
pub enum GuestMemoryFromHybridError {
    /// No base was named.
    MissingBase,
    /// Guest memory cannot be mapped.
    Restore(ComponentError),
    /// An operation on a file or a mapping failed.
    Io(std::io::Error),
    /// The userfaultfd cannot be created.
    Uffd(std::io::Error),
    /// A range cannot be registered with the userfaultfd.
    Register(ComponentError),
    /// The file descriptors cannot be sent.
    Send(vmm_sys_util::errno::Error),
    /// The resume phase came without a prepare phase, or a request in two phases asks for eager
    /// or prefilled pages.
    InvalidPhase,
    /// The memory that was prepared is laid out differently from this snapshot's.
    PreparedMismatch,
}

} // verus!
