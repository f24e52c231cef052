//! The state of a VM that a snapshot holds.
use vstd::prelude::*;

use crate::memory::{GuestMemoryState, HugePageConfig};

verus! {

/// The numbers of the version of the snapshot format.
pub const SNAPSHOT_VERSION_MAJOR: u64 = 10;

/// See [`SNAPSHOT_VERSION_MAJOR`].
pub const SNAPSHOT_VERSION_MINOR: u64 = 0;

/// See [`SNAPSHOT_VERSION_MAJOR`].
pub const SNAPSHOT_VERSION_PATCH: u64 = 0;

/// The CPU templates that are built in.
#[derive(Clone, Copy, Debug, PartialEq, Eq, Structural)]
pub enum StaticCpuTemplate {
    /// Template for Intel hosts, to look like a C3 instance.
    C3,
    /// Template for Intel hosts, to look like a T2 instance.
    T2,
    /// Template for Intel hosts that also hides what differs between their generations.
    T2S,
    /// Template for Intel hosts of the Cascade Lake generation and later.
    T2CL,
    /// Template for AMD hosts.
    T2A,
    /// Template for Arm hosts.
    V1N1,
    /// No template.
    Unset,
}

impl Default for StaticCpuTemplate {
    fn default() -> (template: StaticCpuTemplate)
        ensures
            template == StaticCpuTemplate::Unset,
    {
        StaticCpuTemplate::Unset
    }
}

/// What a VM boots from.
#[derive(Debug, PartialEq, Eq)]
pub struct BootSourceConfig {
    /// The path of the kernel image.
    pub kernel_image_path: String,
    /// The path of the initrd, if any.
    pub initrd_path: Option<String>,
    /// The kernel's command line, if any.
    pub boot_args: Option<String>,
}

impl Default for BootSourceConfig {
    fn default() -> (config: BootSourceConfig)
        ensures
            config.kernel_image_path@ == Seq::<char>::empty(),
            config.initrd_path is None,
            config.boot_args is None,
    {
        BootSourceConfig { kernel_image_path: String::new(), initrd_path: None, boot_args: None }
    }
}

/// A copy of an optional string.
fn copied(text: &Option<String>) -> (r: Option<String>)
    ensures
        r == *text,
{
    match text {
        Some(text) => Some(text.clone()),
        None => None,
    }
}

impl Clone for BootSourceConfig {
    fn clone(&self) -> (config: BootSourceConfig)
        ensures
            config == *self,
    {
        BootSourceConfig {
            kernel_image_path: self.kernel_image_path.clone(),
            initrd_path: copied(&self.initrd_path),
            boot_args: copied(&self.boot_args),
        }
    }
}

/// The machine that a VM is configured to be.
#[derive(Debug, PartialEq, Eq)]
pub struct MachineConfig {
    /// The number of vCPUs.
    pub vcpu_count: u8,
    /// Guest memory size in MiB.
    pub mem_size_mib: usize,
    /// Whether simultaneous multithreading is on.
    pub smt: bool,
    /// The CPU template.
    pub cpu_template: StaticCpuTemplate,
    /// Whether dirty pages are tracked.
    pub track_dirty_pages: bool,
    /// How guest memory is backed by huge pages.
    pub huge_pages: HugePageConfig,
}

/// Changes to a machine configuration; what is absent stays as it is.
#[derive(Clone, Copy, Debug, PartialEq, Eq, Structural)]
pub struct MachineConfigUpdate {
    /// The number of vCPUs.
    pub vcpu_count: Option<u8>,
    /// Guest memory size in MiB.
    pub mem_size_mib: Option<usize>,
    /// Whether simultaneous multithreading is on.
    pub smt: Option<bool>,
    /// The CPU template.
    pub cpu_template: Option<StaticCpuTemplate>,
    /// Whether dirty pages are tracked.
    pub track_dirty_pages: Option<bool>,
    /// How guest memory is backed by huge pages.
    pub huge_pages: Option<HugePageConfig>,
}

/// What a VM boots from, as the resources of a VM hold it.
#[derive(Debug, PartialEq, Eq)]
pub struct BootSource {
    /// The configuration.
    pub config: BootSourceConfig,
}

/// The resources that a VM is to be built from.
#[derive(Debug, PartialEq, Eq)]
pub struct VmResources {
    /// The machine.
    pub machine_config: MachineConfig,
    /// What it boots from.
    pub boot_source: BootSource,
}

/// A VM that was built.
#[derive(Debug, PartialEq, Eq)]
pub struct Vmm {
    /// The machine.
    pub machine_config: MachineConfig,
    /// What it booted from.
    pub boot_source_config: BootSourceConfig,
}

/// What a snapshot says of a VM beside the state of its parts.
#[derive(Debug, PartialEq, Eq)]
pub struct VmInfo {
    /// Guest memory size in MiB.
    pub mem_size_mib: u64,
    /// Whether simultaneous multithreading is on.
    pub smt: bool,
    /// The CPU template.
    pub cpu_template: StaticCpuTemplate,
    /// What the VM booted from.
    pub boot_source: BootSourceConfig,
    /// How guest memory is backed by huge pages.
    pub huge_pages: HugePageConfig,
}

/// What a snapshot says of a VM with this machine and boot source.
pub open spec fn info_of(machine: MachineConfig, boot_source: BootSourceConfig) -> VmInfo {
    VmInfo {
        mem_size_mib: machine.mem_size_mib as u64,
        smt: machine.smt,
        cpu_template: machine.cpu_template,
        boot_source,
        huge_pages: machine.huge_pages,
    }
}

impl Clone for VmInfo {
    fn clone(&self) -> (info: VmInfo)
        ensures
            info == *self,
    {
        VmInfo {
            mem_size_mib: self.mem_size_mib,
            smt: self.smt,
            cpu_template: self.cpu_template,
            boot_source: self.boot_source.clone(),
            huge_pages: self.huge_pages,
        }
    }
}

impl Default for VmInfo {
    fn default() -> (info: VmInfo)
        ensures
            info.mem_size_mib == 0,
            !info.smt,
            info.cpu_template == StaticCpuTemplate::Unset,
            info.boot_source.kernel_image_path@ == Seq::<char>::empty(),
            info.boot_source.initrd_path is None,
            info.boot_source.boot_args is None,
            info.huge_pages == HugePageConfig::Small,
    {
        VmInfo {
            mem_size_mib: 0,
            smt: false,
            cpu_template: StaticCpuTemplate::Unset,
            boot_source: BootSourceConfig {
                kernel_image_path: String::new(),
                initrd_path: None,
                boot_args: None,
            },
            huge_pages: HugePageConfig::Small,
        }
    }
}

impl vstd::std_specs::convert::FromSpecImpl<&VmResources> for VmInfo {
    open spec fn obeys_from_spec() -> bool {
        true
    }

    open spec fn from_spec(resources: &VmResources) -> VmInfo {
        info_of(resources.machine_config, resources.boot_source.config)
    }
}

impl From<&VmResources> for VmInfo {
    fn from(resources: &VmResources) -> (info: VmInfo) {
        VmInfo {
            mem_size_mib: resources.machine_config.mem_size_mib as u64,
            smt: resources.machine_config.smt,
            cpu_template: resources.machine_config.cpu_template,
            boot_source: resources.boot_source.config.clone(),
            huge_pages: resources.machine_config.huge_pages,
        }
    }
}

impl vstd::std_specs::convert::FromSpecImpl<&Vmm> for VmInfo {
    open spec fn obeys_from_spec() -> bool {
        true
    }

    open spec fn from_spec(vmm: &Vmm) -> VmInfo {
        info_of(vmm.machine_config, vmm.boot_source_config)
    }
}

impl From<&Vmm> for VmInfo {
    fn from(vmm: &Vmm) -> (info: VmInfo) {
        let machine_config: &MachineConfig = &vmm.machine_config;
        VmInfo {
            mem_size_mib: machine_config.mem_size_mib as u64,
            smt: machine_config.smt,
            cpu_template: machine_config.cpu_template,
            boot_source: vmm.boot_source_config.clone(),
            huge_pages: machine_config.huge_pages,
        }
    }
}

/// What is said of a VM is said of its machine and its boot source, field by field, whether it is
/// taken from the resources of a VM or from a VM that runs.
pub proof fn law_info_is_of_its_machine(resources: VmResources, vmm: Vmm)
    ensures
        ({
            let info = <VmInfo as vstd::std_specs::convert::FromSpec<&VmResources>>::from_spec(
                &resources,
            );
            &&& info.mem_size_mib == resources.machine_config.mem_size_mib
            &&& info.smt == resources.machine_config.smt
            &&& info.cpu_template == resources.machine_config.cpu_template
            &&& info.boot_source == resources.boot_source.config
            &&& info.huge_pages == resources.machine_config.huge_pages
        }),
        ({
            let info = <VmInfo as vstd::std_specs::convert::FromSpec<&Vmm>>::from_spec(&vmm);
            &&& info.mem_size_mib == vmm.machine_config.mem_size_mib
            &&& info.smt == vmm.machine_config.smt
            &&& info.cpu_template == vmm.machine_config.cpu_template
            &&& info.boot_source == vmm.boot_source_config
            &&& info.huge_pages == vmm.machine_config.huge_pages
        }),
{
}

/// The state of KVM itself, in its saved form.
#[derive(Debug, Default, PartialEq, Eq)]
pub struct KvmState {
    /// The saved form.
    pub saved: Vec<u8>,
}

/// The state of a KVM VM.
#[derive(Debug, Default, PartialEq, Eq)]
pub struct KvmVmState {
    /// Guest memory.
    pub memory: GuestMemoryState,
    /// The saved form of the rest.
    pub saved: Vec<u8>,
}

/// The state of a vCPU.
#[derive(Debug, Default, PartialEq, Eq)]
pub struct VcpuState {
    /// On x86_64, the vendor ID that the vCPU's CPUID leaves give, if they do.
    pub vendor_id: Option<[u8; 12]>,
    /// On aarch64, the manufacturer ID that the vCPU's registers give, if they do.
    pub manufacturer_id: Option<u32>,
    /// The saved form of the rest.
    pub saved: Vec<u8>,
}

/// The state of a network device.
#[derive(Debug, PartialEq, Eq)]
pub struct NetState {
    /// The interface.
    pub id: String,
    /// The name of its host device.
    pub tap_if_name: String,
    /// The saved form of the rest.
    pub saved: Vec<u8>,
}

/// The state of the host side of a vsock device.
#[derive(Debug, PartialEq, Eq)]
pub struct VsockBackendState {
    /// The path of the host socket.
    pub uds_path: String,
}

/// The state of a vsock device.
#[derive(Debug, PartialEq, Eq)]
pub struct VsockState {
    /// The host side.
    pub backend: VsockBackendState,
    /// The saved form of the rest.
    pub saved: Vec<u8>,
}

/// The state of a device and of the transport it hangs on.
#[derive(Debug, PartialEq, Eq)]
pub struct ConnectedState<D> {
    /// The device.
    pub device_state: D,
    /// The saved form of its transport.
    pub transport: Vec<u8>,
}

/// The state of the devices on one kind of transport.
#[derive(Debug, Default, PartialEq, Eq)]
pub struct TransportDevicesState {
    /// The network devices.
    pub net_devices: Vec<ConnectedState<NetState>>,
    /// The vsock device, if any.
    pub vsock_device: Option<ConnectedState<VsockState>>,
    /// The saved form of the other devices.
    pub saved: Vec<u8>,
}

/// The state of all devices.
#[derive(Debug, Default, PartialEq, Eq)]
pub struct DevicesState {
    /// The devices on MMIO.
    pub mmio_state: TransportDevicesState,
    /// The devices on PCI.
    pub pci_state: TransportDevicesState,
}

/// All that is needed to save and restore a VM.
#[derive(Debug, Default)]
pub struct MicrovmState {
    /// What else there is to say of the VM.
    pub vm_info: VmInfo,
    /// The state of KVM itself.
    pub kvm_state: KvmState,
    /// The state of the KVM VM.
    pub vm_state: KvmVmState,
    /// The states of the vCPUs.
    pub vcpu_states: Vec<VcpuState>,
    /// The states of the devices.
    pub device_states: DevicesState,
}

} // verus!
