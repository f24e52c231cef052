//! Outside types and constants that the library carries or reads.
use vstd::prelude::*;

verus! {

/// `std::io::Error`, carried through unread.
#[verifier::external_type_specification]
#[verifier::external_body]
pub struct ExIoError(std::io::Error);

/// `std::path::PathBuf`, carried through unread.
#[verifier::external_type_specification]
#[verifier::external_body]
pub struct ExPathBuf(std::path::PathBuf);

/// `vmm_sys_util::errno::Error`, carried through unread.
#[verifier::external_type_specification]
#[verifier::external_body]
pub struct ExErrno(vmm_sys_util::errno::Error);

/// `kvm_bindings::KVM_CAP_DIRTY_LOG_RING`: the number of the legacy dirty-ring capability is
/// 192 on every architecture.
#[verifier::external_body]
pub(crate) fn cap_dirty_log_ring() -> (cap: u32)
    ensures
        cap == 192,
{
    kvm_bindings::KVM_CAP_DIRTY_LOG_RING
}

/// `kvm_bindings::KVM_CAP_DIRTY_LOG_RING_ACQ_REL`: the number of the acquire/release
/// dirty-ring capability is 223 on every architecture.
#[verifier::external_body]
pub(crate) fn cap_dirty_log_ring_acq_rel() -> (cap: u32)
    ensures
        cap == 223,
{
    kvm_bindings::KVM_CAP_DIRTY_LOG_RING_ACQ_REL
}

/// `kvm_bindings::KVM_CAP_DIRTY_LOG_RING_WITH_BITMAP`: the number of the capability that adds
/// the per-memslot bitmap to the ring is 225 on every architecture.
#[verifier::external_body]
pub(crate) fn cap_dirty_log_ring_with_bitmap() -> (cap: u32)
    ensures
        cap == 225,
{
    kvm_bindings::KVM_CAP_DIRTY_LOG_RING_WITH_BITMAP
}

/// `libc::EAGAIN`: the number of the error "try again" is 11 on Linux, the only system with KVM.
#[verifier::external_body]
pub(crate) fn errno_again() -> (errno: i32)
    ensures
        errno == 11,
{
    libc::EAGAIN
}

/// `libc::EEXIST`: the number of the error "exists already" is 17 on Linux, the only system with
/// KVM.
#[verifier::external_body]
pub(crate) fn errno_exists() -> (errno: i32)
    ensures
        errno == 17,
{
    libc::EEXIST
}

/// `libc::ESRCH`: the number of the error "no such process" is 3 on Linux, the only system with
/// KVM.
#[verifier::external_body]
pub(crate) fn errno_no_process() -> (errno: i32)
    ensures
        errno == 3,
{
    libc::ESRCH
}

} // verus!
