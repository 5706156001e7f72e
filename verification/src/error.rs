//! Errors of the hypervisor layer.
use vstd::prelude::*;

verus! {

/// Errors of the hypervisor layer.
#[derive(Debug, Clone, Copy, PartialEq, Eq, Structural)]
pub enum HypervisorError {
    /// A utility (such as the GSI bitmap) refused the request.
    Util,
    /// A KVM ioctl failed with the given errno.
    KvmIoctl { source: i32 },
}

} // verus!
