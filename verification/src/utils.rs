use vstd::prelude::*;
use crate::sys::fd_read_u64;

verus! {

/// Hook for registering event helpers; the event loop needs nothing here.
pub fn register_event_helper() {
}

/// Hook for unregistering event helpers; the event loop needs nothing here.
pub fn unregister_event_helper() {
}

/// How many rounds of poll handlers an I/O thread runs before it waits.
pub const AIO_PRFETCH_CYCLE_TIME: usize = 100;

/// The value `read_fd` gives for a read with outcome `res` that left the counter
/// `v` in its buffer: that value, or 0 if the read failed.
pub open spec fn read_value(res: Result<usize, i32>, v: u64) -> u64 {
    match res {
        Ok(_) => v,
        Err(_) => 0,
    }
}

/// Reads the eight-byte counter of an eventfd `fd`, in the host's byte order; 0 if
/// the read fails. What the counter holds rests on the descriptor; the value
/// given for each outcome of the read is stated by `eventfd_value`.
pub fn read_fd(fd: i32) -> (value: u64)
    ensures
        exists|res: Result<usize, i32>, v: u64| value == read_value(res, v),
{
    let (res, v) = fd_read_u64(fd);
    eventfd_value(res, v)
}

/// The value of an eventfd read with outcome `res` that left the counter `v` in
/// its buffer: `v`, or 0 if the read failed.
pub fn eventfd_value(res: Result<usize, i32>, v: u64) -> (value: u64)
    ensures
        value == read_value(res, v),
{
    match res {
        Ok(_) => v,
        Err(_) => 0,
    }
}

/// Errors of the event loop.
#[derive(Debug, Clone, Copy, PartialEq, Eq, Structural)]
pub enum UtilError {
    /// The notifier operation is not allowed in the current state.
    BadNotifierOperation,
    /// The parked fd is not registered.
    NoParkedFd(i32),
    /// The fd is not registered in epoll.
    NoRegisterFd(i32),
    /// A system call failed with the given errno.
    BadSyscall(i32),
    /// Waiting on epoll failed with the given errno.
    EpollWait(i32),
    /// The loop manager failed to clean up.
    ManagerCleanup,
}

} // verus!
