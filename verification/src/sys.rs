//! Trusted boundary: the operating-system facilities that the event loop and the
//! interrupt table reach through outside crates. Nothing in this file is proved;
//! each item's doc comment says what its contract claims of the outside code.
use vstd::prelude::*;
use nix::sys::epoll::{EpollCreateFlags, EpollEvent, EpollFlags, EpollOp};
use nix::sys::eventfd::EfdFlags;
use nix::poll::{PollFd, PollFlags};
use nix::sys::time::TimeSpec;
use nix::time::ClockId;
use kvm_ioctls::{Cap, Kvm};

verus! {

/// `nix::sys::epoll::EpollEvent`, one `epoll_event` record (opaque).
#[verifier::external_type_specification]
#[verifier::external_body]
pub struct ExEpollEvent(EpollEvent);

/// `kvm_ioctls::Kvm`, an open handle to `/dev/kvm` (opaque).
#[verifier::external_type_specification]
#[verifier::external_body]
pub struct ExKvm(Kvm);

/// The three `epoll_ctl` operations.
#[derive(Debug, Clone, Copy, PartialEq, Eq, Structural)]
pub enum CtlOp {
    Add,
    Modify,
    Delete,
}

/// Calls `nix::sys::epoll::epoll_create1(EPOLL_CLOEXEC)`; an error is handed back
/// as its errno. Whether the kernel grants an instance is not stated.
#[verifier::external_body]
pub(crate) fn epoll_create() -> (r: Result<i32, i32>) {
    nix::sys::epoll::epoll_create1(EpollCreateFlags::EPOLL_CLOEXEC).map_err(|e| e as i32)
}

/// Calls `nix::sys::epoll::epoll_ctl` with a record built by `EpollEvent::new` from
/// the event bits and the user data; an error is handed back as its errno. The
/// outcome rests on the kernel, so nothing is stated of it.
#[verifier::external_body]
pub(crate) fn epoll_ctl(epfd: i32, op: CtlOp, fd: i32, events: u32, data: u64) -> (r: Result<(), i32>) {
    let operation = match op {
        CtlOp::Add => EpollOp::EpollCtlAdd,
        CtlOp::Modify => EpollOp::EpollCtlMod,
        CtlOp::Delete => EpollOp::EpollCtlDel,
    };
    let mut event = EpollEvent::new(EpollFlags::from_bits_truncate(events as i32), data);
    nix::sys::epoll::epoll_ctl(epfd, operation, fd, &mut event).map_err(|e| e as i32)
}

/// Calls `nix::sys::epoll::epoll_wait`, which fills a prefix of `events` and returns
/// how many records it wrote. The vector keeps its length (it is lent as a slice);
/// how many events come back rests on the kernel and is not stated.
#[verifier::external_body]
pub(crate) fn epoll_wait(epfd: i32, events: &mut Vec<EpollEvent>, timeout_ms: i32) -> (r: Result<usize, i32>)
    ensures
        final(events).len() == old(events).len(),
{
    nix::sys::epoll::epoll_wait(epfd, events.as_mut_slice(), timeout_ms as isize).map_err(|e| e as i32)
}

/// Calls `EpollEvent::empty`, the record with no events and data 0.
#[verifier::external_body]
pub(crate) fn epoll_event_empty() -> (r: EpollEvent) {
    EpollEvent::empty()
}

/// Calls `EpollEvent::events`, the event bits of a record (nix unwraps them into
/// its flag type, which holds every bit the kernel reports for epoll).
#[verifier::external_body]
pub(crate) fn epoll_event_bits(event: &EpollEvent) -> (r: u32) {
    event.events().bits() as u32
}

/// Calls `EpollEvent::data`, the user data of a record.
#[verifier::external_body]
pub(crate) fn epoll_event_data(event: &EpollEvent) -> (r: u64) {
    event.data()
}


/// Calls `nix::sys::eventfd::eventfd(0, EFD_NONBLOCK)`; an error is handed back as
/// its errno. Whether the kernel grants the descriptor is not stated.
#[verifier::external_body]
pub(crate) fn eventfd_create() -> (r: Result<i32, i32>) {
    nix::sys::eventfd::eventfd(0, EfdFlags::EFD_NONBLOCK).map_err(|e| e as i32)
}

/// Calls `nix::unistd::write` with the eight native-endian bytes of `value`;
/// the byte count written or the errno comes back. Nothing is stated of it.
#[verifier::external_body]
pub(crate) fn fd_write_u64(fd: i32, value: u64) -> (r: Result<usize, i32>) {
    nix::unistd::write(fd, &value.to_ne_bytes()).map_err(|e| e as i32)
}

/// Calls `nix::unistd::read` into an eight-byte buffer that starts zeroed, and hands
/// back the byte count (or the errno) with the buffer read as a native-endian
/// `u64` (`u64::from_ne_bytes`), the layout of an eventfd counter. What the
/// descriptor holds is not stated.
#[verifier::external_body]
pub(crate) fn fd_read_u64(fd: i32) -> (r: (Result<usize, i32>, u64)) {
    let mut buf = [0u8; 8];
    let res = nix::unistd::read(fd, &mut buf).map_err(|e| e as i32);
    (res, u64::from_ne_bytes(buf))
}

/// Calls `nix::poll::ppoll` on the one descriptor `fd` with the poll event bits
/// `events`, a timeout of `timeout_ns` nanoseconds (`TimeSpec::from_duration`) and
/// no signal mask; the count of ready descriptors or the errno comes back.
#[verifier::external_body]
pub(crate) fn ppoll_one(fd: i32, events: i16, timeout_ns: u64) -> (r: Result<i32, i32>) {
    let mut fds = [PollFd::new(fd, PollFlags::from_bits_truncate(events))];
    let timeout = TimeSpec::from_duration(std::time::Duration::from_nanos(timeout_ns));
    nix::poll::ppoll(&mut fds, Some(timeout), None).map_err(|e| e as i32)
}

/// Calls `nix::time::clock_gettime(CLOCK_MONOTONIC)` and hands back the seconds and
/// nanoseconds fields of the reading, or the errno. A reading rests on the time,
/// so nothing is stated of it.
#[verifier::external_body]
pub(crate) fn clock_monotonic() -> (r: Result<(i64, i64), i32>) {
    match nix::time::clock_gettime(ClockId::CLOCK_MONOTONIC) {
        Ok(ts) => Ok((ts.tv_sec() as i64, ts.tv_nsec() as i64)),
        Err(e) => Err(e as i32),
    }
}

/// Calls `Kvm::check_extension_int(Cap::IrqRouting)`, the `KVM_CHECK_EXTENSION`
/// ioctl, whose answer is the number of GSI routes the host supports (or an
/// error code). It rests on the host, so nothing is stated of it.
#[verifier::external_body]
pub(crate) fn kvm_irq_routing_limit(kvm: &Kvm) -> (r: i32) {
    kvm.check_extension_int(Cap::IrqRouting)
}

} // verus!
