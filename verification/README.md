# vmm_event

The event loop and the interrupt routing table of a small KVM virtual machine
monitor, written in Verus.

- `src/event_notifier.rs`, `src/event_context.rs`: the notifiers that register,
  change, park, resume and remove file descriptors, and the per-thread event loop
  (epoll registry, kick protocol, dispatch to handlers, garbage list). The
  registry is specified by `add_model`, `remove_model`, `op_model` and `apply_all`.
- `src/timer.rs`: the timer queue (kept in expiry order) and the guest's virtual
  clock. `src/clock.rs` reads the monotonic clock.
- `src/bitmap.rs`, `src/interrupt.rs`: the GSI bitmap and the GSI routing table.
- `src/sys.rs`: the trusted boundary to `nix` (epoll, eventfd, ppoll, read, write,
  clock) and `kvm-ioctls`.
- `app/`: the global loops and their threads, closures as handlers, error types
  with messages, and conversions to `kvm-bindings` and `vmm-sys-util` types.

Each loop keeps, as ghost state, a record of the epoll requests it makes and the
kernel's answers, its waits, the handler calls with their answers, the poll
handler calls, the loop manager's answers, the writes to
and drains of its kick eventfd, and the timers it runs; the contracts state each
function's effect on that record, so that what is handed to the kernel and to the
handlers is specified, not only the registry.

Times are nanoseconds of `CLOCK_MONOTONIC`; event bits are epoll's.
