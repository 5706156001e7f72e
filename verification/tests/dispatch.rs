use nix::sys::eventfd::{eventfd, EfdFlags};
use vmm_event::event_context::EventLoopContext;
use vmm_event::event_notifier::{EventNotifier, NotifierCallBack, NotifierOperation, EVENT_IN, EVENT_OUT};
use vmm_event::timer::TimerCallBack;
use vmm_event::utils::{eventfd_value, UtilError};

/// What a handler asks of the loop when its fd is ready.
enum Act {
    /// Watch the fd for input.
    Add(i32),
    /// Replace the notifier of the first fd by a new one whose handler watches the
    /// second fd.
    Swap(i32, i32),
}

impl NotifierCallBack for Act {
    fn call(&self, _events: u32, _fd: i32) -> Option<Vec<EventNotifier<Act>>> {
        match self {
            Act::Add(fd) => Some(vec![EventNotifier::new(NotifierOperation::AddShared, *fd, None, EVENT_IN, Vec::new())]),
            Act::Swap(fd, next) => Some(vec![
                EventNotifier::new(NotifierOperation::Delete, *fd, None, EVENT_OUT, Vec::new()),
                EventNotifier::new(NotifierOperation::AddShared, *fd, None, EVENT_OUT, vec![Act::Add(*next)]),
            ]),
        }
    }
}

struct NoTimer;

impl TimerCallBack for NoTimer {
    fn call(&self) {}
}

type Ctx = EventLoopContext<Act, NoTimer, ()>;

fn new_fd() -> i32 {
    eventfd(0, EfdFlags::EFD_NONBLOCK).unwrap()
}

fn watch(ctx: &mut Ctx, fd: i32, handlers: Vec<Act>) {
    ctx.update_events(vec![EventNotifier::new(NotifierOperation::AddShared, fd, None, EVENT_OUT, handlers)]).unwrap();
}

#[test]
fn dispatch_runs_handlers_and_applies_answers() {
    let mut ctx: Ctx = EventLoopContext::new().unwrap();
    let fd = new_fd();
    let related = new_fd();
    watch(&mut ctx, fd, vec![Act::Add(related)]);
    ctx.dispatch_ready(&vec![(fd, EVENT_OUT)]);
    assert_eq!(ctx.check_existence(related), Some(true));
}

#[test]
fn dispatch_skips_unknown_and_parked_fds() {
    let mut ctx: Ctx = EventLoopContext::new().unwrap();
    let fd = new_fd();
    let related = new_fd();
    watch(&mut ctx, fd, vec![Act::Add(related)]);
    ctx.update_events(vec![EventNotifier::new(NotifierOperation::Park, fd, None, EVENT_OUT, Vec::new())]).unwrap();
    ctx.dispatch_ready(&vec![(fd, EVENT_OUT), (related, EVENT_IN)]);
    assert_eq!(ctx.check_existence(fd), Some(false));
    assert_eq!(ctx.check_existence(related), None);
}

#[test]
fn stale_ready_event_of_a_replaced_notifier_is_skipped() {
    let mut ctx: Ctx = EventLoopContext::new().unwrap();
    let first = new_fd();
    let second = new_fd();
    let third = new_fd();
    watch(&mut ctx, first, vec![Act::Swap(second, third)]);
    watch(&mut ctx, second, Vec::new());
    // The event of `second` was reported for the notifier that `first`'s handler
    // removes; the new notifier of `second` does not get it.
    ctx.dispatch_ready(&vec![(first, EVENT_OUT), (second, EVENT_OUT)]);
    assert_eq!(ctx.check_existence(second), Some(true));
    assert_eq!(ctx.check_existence(third), None);
    // A later event of `second` reaches its new notifier.
    ctx.dispatch_ready(&vec![(second, EVENT_OUT)]);
    assert_eq!(ctx.check_existence(third), Some(true));
}

#[test]
fn a_new_loop_can_add_timers() {
    let ctx: Ctx = EventLoopContext::new().unwrap();
    assert!(ctx.can_add_timer());
}

#[test]
fn failed_eventfd_read_gives_zero() {
    assert_eq!(eventfd_value(Err(11), 7), 0);
    assert_eq!(eventfd_value(Ok(8), 0x107), 0x107);
}

#[test]
fn refused_descriptors_are_syscall_errors() {
    let r: Result<Ctx, UtilError> = EventLoopContext::with_descriptors(Err(24), Ok(3));
    assert_eq!(r.err(), Some(UtilError::BadSyscall(24)));
    let r: Result<Ctx, UtilError> = EventLoopContext::with_descriptors(Ok(3), Err(23));
    assert_eq!(r.err(), Some(UtilError::BadSyscall(23)));
}

#[test]
fn park_then_resume_brings_the_notifier_back() {
    let mut ctx: Ctx = EventLoopContext::new().unwrap();
    let fd = new_fd();
    let related = new_fd();
    watch(&mut ctx, fd, vec![Act::Add(related)]);
    ctx.update_events(vec![EventNotifier::new(NotifierOperation::Park, fd, None, EVENT_OUT, Vec::new())]).unwrap();
    assert_eq!(ctx.check_existence(fd), Some(false));
    ctx.update_events(vec![EventNotifier::new(NotifierOperation::Resume, fd, None, EVENT_OUT, Vec::new())]).unwrap();
    assert_eq!(ctx.check_existence(fd), Some(true));
    ctx.dispatch_ready(&vec![(fd, EVENT_OUT)]);
    assert_eq!(ctx.check_existence(related), Some(true));
}

#[test]
fn both_handlers_answers_are_applied() {
    let mut ctx: Ctx = EventLoopContext::new().unwrap();
    let fd = new_fd();
    let r1 = new_fd();
    let r2 = new_fd();
    watch(&mut ctx, fd, vec![Act::Add(r1)]);
    watch(&mut ctx, fd, vec![Act::Add(r2)]);
    ctx.dispatch_ready(&vec![(fd, EVENT_OUT)]);
    assert_eq!(ctx.check_existence(r1), Some(true));
    assert_eq!(ctx.check_existence(r2), Some(true));
}
