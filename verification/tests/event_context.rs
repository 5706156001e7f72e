use nix::sys::eventfd::{eventfd, EfdFlags};
use vmm_event::event_context::{flatten_notifiers, EventLoopContext, EBADF, EINTR, ENOENT, EPERM, POLLHUP, POLLIN, POLLOUT};
use vmm_event::event_loop::EventLoopManager;
use vmm_event::event_notifier::{EventNotifier, NotifierCallBack, NotifierOperation, EVENT_IN, EVENT_OUT};
use vmm_event::timer::TimerCallBack;
use vmm_event::utils::{read_fd, UtilError};

/// A handler that asks the loop to watch `0` for input.
struct AddRelated(i32);

impl NotifierCallBack for AddRelated {
    fn call(&self, _events: u32, _fd: i32) -> Option<Vec<EventNotifier<AddRelated>>> {
        Some(vec![EventNotifier::new(NotifierOperation::AddShared, self.0, None, EVENT_IN, Vec::new())])
    }
}

struct NoTimer;

impl TimerCallBack for NoTimer {
    fn call(&self) {}
}

struct Manager {
    exit: bool,
    cleanup_fails: bool,
}

impl EventLoopManager for Manager {
    fn loop_should_exit(&self) -> bool {
        self.exit
    }
    fn loop_cleanup(&self) -> Result<(), UtilError> {
        if self.cleanup_fails {
            Err(UtilError::ManagerCleanup)
        } else {
            Ok(())
        }
    }
}

type Ctx = EventLoopContext<AddRelated, NoTimer, Manager>;

fn new_fd() -> i32 {
    eventfd(0, EfdFlags::EFD_NONBLOCK).unwrap()
}

fn close_fd(fd: i32) {
    nix::unistd::close(fd).unwrap();
}

fn generate_handler(related_fd: i32) -> AddRelated {
    AddRelated(related_fd)
}

fn create_event(ctx: &mut Ctx) -> i32 {
    let fd = new_fd();
    let event = EventNotifier::new(NotifierOperation::AddShared, fd, None, EVENT_OUT, Vec::new());
    ctx.update_events(vec![event]).unwrap();
    close_fd(fd);
    fd
}

#[test]
fn basic_test() {
    let mut mainloop: Ctx = EventLoopContext::new().unwrap();
    let fd1 = new_fd();
    let fd1_related = new_fd();
    let handler1 = generate_handler(fd1_related);
    let event1 = EventNotifier::new(NotifierOperation::AddShared, fd1, None, EVENT_OUT, vec![handler1]);
    mainloop.update_events(vec![event1]).unwrap();
    mainloop.run().unwrap();
    // fd1 is writable at once, so its handler runs and registers fd1_related.
    assert!(mainloop.check_existence(fd1).unwrap());
    assert!(mainloop.check_existence(fd1_related).unwrap());
}

#[test]
fn parked_event_test() {
    let mut mainloop: Ctx = EventLoopContext::new().unwrap();
    let fd1 = new_fd();
    let fd2 = new_fd();
    let event1 = EventNotifier::new(NotifierOperation::AddShared, fd1, None, EVENT_OUT, Vec::new());
    let event2 = EventNotifier::new(NotifierOperation::AddShared, fd2, Some(fd1), EVENT_OUT, Vec::new());
    mainloop.update_events(vec![event1, event2]).unwrap();
    mainloop.run().unwrap();
    // event1 is the parked event of event2, so adding event2 parks event1.
    assert!(!mainloop.check_existence(fd1).unwrap());
    assert!(mainloop.check_existence(fd2).unwrap());

    let event2_remove = EventNotifier::new(NotifierOperation::Delete, fd2, Some(fd1), EVENT_OUT, Vec::new());
    mainloop.update_events(vec![event2_remove]).unwrap();
    // Removing event2 brings event1 back and drops event2.
    assert!(mainloop.check_existence(fd1).unwrap());
    assert!(mainloop.check_existence(fd2).is_none());
}

#[test]
fn event_handler_test() {
    let mut mainloop: Ctx = EventLoopContext::new().unwrap();
    let fd1 = new_fd();
    let fd1_related = new_fd();
    let fd1_related_update = new_fd();
    let handler1 = generate_handler(fd1_related);
    let handler1_update = generate_handler(fd1_related_update);
    let event1 = EventNotifier::new(NotifierOperation::AddShared, fd1, None, EVENT_OUT, vec![handler1]);
    let event1_update = EventNotifier::new(NotifierOperation::AddShared, fd1, None, EVENT_OUT, vec![handler1_update]);
    mainloop.update_events(vec![event1, event1_update]).unwrap();
    mainloop.run().unwrap();
    // event1 gets handler1_update too, so both related fds get registered.
    assert!(mainloop.check_existence(fd1_related).unwrap());
    assert!(mainloop.check_existence(fd1_related_update).unwrap());
}

#[test]
fn error_operation_test() {
    let mut mainloop: Ctx = EventLoopContext::new().unwrap();
    let fd1 = new_fd();
    let leisure_fd = new_fd();

    // Delete an event that does not exist.
    let event1 = EventNotifier::new(NotifierOperation::Delete, fd1, None, EVENT_OUT, Vec::new());
    assert!(mainloop.update_events(vec![event1]).is_err());

    // Add an event whose parked event does not exist.
    let event1 = EventNotifier::new(NotifierOperation::AddShared, fd1, Some(leisure_fd), EVENT_OUT, Vec::new());
    assert!(mainloop.update_events(vec![event1]).is_err());

    // Delete an event whose parked event does not exist.
    let event1_delete = EventNotifier::new(NotifierOperation::Delete, fd1, Some(leisure_fd), EVENT_OUT, Vec::new());
    assert!(mainloop.update_events(vec![event1_delete]).is_err());
}

#[test]
fn error_parked_operation_test() {
    let mut mainloop: Ctx = EventLoopContext::new().unwrap();
    let fd1 = new_fd();
    let fd2 = new_fd();
    let event1 = EventNotifier::new(NotifierOperation::AddShared, fd1, None, EVENT_OUT, Vec::new());
    mainloop.update_events(vec![event1]).unwrap();
    let event2 = EventNotifier::new(NotifierOperation::AddShared, fd2, Some(fd1), EVENT_OUT, Vec::new());
    mainloop.update_events(vec![event2]).unwrap();

    // Delete the parked event.
    let event1 = EventNotifier::new(NotifierOperation::Delete, fd1, None, EVENT_OUT, Vec::new());
    assert!(mainloop.update_events(vec![event1]).is_ok());
}

#[test]
fn fd_released_test() {
    let mut mainloop: Ctx = EventLoopContext::new().unwrap();
    let fd = create_event(&mut mainloop);
    // The fd is already closed; removing it is still no error.
    let event = EventNotifier::new(NotifierOperation::Delete, fd, None, EVENT_OUT, Vec::new());
    assert!(mainloop.update_events(vec![event]).is_ok());
}

#[test]
fn exclusive_add_of_watched_fd_is_refused() {
    let mut mainloop: Ctx = EventLoopContext::new().unwrap();
    let fd = new_fd();
    mainloop.update_events(vec![EventNotifier::new(NotifierOperation::AddShared, fd, None, EVENT_OUT, Vec::new())]).unwrap();
    let again = EventNotifier::new(NotifierOperation::AddExclusion, fd, None, EVENT_IN, Vec::new());
    assert_eq!(mainloop.add_event(again), Err(UtilError::BadNotifierOperation));
    assert!(mainloop.check_existence(fd).unwrap());
}

#[test]
fn missing_fds_give_their_errors() {
    let mut mainloop: Ctx = EventLoopContext::new().unwrap();
    let fd = new_fd();
    let other = new_fd();
    let n = |op| EventNotifier::<AddRelated>::new(op, fd, None, EVENT_IN, Vec::new());
    assert_eq!(mainloop.modify_event(n(NotifierOperation::Modify)), Err(UtilError::NoRegisterFd(fd)));
    assert_eq!(mainloop.park_event(n(NotifierOperation::Park)), Err(UtilError::NoRegisterFd(fd)));
    assert_eq!(mainloop.resume_event(n(NotifierOperation::Resume)), Err(UtilError::NoRegisterFd(fd)));
    assert_eq!(mainloop.rm_event(n(NotifierOperation::Delete)), Err(UtilError::NoRegisterFd(fd)));
    let parked = EventNotifier::new(NotifierOperation::AddShared, fd, Some(other), EVENT_IN, Vec::new());
    assert_eq!(mainloop.add_event(parked), Err(UtilError::NoParkedFd(other)));
    assert!(mainloop.check_existence(fd).is_none());
}

#[test]
fn bad_descriptor_is_a_syscall_error() {
    let mut mainloop: Ctx = EventLoopContext::new().unwrap();
    let event = EventNotifier::new(NotifierOperation::AddShared, -1, None, EVENT_IN, Vec::new());
    assert_eq!(mainloop.add_event(event), Err(UtilError::BadSyscall(EBADF)));
    assert!(mainloop.check_existence(-1).is_none());
}

#[test]
fn park_then_resume_restores_alive() {
    let mut mainloop: Ctx = EventLoopContext::new().unwrap();
    let fd = new_fd();
    mainloop.update_events(vec![EventNotifier::new(NotifierOperation::AddShared, fd, None, EVENT_IN, Vec::new())]).unwrap();
    mainloop.update_events(vec![EventNotifier::new(NotifierOperation::Park, fd, None, EVENT_IN, Vec::new())]).unwrap();
    assert_eq!(mainloop.check_existence(fd), Some(false));
    mainloop.update_events(vec![EventNotifier::new(NotifierOperation::Resume, fd, None, EVENT_IN, Vec::new())]).unwrap();
    assert_eq!(mainloop.check_existence(fd), Some(true));
}

#[test]
fn remove_after_add_forgets_fd() {
    let mut mainloop: Ctx = EventLoopContext::new().unwrap();
    let fd = new_fd();
    mainloop.update_events(vec![EventNotifier::new(NotifierOperation::AddShared, fd, None, EVENT_IN, Vec::new())]).unwrap();
    assert_eq!(mainloop.check_existence(fd), Some(true));
    mainloop.update_events(vec![EventNotifier::new(NotifierOperation::Delete, fd, None, EVENT_IN, Vec::new())]).unwrap();
    assert_eq!(mainloop.check_existence(fd), None);
    mainloop.gc_clean();
}

#[test]
fn modify_replaces_handlers() {
    let mut mainloop: Ctx = EventLoopContext::new().unwrap();
    let fd = new_fd();
    let first = new_fd();
    let second = new_fd();
    mainloop.update_events(vec![EventNotifier::new(NotifierOperation::AddShared, fd, None, EVENT_OUT, vec![AddRelated(first)])]).unwrap();
    mainloop.update_events(vec![EventNotifier::new(NotifierOperation::Modify, fd, None, EVENT_OUT, vec![AddRelated(second)])]).unwrap();
    mainloop.run().unwrap();
    assert_eq!(mainloop.check_existence(first), None);
    assert_eq!(mainloop.check_existence(second), Some(true));
}

#[test]
fn update_stops_at_first_error() {
    let mut mainloop: Ctx = EventLoopContext::new().unwrap();
    let fd1 = new_fd();
    let fd2 = new_fd();
    let missing = new_fd();
    let ops = vec![
        EventNotifier::new(NotifierOperation::AddShared, fd1, None, EVENT_IN, Vec::new()),
        EventNotifier::new(NotifierOperation::Delete, missing, None, EVENT_IN, Vec::new()),
        EventNotifier::new(NotifierOperation::AddShared, fd2, None, EVENT_IN, Vec::new()),
    ];
    assert_eq!(mainloop.update_events(ops), Err(UtilError::NoRegisterFd(missing)));
    assert_eq!(mainloop.check_existence(fd1), Some(true));
    assert_eq!(mainloop.check_existence(fd2), None);
}

#[test]
fn kick_eventfd_is_registered() {
    let mut mainloop: Ctx = EventLoopContext::new().unwrap();
    // A kicked loop does not block.
    mainloop.tick();
    assert_eq!(mainloop.epoll_wait_manager(None), Ok(true));
}

#[test]
fn manager_decides_exit() {
    let mut mainloop: Ctx = EventLoopContext::new().unwrap();
    mainloop.set_manager(Manager { exit: true, cleanup_fails: false });
    assert_eq!(mainloop.run(), Ok(false));
    mainloop.set_manager(Manager { exit: true, cleanup_fails: true });
    assert_eq!(mainloop.run(), Err(UtilError::ManagerCleanup));
    mainloop.set_manager(Manager { exit: false, cleanup_fails: false });
    let fd = new_fd();
    mainloop.update_events(vec![EventNotifier::new(NotifierOperation::AddShared, fd, None, EVENT_OUT, Vec::new())]).unwrap();
    assert_eq!(mainloop.run(), Ok(true));
}

#[test]
fn io_thread_round_runs() {
    let mut mainloop: Ctx = EventLoopContext::new().unwrap();
    let fd = new_fd();
    let mut event = EventNotifier::new(NotifierOperation::AddShared, fd, None, EVENT_OUT, Vec::new());
    event.handler_poll = Some(AddRelated(fd));
    mainloop.update_events(vec![event]).unwrap();
    assert_eq!(mainloop.io_thread_run(), Ok(true));
    assert_eq!(mainloop.check_existence(fd), Some(true));
}

#[test]
fn read_fd_reads_eventfd_counter() {
    let fd = new_fd();
    nix::unistd::write(fd, &5u64.to_ne_bytes()).unwrap();
    assert_eq!(read_fd(fd), 5);
    close_fd(fd);
}

#[test]
fn constants_match_the_system() {
    assert_eq!(EPERM, libc::EPERM);
    assert_eq!(ENOENT, libc::ENOENT);
    assert_eq!(EINTR, libc::EINTR);
    assert_eq!(EBADF, libc::EBADF);
    assert_eq!(POLLIN, libc::POLLIN);
    assert_eq!(POLLOUT, libc::POLLOUT);
    assert_eq!(POLLHUP, libc::POLLHUP);
    assert_eq!(EVENT_IN, libc::EPOLLIN as u32);
    assert_eq!(EVENT_OUT, libc::EPOLLOUT as u32);
}

#[test]
fn handler_answers_are_concatenated_in_order() {
    let n = |fd| EventNotifier::<AddRelated>::new(NotifierOperation::AddShared, fd, None, EVENT_IN, Vec::new());
    let out = flatten_notifiers(vec![Some(vec![n(1), n(2)]), None, Some(Vec::new()), Some(vec![n(3)])]);
    let fds: Vec<i32> = out.iter().map(|e| e.raw_fd).collect();
    assert_eq!(fds, vec![1, 2, 3]);
}
