//! Event notifiers: requests to watch, change or stop watching a file descriptor.
use vstd::prelude::*;
use crate::event_context::EventStatus;

verus! {

/// Epoll event bit: the descriptor is readable (`EPOLLIN`).
pub const EVENT_IN: u32 = 0x1;
/// Epoll event bit: the descriptor is writable (`EPOLLOUT`).
pub const EVENT_OUT: u32 = 0x4;

/// What a notifier asks of the event loop.
#[derive(Debug, Clone, Copy, PartialEq, Eq, Structural)]
pub enum NotifierOperation {
    /// Watch the fd, which must not be watched yet.
    AddExclusion,
    /// Watch the fd, or add events and handlers to its notifier if it is watched.
    AddShared,
    /// Replace the handlers of the fd's notifier.
    Modify,
    /// Stop watching the fd.
    Delete,
    /// Pause the fd's notifier.
    Park,
    /// Resume the fd's paused notifier.
    Resume,
}

/// A handler that the event loop runs when the notifier's fd is ready. It gets
/// the ready event bits and the fd, and may hand back notifiers for the loop to
/// apply.
pub trait NotifierCallBack: Sized {
    fn call(&self, events: u32, fd: i32) -> Option<Vec<EventNotifier<Self>>>;
}

/// A request about the file descriptor `raw_fd`; once registered, the record the
/// event loop keeps of that fd.
pub struct EventNotifier<H> {
    pub raw_fd: i32,
    pub op: NotifierOperation,
    /// A notifier that this one parks while it is registered.
    pub parked_fd: Option<i32>,
    /// The epoll event bits to watch.
    pub event: u32,
    pub handlers: Vec<H>,
    /// A handler to poll before waiting, if any.
    pub handler_poll: Option<H>,
    pub status: EventStatus,
}

/// The contents of an `EventNotifier`, with its handlers as a sequence.
pub struct NotifierView<H> {
    pub raw_fd: i32,
    pub op: NotifierOperation,
    pub parked_fd: Option<i32>,
    pub event: u32,
    pub handlers: Seq<H>,
    pub handler_poll: Option<H>,
    pub status: EventStatus,
}

impl<H> View for EventNotifier<H> {
    type V = NotifierView<H>;

    open spec fn view(&self) -> NotifierView<H> {
        NotifierView {
            raw_fd: self.raw_fd,
            op: self.op,
            parked_fd: self.parked_fd,
            event: self.event,
            handlers: self.handlers@,
            handler_poll: self.handler_poll,
            status: self.status,
        }
    }
}

impl<H> EventNotifier<H> {
    /// A live notifier with no poll handler.
    pub fn new(
        op: NotifierOperation,
        raw_fd: i32,
        parked_fd: Option<i32>,
        event: u32,
        handlers: Vec<H>,
    ) -> (n: Self)
        ensures
            n.raw_fd == raw_fd,
            n.op == op,
            n.parked_fd == parked_fd,
            n.event == event,
            n.handlers@ == handlers@,
            n.handler_poll is None,
            n.status == EventStatus::Alive,
    {
        EventNotifier {
            raw_fd,
            op,
            parked_fd,
            event,
            handlers,
            handler_poll: None,
            status: EventStatus::Alive,
        }
    }
}

/// The fds of `notifiers`, in order.
pub fn get_notifier_raw_fds<H>(notifiers: &[EventNotifier<H>]) -> (raw_fds: Vec<i32>)
    ensures
        raw_fds@.len() == notifiers@.len(),
        forall|i: int| 0 <= i < notifiers@.len() ==> raw_fds@[i] == notifiers@[i].raw_fd,
{
    let mut raw_fds: Vec<i32> = Vec::with_capacity(notifiers.len());
    let mut i: usize = 0;
    while i < notifiers.len()
        invariant
            i <= notifiers@.len(),
            raw_fds@.len() == i,
            forall|j: int| 0 <= j < i ==> raw_fds@[j] == notifiers@[j].raw_fd,
        decreases notifiers@.len() - i,
    {
        raw_fds.push(notifiers[i].raw_fd);
        i = i + 1;
    }
    raw_fds
}

/// A `Delete` notifier (watching `EVENT_IN`, no parked fd, no handlers) for each of
/// `raw_fds`, in order.
pub fn get_delete_notifiers<H>(raw_fds: &[i32]) -> (notifiers: Vec<EventNotifier<H>>)
    ensures
        notifiers@.len() == raw_fds@.len(),
        forall|i: int| 0 <= i < raw_fds@.len() ==> {
            let n = #[trigger] notifiers@[i];
            &&& n.raw_fd == raw_fds@[i]
            &&& n.op == NotifierOperation::Delete
            &&& n.parked_fd is None
            &&& n.event == EVENT_IN
            &&& n.handlers@.len() == 0
            &&& n.handler_poll is None
            &&& n.status == EventStatus::Alive
        },
{
    let mut notifiers: Vec<EventNotifier<H>> = Vec::with_capacity(raw_fds.len());
    let mut i: usize = 0;
    while i < raw_fds.len()
        invariant
            i <= raw_fds@.len(),
            notifiers@.len() == i,
            forall|j: int| 0 <= j < i ==> {
                let n = #[trigger] notifiers@[j];
                &&& n.raw_fd == raw_fds@[j]
                &&& n.op == NotifierOperation::Delete
                &&& n.parked_fd is None
                &&& n.event == EVENT_IN
                &&& n.handlers@.len() == 0
                &&& n.handler_poll is None
                &&& n.status == EventStatus::Alive
            },
        decreases raw_fds@.len() - i,
    {
        notifiers.push(EventNotifier::new(NotifierOperation::Delete, raw_fds[i], None, EVENT_IN, Vec::new()));
        i = i + 1;
    }
    notifiers
}

} // verus!
