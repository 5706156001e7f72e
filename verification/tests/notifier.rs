use vmm_event::event_notifier::{
    get_delete_notifiers, get_notifier_raw_fds, EventNotifier, NotifierCallBack, NotifierOperation,
    EVENT_IN, EVENT_OUT,
};
use vmm_event::event_context::EventStatus;
use vmm_event::utils::{register_event_helper, unregister_event_helper};

struct Nop;

impl NotifierCallBack for Nop {
    fn call(&self, _events: u32, _fd: i32) -> Option<Vec<EventNotifier<Nop>>> {
        None
    }
}

#[test]
fn new_notifier_is_alive() {
    let n = EventNotifier::new(NotifierOperation::AddShared, 7, Some(3), EVENT_OUT, vec![Nop, Nop]);
    assert_eq!(n.raw_fd, 7);
    assert_eq!(n.parked_fd, Some(3));
    assert_eq!(n.event, EVENT_OUT);
    assert_eq!(n.handlers.len(), 2);
    assert!(n.handler_poll.is_none());
    assert_eq!(n.status, EventStatus::Alive);
}

#[test]
fn raw_fds_and_delete_notifiers_round_trip() {
    let ns = vec![
        EventNotifier::new(NotifierOperation::AddShared, 4, None, EVENT_IN, vec![Nop]),
        EventNotifier::new(NotifierOperation::AddExclusion, 9, None, EVENT_OUT, Vec::new()),
    ];
    let fds = get_notifier_raw_fds(&ns);
    assert_eq!(fds, vec![4, 9]);
    let dels: Vec<EventNotifier<Nop>> = get_delete_notifiers(&fds);
    assert_eq!(dels.len(), 2);
    assert_eq!(dels[1].raw_fd, 9);
    assert_eq!(dels[1].op, NotifierOperation::Delete);
    assert_eq!(dels[1].event, EVENT_IN);
    assert!(dels[0].handlers.is_empty());
    assert!(get_notifier_raw_fds::<Nop>(&[]).is_empty());
}

#[test]
fn helpers_do_nothing() {
    register_event_helper();
    unregister_event_helper();
}
