use std::cell::RefCell;
use std::rc::Rc;
use vmm_event::clock::{monotonic_now_nanos, timespec_to_nanos};
use vmm_event::event_context::EventLoopContext;
use vmm_event::event_loop::EventLoopManager;
use vmm_event::event_notifier::{EventNotifier, NotifierCallBack};
use vmm_event::timer::{ClockState, Timer, TimerCallBack, TimerQueue};
use vmm_event::utils::UtilError;

struct Record {
    log: Rc<RefCell<Vec<u32>>>,
    tag: u32,
}

impl TimerCallBack for Record {
    fn call(&self) {
        self.log.borrow_mut().push(self.tag);
    }
}

struct NoHandler;

impl NotifierCallBack for NoHandler {
    fn call(&self, _events: u32, _fd: i32) -> Option<Vec<EventNotifier<NoHandler>>> {
        None
    }
}

struct NoManager;

impl EventLoopManager for NoManager {
    fn loop_should_exit(&self) -> bool {
        false
    }
    fn loop_cleanup(&self) -> Result<(), UtilError> {
        Ok(())
    }
}

const SEC: u64 = 1_000_000_000;

#[test]
fn test_virtual_clock() {
    // The virtual clock runs only while enabled: 5 s on, 10 s off, 5 s on,
    // 10 s off, 5 s on.
    let mut clock = ClockState::new_at(0);
    clock.enable_at(0);
    assert_eq!(clock.virtual_clock_at(5 * SEC) / SEC, 5);
    clock.disable_at(5 * SEC);
    assert_eq!(clock.virtual_clock_at(15 * SEC) / SEC, 5);
    clock.enable_at(15 * SEC);
    assert_eq!(clock.virtual_clock_at(20 * SEC) / SEC, 10);
    clock.disable_at(20 * SEC);
    assert_eq!(clock.virtual_clock_at(30 * SEC) / SEC, 10);
    clock.enable_at(30 * SEC);
    assert_eq!(clock.virtual_clock_at(35 * SEC) / SEC, 15);
}

#[test]
fn live_clock_reads_are_consistent() {
    let mut clock = ClockState::default();
    assert_eq!(clock.get_virtual_clock(), 0);
    clock.enable();
    clock.disable();
    let frozen = clock.get_virtual_clock();
    assert_eq!(clock.get_virtual_clock(), frozen);
}

#[test]
fn enabling_keeps_the_reading() {
    let mut clock = ClockState::new_at(100);
    clock.enable_at(7);
    clock.disable_at(10);
    assert_eq!(clock.virtual_clock_at(50), 3);
    clock.enable_at(50);
    assert_eq!(clock.virtual_clock_at(50), 3);
    assert_eq!(clock.virtual_clock_at(60), 13);
    assert_eq!(clock.since_offset(150), 50);
    assert_eq!(clock.since_offset(20), 0);
}

#[test]
fn timespec_conversion() {
    assert_eq!(timespec_to_nanos(2, 5), 2 * SEC + 5);
    assert_eq!(timespec_to_nanos(-1, -1), 0);
    assert_eq!(timespec_to_nanos(i64::MAX, 0), u64::MAX);
    let a = monotonic_now_nanos();
    let b = monotonic_now_nanos();
    assert!(a <= b);
}

#[test]
fn timer_deadline() {
    let t = Timer::new_at(NoHandler, 10, 5);
    assert_eq!(t.expire_time, 15);
    let t = Timer::new_at(NoHandler, u64::MAX - 1, 5);
    assert_eq!(t.expire_time, u64::MAX);
    let t = Timer::new(NoHandler, 5);
    assert!(t.expire_time >= 5);
}

fn rec(log: &Rc<RefCell<Vec<u32>>>, tag: u32, at: u64) -> Timer<Record> {
    Timer::new_at(Record { log: log.clone(), tag }, at, 0)
}

#[test]
fn queue_orders_by_expiry_and_keeps_ties_in_order() {
    let log = Rc::new(RefCell::new(Vec::new()));
    let mut q = TimerQueue::new();
    let a = q.add(rec(&log, 1, 30));
    let b = q.add(rec(&log, 2, 10));
    let c = q.add(rec(&log, 3, 30));
    let d = q.add(rec(&log, 4, 20));
    assert_eq!((a, b, c, d), (0, 1, 2, 3));
    assert_eq!(q.first_expiry(), Some(10));
    let expired = q.take_expired(25);
    let tags: Vec<u32> = expired.iter().map(|(_, t)| t.func.tag).collect();
    assert_eq!(tags, vec![2, 4]);
    assert_eq!(q.len(), 2);
    let rest = q.take_expired(30);
    let tags: Vec<u32> = rest.iter().map(|(_, t)| t.func.tag).collect();
    assert_eq!(tags, vec![1, 3]);
    assert_eq!(q.first_expiry(), None);
}

#[test]
fn removing_a_timer_by_id() {
    let log = Rc::new(RefCell::new(Vec::new()));
    let mut q = TimerQueue::new();
    let a = q.add(rec(&log, 1, 10));
    let b = q.add(rec(&log, 2, 20));
    q.remove(a);
    assert_eq!(q.len(), 1);
    assert_eq!(q.first_expiry(), Some(20));
    q.remove(a);
    assert_eq!(q.len(), 1);
    q.remove(b);
    assert_eq!(q.len(), 0);
}

#[test]
fn loop_runs_expired_timers_in_order() {
    let log = Rc::new(RefCell::new(Vec::new()));
    let mut ctx: EventLoopContext<NoHandler, Record, NoManager> = EventLoopContext::new().unwrap();
    let first = ctx.timer_add(Record { log: log.clone(), tag: 1 }, 0);
    let second = ctx.timer_add(Record { log: log.clone(), tag: 2 }, 0);
    let late = ctx.timer_add(Record { log: log.clone(), tag: 3 }, 3_600 * SEC);
    assert!(first < second && second < late);
    ctx.timer_del(second);
    assert!(ctx.timers_min_duration_at(0).is_some());
    ctx.run_timers();
    assert_eq!(*log.borrow(), vec![1]);
    let left = ctx.timers_min_duration().unwrap();
    assert!(left > 0);
    ctx.timer_del(late);
    assert_eq!(ctx.timers_min_duration(), None);
}

#[test]
fn wait_time_is_time_left_to_first_timer() {
    let log = Rc::new(RefCell::new(Vec::new()));
    let mut ctx: EventLoopContext<NoHandler, Record, NoManager> = EventLoopContext::new().unwrap();
    let _ = ctx.timer_add(Record { log: log.clone(), tag: 1 }, 10 * SEC);
    let d = ctx.timers_min_duration().unwrap();
    assert!(d <= 10 * SEC && d > 5 * SEC);
    ctx.run_timers_at(u64::MAX);
    assert_eq!(*log.borrow(), vec![1]);
    assert_eq!(ctx.timers_min_duration_at(0), None);
}
