//! The event loop of one thread: which file descriptors it watches through epoll
//! and with which handlers, its timers, and the wake-up ("kick") protocol.
use vstd::prelude::*;
use std::collections::BTreeMap;
use nix::sys::epoll::EpollEvent;
use crate::event_notifier::{EventNotifier, NotifierCallBack, NotifierOperation, NotifierView, EVENT_IN};
use crate::event_loop::EventLoopManager;
use crate::sys::{
    epoll_create, epoll_ctl, epoll_event_bits, epoll_event_data, epoll_event_empty, epoll_wait,
    eventfd_create, fd_write_u64, ppoll_one, CtlOp,
};
use crate::timer::{
    deadline, has_id, ids_fresh_below, insert_pos, law_timer_del_undoes_add, lemma_insert_pos_split, sorted_by_expiry,
    ClockState, Timer, TimerCallBack, TimerQueue,
};
use crate::clock::monotonic_now_nanos;
use crate::utils::{read_fd, UtilError, AIO_PRFETCH_CYCLE_TIME};
use vstd::std_specs::iter::IteratorSpec;
use vstd::std_specs::btree::increasing_seq;

verus! {

broadcast use vstd::std_specs::btree::group_btree_axioms, vstd::laws_cmp::group_laws_cmp;

/// The state of a notifier in the event loop.
#[derive(Debug, Clone, Copy, PartialEq, Eq, Structural)]
pub enum EventStatus {
    /// Its fd is watched and its handlers run.
    Alive,
    /// Its fd is not watched for now.
    Park,
    /// It has left the event loop.
    Removed,
}

/// How many ready events one wait collects at most.
pub const READY_EVENT_MAX: usize = 256;

/// Errno: operation not permitted (`EPERM`).
pub const EPERM: i32 = 1;
/// Errno: no such file or directory (`ENOENT`).
pub const ENOENT: i32 = 2;
/// Errno: interrupted system call (`EINTR`).
pub const EINTR: i32 = 4;
/// Errno: bad file descriptor (`EBADF`).
pub const EBADF: i32 = 9;

/// Poll bit: readable (`POLLIN`).
pub const POLLIN: i16 = 0x1;
/// Poll bit: writable (`POLLOUT`).
pub const POLLOUT: i16 = 0x4;
/// Poll bit: hung up (`POLLHUP`).
pub const POLLHUP: i16 = 0x10;

/// The epoll user data that identifies `fd`.
pub fn epoll_data(fd: i32) -> (data: u64)
    ensures
        data == (#[verifier::truncate] (fd as u64)),
{
    #[verifier::truncate] (fd as u64)
}

/// The registered notifiers, by fd.
pub type Registry<H> = Map<i32, NotifierView<H>>;

/// Whether `op` adds a notifier.
pub open spec fn is_add(op: NotifierOperation) -> bool {
    op == NotifierOperation::AddExclusion || op == NotifierOperation::AddShared
}

/// `n` with status `s`.
pub open spec fn with_status<H>(n: NotifierView<H>, s: EventStatus) -> NotifierView<H> {
    NotifierView { status: s, ..n }
}

/// Whether adding `e` succeeds when every system call does: a watched fd may be
/// shared but not taken exclusively, and a parked fd must be registered.
pub open spec fn add_allowed<H>(m: Registry<H>, e: NotifierView<H>) -> bool {
    if m.contains_key(e.raw_fd) {
        e.op != NotifierOperation::AddExclusion
    } else {
        match e.parked_fd {
            Some(p) => m.contains_key(p),
            None => true,
        }
    }
}

/// The registry after adding `e`: a watched fd gets `e`'s event bits and handlers
/// on top of its own; a new fd is registered alive, and the fd it parks is parked.
pub open spec fn add_model<H>(m: Registry<H>, e: NotifierView<H>) -> Registry<H> {
    if m.contains_key(e.raw_fd) {
        let n = m[e.raw_fd];
        m.insert(e.raw_fd, NotifierView { event: n.event | e.event, handlers: n.handlers + e.handlers, ..n })
    } else {
        let m1 = match e.parked_fd {
            Some(p) => m.insert(p, with_status(m[p], EventStatus::Park)),
            None => m,
        };
        m1.insert(e.raw_fd, with_status(e, EventStatus::Alive))
    }
}

/// The registry after replacing the handlers of `e.raw_fd` by `e`'s.
pub open spec fn modify_model<H>(m: Registry<H>, e: NotifierView<H>) -> Registry<H> {
    m.insert(e.raw_fd, NotifierView { handlers: e.handlers, ..m[e.raw_fd] })
}

/// Whether removing `e.raw_fd` succeeds when every system call does: the fd must
/// be registered, and the fd its notifier parks must still be registered.
pub open spec fn remove_allowed<H>(m: Registry<H>, fd: i32) -> bool {
    &&& m.contains_key(fd)
    &&& match m[fd].parked_fd {
        Some(p) => m.remove(fd).contains_key(p),
        None => true,
    }
}

/// The registry after removing `fd`: its notifier leaves, and the fd it parked
/// becomes alive again.
pub open spec fn remove_model<H>(m: Registry<H>, fd: i32) -> Registry<H> {
    let m1 = m.remove(fd);
    match m[fd].parked_fd {
        Some(p) => m1.insert(p, with_status(m1[p], EventStatus::Alive)),
        None => m1,
    }
}

/// Whether applying `e` succeeds when every system call does.
pub open spec fn op_allowed<H>(m: Registry<H>, e: NotifierView<H>) -> bool {
    match e.op {
        NotifierOperation::AddExclusion | NotifierOperation::AddShared => add_allowed(m, e),
        NotifierOperation::Delete => remove_allowed(m, e.raw_fd),
        _ => m.contains_key(e.raw_fd),
    }
}

/// The registry after applying `e` successfully.
pub open spec fn op_model<H>(m: Registry<H>, e: NotifierView<H>) -> Registry<H> {
    match e.op {
        NotifierOperation::AddExclusion | NotifierOperation::AddShared => add_model(m, e),
        NotifierOperation::Modify => modify_model(m, e),
        NotifierOperation::Park => m.insert(e.raw_fd, with_status(m[e.raw_fd], EventStatus::Park)),
        NotifierOperation::Resume => m.insert(e.raw_fd, with_status(m[e.raw_fd], EventStatus::Alive)),
        NotifierOperation::Delete => remove_model(m, e.raw_fd),
    }
}

/// Whether adding `e` to `m` can end in the error `err`.
pub open spec fn add_error<H>(m: Registry<H>, e: NotifierView<H>, err: UtilError) -> bool {
    match err {
        UtilError::BadNotifierOperation => e.op == NotifierOperation::AddExclusion && m.contains_key(e.raw_fd),
        UtilError::NoParkedFd(p) => !m.contains_key(e.raw_fd) && e.parked_fd == Some(p) && !m.contains_key(p),
        UtilError::BadSyscall(_) => !m.contains_key(e.raw_fd) || (e.op != NotifierOperation::AddExclusion
            && m[e.raw_fd].event != e.event),
        _ => false,
    }
}

/// Whether replacing the handlers of `fd` can end in the error `err`.
pub open spec fn modify_error<H>(m: Registry<H>, fd: i32, err: UtilError) -> bool {
    err == UtilError::NoRegisterFd(fd) && !m.contains_key(fd)
}

/// Whether parking or resuming `fd` can end in the error `err`.
pub open spec fn park_error<H>(m: Registry<H>, fd: i32, err: UtilError) -> bool {
    match err {
        UtilError::NoRegisterFd(f) => f == fd && !m.contains_key(fd),
        UtilError::BadSyscall(_) => m.contains_key(fd),
        _ => false,
    }
}

/// Whether removing `fd` can end in the error `err`.
pub open spec fn remove_error<H>(m: Registry<H>, fd: i32, err: UtilError) -> bool {
    match err {
        UtilError::NoRegisterFd(f) => f == fd && !m.contains_key(fd),
        UtilError::NoParkedFd(p) => m.contains_key(fd) && m[fd].parked_fd == Some(p) && !m.remove(fd).contains_key(p),
        UtilError::BadSyscall(_) => m.contains_key(fd) && (m[fd].status == EventStatus::Alive || m[fd].parked_fd is Some),
        _ => false,
    }
}

/// Whether applying `e` to `m` can end in the error `err`.
pub open spec fn op_error<H>(m: Registry<H>, e: NotifierView<H>, err: UtilError) -> bool {
    match e.op {
        NotifierOperation::AddExclusion | NotifierOperation::AddShared => add_error(m, e, err),
        NotifierOperation::Modify => modify_error(m, e.raw_fd, err),
        NotifierOperation::Delete => remove_error(m, e.raw_fd, err),
        _ => park_error(m, e.raw_fd, err),
    }
}

/// Whether every notifier of `s` applies successfully, in order, from `m`.
pub open spec fn all_allowed<H>(m: Registry<H>, s: Seq<NotifierView<H>>) -> bool
    decreases s.len(),
{
    if s.len() == 0 {
        true
    } else {
        all_allowed(m, s.drop_last()) && op_allowed(apply_all(m, s.drop_last()), s.last())
    }
}

/// The registry after applying the notifiers of `s`, in order, to `m`.
pub open spec fn apply_all<H>(m: Registry<H>, s: Seq<NotifierView<H>>) -> Registry<H>
    decreases s.len(),
{
    if s.len() == 0 {
        m
    } else {
        op_model(apply_all(m, s.drop_last()), s.last())
    }
}

/// Applying `s` to `m` in order gets through the first `k` notifiers, and the
/// `k`-th can end in the error `err`.
pub open spec fn fails_at<H>(m: Registry<H>, s: Seq<NotifierView<H>>, k: int, err: UtilError) -> bool {
    &&& 0 <= k < s.len()
    &&& all_allowed(m, s.take(k))
    &&& op_error(apply_all(m, s.take(k)), s[k], err)
}

/// The registry that applying `s` to `m` leaves when the `k`-th notifier fails:
/// the effect of the first `k`, and, for a failed removal that got as far as
/// taking its fd out, that fd gone as well.
pub open spec fn failed_registry<H>(m: Registry<H>, s: Seq<NotifierView<H>>, k: int, m2: Registry<H>) -> bool {
    ||| m2 == apply_all(m, s.take(k))
    ||| (s[k].op == NotifierOperation::Delete && m2 == apply_all(m, s.take(k)).remove(s[k].raw_fd))
}

/// The views of a sequence of notifiers.
pub open spec fn views<H>(s: Seq<EventNotifier<H>>) -> Seq<NotifierView<H>> {
    s.map_values(|n: EventNotifier<H>| n@)
}

/// The notifier that watches the kick eventfd `fd`.
pub open spec fn kick_notifier<H>(fd: i32) -> NotifierView<H> {
    NotifierView {
        raw_fd: fd,
        op: NotifierOperation::AddExclusion,
        parked_fd: None,
        event: EVENT_IN,
        handlers: Seq::empty(),
        handler_poll: None,
        status: EventStatus::Alive,
    }
}

/// Whether a wait with timeout `time_out` may block, so that it must be woken
/// by a kick: every wait but one with a zero timeout.
pub open spec fn wait_needs_kick(time_out: Option<u64>) -> bool {
    time_out != Some(0u64)
}

/// The timeout a wait uses: none at all if the loop has been kicked and the wait
/// may block, `time_out` otherwise.
pub open spec fn wait_timeout(time_out: Option<u64>, kicked: bool) -> Option<u64> {
    if wait_needs_kick(time_out) && kicked { Some(0u64) } else { time_out }
}

/// Decides whether a wait with timeout `time_out` needs a kick to wake it up, and
/// which timeout it uses.
pub fn plan_wait(time_out: Option<u64>, kicked: bool) -> (r: (bool, Option<u64>))
    ensures
        r.0 == wait_needs_kick(time_out),
        r.1 == wait_timeout(time_out, kicked),
{
    let need_kc = match time_out {
        Some(t) => t != 0,
        None => true,
    };
    if need_kc && kicked {
        (need_kc, Some(0))
    } else {
        (need_kc, time_out)
    }
}

/// The time left until `expire` at the instant `now` (0 once it has passed).
pub open spec fn time_left(expire: u64, now: u64) -> u64 {
    if expire >= now { (expire - now) as u64 } else { 0 }
}

/// The view of one handler's answer: the notifiers it hands back, if any.
pub open spec fn answer_view<H>(a: Option<Vec<EventNotifier<H>>>) -> Option<Seq<NotifierView<H>>> {
    match a {
        Some(v) => Some(views(v@)),
        None => None,
    }
}

/// The notifiers of a sequence of handler answers, in order; a `None` answer adds
/// nothing.
pub open spec fn flatten_answers<H>(rs: Seq<Option<Seq<NotifierView<H>>>>) -> Seq<NotifierView<H>>
    decreases rs.len(),
{
    if rs.len() == 0 {
        Seq::empty()
    } else {
        flatten_answers(rs.drop_last()) + match rs.last() {
            Some(v) => v,
            None => Seq::empty(),
        }
    }
}

/// Concatenates, in order, the notifiers that handlers handed back.
pub fn flatten_notifiers<H>(answers: Vec<Option<Vec<EventNotifier<H>>>>) -> (out: Vec<EventNotifier<H>>)
    ensures
        views(out@) == flatten_answers(answers@.map_values(|a: Option<Vec<EventNotifier<H>>>| answer_view(a))),
{
    let ghost a0 = answers@;
    let ghost avs = a0.map_values(|a: Option<Vec<EventNotifier<H>>>| answer_view(a));
    let total = answers.len();
    let mut rest = answers;
    let mut out: Vec<EventNotifier<H>> = Vec::new();
    let mut i: usize = 0;
    while rest.len() > 0
        invariant
            a0.len() == total,
            avs == a0.map_values(|a: Option<Vec<EventNotifier<H>>>| answer_view(a)),
            i <= total,
            rest@ == a0.skip(i as int),
            views(out@) == flatten_answers(avs.take(i as int)),
        decreases rest@.len(),
    {
        let a = rest.remove(0);
        proof {
            assert(a == a0[i as int]);
            assert(avs.take(i as int + 1).drop_last() =~= avs.take(i as int));
            assert(avs.take(i as int + 1).last() == answer_view(a));
        }
        let ghost before = out@;
        match a {
            Some(more) => {
                let mut more = more;
                let ghost mv = more@;
                out.append(&mut more);
                proof {
                    assert(out@ == before + mv);
                    assert(views(out@) =~= views(before) + views(mv));
                }
            },
            None => {
                proof {
                    assert(views(out@) =~= views(before) + Seq::<NotifierView<H>>::empty());
                }
            },
        }
        proof {
            assert(rest@ =~= a0.skip(i as int + 1));
        }
        i = i + 1;
    }
    proof {
        assert(avs.take(i as int) =~= avs);
    }
    out
}

/// One wait of the loop on its epoll instance, with the kernel's answer (an errno
/// on failure).
pub enum WaitRequest {
    /// `ppoll` on the epoll fd for readable, writable or hung-up, with a timeout in
    /// nanoseconds; the answer is the count of ready descriptors.
    Poll { timeout_ns: u64, polled: Result<i32, i32> },
    /// `epoll_wait` with a timeout in milliseconds (-1: none); the answer is the
    /// count of ready events.
    Wait { timeout_ms: i32, waited: Result<usize, i32> },
}

/// One handler call of the loop: the handler, the event bits and the fd handed
/// to it, and the notifiers it handed back, if any.
pub type HandlerCall<H> = (H, u32, i32, Option<Seq<NotifierView<H>>>);

/// The handler calls that running the handlers `hs` of `fd` for `bits` makes, in
/// order, the `i`-th handing back `rs[i]`.
pub open spec fn handler_calls<H>(hs: Seq<H>, bits: u32, fd: i32, rs: Seq<Option<Seq<NotifierView<H>>>>) -> Seq<
    HandlerCall<H>,
> {
    Seq::new(hs.len(), |i: int| (hs[i], bits, fd, rs[i]))
}

/// What applying `batch` to `m` with `update_events` can leave: all of it, or
/// the effect of a prefix and a failed notifier.
pub open spec fn update_outcome<H>(m: Registry<H>, batch: Seq<NotifierView<H>>, m2: Registry<H>) -> bool {
    ||| (all_allowed(m, batch) && m2 == apply_all(m, batch))
    ||| exists|k: int, err: UtilError| #[trigger] fails_at(m, batch, k, err) && failed_registry(m, batch, k, m2)
}

/// The number of ready events a wait answer `res` (of `epoll_wait`) hands on:
/// the count, no more than the buffer holds; an interrupted wait hands on none.
pub open spec fn ready_count(res: Result<usize, i32>) -> nat {
    match res {
        Ok(n) => if n < READY_EVENT_MAX { n as nat } else { READY_EVENT_MAX as nat },
        Err(_) => 0,
    }
}

/// The `epoll_wait` timeout, in milliseconds, for the planned timeout `t` after
/// any positive part of it has been spent in `ppoll`: -1 (block) for none, 0
/// otherwise.
pub open spec fn wait_ms(t: Option<u64>) -> i32 {
    if t is None { -1i32 } else { 0i32 }
}

/// The poll handler calls that one poll round over the notifiers `ns`, in order,
/// makes when no handler hands back anything: one `(handler, fd)` per alive
/// notifier with a poll handler.
pub open spec fn poll_calls<H>(ns: Seq<NotifierView<H>>) -> Seq<(H, i32)>
    decreases ns.len(),
{
    if ns.len() == 0 {
        Seq::empty()
    } else {
        let n = ns.last();
        poll_calls(ns.drop_last()) + if n.status == EventStatus::Alive && n.handler_poll is Some {
            seq![(n.handler_poll->0, n.raw_fd)]
        } else {
            Seq::empty()
        }
    }
}

/// Whether `log`, the poll handler calls of one round over the notifiers `ns`
/// with whether each handed back something, is such a round: the calls of
/// `poll_calls(ns)` in order, stopping right after the first that handed back
/// something.
pub open spec fn poll_round_log<H>(ns: Seq<NotifierView<H>>, log: Seq<(H, i32, bool)>) -> bool {
    let calls = poll_calls(ns);
    &&& log.len() <= calls.len()
    &&& forall|i: int| 0 <= i < log.len() ==> (#[trigger] log[i]).0 == calls[i].0 && log[i].1 == calls[i].1
    &&& forall|i: int| 0 <= i < log.len() - 1 ==> !(#[trigger] log[i]).2
    &&& log.len() < calls.len() ==> log.len() > 0 && log.last().2
}

/// Whether `log` is the log of a poll round over the notifiers of `m` in fd
/// order.
pub open spec fn fd_order_round<H>(m: Registry<H>, log: Seq<(H, i32, bool)>) -> bool {
    exists|ns: Seq<NotifierView<H>>| in_fd_order(m, ns) && #[trigger] poll_round_log(ns, log)
}

/// Whether each of `rounds` is the log of a poll round over the notifiers of `m`
/// in fd order.
pub open spec fn poll_rounds_log<H>(m: Registry<H>, rounds: Seq<Seq<(H, i32, bool)>>) -> bool {
    forall|i: int| 0 <= i < rounds.len() ==> #[trigger] fd_order_round(m, rounds[i])
}

/// Fds that a map of fds yields in increasing order are strictly increasing.
proof fn lemma_increasing_fds(ks: Seq<i32>)
    requires
        increasing_seq(ks),
    ensures
        forall|i: int, j: int| 0 <= i < j < ks.len() ==> ks[i] < ks[j],
{
    assert forall|i: int, j: int| 0 <= i < j < ks.len() implies ks[i] < ks[j] by {
        assert(vstd::std_specs::cmp::OrdSpec::cmp_spec(&ks[i], &ks[j]) is Less);
    }
}

/// The notifiers of `m` at the fds `ks`, in order.
pub open spec fn notifiers_at<H>(m: Registry<H>, ks: Seq<i32>) -> Seq<NotifierView<H>> {
    ks.map_values(|k: i32| m[k])
}

/// The notifiers of `m` in increasing fd order.
pub open spec fn in_fd_order<H>(m: Registry<H>, ns: Seq<NotifierView<H>>) -> bool {
    exists|ks: Seq<i32>| {
        &&& ks.to_set() == m.dom()
        &&& ks.no_duplicates()
        &&& forall|i: int, j: int| 0 <= i < j < ks.len() ==> ks[i] < ks[j]
        &&& #[trigger] notifiers_at(m, ks) == ns
    }
}

/// `g1` is `g0` with more entries at its end.
pub open spec fn grows_from<T>(g0: Seq<T>, g1: Seq<T>) -> bool {
    g0.len() <= g1.len() && g1.take(g0.len() as int) == g0
}

/// Growing is reflexive, transitive, and pushing an entry grows a list.
pub proof fn lemma_grows<T>(g0: Seq<T>, g1: Seq<T>, g2: Seq<T>, x: T)
    ensures
        grows_from(g0, g0),
        grows_from(g0, g0.push(x)),
        grows_from(g0, g1) && grows_from(g1, g2) ==> grows_from(g0, g2),
{
    assert(g0.take(g0.len() as int) =~= g0);
    assert(g0.push(x).take(g0.len() as int) =~= g0);
    if grows_from(g0, g1) && grows_from(g1, g2) {
        assert forall|i: int| 0 <= i < g0.len() implies g2[i] == g0[i] by {
            assert(g2.take(g1.len() as int)[i] == g1[i]);
            assert(g1.take(g0.len() as int)[i] == g0[i]);
        }
        assert(g2.take(g0.len() as int) =~= g0);
    }
}

/// Whether a notifier of `fd` has been removed into the garbage list `g` since it
/// held `from` entries.
pub open spec fn removed_since<H>(g: Seq<NotifierView<H>>, from: int, fd: i32) -> bool {
    exists|i: int| from <= i < g.len() && (#[trigger] g[i]).raw_fd == fd
}

/// `after` is `before` with one read of each of the ready-event records
/// `0..ready.len()`, in order, as `(record, user data, event bits)`; entry `i` of
/// `ready` is the fd in record `i`'s user data (truncated to `i32`) with record
/// `i`'s event bits.
pub open spec fn read_in_order(before: Seq<(usize, u64, u32)>, after: Seq<(usize, u64, u32)>, ready: Seq<(i32, u32)>) -> bool {
    let tail = after.skip(before.len() as int);
    &&& after.len() == before.len() + ready.len()
    &&& after.take(before.len() as int) == before
    &&& forall|k: int| 0 <= k < ready.len() ==> (#[trigger] tail[k]).0 == k && ready[k] == ((tail[k].1 as i32), tail[k].2)
}

/// The ready list of a wait takes each record below its length exactly once: as
/// many reads as entries, each of a record below that length, no record read
/// twice, and each entry carries the event bits of the record it was read from.
pub proof fn law_each_ready_record_listed_once(before: Seq<(usize, u64, u32)>, after: Seq<(usize, u64, u32)>, ready: Seq<(i32, u32)>)
    requires
        read_in_order(before, after, ready),
    ensures
        forall|i: int, j: int| 0 <= i < j < ready.len() ==> (#[trigger] after.skip(before.len() as int)[i]).0
            != (#[trigger] after.skip(before.len() as int)[j]).0,
        forall|i: int| 0 <= i < ready.len() ==> (#[trigger] after.skip(before.len() as int)[i]).0 < ready.len(),
        after.len() - before.len() == ready.len(),
        forall|k: int| 0 <= k < ready.len() ==> (#[trigger] ready[k]).1 == after.skip(before.len() as int)[k].2,
{
}

/// A poll round stops exactly after the first poll handler that hands back
/// something: every call before the last handed back nothing, and if none handed
/// back anything, every alive notifier with a poll handler was polled, in order.
pub proof fn law_poll_round_stops_at_first_work<H>(ns: Seq<NotifierView<H>>, log: Seq<(H, i32, bool)>)
    requires
        poll_round_log(ns, log),
    ensures
        forall|i: int| 0 <= i < log.len() - 1 ==> !(#[trigger] log[i]).2,
        (forall|i: int| 0 <= i < log.len() ==> !(#[trigger] log[i]).2) ==> log.len() == poll_calls(ns).len(),
        forall|i: int| 0 <= i < log.len() ==> (#[trigger] log[i]).0 == poll_calls(ns)[i].0 && log[i].1 == poll_calls(ns)[i].1,
{
    if forall|i: int| 0 <= i < log.len() ==> !(#[trigger] log[i]).2 {
        if log.len() < poll_calls(ns).len() {
            assert(!log[log.len() - 1].2);
        }
    }
}

/// Every registered notifier is filed under its own fd and has not been removed.
pub open spec fn registry_wf<H>(m: Registry<H>) -> bool {
    forall|fd: i32| #[trigger] m.contains_key(fd) ==> m[fd].raw_fd == fd && m[fd].status != EventStatus::Removed
}

/// Every operation that succeeds keeps the registry well formed: notifiers filed
/// under their own fds, none of them removed.
pub proof fn law_ops_keep_registry_wf<H>(m: Registry<H>, e: NotifierView<H>)
    requires
        registry_wf(m),
        op_allowed(m, e),
    ensures
        registry_wf(op_model(m, e)),
{
    let r = op_model(m, e);
    assert forall|fd: i32| #[trigger] r.contains_key(fd) implies r[fd].raw_fd == fd && r[fd].status != EventStatus::Removed by {
        if e.op == NotifierOperation::Delete {
            if m[e.raw_fd].parked_fd is Some {
                let p = m[e.raw_fd].parked_fd->0;
                if fd != p {
                    assert(m.remove(e.raw_fd).contains_key(fd));
                }
            } else {
                assert(m.remove(e.raw_fd).contains_key(fd));
            }
        } else if is_add(e.op) {
            if !m.contains_key(e.raw_fd) && fd != e.raw_fd {
                if e.parked_fd is Some {
                    let p = e.parked_fd->0;
                    if fd != p {
                        assert(m.contains_key(fd));
                    }
                } else {
                    assert(m.contains_key(fd));
                }
            }
        }
    }
}

/// Removing an fd that was just added, without a parked fd, gives back the
/// registry from before the add.
pub proof fn law_remove_undoes_add<H>(m: Registry<H>, e: NotifierView<H>)
    requires
        !m.contains_key(e.raw_fd),
        e.parked_fd is None,
    ensures
        remove_allowed(add_model(m, e), e.raw_fd),
        remove_model(add_model(m, e), e.raw_fd) == m,
{
    assert(remove_model(add_model(m, e), e.raw_fd) =~= m);
}

/// A notifier added with a parked fd parks that fd while it is registered, and
/// removing it brings the parked fd back alive; everything else is as before the
/// add.
pub proof fn law_parked_fd_returns_on_remove<H>(m: Registry<H>, e: NotifierView<H>, p: i32)
    requires
        !m.contains_key(e.raw_fd),
        e.parked_fd == Some(p),
        m.contains_key(p),
    ensures
        add_model(m, e)[p].status == EventStatus::Park,
        add_model(m, e)[e.raw_fd].status == EventStatus::Alive,
        remove_allowed(add_model(m, e), e.raw_fd),
        remove_model(add_model(m, e), e.raw_fd) == m.insert(p, with_status(m[p], EventStatus::Alive)),
        m[p].status == EventStatus::Alive ==> remove_model(add_model(m, e), e.raw_fd) == m,
{
    assert(p != e.raw_fd);
    let a = add_model(m, e);
    assert(a.remove(e.raw_fd) =~= m.insert(p, with_status(m[p], EventStatus::Park)));
    assert(remove_model(a, e.raw_fd) =~= m.insert(p, with_status(m[p], EventStatus::Alive)));
    if m[p].status == EventStatus::Alive {
        assert(with_status(m[p], EventStatus::Alive) == m[p]);
        assert(m.insert(p, m[p]) =~= m);
    }
}

/// Resuming a notifier that was parked from alive gives back the registry from
/// before the park.
pub proof fn law_resume_undoes_park<H>(m: Registry<H>, fd: i32)
    requires
        m.contains_key(fd),
        m[fd].status == EventStatus::Alive,
    ensures
        ({
            let parked = m.insert(fd, with_status(m[fd], EventStatus::Park));
            parked.insert(fd, with_status(parked[fd], EventStatus::Alive)) == m
        }),
{
    let parked = m.insert(fd, with_status(m[fd], EventStatus::Park));
    assert(with_status(parked[fd], EventStatus::Alive) == m[fd]);
    assert(parked.insert(fd, with_status(parked[fd], EventStatus::Alive)) =~= m);
}

/// Sharing a watched fd keeps its status and adds the new handlers after the old
/// ones; an exclusive add of a watched fd is refused.
pub proof fn law_shared_add_appends_handlers<H>(m: Registry<H>, e: NotifierView<H>)
    requires
        m.contains_key(e.raw_fd),
    ensures
        add_allowed(m, e) <==> e.op != NotifierOperation::AddExclusion,
        add_model(m, e)[e.raw_fd].handlers == m[e.raw_fd].handlers + e.handlers,
        add_model(m, e)[e.raw_fd].status == m[e.raw_fd].status,
        add_model(m, e).dom() == m.dom(),
{
    assert(add_model(m, e).dom() =~= m.dom());
}

/// Applying two batches of notifiers one after the other is applying their
/// concatenation: a batch succeeds on the registry the previous one left.
pub proof fn law_batches_compose<H>(m: Registry<H>, a: Seq<NotifierView<H>>, b: Seq<NotifierView<H>>)
    ensures
        apply_all(m, a + b) == apply_all(apply_all(m, a), b),
        all_allowed(m, a + b) == (all_allowed(m, a) && all_allowed(apply_all(m, a), b)),
    decreases b.len(),
{
    if b.len() == 0 {
        assert(a + b =~= a);
    } else {
        law_batches_compose(m, a, b.drop_last());
        assert((a + b).drop_last() =~= a + b.drop_last());
        assert((a + b).last() == b.last());
    }
}

/// A kicked loop does not block in its next wait, unless it was asked not to
/// block anyway.
pub proof fn law_kicked_loop_does_not_block(time_out: Option<u64>)
    ensures
        wait_timeout(time_out, true) == Some(0u64),
        wait_timeout(time_out, false) == time_out,
{
}

/// One answer of the loop manager.
pub enum ManagerAnswer {
    /// To "should the loop exit?".
    ShouldExit(bool),
    /// To "clean up before the loop exits".
    Cleanup(Result<(), UtilError>),
}

/// Asks the manager `m` whether the loop should exit, and records the answer.
fn ask_should_exit<M: EventLoopManager>(m: &M, log: &mut Ghost<Seq<ManagerAnswer>>) -> (exit: bool)
    ensures
        final(log)@ == old(log)@.push(ManagerAnswer::ShouldExit(exit)),
{
    let exit = m.loop_should_exit();
    *log = Ghost(log@.push(ManagerAnswer::ShouldExit(exit)));
    exit
}

/// Asks the manager `m` to clean up before the loop exits, and records the answer.
fn ask_cleanup<M: EventLoopManager>(m: &M, log: &mut Ghost<Seq<ManagerAnswer>>) -> (r: Result<(), UtilError>)
    ensures
        final(log)@ == old(log)@.push(ManagerAnswer::Cleanup(r)),
{
    let r = m.loop_cleanup();
    *log = Ghost(log@.push(ManagerAnswer::Cleanup(r)));
    r
}

/// One `epoll_ctl` request of the loop: the operation, the fd, the event bits
/// handed over, and the kernel's answer (an errno on failure).
pub struct EpollRequest {
    pub op: CtlOp,
    pub fd: i32,
    pub events: u32,
    pub result: Result<(), i32>,
}

/// Whether `q` is the request `op` on `fd` with event bits `events`.
pub open spec fn is_request(q: EpollRequest, op: CtlOp, fd: i32, events: u32) -> bool {
    q.op == op && q.fd == fd && q.events == events
}

/// Whether a failed `EPOLL_CTL_DEL` on a descriptor says that it is not in the
/// interest set (closed, never added, or not pollable), which removal tolerates.
pub open spec fn delete_tolerated(e: i32) -> bool {
    e == EBADF || e == ENOENT || e == EPERM
}

/// The fds epoll watches, with their event bits, after request `q`: an added fd
/// is watched with its bits; a modified fd that was watched gets its new bits; a
/// deleted fd is not watched; a failed request changes nothing.
pub open spec fn watched_after(w: Map<i32, u32>, q: EpollRequest) -> Map<i32, u32> {
    match q.result {
        Ok(()) => match q.op {
            CtlOp::Add => w.insert(q.fd, q.events),
            CtlOp::Modify => if w.contains_key(q.fd) { w.insert(q.fd, q.events) } else { w },
            CtlOp::Delete => w.remove(q.fd),
        },
        Err(_) => w,
    }
}

/// The fds epoll watches after the requests `qs`, in order.
pub open spec fn watched_replay(w: Map<i32, u32>, qs: Seq<EpollRequest>) -> Map<i32, u32>
    decreases qs.len(),
{
    if qs.len() == 0 {
        w
    } else {
        watched_after(watched_replay(w, qs.drop_last()), qs.last())
    }
}

/// Alive notifiers are watched by epoll with their own event bits; parked ones
/// are not watched.
pub open spec fn epoll_agrees<H>(m: Registry<H>, w: Map<i32, u32>) -> bool {
    forall|fd: i32| #[trigger] m.contains_key(fd) ==> {
        &&& m[fd].status == EventStatus::Alive ==> w.contains_key(fd) && w[fd] == m[fd].event
        &&& m[fd].status == EventStatus::Park ==> !w.contains_key(fd)
    }
}

/// The requests made after `old`: `new` extends `old` by `n` requests.
pub open spec fn extends_by(old: Seq<EpollRequest>, new: Seq<EpollRequest>, n: int) -> bool {
    new.len() == old.len() + n && new.take(old.len() as int) == old
}

/// Requests made after `l0` that extend it by none.
pub proof fn lemma_log_none(w: Map<i32, u32>, l0: Seq<EpollRequest>)
    ensures
        extends_by(l0, l0, 0),
        watched_replay(w, l0.skip(l0.len() as int)) == w,
{
    assert(l0.take(l0.len() as int) =~= l0);
    assert(l0.skip(l0.len() as int) =~= Seq::<EpollRequest>::empty());
}

/// Requests made after `l0` that extend it by `q`.
pub proof fn lemma_log_one(w: Map<i32, u32>, l0: Seq<EpollRequest>, q: EpollRequest)
    ensures
        extends_by(l0, l0.push(q), 1),
        l0.push(q)[l0.len() as int] == q,
        watched_replay(w, l0.push(q).skip(l0.len() as int)) == watched_after(w, q),
{
    let l1 = l0.push(q);
    assert(l1.take(l0.len() as int) =~= l0);
    assert(l1.skip(l0.len() as int) =~= seq![q]);
    assert(seq![q].drop_last() =~= Seq::<EpollRequest>::empty());
    assert(watched_replay(w, Seq::<EpollRequest>::empty()) == w);
    assert(watched_replay(w, seq![q]) == watched_after(watched_replay(w, Seq::<EpollRequest>::empty()), q));
}

/// Requests made after `l0` that extend it by `q0` and then `q1`.
pub proof fn lemma_log_two(w: Map<i32, u32>, l0: Seq<EpollRequest>, q0: EpollRequest, q1: EpollRequest)
    ensures
        extends_by(l0, l0.push(q0).push(q1), 2),
        l0.push(q0).push(q1)[l0.len() as int] == q0,
        l0.push(q0).push(q1)[(l0.len() + 1) as int] == q1,
        watched_replay(w, l0.push(q0).push(q1).skip(l0.len() as int)) == watched_after(watched_after(w, q0), q1),
{
    let l2 = l0.push(q0).push(q1);
    assert(l2.take(l0.len() as int) =~= l0);
    assert(l2.skip(l0.len() as int) =~= seq![q0, q1]);
    assert(seq![q0, q1].drop_last() =~= seq![q0]);
    assert(seq![q0].drop_last() =~= Seq::<EpollRequest>::empty());
    assert(watched_replay(w, Seq::<EpollRequest>::empty()) == w);
    assert(watched_replay(w, seq![q0]) == watched_after(watched_replay(w, Seq::<EpollRequest>::empty()), q0));
    assert(watched_replay(w, seq![q0, q1]) == watched_after(watched_replay(w, seq![q0]), q1));
}

/// The event loop of one thread.
pub struct EventLoopContext<H, F, M> {
    epoll_fd: i32,
    manager: Option<M>,
    kick_fd: i32,
    kick_me: bool,
    kicked: bool,
    kick_drain: bool,
    events: BTreeMap<i32, EventNotifier<H>>,
    gc: Vec<EventNotifier<H>>,
    ready_events: Vec<EpollEvent>,
    timers: TimerQueue<F>,
    pub clock_state: ClockState,
    epoll_log: Ghost<Seq<EpollRequest>>,
    watched: Ghost<Map<i32, u32>>,
    kick_writes: Ghost<nat>,
    drains: Ghost<nat>,
    fired: Ghost<Seq<(u64, Timer<F>)>>,
    calls: Ghost<Seq<HandlerCall<H>>>,
    waits: Ghost<Seq<WaitRequest>>,
    polls: Ghost<Seq<(H, i32, bool)>>,
    asks: Ghost<Seq<ManagerAnswer>>,
    clock_reads: Ghost<Seq<u64>>,
    record_reads: Ghost<Seq<(usize, u64, u32)>>,
}

impl<H, F, M> EventLoopContext<H, F, M> {
    /// The registered notifiers, by fd.
    pub closed spec fn registry(&self) -> Registry<H> {
        self.events@.map_values(|n: EventNotifier<H>| n@)
    }

    /// Removed notifiers that have not been dropped yet, oldest first.
    pub closed spec fn garbage(&self) -> Seq<NotifierView<H>> {
        self.gc@.map_values(|n: EventNotifier<H>| n@)
    }

    /// Whether the loop has been asked to run again without blocking.
    pub closed spec fn kicked(&self) -> bool {
        self.kicked
    }

    /// Whether the loop is about to block, so that a kick must wake it up.
    pub closed spec fn kick_me(&self) -> bool {
        self.kick_me
    }

    /// The eventfd that wakes the loop up.
    pub closed spec fn kick_fd(&self) -> i32 {
        self.kick_fd
    }

    /// Whether the kick notifier still drains the kick eventfd before its other
    /// handlers run: from its registration until its handlers are replaced or it
    /// is removed.
    pub closed spec fn kick_drain(&self) -> bool {
        self.kick_drain
    }

    /// The pending timers with their ids, in the order they will run.
    pub closed spec fn timers(&self) -> Seq<(u64, Timer<F>)> {
        self.timers@
    }

    /// The id the next timer gets.
    pub closed spec fn next_timer_id(&self) -> u64 {
        self.timers.next_id()
    }

    /// The loop manager, if any.
    pub closed spec fn manager(&self) -> Option<M> {
        self.manager
    }

    /// The guest's virtual clock.
    pub closed spec fn clock(&self) -> ClockState {
        self.clock_state
    }

    /// Every `epoll_ctl` request the loop has made, oldest first.
    pub closed spec fn epoll_log(&self) -> Seq<EpollRequest> {
        self.epoll_log@
    }

    /// The fds epoll watches, with their event bits, as the requests made so far
    /// leave them.
    pub closed spec fn watched(&self) -> Map<i32, u32> {
        self.watched@
    }

    /// How many times the loop has written to its kick eventfd.
    pub closed spec fn kick_writes(&self) -> nat {
        self.kick_writes@
    }

    /// How many times the loop has drained its kick eventfd.
    pub closed spec fn drains(&self) -> nat {
        self.drains@
    }

    /// The timers the loop has run, in the order it ran them.
    pub closed spec fn fired(&self) -> Seq<(u64, Timer<F>)> {
        self.fired@
    }

    /// The handler calls the loop has made, with the event bits and the fd handed
    /// to each, in order.
    pub closed spec fn calls(&self) -> Seq<HandlerCall<H>> {
        self.calls@
    }

    /// The waits the loop has made, oldest first.
    pub closed spec fn waits(&self) -> Seq<WaitRequest> {
        self.waits@
    }

    /// The poll handler calls the loop has made, with the fd handed to each and
    /// whether it handed back something, in order.
    pub closed spec fn polls(&self) -> Seq<(H, i32, bool)> {
        self.polls@
    }

    /// What the loop manager has answered the loop, in order.
    pub closed spec fn manager_answers(&self) -> Seq<ManagerAnswer> {
        self.asks@
    }

    /// The readings of the monotonic clock that running the timers took, in order.
    pub closed spec fn clock_reads(&self) -> Seq<u64> {
        self.clock_reads@
    }

    /// The reads of ready-event records the loop has made, as `(record, user data,
    /// event bits)`, in order.
    pub closed spec fn record_reads(&self) -> Seq<(usize, u64, u32)> {
        self.record_reads@
    }

    /// Everything the contracts speak of, but the manager's answers, is as in
    /// `other`.
    pub open spec fn same_loop(&self, other: &Self) -> bool {
        &&& self.registry() == other.registry()
        &&& self.garbage() == other.garbage()
        &&& self.timers() == other.timers()
        &&& self.next_timer_id() == other.next_timer_id()
        &&& self.kicked() == other.kicked()
        &&& self.kick_me() == other.kick_me()
        &&& self.kick_fd() == other.kick_fd()
        &&& self.kick_drain() == other.kick_drain()
        &&& self.manager() == other.manager()
        &&& self.clock() == other.clock()
        &&& self.epoll_log() == other.epoll_log()
        &&& self.watched() == other.watched()
        &&& self.kick_writes() == other.kick_writes()
        &&& self.drains() == other.drains()
        &&& self.fired() == other.fired()
        &&& self.calls() == other.calls()
        &&& self.waits() == other.waits()
        &&& self.polls() == other.polls()
    }

    /// Everything but the registry, the garbage list, the epoll requests and the
    /// kick drain is as in `other`.
    pub closed spec fn same_apart_from_notifiers(&self, other: &Self) -> bool {
        &&& self.epoll_fd == other.epoll_fd
        &&& self.manager == other.manager
        &&& self.kick_fd == other.kick_fd
        &&& self.kick_me == other.kick_me
        &&& self.kicked == other.kicked
        &&& self.ready_events@.len() == other.ready_events@.len()
        &&& self.timers == other.timers
        &&& self.clock_state == other.clock_state
        &&& self.kick_writes == other.kick_writes
        &&& self.drains == other.drains
        &&& self.fired == other.fired
        &&& self.calls == other.calls
        &&& self.waits == other.waits
        &&& self.polls == other.polls
        &&& self.asks == other.asks
        &&& self.clock_reads == other.clock_reads
    }

    /// The loop's invariant: a well-formed registry that agrees with what epoll
    /// watches, only removed notifiers in the garbage list, a full buffer of ready
    /// events, an ordered timer queue, and a kick drain only while the kick fd is
    /// registered.
    pub closed spec fn wf(&self) -> bool {
        &&& registry_wf(self.registry())
        &&& epoll_agrees(self.registry(), self.watched@)
        &&& forall|i: int| 0 <= i < self.gc@.len() ==> (#[trigger] self.gc@[i]).status == EventStatus::Removed
        &&& self.ready_events@.len() == READY_EVENT_MAX
        &&& self.timers.wf()
        &&& self.kick_drain ==> self.registry().contains_key(self.kick_fd)
    }

    proof fn lemma_registry_insert(&self, old_events: Map<i32, EventNotifier<H>>, fd: i32, n: EventNotifier<H>)
        requires
            self.events@ == old_events.insert(fd, n),
        ensures
            self.registry() == old_events.map_values(|n: EventNotifier<H>| n@).insert(fd, n@),
    {
        assert(self.registry() =~= old_events.map_values(|n: EventNotifier<H>| n@).insert(fd, n@));
    }

    proof fn lemma_registry_remove(&self, old_events: Map<i32, EventNotifier<H>>, fd: i32)
        requires
            self.events@ == old_events.remove(fd),
        ensures
            self.registry() == old_events.map_values(|n: EventNotifier<H>| n@).remove(fd),
    {
        assert(self.registry() =~= old_events.map_values(|n: EventNotifier<H>| n@).remove(fd));
    }

    /// Running the timers (`a` before, `b` after, as `run_timers` states) fires only
    /// timers that are due at the clock reading it took, in expiry order, and keeps
    /// every timer that is not: each fired timer expires no later than that
    /// reading, each one left expires later, and none is lost.
    pub proof fn law_run_timers_fires_only_due(a: Self, b: Self)
        requires
            a.wf(),
            b.clock_reads().len() == a.clock_reads().len() + 1,
            b.clock_reads().drop_last() == a.clock_reads(),
            b.timers() == a.timers().skip(insert_pos(a.timers(), b.clock_reads().last()) as int),
            b.fired() == a.fired() + a.timers().take(insert_pos(a.timers(), b.clock_reads().last()) as int),
        ensures
            forall|j: int| a.fired().len() <= j < b.fired().len() ==> b.fired()[j].1.expire_time <= b.clock_reads().last(),
            forall|j: int| 0 <= j < b.timers().len() ==> b.clock_reads().last() < b.timers()[j].1.expire_time,
            b.fired().skip(a.fired().len() as int) + b.timers() == a.timers(),
    {
        let now = b.clock_reads().last();
        let s = a.timers();
        lemma_insert_pos_split(s, now);
        let p = insert_pos(s, now) as int;
        assert forall|j: int| a.fired().len() <= j < b.fired().len() implies b.fired()[j].1.expire_time <= now by {
            assert(b.fired()[j] == s[j - a.fired().len()]);
        }
        assert forall|j: int| 0 <= j < b.timers().len() implies now < b.timers()[j].1.expire_time by {
            assert(b.timers()[j] == s[p + j]);
        }
        assert(b.fired().skip(a.fired().len() as int) =~= s.take(p));
        assert(s.take(p) + s.skip(p) =~= s);
    }

    /// The loop's timers are kept in expiry order, with distinct ids, all below the
    /// id the next timer gets.
    pub proof fn law_timer_queue_ordered(ctx: Self)
        requires
            ctx.wf(),
        ensures
            sorted_by_expiry(ctx.timers()),
            ids_fresh_below(ctx.timers(), ctx.next_timer_id()),
    {
    }

    /// A timer that `timer_add` queues with expiry `e` goes behind every pending
    /// timer that expires no later than `e` (so that timers expiring together run
    /// in the order they were added) and before every one that expires later.
    pub proof fn law_timer_add_position(ctx: Self, e: u64)
        requires
            ctx.wf(),
        ensures
            insert_pos(ctx.timers(), e) <= ctx.timers().len(),
            forall|j: int| 0 <= j < insert_pos(ctx.timers(), e) ==> ctx.timers()[j].1.expire_time <= e,
            forall|j: int| insert_pos(ctx.timers(), e) <= j < ctx.timers().len() ==> e < ctx.timers()[j].1.expire_time,
    {
        lemma_insert_pos_split(ctx.timers(), e);
    }

    /// Deleting the timer that `timer_add` just queued gives back the loop's queue:
    /// its id is held by no other timer, and the only entry with that id is the one
    /// queued.
    pub proof fn law_timer_del_undoes_timer_add(ctx: Self, t: Timer<F>, k: int)
        requires
            ctx.wf(),
            0 <= k <= ctx.timers().len(),
            ctx.timers().insert(insert_pos(ctx.timers(), t.expire_time) as int, (ctx.next_timer_id(), t))[k].0
                == ctx.next_timer_id(),
        ensures
            !has_id(ctx.timers(), ctx.next_timer_id()),
            k == insert_pos(ctx.timers(), t.expire_time),
            ctx.timers().insert(insert_pos(ctx.timers(), t.expire_time) as int, (ctx.next_timer_id(), t)).remove(k)
                == ctx.timers(),
    {
        law_timer_del_undoes_add(ctx.timers(), ctx.next_timer_id(), t, k);
    }

    /// Parking an alive notifier and then resuming it, each with success (`b` and
    /// `c` are the loops after the two calls, as `park_event` and `resume_event`
    /// state them), gives back the registry of `a`; epoll stops watching the fd
    /// while it is parked and watches it again with the same event bits.
    pub proof fn law_park_then_resume_restores(a: Self, b: Self, c: Self, fd: i32)
        requires
            a.wf(),
            b.wf(),
            c.wf(),
            a.registry().contains_key(fd),
            a.registry()[fd].status == EventStatus::Alive,
            b.registry() == a.registry().insert(fd, with_status(a.registry()[fd], EventStatus::Park)),
            c.registry() == b.registry().insert(fd, with_status(b.registry()[fd], EventStatus::Alive)),
        ensures
            c.registry() == a.registry(),
            !b.watched().contains_key(fd),
            c.watched().contains_key(fd),
            c.watched()[fd] == a.watched()[fd],
    {
        law_resume_undoes_park(a.registry(), fd);
        assert(b.registry().contains_key(fd));
        assert(c.registry().contains_key(fd));
    }

    /// Whether `fd` is registered, and if so, whether its notifier is alive.
    pub fn check_existence(&self, fd: i32) -> (r: Option<bool>)
        ensures
            r == (if self.registry().contains_key(fd) {
                Some(self.registry()[fd].status == EventStatus::Alive)
            } else {
                None::<bool>
            }),
    {
        match self.events.get(&fd) {
            None => None,
            Some(notifier) => Some(notifier.status == EventStatus::Alive),
        }
    }

    /// Writes 1 to the kick eventfd, waking up a blocked wait.
    fn write_kick(&mut self)
        ensures
            final(self).kick_writes() == old(self).kick_writes() + 1,
            final(self).kicked() == old(self).kicked(),
            final(self).kick_me() == old(self).kick_me(),
            final(self).registry() == old(self).registry(),
            final(self).garbage() == old(self).garbage(),
            final(self).wf() == old(self).wf(),
            final(self).timers() == old(self).timers(),
            final(self).next_timer_id() == old(self).next_timer_id(),
            final(self).manager() == old(self).manager(),
            final(self).kick_fd() == old(self).kick_fd(),
            final(self).kick_drain() == old(self).kick_drain(),
            final(self).epoll_log() == old(self).epoll_log(),
            final(self).watched() == old(self).watched(),
            final(self).drains() == old(self).drains(),
            final(self).fired() == old(self).fired(),
            final(self).calls() == old(self).calls(),
            final(self).clock() == old(self).clock(),
            final(self).waits() == old(self).waits(),
            final(self).polls() == old(self).polls(),
            final(self).manager_answers() == old(self).manager_answers(),
    {
        let _ = fd_write_u64(self.kick_fd, 1);
        self.kick_writes = Ghost(self.kick_writes@ + 1);
    }

    /// Asks the loop to run again at once, and, if the loop is about to block,
    /// writes to the kick eventfd to wake it up.
    pub fn tick(&mut self)
        ensures
            final(self).kicked(),
            final(self).kick_writes() == old(self).kick_writes() + (if old(self).kick_me() { 1nat } else { 0nat }),
            final(self).kick_me() == old(self).kick_me(),
            final(self).registry() == old(self).registry(),
            final(self).garbage() == old(self).garbage(),
            final(self).wf() == old(self).wf(),
            final(self).timers() == old(self).timers(),
            final(self).next_timer_id() == old(self).next_timer_id(),
            final(self).manager() == old(self).manager(),
            final(self).kick_fd() == old(self).kick_fd(),
            final(self).kick_drain() == old(self).kick_drain(),
            final(self).epoll_log() == old(self).epoll_log(),
            final(self).watched() == old(self).watched(),
            final(self).drains() == old(self).drains(),
            final(self).fired() == old(self).fired(),
            final(self).calls() == old(self).calls(),
            final(self).clock() == old(self).clock(),
            final(self).waits() == old(self).waits(),
            final(self).polls() == old(self).polls(),
            final(self).manager_answers() == old(self).manager_answers(),
    {
        self.kicked = true;
        if self.kick_me {
            self.write_kick();
        }
    }

    /// Makes the `epoll_ctl` request `op` on `fd` with event bits `events` (the fd
    /// itself is the user data), and records it.
    fn ctl(&mut self, op: CtlOp, fd: i32, events: u32) -> (r: Result<(), i32>)
        ensures
            final(self).epoll_log() == old(self).epoll_log().push(EpollRequest { op, fd, events, result: r }),
            final(self).watched() == watched_after(old(self).watched(), EpollRequest { op, fd, events, result: r }),
            final(self).registry() == old(self).registry(),
            final(self).garbage() == old(self).garbage(),
            final(self).events == old(self).events,
            final(self).gc == old(self).gc,
            final(self).kick_drain == old(self).kick_drain,
            final(self).same_apart_from_notifiers(old(self)),
    {
        let r = epoll_ctl(self.epoll_fd, op, fd, events, epoll_data(fd));
        let ghost q = EpollRequest { op, fd, events, result: r };
        self.epoll_log = Ghost(self.epoll_log@.push(q));
        self.watched = Ghost(watched_after(self.watched@, q));
        r
    }

    /// Registers `event`. A watched fd gets `event`'s event bits (through
    /// `EPOLL_CTL_MOD` with the merged bits, when they change) and handlers on top
    /// of its own, unless `event` asks for it exclusively; a new fd is added to
    /// epoll with its bits and registered alive, and the fd it parks is taken out
    /// of epoll and parked. Which of these requests are made, and how the kernel
    /// answers them, decides the result (see the clauses below).
    pub fn add_event(&mut self, event: EventNotifier<H>) -> (r: Result<(), UtilError>)
        requires
            old(self).wf(),
        ensures
            final(self).wf(),
            final(self).same_apart_from_notifiers(old(self)),
            final(self).garbage() == old(self).garbage(),
            final(self).kick_drain() == old(self).kick_drain(),
            final(self).watched() == watched_replay(old(self).watched(),
                final(self).epoll_log().skip(old(self).epoll_log().len() as int)),
            r is Ok ==> add_allowed(old(self).registry(), event@)
                && final(self).registry() == add_model(old(self).registry(), event@),
            r matches Err(err) ==> add_error(old(self).registry(), event@, err)
                && final(self).registry() == old(self).registry(),
            ({
                let m = old(self).registry();
                let fd = event.raw_fd;
                let l0 = old(self).epoll_log();
                let l1 = final(self).epoll_log();
                let q0 = l1[l0.len() as int];
                let q1 = l1[(l0.len() + 1) as int];
                let p = event.parked_fd->0;
                &&& m.contains_key(fd) && event.op == NotifierOperation::AddExclusion ==> {
                    &&& r == Err::<(), UtilError>(UtilError::BadNotifierOperation)
                    &&& l1 == l0
                }
                &&& m.contains_key(fd) && event.op != NotifierOperation::AddExclusion && m[fd].event == event.event ==> {
                    &&& r is Ok
                    &&& l1 == l0
                }
                &&& m.contains_key(fd) && event.op != NotifierOperation::AddExclusion && m[fd].event != event.event ==> {
                    &&& extends_by(l0, l1, 1)
                    &&& is_request(q0, CtlOp::Modify, fd, m[fd].event | event.event)
                    &&& q0.result is Ok ==> r is Ok
                    &&& q0.result matches Err(x) ==> r == Err::<(), UtilError>(UtilError::BadSyscall(x))
                }
                &&& !m.contains_key(fd) ==> {
                    &&& l1.len() > l0.len()
                    &&& is_request(q0, CtlOp::Add, fd, event.event)
                    &&& q0.result matches Err(x) ==> r == Err::<(), UtilError>(UtilError::BadSyscall(x)) && extends_by(l0, l1, 1)
                    &&& q0.result is Ok && event.parked_fd is None ==> r is Ok && extends_by(l0, l1, 1)
                    &&& q0.result is Ok && event.parked_fd is Some && !m.contains_key(p) ==> r
                        == Err::<(), UtilError>(UtilError::NoParkedFd(p)) && extends_by(l0, l1, 1)
                    &&& q0.result is Ok && event.parked_fd is Some && m.contains_key(p) ==> {
                        &&& extends_by(l0, l1, 2)
                        &&& is_request(q1, CtlOp::Delete, p, 0)
                        &&& q1.result is Ok ==> r is Ok
                        &&& q1.result matches Err(x) ==> r == Err::<(), UtilError>(UtilError::BadSyscall(x))
                    }
                }
            }),
    {
        let fd = event.raw_fd;
        let ghost ev = self.events@;
        let ghost m = self.registry();
        let ghost e0 = event@;
        let ghost l0 = self.epoll_log@;
        let ghost w0 = self.watched@;
        let mut event = event;
        if self.events.contains_key(&fd) {
            if event.op == NotifierOperation::AddExclusion {
                proof {
                    lemma_log_none(w0, l0);
                }
                return Err(UtilError::BadNotifierOperation);
            }
            let mut n = self.events.remove(&fd).unwrap();
            proof {
                assert(n == ev[fd]);
                assert(m[fd] == n@);
            }
            if n.event != event.event {
                let merged: u32 = n.event | event.event;
                match self.ctl(CtlOp::Modify, n.raw_fd, merged) {
                    Err(e) => {
                        self.events.insert(fd, n);
                        proof {
                            assert(self.events@ =~= ev);
                            lemma_log_one(w0, l0, self.epoll_log@.last());
                        }
                        return Err(UtilError::BadSyscall(e));
                    },
                    Ok(()) => {
                        n.event = merged;
                        proof {
                            lemma_log_one(w0, l0, self.epoll_log@.last());
                        }
                    },
                }
            } else {
                proof {
                    lemma_log_none(w0, l0);
                }
            }
            proof {
                let x = m[fd].event;
                if x == e0.event {
                    assert(x | x == x) by (bit_vector);
                }
                assert(n.event == m[fd].event | e0.event);
            }
            n.handlers.append(&mut event.handlers);
            self.events.insert(fd, n);
            proof {
                assert(n.handlers@ == m[fd].handlers + e0.handlers);
                self.lemma_registry_insert(ev.remove(fd), fd, n);
                assert(self.registry() =~= add_model(m, e0));
            }
            return Ok(());
        }
        match self.ctl(CtlOp::Add, fd, event.event) {
            Err(e) => {
                proof {
                    lemma_log_one(w0, l0, self.epoll_log@.last());
                }
                return Err(UtilError::BadSyscall(e));
            },
            Ok(()) => {},
        }
        let ghost l_add = self.epoll_log@;
        let ghost w_add = self.watched@;
        proof {
            lemma_log_one(w0, l0, self.epoll_log@.last());
        }
        let ghost m1 = m;
        if let Some(p) = event.parked_fd {
            if self.events.contains_key(&p) {
                match self.ctl(CtlOp::Delete, p, 0) {
                    Err(e) => {
                        proof {
                            lemma_log_two(w0, l0, l_add.last(), self.epoll_log@.last());
                        }
                        return Err(UtilError::BadSyscall(e));
                    },
                    Ok(()) => {},
                }
                let mut parked = self.events.remove(&p).unwrap();
                parked.status = EventStatus::Park;
                proof {
                    assert(m[p] == ev[p]@);
                }
                self.events.insert(p, parked);
                proof {
                    self.lemma_registry_insert(ev.remove(p), p, parked);
                    assert(self.registry() =~= m.insert(p, with_status(m[p], EventStatus::Park)));
                    m1 = self.registry();
                    lemma_log_two(w0, l0, l_add.last(), self.epoll_log@.last());
                }
            } else {
                return Err(UtilError::NoParkedFd(p));
            }
        }
        let ghost ev1 = self.events@;
        event.status = EventStatus::Alive;
        self.events.insert(fd, event);
        proof {
            self.lemma_registry_insert(ev1, fd, event);
            assert(self.registry() =~= add_model(m, event@));
        }
        Ok(())
    }

    /// Replaces the handlers of the notifier of `event.raw_fd` by `event`'s; an
    /// error if the fd is not registered. No epoll request is made. Replacing the
    /// handlers of the kick notifier ends its draining of the kick eventfd.
    pub fn modify_event(&mut self, event: EventNotifier<H>) -> (r: Result<(), UtilError>)
        requires
            old(self).wf(),
        ensures
            final(self).wf(),
            final(self).same_apart_from_notifiers(old(self)),
            final(self).garbage() == old(self).garbage(),
            final(self).epoll_log() == old(self).epoll_log(),
            final(self).watched() == old(self).watched(),
            final(self).kick_drain() == (old(self).kick_drain() && !(old(self).registry().contains_key(event.raw_fd)
                && event.raw_fd == old(self).kick_fd())),
            old(self).registry().contains_key(event.raw_fd) ==> r is Ok
                && final(self).registry() == modify_model(old(self).registry(), event@),
            !old(self).registry().contains_key(event.raw_fd) ==> r == Err::<(), UtilError>(UtilError::NoRegisterFd(event.raw_fd))
                && final(self).registry() == old(self).registry(),
    {
        let fd = event.raw_fd;
        let ghost ev = self.events@;
        let ghost m = self.registry();
        if self.events.contains_key(&fd) {
            let mut n = self.events.remove(&fd).unwrap();
            proof {
                assert(m[fd] == n@);
            }
            n.handlers = event.handlers;
            self.events.insert(fd, n);
            if fd == self.kick_fd {
                self.kick_drain = false;
            }
            proof {
                self.lemma_registry_insert(ev.remove(fd), fd, n);
                assert(self.registry() =~= modify_model(m, event@));
            }
            Ok(())
        } else {
            Err(UtilError::NoRegisterFd(fd))
        }
    }

    /// Makes the request `op` on the registered fd `fd` with bits `events`, and on
    /// success sets the fd's status to `status`.
    fn set_status_after_ctl(&mut self, fd: i32, op: CtlOp, events: u32, status: EventStatus) -> (r: Result<(), UtilError>)
        requires
            old(self).wf(),
            old(self).registry().contains_key(fd),
            status == EventStatus::Alive ==> op == CtlOp::Add && events == old(self).registry()[fd].event,
            status == EventStatus::Park ==> op == CtlOp::Delete,
            status != EventStatus::Removed,
        ensures
            final(self).wf(),
            final(self).same_apart_from_notifiers(old(self)),
            final(self).garbage() == old(self).garbage(),
            final(self).kick_drain() == old(self).kick_drain(),
            final(self).epoll_log().len() == old(self).epoll_log().len() + 1,
            final(self).epoll_log().drop_last() == old(self).epoll_log(),
            is_request(final(self).epoll_log().last(), op, fd, events),
            final(self).watched() == watched_after(old(self).watched(), final(self).epoll_log().last()),
            final(self).epoll_log().last().result is Ok ==> r is Ok
                && final(self).registry() == old(self).registry().insert(fd, with_status(old(self).registry()[fd], status)),
            final(self).epoll_log().last().result matches Err(x) ==> r == Err::<(), UtilError>(UtilError::BadSyscall(x))
                && final(self).registry() == old(self).registry(),
    {
        let ghost ev = self.events@;
        let ghost m = self.registry();
        match self.ctl(op, fd, events) {
            Err(e) => {
                return Err(UtilError::BadSyscall(e));
            },
            Ok(()) => {},
        }
        let mut n = self.events.remove(&fd).unwrap();
        proof {
            assert(m[fd] == n@);
        }
        n.status = status;
        self.events.insert(fd, n);
        proof {
            self.lemma_registry_insert(ev.remove(fd), fd, n);
            assert(self.registry() =~= m.insert(fd, with_status(m[fd], status)));
        }
        Ok(())
    }

    /// Takes the fd of `event` out of epoll (`EPOLL_CTL_DEL`) and parks its
    /// notifier; an error if the fd is not registered or the kernel refuses.
    pub fn park_event(&mut self, event: EventNotifier<H>) -> (r: Result<(), UtilError>)
        requires
            old(self).wf(),
        ensures
            final(self).wf(),
            final(self).same_apart_from_notifiers(old(self)),
            final(self).garbage() == old(self).garbage(),
            final(self).kick_drain() == old(self).kick_drain(),
            final(self).watched() == watched_replay(old(self).watched(),
                final(self).epoll_log().skip(old(self).epoll_log().len() as int)),
            r is Ok ==> old(self).registry().contains_key(event.raw_fd) && final(self).registry()
                == old(self).registry().insert(event.raw_fd, with_status(old(self).registry()[event.raw_fd], EventStatus::Park)),
            r matches Err(err) ==> park_error(old(self).registry(), event.raw_fd, err)
                && final(self).registry() == old(self).registry(),
            !old(self).registry().contains_key(event.raw_fd) ==> r == Err::<(), UtilError>(UtilError::NoRegisterFd(event.raw_fd))
                && final(self).epoll_log() == old(self).epoll_log(),
            old(self).registry().contains_key(event.raw_fd) ==> {
                let q = final(self).epoll_log().last();
                &&& extends_by(old(self).epoll_log(), final(self).epoll_log(), 1)
                &&& is_request(q, CtlOp::Delete, event.raw_fd, 0)
                &&& q.result is Ok ==> r is Ok
                &&& q.result matches Err(x) ==> r == Err::<(), UtilError>(UtilError::BadSyscall(x))
            },
    {
        let fd = event.raw_fd;
        let ghost l0 = self.epoll_log@;
        let ghost w0 = self.watched@;
        if self.events.contains_key(&fd) {
            let r = self.set_status_after_ctl(fd, CtlOp::Delete, 0, EventStatus::Park);
            proof {
                assert(self.epoll_log@ =~= l0.push(self.epoll_log@.last()));
                lemma_log_one(w0, l0, self.epoll_log@.last());
            }
            r
        } else {
            proof {
                lemma_log_none(w0, l0);
            }
            Err(UtilError::NoRegisterFd(fd))
        }
    }

    /// Puts the fd of `event` back into epoll (`EPOLL_CTL_ADD` with the event bits
    /// of its notifier) and makes the notifier alive; an error if the fd is not
    /// registered or the kernel refuses.
    pub fn resume_event(&mut self, event: EventNotifier<H>) -> (r: Result<(), UtilError>)
        requires
            old(self).wf(),
        ensures
            final(self).wf(),
            final(self).same_apart_from_notifiers(old(self)),
            final(self).garbage() == old(self).garbage(),
            final(self).kick_drain() == old(self).kick_drain(),
            final(self).watched() == watched_replay(old(self).watched(),
                final(self).epoll_log().skip(old(self).epoll_log().len() as int)),
            r is Ok ==> old(self).registry().contains_key(event.raw_fd) && final(self).registry()
                == old(self).registry().insert(event.raw_fd, with_status(old(self).registry()[event.raw_fd], EventStatus::Alive)),
            r matches Err(err) ==> park_error(old(self).registry(), event.raw_fd, err)
                && final(self).registry() == old(self).registry(),
            !old(self).registry().contains_key(event.raw_fd) ==> r == Err::<(), UtilError>(UtilError::NoRegisterFd(event.raw_fd))
                && final(self).epoll_log() == old(self).epoll_log(),
            old(self).registry().contains_key(event.raw_fd) ==> {
                let q = final(self).epoll_log().last();
                &&& extends_by(old(self).epoll_log(), final(self).epoll_log(), 1)
                &&& is_request(q, CtlOp::Add, event.raw_fd, old(self).registry()[event.raw_fd].event)
                &&& q.result is Ok ==> r is Ok
                &&& q.result matches Err(x) ==> r == Err::<(), UtilError>(UtilError::BadSyscall(x))
            },
    {
        let fd = event.raw_fd;
        let ghost l0 = self.epoll_log@;
        let ghost w0 = self.watched@;
        let ghost m = self.registry();
        match self.events.get(&fd) {
            Some(n) => {
                let events = n.event;
                proof {
                    assert(m[fd] == n@);
                }
                let r = self.set_status_after_ctl(fd, CtlOp::Add, events, EventStatus::Alive);
                proof {
                    assert(self.epoll_log@ =~= l0.push(self.epoll_log@.last()));
                    lemma_log_one(w0, l0, self.epoll_log@.last());
                }
                r
            },
            None => {
                proof {
                    lemma_log_none(w0, l0);
                }
                Err(UtilError::NoRegisterFd(fd))
            },
        }
    }

    /// Unregisters the fd of `event`: takes it out of epoll if its notifier is
    /// alive (a failure saying the fd is closed or gone, `EBADF`, `ENOENT` or
    /// `EPERM`, is no error), moves the notifier, marked removed, to the garbage
    /// list, and puts the fd that it parked (as the stored notifier says, not
    /// `event`) back into epoll with its stored bits and makes it alive. An error
    /// if the fd, or the fd it parked, is not registered, or the kernel refuses.
    pub fn rm_event(&mut self, event: EventNotifier<H>) -> (r: Result<(), UtilError>)
        requires
            old(self).wf(),
        ensures
            final(self).wf(),
            final(self).same_apart_from_notifiers(old(self)),
            final(self).watched() == watched_replay(old(self).watched(),
                final(self).epoll_log().skip(old(self).epoll_log().len() as int)),
            final(self).kick_drain() == (old(self).kick_drain() && final(self).registry().contains_key(old(self).kick_fd())),
            r is Ok ==> remove_allowed(old(self).registry(), event.raw_fd)
                && final(self).registry() == remove_model(old(self).registry(), event.raw_fd),
            r matches Err(err) ==> remove_error(old(self).registry(), event.raw_fd, err),
            r is Err ==> final(self).registry() == old(self).registry()
                || final(self).registry() == old(self).registry().remove(event.raw_fd),
            r is Err && r->Err_0 is BadSyscall && old(self).registry()[event.raw_fd].parked_fd is None
                ==> !delete_tolerated(r->Err_0->BadSyscall_0),
            final(self).garbage() == old(self).garbage() || final(self).garbage() == old(self).garbage().push(
                with_status(old(self).registry()[event.raw_fd], EventStatus::Removed),
            ),
            ({
                let m = old(self).registry();
                let fd = event.raw_fd;
                let l0 = old(self).epoll_log();
                let l1 = final(self).epoll_log();
                let alive = m[fd].status == EventStatus::Alive;
                let p = m[fd].parked_fd->0;
                let k: int = if alive { 1 } else { 0 };
                let q0 = l1[l0.len() as int];
                let refused = alive && (q0.result matches Err(x) && !delete_tolerated(x));
                &&& !m.contains_key(fd) ==> {
                    &&& r == Err::<(), UtilError>(UtilError::NoRegisterFd(fd))
                    &&& l1 == l0
                    &&& final(self).registry() == m
                    &&& final(self).garbage() == old(self).garbage()
                }
                &&& m.contains_key(fd) && alive ==> is_request(q0, CtlOp::Delete, fd, 0)
                &&& m.contains_key(fd) && refused ==> {
                    &&& r == Err::<(), UtilError>(UtilError::BadSyscall(q0.result->Err_0))
                    &&& extends_by(l0, l1, 1)
                    &&& final(self).registry() == m
                    &&& final(self).garbage() == old(self).garbage()
                }
                &&& m.contains_key(fd) && !refused ==> {
                    &&& final(self).garbage() == old(self).garbage().push(with_status(m[fd], EventStatus::Removed))
                    &&& m[fd].parked_fd is None ==> r is Ok && extends_by(l0, l1, k) && final(self).registry() == m.remove(fd)
                    &&& m[fd].parked_fd is Some && !m.remove(fd).contains_key(p) ==> {
                        &&& r == Err::<(), UtilError>(UtilError::NoParkedFd(p))
                        &&& extends_by(l0, l1, k)
                        &&& final(self).registry() == m.remove(fd)
                    }
                    &&& m[fd].parked_fd is Some && m.remove(fd).contains_key(p) ==> {
                        let q1 = l1[l0.len() + k];
                        &&& extends_by(l0, l1, k + 1)
                        &&& is_request(q1, CtlOp::Add, p, m[p].event)
                        &&& q1.result is Ok ==> r is Ok && final(self).registry() == remove_model(m, fd)
                        &&& q1.result matches Err(x) ==> r == Err::<(), UtilError>(UtilError::BadSyscall(x))
                            && final(self).registry() == m.remove(fd)
                    }
                }
            }),
    {
        let fd = event.raw_fd;
        let ghost l0 = self.epoll_log@;
        let ghost w0 = self.watched@;
        if !self.events.contains_key(&fd) {
            proof {
                lemma_log_none(w0, l0);
            }
            return Err(UtilError::NoRegisterFd(fd));
        }
        let ghost ev = self.events@;
        let ghost m = self.registry();
        let ghost g = self.garbage();
        let (status, parked_fd) = match self.events.get(&fd) {
            Some(n) => (n.status, n.parked_fd),
            None => {
                return Err(UtilError::NoRegisterFd(fd));
            },
        };
        proof {
            assert(m[fd] == ev[fd]@);
        }
        if status == EventStatus::Alive {
            match self.ctl(CtlOp::Delete, fd, 0) {
                Err(e) => {
                    if e != EBADF && e != ENOENT && e != EPERM {
                        proof {
                            lemma_log_one(w0, l0, self.epoll_log@.last());
                        }
                        return Err(UtilError::BadSyscall(e));
                    }
                },
                Ok(()) => {},
            }
            proof {
                lemma_log_one(w0, l0, self.epoll_log@.last());
            }
        } else {
            proof {
                lemma_log_none(w0, l0);
            }
        }
        let ghost l_del = self.epoll_log@;
        let ghost w_del = self.watched@;
        let mut n = match self.events.remove(&fd) {
            Some(n) => n,
            None => {
                return Err(UtilError::NoRegisterFd(fd));
            },
        };
        n.status = EventStatus::Removed;
        self.gc.push(n);
        if fd == self.kick_fd {
            self.kick_drain = false;
        }
        proof {
            self.lemma_registry_remove(ev, fd);
            assert(self.garbage() =~= g.push(with_status(m[fd], EventStatus::Removed)));
        }
        let ghost ev1 = self.events@;
        let ghost m1 = self.registry();
        if let Some(p) = parked_fd {
            let events = match self.events.get(&p) {
                Some(parked) => parked.event,
                None => {
                    return Err(UtilError::NoParkedFd(p));
                },
            };
            proof {
                assert(m1[p] == ev1[p]@);
                assert(m1[p] == m[p]);
            }
            let res = self.ctl(CtlOp::Add, p, events);
            proof {
                if status == EventStatus::Alive {
                    lemma_log_two(w0, l0, l_del.last(), self.epoll_log@.last());
                } else {
                    lemma_log_one(w0, l0, self.epoll_log@.last());
                }
            }
            match res {
                Err(e) => {
                    return Err(UtilError::BadSyscall(e));
                },
                Ok(()) => {},
            }
            let mut parked = self.events.remove(&p).unwrap();
            proof {
                assert(m1[p] == parked@);
            }
            parked.status = EventStatus::Alive;
            self.events.insert(p, parked);
            proof {
                self.lemma_registry_insert(ev1.remove(p), p, parked);
                assert(self.registry() =~= remove_model(m, fd));
            }
        }
        Ok(())
    }

    /// Applies `notifiers` in order, stopping at the first that fails, and then
    /// kicks the loop.
    pub fn update_events(&mut self, notifiers: Vec<EventNotifier<H>>) -> (r: Result<(), UtilError>)
        requires
            old(self).wf(),
        ensures
            final(self).wf(),
            final(self).timers() == old(self).timers(),
            final(self).next_timer_id() == old(self).next_timer_id(),
            final(self).manager() == old(self).manager(),
            final(self).kick_fd() == old(self).kick_fd(),
            final(self).kick_me() == old(self).kick_me(),
            final(self).fired() == old(self).fired(),
            final(self).calls() == old(self).calls(),
            final(self).drains() == old(self).drains(),
            final(self).waits() == old(self).waits(),
            final(self).polls() == old(self).polls(),
            final(self).manager_answers() == old(self).manager_answers(),
            final(self).clock() == old(self).clock(),
            grows_from(old(self).garbage(), final(self).garbage()),
            r is Ok ==> all_allowed(old(self).registry(), views(notifiers@))
                && final(self).registry() == apply_all(old(self).registry(), views(notifiers@))
                && final(self).kicked(),
            r matches Err(err) ==> exists|k: int| #[trigger] fails_at(old(self).registry(), views(notifiers@), k, err)
                && failed_registry(old(self).registry(), views(notifiers@), k, final(self).registry()),
            r is Err ==> final(self).kicked() == old(self).kicked(),
            final(self).kick_writes() == old(self).kick_writes() + (if r is Ok && old(self).kick_me() { 1nat } else { 0nat }),
    {
        let ghost n0 = notifiers@;
        let ghost vs = views(n0);
        let ghost m0 = self.registry();
        let total = notifiers.len();
        assert(n0.len() == total);
        let mut rest = notifiers;
        let mut i: usize = 0;
        proof {
            lemma_grows(self.garbage(), self.garbage(), self.garbage(), arbitrary());
        }
        while rest.len() > 0
            invariant
                self.wf(),
                i <= n0.len(),
                n0.len() <= usize::MAX,
                m0 == old(self).registry(),
                n0 == notifiers@,
                vs == views(n0),
                rest@ == n0.skip(i as int),
                all_allowed(m0, vs.take(i as int)),
                self.registry() == apply_all(m0, vs.take(i as int)),
                self.same_apart_from_notifiers(old(self)),
                grows_from(old(self).garbage(), self.garbage()),
            decreases rest@.len(),
        {
            let en = rest.remove(0);
            proof {
                assert(en == n0[i as int]);
                assert(vs.take(i as int + 1).drop_last() =~= vs.take(i as int));
                assert(vs.take(i as int + 1).last() == en@);
                assert(vs[i as int] == en@);
            }
            let ghost before = *self;
            let res = match en.op {
                NotifierOperation::AddExclusion | NotifierOperation::AddShared => self.add_event(en),
                NotifierOperation::Modify => self.modify_event(en),
                NotifierOperation::Park => self.park_event(en),
                NotifierOperation::Resume => self.resume_event(en),
                NotifierOperation::Delete => self.rm_event(en),
            };
            proof {
                let x = with_status(before.registry()[en.raw_fd], EventStatus::Removed);
                lemma_grows(before.garbage(), self.garbage(), self.garbage(), x);
                lemma_grows(old(self).garbage(), before.garbage(), self.garbage(), x);
            }
            match res {
                Err(e) => {
                    proof {
                        assert(fails_at(m0, vs, i as int, e));
                        assert(fails_at(old(self).registry(), views(n0), i as int, e));
                        assert(failed_registry(old(self).registry(), views(n0), i as int, self.registry()));
                    }
                    return Err(e);
                },
                Ok(()) => {},
            }
            proof {
                assert(rest@ =~= n0.skip(i as int + 1));
            }
            i = i + 1;
        }
        proof {
            assert(vs.take(i as int) =~= vs);
        }
        self.tick();
        Ok(())
    }

    /// Registers the kick eventfd, exclusively, for `EVENT_IN` (one `EPOLL_CTL_ADD`
    /// request); its notifier drains the eventfd before any other handler runs.
    /// The kick fd must not be registered yet.
    pub fn init_tick(&mut self) -> (r: Result<(), UtilError>)
        requires
            old(self).wf(),
            !old(self).registry().contains_key(old(self).kick_fd()),
        ensures
            final(self).wf(),
            final(self).same_apart_from_notifiers(old(self)),
            final(self).garbage() == old(self).garbage(),
            extends_by(old(self).epoll_log(), final(self).epoll_log(), 1),
            is_request(final(self).epoll_log().last(), CtlOp::Add, old(self).kick_fd(), EVENT_IN),
            final(self).watched() == watched_after(old(self).watched(), final(self).epoll_log().last()),
            final(self).epoll_log().last().result is Ok ==> {
                &&& r is Ok
                &&& final(self).registry() == old(self).registry().insert(old(self).kick_fd(), kick_notifier::<H>(old(self).kick_fd()))
                &&& final(self).kick_drain()
            },
            final(self).epoll_log().last().result matches Err(x) ==> {
                &&& r == Err::<(), UtilError>(UtilError::BadSyscall(x))
                &&& final(self).registry() == old(self).registry()
                &&& final(self).kick_drain() == old(self).kick_drain()
            },
    {
        let ghost l0 = self.epoll_log@;
        let kick = EventNotifier::new(NotifierOperation::AddExclusion, self.kick_fd, None, EVENT_IN, Vec::new());
        proof {
            assert(kick@ =~= kick_notifier::<H>(self.kick_fd));
        }
        let r = self.add_event(kick);
        proof {
            let q = self.epoll_log@[l0.len() as int];
            assert(self.epoll_log@ =~= l0.push(q));
            lemma_log_one(old(self).watched(), l0, q);
        }
        if r.is_ok() {
            self.kick_drain = true;
            proof {
                assert(add_model(old(self).registry(), kick_notifier::<H>(self.kick_fd)) =~= old(self).registry().insert(
                    self.kick_fd,
                    kick_notifier::<H>(self.kick_fd),
                ));
            }
        }
        r
    }

    /// Whether this is a loop that has just started: the kick eventfd registered
    /// (and drained by its notifier) through one `EPOLL_CTL_ADD` for `EVENT_IN`, no
    /// other notifiers, no timers, no manager, a disabled virtual clock that reads
    /// zero, and nothing else done yet.
    pub open spec fn just_started(&self) -> bool {
        &&& self.wf()
        &&& self.registry() == Map::<i32, NotifierView<H>>::empty().insert(self.kick_fd(), kick_notifier::<H>(self.kick_fd()))
        &&& self.kick_drain()
        &&& self.garbage() == Seq::<NotifierView<H>>::empty()
        &&& self.timers() == Seq::<(u64, Timer<F>)>::empty()
        &&& !self.kicked()
        &&& !self.kick_me()
        &&& self.manager() is None
        &&& !self.clock().enabled()
        &&& self.clock().paused() == 0
        &&& self.epoll_log().len() == 1
        &&& is_request(self.epoll_log()[0], CtlOp::Add, self.kick_fd(), EVENT_IN)
        &&& self.epoll_log()[0].result is Ok
        &&& self.watched() == Map::<i32, u32>::empty().insert(self.kick_fd(), EVENT_IN)
        &&& self.kick_writes() == 0
        &&& self.drains() == 0
        &&& self.fired() == Seq::<(u64, Timer<F>)>::empty()
        &&& self.calls() == Seq::<HandlerCall<H>>::empty()
        &&& self.waits() == Seq::<WaitRequest>::empty()
        &&& self.polls() == Seq::<(H, i32, bool)>::empty()
        &&& self.manager_answers() == Seq::<ManagerAnswer>::empty()
    }

    /// The epoll instance of the loop.
    pub closed spec fn epoll_fd(&self) -> i32 {
        self.epoll_fd
    }

    /// A loop with its own epoll instance and kick eventfd (see `just_started`); an
    /// error if the kernel refuses a descriptor or the registration.
    pub fn new() -> (r: Result<Self, UtilError>)
        ensures
            r matches Ok(ctx) ==> ctx.just_started(),
            r matches Err(e) ==> e is BadSyscall,
    {
        let epoll_fd = epoll_create();
        let kick_fd = eventfd_create();
        Self::with_descriptors(epoll_fd, kick_fd)
    }

    /// A loop on the epoll instance and the kick eventfd that creating them gave:
    /// the errno of a failed creation, the epoll instance's first, is the error;
    /// otherwise the loop registers the kick eventfd, which the kernel may refuse.
    pub fn with_descriptors(epoll_fd: Result<i32, i32>, kick_fd: Result<i32, i32>) -> (r: Result<Self, UtilError>)
        ensures
            epoll_fd matches Err(e) ==> r == Err::<Self, UtilError>(UtilError::BadSyscall(e)),
            epoll_fd is Ok ==> (kick_fd matches Err(e) ==> r == Err::<Self, UtilError>(UtilError::BadSyscall(e))),
            r matches Ok(ctx) ==> {
                &&& ctx.just_started()
                &&& ctx.epoll_fd() == epoll_fd->Ok_0
                &&& ctx.kick_fd() == kick_fd->Ok_0
            },
            r matches Err(e) ==> e is BadSyscall,
    {
        let epoll_fd = match epoll_fd {
            Ok(fd) => fd,
            Err(e) => {
                return Err(UtilError::BadSyscall(e));
            },
        };
        let kick_fd = match kick_fd {
            Ok(fd) => fd,
            Err(e) => {
                return Err(UtilError::BadSyscall(e));
            },
        };
        let mut ready_events: Vec<EpollEvent> = Vec::new();
        let mut k: usize = 0;
        while k < READY_EVENT_MAX
            invariant
                k <= READY_EVENT_MAX,
                ready_events@.len() == k,
            decreases READY_EVENT_MAX - k,
        {
            ready_events.push(epoll_event_empty());
            k = k + 1;
        }
        let mut ctx = EventLoopContext {
            epoll_fd,
            manager: None,
            kick_fd,
            kick_me: false,
            kicked: false,
            kick_drain: false,
            events: BTreeMap::new(),
            gc: Vec::new(),
            ready_events,
            timers: TimerQueue::new(),
            clock_state: ClockState::default(),
            epoll_log: Ghost(Seq::empty()),
            watched: Ghost(Map::empty()),
            kick_writes: Ghost(0),
            drains: Ghost(0),
            fired: Ghost(Seq::empty()),
            calls: Ghost(Seq::empty()),
            waits: Ghost(Seq::empty()),
            polls: Ghost(Seq::empty()),
            asks: Ghost(Seq::empty()),
            clock_reads: Ghost(Seq::empty()),
            record_reads: Ghost(Seq::empty()),
        };
        proof {
            assert(ctx.registry() =~= Map::<i32, NotifierView<H>>::empty());
            assert(ctx.garbage() =~= Seq::<NotifierView<H>>::empty());
        }
        match ctx.init_tick() {
            Ok(()) => {
                proof {
                    assert(ctx.registry() =~= Map::<i32, NotifierView<H>>::empty().insert(
                        ctx.kick_fd,
                        kick_notifier::<H>(ctx.kick_fd),
                    ));
                    assert(ctx.watched@ =~= Map::<i32, u32>::empty().insert(ctx.kick_fd, EVENT_IN));
                }
                Ok(ctx)
            },
            Err(e) => Err(e),
        }
    }

    /// Hands the loop to `manager`.
    pub fn set_manager(&mut self, manager: M)
        ensures
            final(self).manager() == Some(manager),
            final(self).registry() == old(self).registry(),
            final(self).garbage() == old(self).garbage(),
            final(self).timers() == old(self).timers(),
            final(self).next_timer_id() == old(self).next_timer_id(),
            final(self).kicked() == old(self).kicked(),
            final(self).kick_me() == old(self).kick_me(),
            final(self).kick_fd() == old(self).kick_fd(),
            final(self).wf() == old(self).wf(),
    {
        self.manager = Some(manager);
    }

    /// Drops removed notifiers from the front of the garbage list: as many as are
    /// left behind, rounding up (the older half).
    pub fn gc_clean(&mut self)
        requires
            old(self).wf(),
        ensures
            final(self).wf(),
            final(self).same_apart_from_notifiers(old(self)),
            final(self).registry() == old(self).registry(),
            final(self).garbage() == old(self).garbage().skip(((old(self).garbage().len() + 1) / 2) as int),
    {
        let ghost g0 = self.gc@;
        let mut pop_num: usize = 0;
        loop
            invariant
                self.wf(),
                self.same_apart_from_notifiers(old(self)),
                self.registry() == old(self).registry(),
                g0 == old(self).gc@,
                self.gc@ == g0.skip(pop_num as int),
                pop_num <= g0.len(),
                2 * pop_num <= g0.len() + 1,
            ensures
                self.wf(),
                self.same_apart_from_notifiers(old(self)),
                self.registry() == old(self).registry(),
                self.gc@ == g0.skip(pop_num as int),
                2 * pop_num <= g0.len() + 1,
                2 * pop_num >= g0.len(),
            decreases g0.len() - pop_num,
        {
            if pop_num >= self.gc.len() {
                break;
            }
            let _ = self.gc.remove(0);
            proof {
                assert(self.gc@ =~= g0.skip(pop_num as int + 1));
            }
            pop_num = pop_num + 1;
        }
        proof {
            assert(pop_num == (g0.len() + 1) / 2);
            assert(self.garbage() =~= old(self).garbage().skip(((old(self).garbage().len() + 1) / 2) as int));
        }
    }

    /// Adds a timer that runs `func` `delay` nanoseconds from now, kicks the loop,
    /// and returns the timer's id.
    pub fn timer_add(&mut self, func: F, delay: u64) -> (id: u64)
        requires
            old(self).wf(),
            old(self).next_timer_id() < u64::MAX,
        ensures
            final(self).wf(),
            id == old(self).next_timer_id(),
            final(self).next_timer_id() == id + 1,
            exists|t: Timer<F>| {
                &&& t.func == func
                &&& exists|now: u64| t.expire_time == #[trigger] deadline(now, delay)
                &&& #[trigger] final(self).timers() == old(self).timers().insert(
                    insert_pos(old(self).timers(), t.expire_time) as int,
                    (id, t),
                )
            },
            final(self).kicked(),
            final(self).kick_writes() == old(self).kick_writes() + (if old(self).kick_me() { 1nat } else { 0nat }),
            final(self).kick_me() == old(self).kick_me(),
            final(self).registry() == old(self).registry(),
            final(self).garbage() == old(self).garbage(),
            final(self).manager() == old(self).manager(),
            final(self).kick_fd() == old(self).kick_fd(),
    {
        let timer = Timer::new(func, delay);
        let ghost t = timer;
        let timer_id = self.timers.add(timer);
        self.tick();
        proof {
            assert(self.timers() == old(self).timers().insert(insert_pos(old(self).timers(), t.expire_time) as int, (timer_id, t)));
        }
        timer_id
    }

    /// Whether another timer can still be added: timer ids come from a 64-bit
    /// counter.
    pub fn can_add_timer(&self) -> (r: bool)
        ensures
            r == (self.next_timer_id() < u64::MAX),
    {
        self.timers.has_free_id()
    }

    /// Drops the timer with id `timer_id`, if it is pending.
    pub fn timer_del(&mut self, timer_id: u64)
        requires
            old(self).wf(),
        ensures
            final(self).wf(),
            final(self).next_timer_id() == old(self).next_timer_id(),
            !has_id(final(self).timers(), timer_id),
            has_id(old(self).timers(), timer_id) ==> exists|k: int|
                0 <= k < old(self).timers().len() && old(self).timers()[k].0 == timer_id
                    && #[trigger] old(self).timers().remove(k) == final(self).timers(),
            !has_id(old(self).timers(), timer_id) ==> final(self).timers() == old(self).timers(),
            final(self).registry() == old(self).registry(),
            final(self).garbage() == old(self).garbage(),
            final(self).kicked() == old(self).kicked(),
            final(self).kick_me() == old(self).kick_me(),
            final(self).manager() == old(self).manager(),
            final(self).kick_fd() == old(self).kick_fd(),
    {
        self.timers.remove(timer_id);
    }

    /// Clears the kick flag and returns how long the loop may wait at the instant
    /// `now`: the time left until the first timer expires, or no limit if no timer
    /// is pending.
    pub fn timers_min_duration_at(&mut self, now: u64) -> (r: Option<u64>)
        ensures
            !final(self).kicked(),
            r == (if old(self).timers().len() == 0 {
                None::<u64>
            } else {
                Some(time_left(old(self).timers()[0].1.expire_time, now))
            }),
            final(self).wf() == old(self).wf(),
            final(self).timers() == old(self).timers(),
            final(self).next_timer_id() == old(self).next_timer_id(),
            final(self).registry() == old(self).registry(),
            final(self).garbage() == old(self).garbage(),
            final(self).kick_me() == old(self).kick_me(),
            final(self).manager() == old(self).manager(),
            final(self).kick_fd() == old(self).kick_fd(),
            final(self).waits() == old(self).waits(),
            final(self).polls() == old(self).polls(),
            final(self).record_reads() == old(self).record_reads(),
            final(self).manager_answers() == old(self).manager_answers(),
            final(self).calls() == old(self).calls(),
            final(self).fired() == old(self).fired(),
            final(self).clock() == old(self).clock(),
    {
        self.kicked = false;
        match self.timers.first_expiry() {
            None => None,
            Some(expire) => Some(if expire >= now { expire - now } else { 0 }),
        }
    }

    /// Clears the kick flag and returns how long the loop may wait now: the time
    /// left until the first timer expires, or no limit if no timer is pending.
    pub fn timers_min_duration(&mut self) -> (r: Option<u64>)
        ensures
            !final(self).kicked(),
            r is None <==> old(self).timers().len() == 0,
            r matches Some(d) ==> d <= old(self).timers()[0].1.expire_time,
            final(self).wf() == old(self).wf(),
            final(self).timers() == old(self).timers(),
            final(self).next_timer_id() == old(self).next_timer_id(),
            final(self).registry() == old(self).registry(),
            final(self).garbage() == old(self).garbage(),
            final(self).kick_me() == old(self).kick_me(),
            final(self).manager() == old(self).manager(),
            final(self).kick_fd() == old(self).kick_fd(),
            final(self).waits() == old(self).waits(),
            final(self).polls() == old(self).polls(),
            final(self).record_reads() == old(self).record_reads(),
            final(self).manager_answers() == old(self).manager_answers(),
            final(self).calls() == old(self).calls(),
            final(self).fired() == old(self).fired(),
            final(self).clock() == old(self).clock(),
    {
        let now = monotonic_now_nanos();
        self.timers_min_duration_at(now)
    }
}

impl<H, F: TimerCallBack, M> EventLoopContext<H, F, M> {
    /// Runs the function of the timer `entry`, and records it as fired.
    fn fire(&mut self, entry: &(u64, Timer<F>))
        ensures
            *final(self) == (EventLoopContext { fired: Ghost(old(self).fired@.push(*entry)), ..*old(self) }),
    {
        entry.1.func.call();
        self.fired = Ghost(self.fired@.push(*entry));
    }

    /// Runs, in order, every timer that has expired at the instant `now`, and
    /// drops them from the queue.
    pub fn run_timers_at(&mut self, now: u64)
        requires
            old(self).wf(),
        ensures
            final(self).wf(),
            final(self).timers() == old(self).timers().skip(insert_pos(old(self).timers(), now) as int),
            final(self).fired() == old(self).fired() + old(self).timers().take(insert_pos(old(self).timers(), now) as int),
            forall|j: int| 0 <= j < final(self).timers().len() ==> now < final(self).timers()[j].1.expire_time,
            final(self).next_timer_id() == old(self).next_timer_id(),
            final(self).registry() == old(self).registry(),
            final(self).garbage() == old(self).garbage(),
            final(self).kicked() == old(self).kicked(),
            final(self).kick_me() == old(self).kick_me(),
            final(self).manager() == old(self).manager(),
            final(self).kick_fd() == old(self).kick_fd(),
            final(self).kick_drain() == old(self).kick_drain(),
            final(self).epoll_log() == old(self).epoll_log(),
            final(self).watched() == old(self).watched(),
            final(self).kick_writes() == old(self).kick_writes(),
            final(self).drains() == old(self).drains(),
            final(self).calls() == old(self).calls(),
            final(self).clock() == old(self).clock(),
            final(self).waits() == old(self).waits(),
            final(self).polls() == old(self).polls(),
            final(self).manager_answers() == old(self).manager_answers(),
            final(self).clock_reads() == old(self).clock_reads(),
    {
        let expired = self.timers.take_expired(now);
        let ghost mid = *self;
        let mut i: usize = 0;
        while i < expired.len()
            invariant
                i <= expired@.len(),
                *self == (EventLoopContext { fired: Ghost(mid.fired@ + expired@.take(i as int)), ..mid }),
            decreases expired@.len() - i,
        {
            self.fire(&expired[i]);
            proof {
                assert(mid.fired@ + expired@.take(i as int + 1) =~= (mid.fired@ + expired@.take(i as int)).push(expired@[i as int]));
            }
            i = i + 1;
        }
        proof {
            assert(expired@.take(i as int) =~= expired@);
        }
    }

    /// Runs, in order, every timer that has expired now, and drops them from the
    /// queue: "now" is the reading of the monotonic clock taken in the call (the
    /// last of `clock_reads`).
    pub fn run_timers(&mut self)
        requires
            old(self).wf(),
        ensures
            final(self).wf(),
            exists|now: u64| #[trigger] insert_pos(old(self).timers(), now) >= 0
                && final(self).timers() == old(self).timers().skip(insert_pos(old(self).timers(), now) as int)
                && final(self).fired() == old(self).fired() + old(self).timers().take(insert_pos(old(self).timers(), now) as int),
            final(self).clock_reads().len() == old(self).clock_reads().len() + 1,
            final(self).clock_reads().drop_last() == old(self).clock_reads(),
            final(self).timers() == old(self).timers().skip(
                insert_pos(old(self).timers(), final(self).clock_reads().last()) as int,
            ),
            final(self).fired() == old(self).fired() + old(self).timers().take(
                insert_pos(old(self).timers(), final(self).clock_reads().last()) as int,
            ),
            final(self).next_timer_id() == old(self).next_timer_id(),
            final(self).registry() == old(self).registry(),
            final(self).garbage() == old(self).garbage(),
            final(self).kicked() == old(self).kicked(),
            final(self).kick_me() == old(self).kick_me(),
            final(self).manager() == old(self).manager(),
            final(self).kick_fd() == old(self).kick_fd(),
            final(self).kick_drain() == old(self).kick_drain(),
            final(self).epoll_log() == old(self).epoll_log(),
            final(self).watched() == old(self).watched(),
            final(self).kick_writes() == old(self).kick_writes(),
            final(self).drains() == old(self).drains(),
            final(self).calls() == old(self).calls(),
            final(self).clock() == old(self).clock(),
            final(self).waits() == old(self).waits(),
            final(self).polls() == old(self).polls(),
            final(self).manager_answers() == old(self).manager_answers(),
    {
        let now = self.read_clock();
        self.run_timers_at(now);
        assert(insert_pos(old(self).timers(), now) >= 0);
    }

    /// Reads the monotonic clock, and records the reading.
    fn read_clock(&mut self) -> (now: u64)
        ensures
            *final(self) == (EventLoopContext { clock_reads: Ghost(old(self).clock_reads@.push(now)), ..*old(self) }),
    {
        let now = monotonic_now_nanos();
        self.clock_reads = Ghost(self.clock_reads@.push(now));
        now
    }
}

/// Calls the handler `h` for the ready bits `events` of `fd`, and records the call
/// with the handler's answer.
fn call_handler<H: NotifierCallBack>(h: &H, events: u32, fd: i32, log: &mut Ghost<Seq<HandlerCall<H>>>) -> (a: Option<
    Vec<EventNotifier<H>>,
>)
    ensures
        final(log)@ == old(log)@.push((*h, events, fd, answer_view(a))),
{
    let a = h.call(events, fd);
    *log = Ghost(log@.push((*h, events, fd, answer_view(a))));
    a
}

/// Calls the poll handler `h` of `fd` (with no event bits), and records the call
/// with whether it handed back something.
fn call_poll_handler<H: NotifierCallBack>(h: &H, fd: i32, log: &mut Ghost<Seq<(H, i32, bool)>>) -> (a: Option<
    Vec<EventNotifier<H>>,
>)
    ensures
        final(log)@ == old(log)@.push((*h, fd, a is Some)),
{
    let a = h.call(0, fd);
    *log = Ghost(log@.push((*h, fd, a is Some)));
    a
}

impl<H, F, M> EventLoopContext<H, F, M> {
    /// One dispatch step from `a` to `b` for the ready event `(fd, bits)`, reported
    /// by a wait after which the garbage list held `from` entries: if `fd`'s
    /// notifier is alive and has not been removed since the wait (a notifier
    /// registered for `fd` after that is not the one the event is about), the kick
    /// eventfd is drained first when it is the kick
    /// notifier that still drains, and each of its handlers is called once, in
    /// order, with `(bits, fd)`; the notifiers they hand back, in order, form
    /// `batch`, which is applied as `update_events` does. Otherwise nothing is
    /// called and `batch` is empty.
    pub closed spec fn dispatch_step(a: Self, from: int, fd: i32, bits: u32, batch: Seq<NotifierView<H>>, b: Self) -> bool {
        let m = a.registry();
        let alive = m.contains_key(fd) && m[fd].status == EventStatus::Alive && !removed_since(a.garbage(), from, fd);
        &&& !alive ==> batch.len() == 0 && b.calls@ == a.calls@ && b.drains@ == a.drains@
        &&& alive ==> {
            &&& b.drains@ == a.drains@ + (if fd == a.kick_fd && a.kick_drain { 1nat } else { 0nat })
            &&& exists|rs: Seq<Option<Seq<NotifierView<H>>>>| {
                &&& rs.len() == m[fd].handlers.len()
                &&& b.calls@ == a.calls@ + #[trigger] handler_calls(m[fd].handlers, bits, fd, rs)
                &&& flatten_answers(rs) == batch
            }
        }
        &&& update_outcome(m, batch, b.registry())
        &&& grows_from(a.garbage(), b.garbage())
        &&& b.timers() == a.timers()
        &&& b.next_timer_id() == a.next_timer_id()
        &&& b.fired() == a.fired()
        &&& b.manager() == a.manager()
        &&& b.kick_fd() == a.kick_fd()
        &&& b.kick_me() == a.kick_me()
        &&& b.waits() == a.waits()
        &&& b.polls() == a.polls()
        &&& b.manager_answers() == a.manager_answers()
        &&& b.clock() == a.clock()
    }

    /// A trace of dispatch steps from `a` to `b`, one per ready event of `ready`,
    /// in order.
    pub closed spec fn dispatch_trace(
        a: Self,
        ready: Seq<(i32, u32)>,
        trace: Seq<Self>,
        batches: Seq<Seq<NotifierView<H>>>,
        b: Self,
    ) -> bool {
        &&& trace.len() == ready.len() + 1
        &&& batches.len() == ready.len()
        &&& trace[0] == a
        &&& trace.last() == b
        &&& forall|i: int| 0 <= i < ready.len() ==> #[trigger] Self::dispatch_step(
            trace[i],
            a.garbage().len() as int,
            ready[i].0,
            ready[i].1,
            batches[i],
            trace[i + 1],
        )
    }

    /// `b` is `a` after dispatching the ready events `ready`, in order.
    pub closed spec fn dispatched(a: Self, ready: Seq<(i32, u32)>, b: Self) -> bool {
        exists|trace: Seq<Self>, batches: Seq<Seq<NotifierView<H>>>| #[trigger] Self::dispatch_trace(
            a,
            ready,
            trace,
            batches,
            b,
        )
    }

    /// `b` is `a` after one round of the loop that waited with the timeout
    /// `time_out`, `kicked` telling whether the loop had been kicked, and returned
    /// `r` (see `epoll_wait_manager`).
    pub open spec fn round_result(a: Self, kicked: bool, time_out: Option<u64>, r: Result<bool, UtilError>, b: Self) -> bool {
        let t = wait_timeout(time_out, kicked);
        let polls = t matches Some(d) && d > 0;
        let l0 = a.waits();
        let l1 = b.waits();
        let pw = l1[l0.len() as int];
        let ww = if polls { l1[(l0.len() + 1) as int] } else { l1[l0.len() as int] };
        let poll_failed = polls && (pw->polled matches Err(e) && e != EINTR);
        &&& l1.len() > l0.len()
        &&& l1.take(l0.len() as int) == l0
        &&& polls ==> pw == WaitRequest::Poll { timeout_ns: t->0, polled: pw->polled }
        &&& poll_failed ==> l1.len() == l0.len() + 1 && r == Err::<bool, UtilError>(
            UtilError::EpollWait(pw->polled->Err_0),
        )
        &&& !poll_failed ==> {
            &&& l1.len() == l0.len() + (if polls { 2int } else { 1int })
            &&& ww == WaitRequest::Wait { timeout_ms: wait_ms(t), waited: ww->waited }
            &&& (ww->waited matches Err(e) && e != EINTR) ==> r == Err::<bool, UtilError>(
                UtilError::EpollWait(ww->waited->Err_0),
            )
            &&& !(ww->waited matches Err(e) && e != EINTR) ==> {
                &&& r == Ok::<bool, UtilError>(true)
                &&& b.kick_me() == (if wait_needs_kick(time_out) { false } else { a.kick_me() })
                &&& exists|ready: Seq<(i32, u32)>, d0: Self, d1: Self| {
                    &&& ready.len() == ready_count(ww->waited)
                    &&& read_in_order(a.record_reads(), d0.record_reads(), ready)
                    &&& d0.registry() == a.registry()
                    &&& d0.calls() == a.calls()
                    &&& d0.fired() == a.fired()
                    &&& d0.timers() == a.timers()
                    &&& #[trigger] Self::dispatched(d0, ready, d1)
                    &&& (exists|now: u64| #[trigger] insert_pos(d1.timers(), now) >= 0
                        && b.timers() == d1.timers().skip(insert_pos(d1.timers(), now) as int)
                        && b.fired() == d1.fired() + d1.timers().take(insert_pos(d1.timers(), now) as int))
                    &&& b.clock_reads().len() == d1.clock_reads().len() + 1
                    &&& b.clock_reads().drop_last() == d1.clock_reads()
                    &&& b.timers() == d1.timers().skip(insert_pos(d1.timers(), b.clock_reads().last()) as int)
                    &&& b.fired() == d1.fired() + d1.timers().take(insert_pos(d1.timers(), b.clock_reads().last()) as int)
                    &&& b.registry() == d1.registry()
                    &&& b.calls() == d1.calls()
                    &&& b.garbage() == d1.garbage().skip(((d1.garbage().len() + 1) / 2) as int)
                }
            }
        }
    }

    /// `b` is `a` after one round of the loop that returned `r`, waiting at most
    /// until the first of `a`'s timers expires (no limit if none is pending).
    pub open spec fn ran_round(a: Self, r: Result<bool, UtilError>, b: Self) -> bool {
        exists|t: Option<u64>| {
            &&& (t is None <==> a.timers().len() == 0)
            &&& (t matches Some(d) ==> d <= a.timers()[0].1.expire_time)
            &&& #[trigger] Self::round_result(a, false, t, r, b)
        }
    }

    /// `b` is `a` after the poll rounds an I/O thread makes before its round: as
    /// many rounds as `AIO_PRFETCH_CYCLE_TIME` if `a` has no pending timer, none
    /// otherwise, each over the notifiers of `a` in fd order.
    pub open spec fn polled_rounds(a: Self, b: Self) -> bool {
        exists|rounds: Seq<Seq<(H, i32, bool)>>| {
            &&& rounds.len() == (if a.timers().len() == 0 { AIO_PRFETCH_CYCLE_TIME as int } else { 0int })
            &&& #[trigger] poll_rounds_log(a.registry(), rounds)
            &&& b.polls() == a.polls() + rounds.flatten()
        }
    }

    /// How a run of the loop `a` that has a manager ends as `b` with the result `r`:
    /// the manager is asked once whether the loop should exit. If it says so, it is
    /// asked to clean up, its answer is the result (`false` on success), and nothing
    /// else is done. Otherwise a round runs (see `ran_round`), after the poll
    /// rounds of an I/O thread (see `polled_rounds`) if `io` holds.
    pub open spec fn asked_manager(a: Self, io: bool, r: Result<bool, UtilError>, b: Self) -> bool {
        let l0 = a.manager_answers();
        let l1 = b.manager_answers();
        ||| {
            &&& l1.len() == l0.len() + 2
            &&& l1.drop_last() == l0.push(ManagerAnswer::ShouldExit(true))
            &&& l1.last() matches ManagerAnswer::Cleanup(c)
            &&& r == (match c {
                Ok(()) => Ok::<bool, UtilError>(false),
                Err(e) => Err::<bool, UtilError>(e),
            })
            &&& b.same_loop(&a)
        }
        ||| {
            &&& l1 == l0.push(ManagerAnswer::ShouldExit(false))
            &&& Self::ran_round(a, r, b)
            &&& io ==> Self::polled_rounds(a, b)
        }
    }

    /// A round depends on the state it starts from only through its registry,
    /// handler calls, fired timers, pending timers, waits and kick flag.
    proof fn lemma_round_same_start(a1: Self, a2: Self, kicked: bool, t: Option<u64>, r: Result<bool, UtilError>, b: Self)
        requires
            Self::round_result(a1, kicked, t, r, b),
            a1.registry() == a2.registry(),
            a1.calls() == a2.calls(),
            a1.fired() == a2.fired(),
            a1.timers() == a2.timers(),
            a1.waits() == a2.waits(),
            a1.kick_me() == a2.kick_me(),
            a1.record_reads() == a2.record_reads(),
        ensures
            Self::round_result(a2, kicked, t, r, b),
    {
    }

    /// `b` is `a` after one `ppoll` or `epoll_wait` that answered `ans`; only the
    /// wait record and the ready-event buffer differ.
    pub closed spec fn after_wait(a: Self, w: WaitRequest, b: Self) -> bool {
        &&& b.waits@ == a.waits@.push(w)
        &&& b.ready_events@.len() == a.ready_events@.len()
        &&& b == (EventLoopContext { ready_events: b.ready_events, waits: b.waits, ..a })
    }
}

impl<H: NotifierCallBack, F: TimerCallBack, M> EventLoopContext<H, F, M> {
    /// Whether a notifier of `fd` has been moved to the garbage list since it held
    /// `from` entries.
    fn removed_since(&self, from: usize, fd: i32) -> (r: bool)
        requires
            from <= self.garbage().len(),
        ensures
            r == removed_since(self.garbage(), from as int, fd),
    {
        let mut i = from;
        while i < self.gc.len()
            invariant
                from <= i <= self.gc@.len(),
                forall|j: int| from <= j < i ==> (#[trigger] self.gc@[j]).raw_fd != fd,
            decreases self.gc@.len() - i,
        {
            if self.gc[i].raw_fd == fd {
                proof {
                    assert(self.garbage()[i as int].raw_fd == fd);
                }
                return true;
            }
            i = i + 1;
        }
        proof {
            assert forall|j: int| from <= j < self.garbage().len() implies (#[trigger] self.garbage()[j]).raw_fd != fd by {
                assert(self.garbage()[j] == self.gc@[j]@);
            }
        }
        false
    }

    /// Drains the kick eventfd, and records it.
    fn drain_kick(&mut self)
        ensures
            *final(self) == (EventLoopContext { drains: Ghost(old(self).drains@ + 1), ..*old(self) }),
    {
        let _ = read_fd(self.kick_fd);
        self.drains = Ghost(self.drains@ + 1);
    }

    /// Runs the handlers of the notifier of `fd` for the ready event bits `events`,
    /// if it is registered and alive, and collects the notifiers they hand back.
    /// The kick notifier, while it drains, drains the kick eventfd first.
    fn ready_notifiers(&mut self, fd: i32, events: u32) -> (out: Vec<EventNotifier<H>>)
        ensures
            *final(self) == (EventLoopContext { calls: final(self).calls, drains: final(self).drains, ..*old(self) }),
            !(old(self).registry().contains_key(fd) && old(self).registry()[fd].status == EventStatus::Alive) ==> {
                &&& out@.len() == 0
                &&& final(self).calls() == old(self).calls()
                &&& final(self).drains() == old(self).drains()
            },
            old(self).registry().contains_key(fd) && old(self).registry()[fd].status == EventStatus::Alive ==> {
                &&& final(self).drains() == old(self).drains() + (if fd == old(self).kick_fd() && old(self).kick_drain() {
                    1nat
                } else {
                    0nat
                })
                &&& exists|rs: Seq<Option<Seq<NotifierView<H>>>>| {
                    &&& rs.len() == old(self).registry()[fd].handlers.len()
                    &&& final(self).calls() == old(self).calls() + #[trigger] handler_calls(
                        old(self).registry()[fd].handlers,
                        events,
                        fd,
                        rs,
                    )
                    &&& flatten_answers(rs) == views(out@)
                }
            },
    {
        let alive = match self.events.get(&fd) {
            Some(n) => n.status == EventStatus::Alive,
            None => false,
        };
        if alive && fd == self.kick_fd && self.kick_drain {
            self.drain_kick();
        }
        let ghost mid = *self;
        let mut answers: Vec<Option<Vec<EventNotifier<H>>>> = Vec::new();
        if alive {
            match self.events.get(&fd) {
                Some(n) => {
                    proof {
                        assert(self.registry()[fd] == n@);
                    }
                    let mut j: usize = 0;
                    while j < n.handlers.len()
                        invariant
                            j <= n.handlers@.len(),
                            answers@.len() == j,
                            self.calls@ == mid.calls@ + handler_calls(
                                n.handlers@.take(j as int),
                                events,
                                fd,
                                answers@.map_values(|a: Option<Vec<EventNotifier<H>>>| answer_view(a)),
                            ),
                            *self == (EventLoopContext { calls: self.calls, ..mid }),
                        decreases n.handlers@.len() - j,
                    {
                        let ghost avs0 = answers@.map_values(|a: Option<Vec<EventNotifier<H>>>| answer_view(a));
                        let a = call_handler(&n.handlers[j], events, fd, &mut self.calls);
                        let ghost av = answer_view(a);
                        answers.push(a);
                        proof {
                            let avs1 = answers@.map_values(|a: Option<Vec<EventNotifier<H>>>| answer_view(a));
                            assert(avs1 =~= avs0.push(av));
                            assert(handler_calls(n.handlers@.take(j as int + 1), events, fd, avs1) =~= handler_calls(
                                n.handlers@.take(j as int),
                                events,
                                fd,
                                avs0,
                            ).push((n.handlers@[j as int], events, fd, av)));
                        }
                        j = j + 1;
                    }
                    proof {
                        assert(n.handlers@.take(j as int) =~= n.handlers@);
                        assert(answers@.len() == mid.registry()[fd].handlers.len());
                    }
                },
                None => {},
            }
        } else {
            proof {
                assert(self.calls@ == mid.calls@);
            }
        }
        let ghost avs = answers@.map_values(|a: Option<Vec<EventNotifier<H>>>| answer_view(a));
        assert(avs.len() == answers@.len());
        let out = flatten_notifiers(answers);
        proof {
            assert(flatten_answers(avs) == views(out@));
            if !alive {
                assert(avs =~= Seq::<Option<Seq<NotifierView<H>>>>::empty());
                assert(views(out@).len() == 0);
            }
        }
        out
    }

    /// Dispatches the ready events `ready`, reported by the last wait, in order: for
    /// each, runs the handlers of its fd's notifier (see `ready_notifiers`), unless
    /// that notifier has been removed since the wait, and applies the notifiers they
    /// hand back with `update_events`, whose failure is dropped.
    pub fn dispatch_ready(&mut self, ready: &Vec<(i32, u32)>)
        requires
            old(self).wf(),
        ensures
            final(self).wf(),
            Self::dispatched(*old(self), ready@, *final(self)),
            final(self).timers() == old(self).timers(),
            final(self).next_timer_id() == old(self).next_timer_id(),
            final(self).fired() == old(self).fired(),
            final(self).manager() == old(self).manager(),
            final(self).kick_fd() == old(self).kick_fd(),
            final(self).kick_me() == old(self).kick_me(),
            final(self).waits() == old(self).waits(),
            final(self).polls() == old(self).polls(),
            final(self).manager_answers() == old(self).manager_answers(),
            final(self).clock() == old(self).clock(),
    {
        let ghost a = *self;
        let g0 = self.gc.len();
        proof {
            lemma_grows(a.garbage(), a.garbage(), a.garbage(), arbitrary());
        }
        let ghost mut trace: Seq<Self> = seq![*self];
        let ghost mut batches: Seq<Seq<NotifierView<H>>> = Seq::empty();
        let mut i: usize = 0;
        while i < ready.len()
            invariant
                self.wf(),
                i <= ready@.len(),
                trace.len() == i + 1,
                batches.len() == i,
                trace[0] == a,
                trace.last() == *self,
                g0 == a.garbage().len(),
                grows_from(a.garbage(), self.garbage()),
                self.timers() == a.timers(),
                self.next_timer_id() == a.next_timer_id(),
                self.fired() == a.fired(),
                self.manager() == a.manager(),
                self.kick_fd() == a.kick_fd(),
                self.kick_me() == a.kick_me(),
                self.waits() == a.waits(),
                self.polls() == a.polls(),
                self.manager_answers() == a.manager_answers(),
                self.clock() == a.clock(),
                forall|j: int| 0 <= j < i ==> #[trigger] Self::dispatch_step(
                    trace[j],
                    g0 as int,
                    ready@[j].0,
                    ready@[j].1,
                    batches[j],
                    trace[j + 1],
                ),
            decreases ready@.len() - i,
        {
            let (fd, bits) = ready[i];
            let ghost before = *self;
            let stale = self.removed_since(g0, fd);
            let notifiers = if stale {
                Vec::new()
            } else {
                self.ready_notifiers(fd, bits)
            };
            let ghost batch = views(notifiers@);
            let ghost mid = *self;
            let res = self.update_events(notifiers);
            proof {
                assert(mid.registry() == before.registry());
                match res {
                    Ok(()) => {},
                    Err(err) => {
                        let k = choose|k: int| #[trigger] fails_at(mid.registry(), batch, k, err)
                            && failed_registry(mid.registry(), batch, k, self.registry());
                        assert(fails_at(mid.registry(), batch, k, err));
                    },
                }
                if stale {
                    assert(batch =~= Seq::<NotifierView<H>>::empty());
                }
                assert(update_outcome(before.registry(), batch, self.registry()));
                lemma_grows(a.garbage(), before.garbage(), self.garbage(), arbitrary());
                assert(Self::dispatch_step(before, g0 as int, fd, bits, batch, *self));
                let t2 = trace.push(*self);
                let b2 = batches.push(batch);
                assert forall|j: int| 0 <= j < i + 1 implies #[trigger] Self::dispatch_step(
                    t2[j],
                    g0 as int,
                    ready@[j].0,
                    ready@[j].1,
                    b2[j],
                    t2[j + 1],
                ) by {
                    if j < i {
                        assert(t2[j] == trace[j] && t2[j + 1] == trace[j + 1] && b2[j] == batches[j]);
                    } else {
                        assert(t2[j] == before && t2[j + 1] == *self && b2[j] == batch);
                    }
                }
                trace = t2;
                batches = b2;
            }
            i = i + 1;
        }
        proof {
            assert(Self::dispatch_trace(a, ready@, trace, batches, *self));
        }
    }

    /// Polls the epoll fd for readable, writable or hung-up, for at most
    /// `timeout_ns` nanoseconds, and records the wait.
    fn poll_epoll(&mut self, timeout_ns: u64) -> (r: Result<i32, i32>)
        ensures
            Self::after_wait(*old(self), WaitRequest::Poll { timeout_ns, polled: r }, *final(self)),
    {
        let r = ppoll_one(self.epoll_fd, POLLIN | POLLOUT | POLLHUP, timeout_ns);
        self.waits = Ghost(self.waits@.push(WaitRequest::Poll { timeout_ns, polled: r }));
        r
    }

    /// Waits on epoll for at most `timeout_ms` milliseconds (-1: no limit), filling
    /// the ready-event buffer, and records the wait.
    fn wait_epoll(&mut self, timeout_ms: i32) -> (r: Result<usize, i32>)
        ensures
            Self::after_wait(*old(self), WaitRequest::Wait { timeout_ms, waited: r }, *final(self)),
    {
        let r = epoll_wait(self.epoll_fd, &mut self.ready_events, timeout_ms);
        self.waits = Ghost(self.waits@.push(WaitRequest::Wait { timeout_ms, waited: r }));
        r
    }

    /// Reads the user data and the event bits of record `i` of the ready-event
    /// buffer, and records the read.
    fn read_record(&mut self, i: usize) -> (r: (u64, u32))
        requires
            i < old(self).ready_events@.len(),
        ensures
            *final(self) == (EventLoopContext {
                record_reads: Ghost(old(self).record_reads@.push((i, r.0, r.1))),
                ..*old(self)
            }),
    {
        let record = &self.ready_events[i];
        let r = (epoll_event_data(record), epoll_event_bits(record));
        self.record_reads = Ghost(self.record_reads@.push((i, r.0, r.1)));
        r
    }

    /// The ready events the buffer holds, as `(fd, event bits)`, for the first
    /// `count` records (at most the buffer's size): entry `i` comes from record `i`
    /// (see `read_in_order`).
    fn ready_list(&mut self, count: usize) -> (ready: Vec<(i32, u32)>)
        ensures
            *final(self) == (EventLoopContext { record_reads: final(self).record_reads, ..*old(self) }),
            ready@.len() == (if count < old(self).ready_events@.len() { count as nat } else { old(self).ready_events@.len() }),
            read_in_order(old(self).record_reads(), final(self).record_reads(), ready@),
    {
        let ghost s0 = *self;
        let n = if count < self.ready_events.len() { count } else { self.ready_events.len() };
        let mut ready: Vec<(i32, u32)> = Vec::new();
        let mut i: usize = 0;
        proof {
            assert(s0.record_reads@.take(s0.record_reads@.len() as int) =~= s0.record_reads@);
        }
        while i < n
            invariant
                i <= n,
                n <= self.ready_events@.len(),
                ready@.len() == i,
                *self == (EventLoopContext { record_reads: self.record_reads, ..s0 }),
                read_in_order(s0.record_reads(), self.record_reads(), ready@),
            decreases n - i,
        {
            let ghost before = self.record_reads@;
            let ghost ready0 = ready@;
            let (data, bits) = self.read_record(i);
            let fd: i32 = #[verifier::truncate] (data as i32);
            assert(fd == (data as i32));
            ready.push((fd, bits));
            proof {
                let l0 = s0.record_reads@;
                assert(self.record_reads@ == before.push((i, data, bits)));
                assert(self.record_reads@.take(l0.len() as int) =~= l0);
                let t0 = before.skip(l0.len() as int);
                let t1 = self.record_reads@.skip(l0.len() as int);
                assert(t1 =~= t0.push((i, data, bits)));
                assert forall|k: int| 0 <= k < ready@.len() implies (#[trigger] t1[k]).0 == k && ready@[k] == ((t1[k].1 as i32), t1[k].2) by {
                    if k < i {
                        assert(t1[k] == t0[k]);
                        assert(ready@[k] == ready0[k]);
                    } else {
                        assert(t1[k] == (i, data, bits));
                        assert(ready@[k] == (fd, bits));
                    }
                }
                assert(read_in_order(l0, self.record_reads@, ready@));
            }
            i = i + 1;
        }
        ready
    }

    /// One round of the loop. It marks the loop as about to block (unless told not
    /// to block at all), and plans its timeout: none if the loop has been kicked,
    /// `time_out` otherwise (`None`: no limit). A positive timeout is spent in
    /// `ppoll` on the epoll fd; then `epoll_wait` collects the ready events without
    /// blocking (or blocks without limit if there is no timeout). A wait that fails
    /// other than by a signal (`EINTR`, which counts as no events) is the round's
    /// error. Otherwise the ready events are dispatched in order (see
    /// `dispatch_ready`), the expired timers run, and the garbage list is cleaned.
    pub fn epoll_wait_manager(&mut self, time_out: Option<u64>) -> (r: Result<bool, UtilError>)
        requires
            old(self).wf(),
        ensures
            final(self).wf(),
            r is Ok ==> r == Ok::<bool, UtilError>(true),
            r matches Err(e) ==> e is EpollWait,
            final(self).manager() == old(self).manager(),
            final(self).kick_fd() == old(self).kick_fd(),
            final(self).next_timer_id() == old(self).next_timer_id(),
            Self::round_result(*old(self), old(self).kicked(), time_out, r, *final(self)),
            final(self).polls() == old(self).polls(),
            final(self).manager_answers() == old(self).manager_answers(),
    {
        let ghost s0 = *self;
        let ghost l0 = self.waits@;
        let (need_kc, planned) = plan_wait(time_out, self.kicked);
        if need_kc {
            self.kick_me = true;
        }
        let mut time_out = planned;
        match time_out {
            Some(t) => {
                if t != 0 {
                    match self.poll_epoll(t) {
                        Ok(_) => {
                            time_out = Some(0);
                        },
                        Err(e) => {
                            if e == EINTR {
                                time_out = Some(0);
                            } else {
                                proof {
                                    assert(self.waits@ == l0.push(WaitRequest::Poll { timeout_ns: t, polled: Err(e) }));
                                    assert(self.waits@.take(l0.len() as int) =~= l0);
                                }
                                return Err(UtilError::EpollWait(e));
                            }
                        },
                    }
                }
            },
            None => {},
        }
        // A positive timeout has been spent in `ppoll`; what is left is "block" or "do
        // not block", which in milliseconds is -1 or 0.
        assert(time_out is None || time_out == Some(0u64));
        let time_out_ms: i32 = match time_out {
            None => -1,
            Some(_) => 0,
        };
        let ghost before_wait = self.waits@;
        proof {
            if planned matches Some(d) && d > 0 {
                assert(before_wait.len() == l0.len() + 1 && before_wait[l0.len() as int] is Poll);
                assert(before_wait[l0.len() as int]->polled is Ok || before_wait[l0.len() as int]->polled == Err::<i32, i32>(EINTR));
            } else {
                assert(before_wait == l0);
            }
        }
        let waited = self.wait_epoll(time_out_ms);
        let ev_count = match waited {
            Ok(n) => n,
            Err(e) => {
                if e == EINTR {
                    0
                } else {
                    proof {
                        assert(self.waits@ == before_wait.push(WaitRequest::Wait { timeout_ms: time_out_ms, waited: waited }));
                        assert(self.waits@.take(l0.len() as int) =~= l0);
                        assert(before_wait.len() > l0.len() ==> self.waits@[l0.len() as int] == before_wait[l0.len() as int]);
                    }
                    return Err(UtilError::EpollWait(e));
                }
            },
        };
        if need_kc {
            self.kick_me = false;
        }
        let ready = self.ready_list(ev_count);
        let ghost a = *self;
        self.dispatch_ready(&ready);
        let ghost b = *self;
        self.run_timers();
        self.gc_clean();
        proof {
            assert(self.waits@ == before_wait.push(WaitRequest::Wait { timeout_ms: time_out_ms, waited: waited }));
            assert(self.waits@.take(l0.len() as int) =~= l0);
            assert(before_wait.len() > l0.len() ==> self.waits@[l0.len() as int] == before_wait[l0.len() as int]);
            assert(ready@.len() == ready_count(waited));
            assert(a.registry() == s0.registry() && a.calls() == s0.calls() && a.fired() == s0.fired()
                && a.timers() == s0.timers());
            assert(Self::dispatched(a, ready@, b));
        }
        Ok(true)
    }
}

impl<H: NotifierCallBack, F: TimerCallBack, M: EventLoopManager> EventLoopContext<H, F, M> {
    /// Asks the manager whether the loop should exit; if so, has it clean up and
    /// returns `false` (or its error), leaving the loop as it was. Otherwise runs
    /// one round of the loop (see `ran_round`), waiting at most until the first
    /// timer expires. What the manager answers is up to its implementation; its
    /// answers are recorded (see `asked_manager`).
    pub fn run(&mut self) -> (r: Result<bool, UtilError>)
        requires
            old(self).wf(),
        ensures
            final(self).wf(),
            final(self).manager() == old(self).manager(),
            final(self).polls() == old(self).polls(),
            old(self).manager() is None ==> final(self).manager_answers() == old(self).manager_answers()
                && Self::ran_round(*old(self), r, *final(self)),
            old(self).manager() is Some ==> Self::asked_manager(*old(self), false, r, *final(self)),
    {
        let ghost s0 = *self;
        if let Some(done) = self.consult_manager() {
            return done;
        }
        let time_out = self.timers_min_duration();
        let ghost mid = *self;
        let r = self.epoll_wait_manager(time_out);
        proof {
            Self::lemma_round_same_start(mid, s0, false, time_out, r, *self);
        }
        r
    }

    /// Asks the manager, if there is one, whether the loop should exit, and if so,
    /// has it clean up: the cleanup's answer is handed back (`false` on success).
    /// `None` if the loop goes on.
    fn consult_manager(&mut self) -> (done: Option<Result<bool, UtilError>>)
        requires
            old(self).wf(),
        ensures
            *final(self) == (EventLoopContext { asks: final(self).asks, ..*old(self) }),
            old(self).manager() is None ==> done is None && final(self).manager_answers() == old(self).manager_answers(),
            old(self).manager() is Some && done is None ==> final(self).manager_answers() == old(self).manager_answers().push(
                ManagerAnswer::ShouldExit(false),
            ),
            old(self).manager() is Some ==> (done matches Some(x) ==> {
                let l0 = old(self).manager_answers();
                let l1 = final(self).manager_answers();
                &&& l1.len() == l0.len() + 2
                &&& l1.drop_last() == l0.push(ManagerAnswer::ShouldExit(true))
                &&& l1.last() matches ManagerAnswer::Cleanup(c)
                &&& x == (match c {
                    Ok(()) => Ok::<bool, UtilError>(false),
                    Err(e) => Err::<bool, UtilError>(e),
                })
            }),
    {
        match &self.manager {
            Some(manager) => {
                let ghost l0 = self.asks@;
                if ask_should_exit(manager, &mut self.asks) {
                    let c = ask_cleanup(manager, &mut self.asks);
                    proof {
                        assert(self.asks@.drop_last() =~= l0.push(ManagerAnswer::ShouldExit(true)));
                    }
                    match c {
                        Ok(()) => Some(Ok(false)),
                        Err(e) => Some(Err(e)),
                    }
                } else {
                    None
                }
            },
            None => None,
        }
    }

    /// `run` for an I/O thread: when no timer is pending, it first makes
    /// `AIO_PRFETCH_CYCLE_TIME` rounds over the poll handlers of the alive
    /// notifiers, in fd order, each round stopping at the first handler that reports
    /// work (see `polled_rounds`).
    pub fn io_thread_run(&mut self) -> (r: Result<bool, UtilError>)
        requires
            old(self).wf(),
        ensures
            final(self).wf(),
            final(self).manager() == old(self).manager(),
            old(self).manager() is None ==> final(self).manager_answers() == old(self).manager_answers()
                && Self::ran_round(*old(self), r, *final(self)) && Self::polled_rounds(*old(self), *final(self)),
            old(self).manager() is Some ==> Self::asked_manager(*old(self), true, r, *final(self)),
    {
        let ghost s0 = *self;
        if let Some(done) = self.consult_manager() {
            return done;
        }
        let min_timeout = self.timers_min_duration();
        let ghost s1 = *self;
        let ghost mut rounds: Seq<Seq<(H, i32, bool)>> = Seq::empty();
        if min_timeout.is_none() {
            let mut round: usize = 0;
            while round < AIO_PRFETCH_CYCLE_TIME
                invariant
                    round <= AIO_PRFETCH_CYCLE_TIME,
                    s1.wf(),
                    *self == (EventLoopContext { polls: self.polls, ..s1 }),
                    rounds.len() == round,
                    poll_rounds_log(s1.registry(), rounds),
                    self.polls@ == s1.polls@ + rounds.flatten(),
                decreases AIO_PRFETCH_CYCLE_TIME - round,
            {
                let ghost before = *self;
                self.poll_round();
                proof {
                    let log = choose|log: Seq<(H, i32, bool)>| #[trigger] fd_order_round(before.registry(), log)
                        && self.polls() == before.polls() + log;
                    assert(before.registry() == s1.registry());
                    rounds.lemma_flatten_push(log);
                    let r2 = rounds.push(log);
                    assert(self.polls@ =~= s1.polls@ + r2.flatten());
                    assert forall|i: int| 0 <= i < r2.len() implies #[trigger] fd_order_round(s1.registry(), r2[i]) by {
                        if i < rounds.len() {
                            assert(r2[i] == rounds[i]);
                        }
                    }
                    assert(poll_rounds_log(s1.registry(), r2));
                    rounds = r2;
                }
                round = round + 1;
            }
        } else {
            proof {
                assert(rounds.flatten() =~= Seq::<(H, i32, bool)>::empty());
                assert(self.polls@ =~= s1.polls@ + rounds.flatten());
            }
        }
        let time_out = self.timers_min_duration();
        let ghost mid = *self;
        let r = self.epoll_wait_manager(time_out);
        proof {
            Self::lemma_round_same_start(mid, s0, false, time_out, r, *self);
            assert(poll_rounds_log(s0.registry(), rounds));
            assert(Self::polled_rounds(s0, *self));
        }
        r
    }
}

impl<H: NotifierCallBack, F, M> EventLoopContext<H, F, M> {
    /// Runs the poll handlers of the alive notifiers in fd order, stopping at the
    /// first that hands back something, and records the calls.
    fn poll_round(&mut self)
        requires
            old(self).wf(),
        ensures
            *final(self) == (EventLoopContext { polls: final(self).polls, ..*old(self) }),
            exists|log: Seq<(H, i32, bool)>| #[trigger] fd_order_round(old(self).registry(), log)
                && final(self).polls() == old(self).polls() + log,
    {
        let ghost s0 = *self;
        let ghost m = self.registry();
        let ghost mut log: Seq<(H, i32, bool)> = Seq::empty();
        let mut done = false;
        let vals = self.events.values();
        let ghost all = IteratorSpec::remaining(&vals);
        let ghost mut seen: int = 0;
        for notifier in it: vals
            invariant
                seen == it.index(),
                *self == (EventLoopContext { polls: self.polls, ..s0 }),
                self.polls@ == s0.polls@ + log,
                it.seq() == all,
                log.len() <= poll_calls(all.take(it.index()).map_values(|n: &EventNotifier<H>| n@)).len(),
                forall|i: int| 0 <= i < log.len() ==> (#[trigger] log[i]).0 == poll_calls(
                    all.take(it.index()).map_values(|n: &EventNotifier<H>| n@),
                )[i].0 && log[i].1 == poll_calls(all.take(it.index()).map_values(|n: &EventNotifier<H>| n@))[i].1,
                forall|i: int| 0 <= i < log.len() - 1 ==> !(#[trigger] log[i]).2,
                !done ==> log.len() == poll_calls(all.take(it.index()).map_values(|n: &EventNotifier<H>| n@)).len()
                    && (log.len() > 0 ==> !log.last().2),
                done ==> log.len() > 0 && log.last().2,
        {
            proof {
                let k = it.index();
                assert(all.take(k + 1).map_values(|n: &EventNotifier<H>| n@).drop_last() =~= all.take(k).map_values(
                    |n: &EventNotifier<H>| n@,
                ));
                assert(all.take(k + 1).map_values(|n: &EventNotifier<H>| n@).last() == notifier@);
            }
            if !done && notifier.status == EventStatus::Alive {
                match &notifier.handler_poll {
                    Some(handler_poll) => {
                        let ghost before = self.polls@;
                        let answer = call_poll_handler(handler_poll, notifier.raw_fd, &mut self.polls);
                        proof {
                            log = log.push((*handler_poll, notifier.raw_fd, answer is Some));
                            assert(self.polls@ =~= s0.polls@ + log);
                        }
                        done = answer.is_some();
                    },
                    None => {},
                }
            }
            proof {
                seen = seen + 1;
            }
        }
        proof {
            let ev = s0.events@;
            assert(seen == all.len());
            assert(all.take(all.len() as int) =~= all);
            let ns = all.map_values(|n: &EventNotifier<H>| n@);
            let ks = choose|key_seq: Seq<i32>| {
                &&& increasing_seq(key_seq)
                &&& key_seq.to_set() == ev.dom()
                &&& key_seq.no_duplicates()
                &&& all == key_seq.map(|i: int, k: i32| &ev[k])
            };
            assert(ks.to_set() == m.dom());
            lemma_increasing_fds(ks);
            assert forall|i: int| 0 <= i < ks.len() implies notifiers_at(m, ks)[i] == ns[i] by {
                assert(ks.to_set().contains(ks[i]));
            }
            assert(notifiers_at(m, ks) =~= ns);
            assert(in_fd_order(m, ns));
            assert(poll_round_log(ns, log));
            assert(fd_order_round(m, log));
        }
    }
}

} // verus!
