//! Timers of the event loop and the virtual clock of a guest.
//!
//! Times are nanosecond counts of the monotonic clock (see `crate::clock`).
use vstd::prelude::*;
use crate::clock::monotonic_now_nanos;

verus! {

/// What a timer runs when it expires.
pub trait TimerCallBack {
    fn call(&self);
}

/// A one-shot timer: `func` runs once the monotonic clock reaches `expire_time`.
pub struct Timer<F> {
    pub func: F,
    pub expire_time: u64,
}

/// `now + delay`, held at `u64::MAX` where the sum does not fit.
pub open spec fn deadline(now: u64, delay: u64) -> u64 {
    if now + delay > u64::MAX { u64::MAX } else { (now + delay) as u64 }
}

impl<F> Timer<F> {
    /// A timer that expires `delay` nanoseconds after the instant `now`.
    pub fn new_at(func: F, now: u64, delay: u64) -> (t: Self)
        ensures
            t.func == func,
            t.expire_time == deadline(now, delay),
    {
        let expire_time: u64 = if delay > u64::MAX - now { u64::MAX } else { now + delay };
        Timer { func, expire_time }
    }

    /// A timer that expires `delay` nanoseconds from now.
    pub fn new(func: F, delay: u64) -> (t: Self)
        ensures
            t.func == func,
            exists|now: u64| t.expire_time == #[trigger] deadline(now, delay),
    {
        let now = monotonic_now_nanos();
        let t = Self::new_at(func, now, delay);
        assert(t.expire_time == deadline(now, delay));
        t
    }
}

/// The index at which a timer expiring at `e` enters `s`: the first position
/// whose timer expires strictly later than `e`, or the end.
pub open spec fn insert_pos<F>(s: Seq<(u64, Timer<F>)>, e: u64) -> nat
    decreases s.len(),
{
    if s.len() == 0 {
        0
    } else if e < s[0].1.expire_time {
        0
    } else {
        1 + insert_pos(s.drop_first(), e)
    }
}

/// Timers ordered by expiry: never a later timer before an earlier one.
pub open spec fn sorted_by_expiry<F>(s: Seq<(u64, Timer<F>)>) -> bool {
    forall|i: int, j: int| 0 <= i <= j < s.len() ==> s[i].1.expire_time <= s[j].1.expire_time
}

/// No two entries carry the same id, and every id is below `bound`.
pub open spec fn ids_fresh_below<F>(s: Seq<(u64, Timer<F>)>, bound: u64) -> bool {
    &&& forall|i: int, j: int| 0 <= i < j < s.len() ==> s[i].0 != s[j].0
    &&& forall|i: int| 0 <= i < s.len() ==> s[i].0 < bound
}

/// The position of the entry with id `id` (there is at most one).
pub open spec fn has_id<F>(s: Seq<(u64, Timer<F>)>, id: u64) -> bool {
    exists|i: int| 0 <= i < s.len() && s[i].0 == id
}

proof fn lemma_insert_pos_char<F>(s: Seq<(u64, Timer<F>)>, e: u64, i: int)
    requires
        0 <= i <= s.len(),
        forall|j: int| 0 <= j < i ==> s[j].1.expire_time <= e,
        i < s.len() ==> e < s[i].1.expire_time,
    ensures
        insert_pos(s, e) == i,
    decreases s.len(),
{
    if s.len() > 0 && i > 0 {
        let t = s.drop_first();
        assert forall|j: int| 0 <= j < i - 1 implies t[j].1.expire_time <= e by {
            assert(t[j] == s[j + 1]);
        }
        if i - 1 < t.len() {
            assert(t[i - 1] == s[i]);
        }
        lemma_insert_pos_char(t, e, i - 1);
    }
}

/// In a sorted queue, the insertion point splits the entries that expire no later
/// than `e` from those that expire later.
pub proof fn lemma_insert_pos_split<F>(s: Seq<(u64, Timer<F>)>, e: u64)
    requires
        sorted_by_expiry(s),
    ensures
        insert_pos(s, e) <= s.len(),
        forall|j: int| 0 <= j < insert_pos(s, e) ==> s[j].1.expire_time <= e,
        forall|j: int| insert_pos(s, e) <= j < s.len() ==> e < s[j].1.expire_time,
    decreases s.len(),
{
    if s.len() > 0 {
        let t = s.drop_first();
        assert(sorted_by_expiry(t)) by {
            assert forall|i: int, j: int| 0 <= i <= j < t.len() implies t[i].1.expire_time <= t[j].1.expire_time by {
                assert(t[i] == s[i + 1] && t[j] == s[j + 1]);
            }
        }
        lemma_insert_pos_split(t, e);
        if e < s[0].1.expire_time {
            assert forall|j: int| 0 <= j < s.len() implies e < s[j].1.expire_time by {
                assert(s[0].1.expire_time <= s[j].1.expire_time);
            }
        } else {
            assert forall|j: int| 0 <= j < insert_pos(s, e) implies s[j].1.expire_time <= e by {
                if j > 0 {
                    assert(s[j] == t[j - 1]);
                }
            }
            assert forall|j: int| insert_pos(s, e) <= j < s.len() implies e < s[j].1.expire_time by {
                assert(s[j] == t[j - 1]);
            }
        }
    }
}

/// Pending timers in expiry order, each with an id that `add` handed out.
pub struct TimerQueue<F> {
    entries: Vec<(u64, Timer<F>)>,
    next_id: u64,
}

impl<F> TimerQueue<F> {
    /// The pending timers with their ids, in the order they will run.
    pub closed spec fn view(&self) -> Seq<(u64, Timer<F>)> {
        self.entries@
    }

    /// The id the next `add` hands out.
    pub closed spec fn next_id(&self) -> u64 {
        self.next_id
    }

    /// The queue is in expiry order and its ids are distinct and already issued.
    pub open spec fn wf(&self) -> bool {
        &&& sorted_by_expiry(self@)
        &&& ids_fresh_below(self@, self.next_id())
    }

    /// An empty queue.
    pub fn new() -> (q: Self)
        ensures
            q.wf(),
            q@ == Seq::<(u64, Timer<F>)>::empty(),
            q.next_id() == 0,
    {
        TimerQueue { entries: Vec::new(), next_id: 0 }
    }

    /// Whether another timer can still get an id of its own.
    pub fn has_free_id(&self) -> (r: bool)
        ensures
            r == (self.next_id() < u64::MAX),
    {
        self.next_id < u64::MAX
    }

    /// The number of pending timers.
    pub fn len(&self) -> (n: usize)
        ensures
            n == self@.len(),
    {
        self.entries.len()
    }

    /// Queues `timer` behind every pending timer that expires no later than it, and
    /// returns its new id.
    pub fn add(&mut self, timer: Timer<F>) -> (id: u64)
        requires
            old(self).wf(),
            old(self).next_id() < u64::MAX,
        ensures
            final(self).wf(),
            id == old(self).next_id(),
            final(self).next_id() == old(self).next_id() + 1,
            final(self)@ == old(self)@.insert(
                insert_pos(old(self)@, timer.expire_time) as int,
                (id, timer),
            ),
    {
        let ghost s = self.entries@;
        let e = timer.expire_time;
        let mut index: usize = self.entries.len();
        let mut i: usize = 0;
        while i < self.entries.len()
            invariant_except_break
                index == s.len(),
            invariant
                self.entries@ == s,
                0 <= i <= s.len(),
                forall|j: int| 0 <= j < i ==> s[j].1.expire_time <= e,
            ensures
                0 <= index <= s.len(),
                self.entries@ == s,
                forall|j: int| 0 <= j < index ==> s[j].1.expire_time <= e,
                index < s.len() ==> e < s[index as int].1.expire_time,
            decreases s.len() - i,
        {
            if e < self.entries[i].1.expire_time {
                index = i;
                break;
            }
            i = i + 1;
        }
        proof {
            lemma_insert_pos_char(s, e, index as int);
            lemma_insert_pos_split(s, e);
        }
        let id = self.next_id;
        self.entries.insert(index, (id, timer));
        self.next_id = self.next_id + 1;
        proof {
            let n = self.entries@;
            assert(n == s.insert(index as int, (id, timer)));
            assert forall|a: int, b: int| 0 <= a <= b < n.len() implies n[a].1.expire_time <= n[b].1.expire_time by {
                if a < index && b < index {
                } else if a < index && b == index {
                } else if a < index {
                    assert(n[b] == s[b - 1]);
                } else if a == index && b == index {
                } else if a == index {
                    assert(n[b] == s[b - 1]);
                } else {
                    assert(n[a] == s[a - 1] && n[b] == s[b - 1]);
                }
            }
            assert forall|a: int, b: int| 0 <= a < b < n.len() implies n[a].0 != n[b].0 by {
                if a < index && b == index {
                } else if a < index && b > index {
                    assert(n[b] == s[b - 1]);
                } else if a == index {
                    assert(n[b] == s[b - 1]);
                } else if a > index {
                    assert(n[a] == s[a - 1] && n[b] == s[b - 1]);
                }
            }
            assert forall|a: int| 0 <= a < n.len() implies n[a].0 < self.next_id by {
                if a > index {
                    assert(n[a] == s[a - 1]);
                }
            }
        }
        id
    }

    /// Drops the timer with id `id`, if one is pending; the others keep their order.
    pub fn remove(&mut self, id: u64)
        requires
            old(self).wf(),
        ensures
            final(self).wf(),
            final(self).next_id() == old(self).next_id(),
            !has_id(final(self)@, id),
            has_id(old(self)@, id) ==> exists|k: int|
                0 <= k < old(self)@.len() && old(self)@[k].0 == id && final(self)@ == old(self)@.remove(k),
            !has_id(old(self)@, id) ==> final(self)@ == old(self)@,
    {
        let ghost s = self.entries@;
        let mut i: usize = 0;
        while i < self.entries.len()
            invariant
                self.entries@ == s,
                0 <= i <= s.len(),
                forall|j: int| 0 <= j < i ==> s[j].0 != id,
            ensures
                self.entries@ == s,
                0 <= i <= s.len(),
                forall|j: int| 0 <= j < i ==> s[j].0 != id,
                i < s.len() ==> s[i as int].0 == id,
            decreases s.len() - i,
        {
            if self.entries[i].0 == id {
                break;
            }
            i = i + 1;
        }
        if i < self.entries.len() {
            let _ = self.entries.remove(i);
            proof {
                let n = self.entries@;
                assert(n == s.remove(i as int));
                assert forall|a: int, b: int| 0 <= a <= b < n.len() implies n[a].1.expire_time <= n[b].1.expire_time by {
                    if a >= i {
                        assert(n[a] == s[a + 1]);
                    }
                    if b >= i {
                        assert(n[b] == s[b + 1]);
                    }
                }
                assert forall|a: int, b: int| 0 <= a < b < n.len() implies n[a].0 != n[b].0 by {
                    if a >= i {
                        assert(n[a] == s[a + 1]);
                    }
                    if b >= i {
                        assert(n[b] == s[b + 1]);
                    }
                }
                assert forall|a: int| 0 <= a < n.len() implies n[a].0 < self.next_id by {
                    if a >= i {
                        assert(n[a] == s[a + 1]);
                    }
                }
                assert(!has_id(n, id)) by {
                    if has_id(n, id) {
                        let a = choose|a: int| 0 <= a < n.len() && n[a].0 == id;
                        if a >= i {
                            assert(n[a] == s[a + 1]);
                        }
                    }
                }
            }
        }
    }

    /// The expiry time of the first pending timer, if any.
    pub fn first_expiry(&self) -> (r: Option<u64>)
        ensures
            r == (if self@.len() == 0 { None } else { Some(self@[0].1.expire_time) }),
    {
        if self.entries.len() == 0 {
            None
        } else {
            Some(self.entries[0].1.expire_time)
        }
    }

    /// Takes out, in order, every timer that has expired at `now`: the leading
    /// timers whose expiry time is not past `now`.
    pub fn take_expired(&mut self, now: u64) -> (expired: Vec<(u64, Timer<F>)>)
        requires
            old(self).wf(),
        ensures
            final(self).wf(),
            final(self).next_id() == old(self).next_id(),
            expired@ == old(self)@.take(insert_pos(old(self)@, now) as int),
            final(self)@ == old(self)@.skip(insert_pos(old(self)@, now) as int),
            forall|j: int| 0 <= j < expired@.len() ==> expired@[j].1.expire_time <= now,
            forall|j: int| 0 <= j < final(self)@.len() ==> now < final(self)@[j].1.expire_time,
    {
        let ghost s = self.entries@;
        let mut count: usize = 0;
        while count < self.entries.len()
            invariant
                self.entries@ == s,
                0 <= count <= s.len(),
                forall|j: int| 0 <= j < count ==> s[j].1.expire_time <= now,
            ensures
                self.entries@ == s,
                0 <= count <= s.len(),
                forall|j: int| 0 <= j < count ==> s[j].1.expire_time <= now,
                count < s.len() ==> now < s[count as int].1.expire_time,
            decreases s.len() - count,
        {
            if self.entries[count].1.expire_time > now {
                break;
            }
            count = count + 1;
        }
        proof {
            lemma_insert_pos_char(s, now, count as int);
            lemma_insert_pos_split(s, now);
        }
        let mut expired = self.entries.split_off(count);
        std::mem::swap(&mut self.entries, &mut expired);
        proof {
            let n = self.entries@;
            assert(n == s.skip(count as int));
            assert(expired@ == s.take(count as int));
            assert forall|a: int, b: int| 0 <= a <= b < n.len() implies n[a].1.expire_time <= n[b].1.expire_time by {
                assert(n[a] == s[a + count] && n[b] == s[b + count]);
            }
            assert forall|a: int, b: int| 0 <= a < b < n.len() implies n[a].0 != n[b].0 by {
                assert(n[a] == s[a + count] && n[b] == s[b + count]);
            }
            assert forall|a: int| 0 <= a < n.len() implies n[a].0 < self.next_id by {
                assert(n[a] == s[a + count]);
            }
        }
        expired
    }
}

/// Deleting the timer that `add` just queued gives back the queue from before.
pub proof fn law_timer_del_undoes_add<F>(s: Seq<(u64, Timer<F>)>, id: u64, t: Timer<F>, k: int)
    requires
        ids_fresh_below(s, id),
        sorted_by_expiry(s),
        0 <= k <= s.len(),
        s.insert(insert_pos(s, t.expire_time) as int, (id, t))[k].0 == id,
    ensures
        k == insert_pos(s, t.expire_time),
        s.insert(insert_pos(s, t.expire_time) as int, (id, t)).remove(k) == s,
{
    lemma_insert_pos_split(s, t.expire_time);
    let p = insert_pos(s, t.expire_time) as int;
    let n = s.insert(p, (id, t));
    if k < p {
        assert(n[k] == s[k]);
    } else if k > p {
        assert(n[k] == s[k - 1]);
    }
    assert(n.remove(k) =~= s);
}

/// The timers that run at `now` are exactly the pending ones that have expired,
/// in queue order; those left have not.
pub proof fn law_expired_timers_split<F>(s: Seq<(u64, Timer<F>)>, now: u64)
    requires
        sorted_by_expiry(s),
    ensures
        s.take(insert_pos(s, now) as int) + s.skip(insert_pos(s, now) as int) == s,
        forall|j: int| 0 <= j < insert_pos(s, now) ==> s[j].1.expire_time <= now,
        forall|j: int| insert_pos(s, now) <= j < s.len() ==> now < s[j].1.expire_time,
{
    lemma_insert_pos_split(s, now);
    assert(s.take(insert_pos(s, now) as int) + s.skip(insert_pos(s, now) as int) =~= s);
}

/// The virtual clock of a guest: it runs only while enabled, and keeps its reading
/// while disabled. Readings of the monotonic clock are taken relative to `offset`,
/// the instant the clock state was made.
pub struct ClockState {
    enable: bool,
    offset: u64,
    paused: u64,
    elapsed: u64,
}

/// `a - b`, or 0 where `b` is the larger.
pub open spec fn sat_sub(a: u64, b: u64) -> u64 {
    if a >= b { (a - b) as u64 } else { 0 }
}

impl ClockState {
    /// Whether the virtual clock runs.
    pub closed spec fn enabled(&self) -> bool {
        self.enable
    }

    /// The monotonic instant the clock state was made.
    pub closed spec fn offset(&self) -> u64 {
        self.offset
    }

    /// The virtual time that had passed when the clock was last disabled.
    pub closed spec fn paused(&self) -> u64 {
        self.paused
    }

    /// While enabled: the time since `offset` at which the virtual clock would
    /// read zero.
    pub closed spec fn elapsed(&self) -> u64 {
        self.elapsed
    }

    /// The virtual clock's reading when `since` nanoseconds have passed since
    /// `offset`: `since - elapsed` while enabled, the frozen reading `paused`
    /// while disabled.
    pub open spec fn reading_at(&self, since: u64) -> u64 {
        if self.enabled() { sat_sub(since, self.elapsed()) } else { self.paused() }
    }

    /// The state after enabling the clock `since` nanoseconds after `offset`.
    pub closed spec fn after_enable(self, since: u64) -> ClockState {
        ClockState { enable: true, elapsed: sat_sub(since, self.paused), ..self }
    }

    /// The state after disabling the clock `since` nanoseconds after `offset`.
    pub closed spec fn after_disable(self, since: u64) -> ClockState {
        ClockState { enable: false, paused: sat_sub(since, self.elapsed), ..self }
    }

    /// A disabled clock that reads zero, with `offset` at the instant `now`.
    pub fn new_at(now: u64) -> (c: Self)
        ensures
            !c.enabled(),
            c.offset() == now,
            c.paused() == 0,
            c.elapsed() == 0,
    {
        ClockState { enable: false, offset: now, paused: 0, elapsed: 0 }
    }

    /// Nanoseconds since `offset` at the instant `now` (0 if `now` is earlier).
    pub fn since_offset(&self, now: u64) -> (r: u64)
        ensures
            r == sat_sub(now, self.offset()),
    {
        if now >= self.offset { now - self.offset } else { 0 }
    }

    /// The virtual clock's reading when `since` nanoseconds have passed since
    /// `offset`.
    pub fn virtual_clock_at(&self, since: u64) -> (r: u64)
        ensures
            r == self.reading_at(since),
    {
        let mut time = self.paused;
        if self.enable {
            time = if since >= self.elapsed { since - self.elapsed } else { 0 };
        }
        time
    }

    /// Starts the virtual clock at the moment `since` nanoseconds after `offset`,
    /// so that it goes on from the reading it was paused at.
    pub fn enable_at(&mut self, since: u64)
        ensures
            *final(self) == old(self).after_enable(since),
            final(self).enabled(),
            final(self).offset() == old(self).offset(),
            final(self).paused() == old(self).paused(),
            final(self).elapsed() == sat_sub(since, old(self).paused()),
    {
        self.elapsed = if since >= self.paused { since - self.paused } else { 0 };
        self.enable = true;
    }

    /// Stops the virtual clock at the moment `since` nanoseconds after `offset`,
    /// keeping the reading it shows at that moment.
    pub fn disable_at(&mut self, since: u64)
        ensures
            *final(self) == old(self).after_disable(since),
            !final(self).enabled(),
            final(self).offset() == old(self).offset(),
            final(self).elapsed() == old(self).elapsed(),
            final(self).paused() == sat_sub(since, old(self).elapsed()),
    {
        self.paused = if since >= self.elapsed { since - self.elapsed } else { 0 };
        self.enable = false;
    }

    /// The virtual clock's reading now. A disabled clock gives its frozen reading.
    pub fn get_virtual_clock(&mut self) -> (r: u64)
        ensures
            *final(self) == *old(self),
            !old(self).enabled() ==> r == old(self).paused(),
            old(self).enabled() ==> exists|since: u64| r == old(self).reading_at(since),
            exists|now: u64| r == old(self).reading_at(#[trigger] sat_sub(now, old(self).offset())),
    {
        let since = self.since_offset(monotonic_now_nanos());
        self.virtual_clock_at(since)
    }

    /// Starts the virtual clock now.
    pub fn enable(&mut self)
        ensures
            final(self).enabled(),
            final(self).offset() == old(self).offset(),
            final(self).paused() == old(self).paused(),
            exists|since: u64| final(self).elapsed() == sat_sub(since, old(self).paused()),
            exists|now: u64| *final(self) == old(self).after_enable(#[trigger] sat_sub(now, old(self).offset())),
    {
        let since = self.since_offset(monotonic_now_nanos());
        self.enable_at(since);
    }

    /// Stops the virtual clock now.
    pub fn disable(&mut self)
        ensures
            !final(self).enabled(),
            final(self).offset() == old(self).offset(),
            final(self).elapsed() == old(self).elapsed(),
            exists|since: u64| final(self).paused() == sat_sub(since, old(self).elapsed()),
            exists|now: u64| *final(self) == old(self).after_disable(#[trigger] sat_sub(now, old(self).offset())),
    {
        let since = self.since_offset(monotonic_now_nanos());
        self.disable_at(since);
    }
}

impl Default for ClockState {
    /// A disabled clock that reads zero, with `offset` at the current instant.
    fn default() -> (c: Self)
        ensures
            !c.enabled(),
            c.paused() == 0,
            c.elapsed() == 0,
    {
        ClockState::new_at(monotonic_now_nanos())
    }
}

/// Enabling a stopped clock does not move its reading at that moment.
pub proof fn law_enable_keeps_reading(c: ClockState, since: u64)
    requires
        !c.enabled(),
        since >= c.paused(),
    ensures
        c.after_enable(since).reading_at(since) == c.reading_at(since),
{
}

/// Once disabled, the clock shows, at every later moment, the reading it had when
/// it was stopped.
pub proof fn law_disabled_clock_is_frozen(c: ClockState, since: u64, later: u64)
    requires
        c.enabled(),
    ensures
        c.after_disable(since).reading_at(later) == c.reading_at(since),
{
}

/// Stopping the clock at `s1` and starting it again at `s2` skips the time in
/// between: from `s2` on it goes on from the reading it had at `s1`.
pub proof fn law_pause_resume_skips_the_pause(c: ClockState, s1: u64, s2: u64, t: u64)
    requires
        c.enabled(),
        c.elapsed() <= s1 <= s2 <= t,
    ensures
        c.after_disable(s1).after_enable(s2).reading_at(t) == c.reading_at(s1) + (t - s2),
{
}

/// The clock `c` after the calls `ops`, in order: `(true, s)` enables it and
/// `(false, s)` disables it, `s` nanoseconds after its offset.
pub open spec fn clock_after(c: ClockState, ops: Seq<(bool, u64)>) -> ClockState
    decreases ops.len(),
{
    if ops.len() == 0 {
        c
    } else {
        let p = clock_after(c, ops.drop_last());
        if ops.last().0 { p.after_enable(ops.last().1) } else { p.after_disable(ops.last().1) }
    }
}

/// Whether the calls `ops` come at non-decreasing moments.
pub open spec fn in_time_order(ops: Seq<(bool, u64)>) -> bool {
    forall|i: int, j: int| 0 <= i <= j < ops.len() ==> ops[i].1 <= ops[j].1
}

proof fn lemma_paused_behind_last_call(c: ClockState, ops: Seq<(bool, u64)>)
    requires
        c.paused() == 0,
        in_time_order(ops),
    ensures
        clock_after(c, ops).paused() <= (if ops.len() == 0 { 0 } else { ops.last().1 as int }),
    decreases ops.len(),
{
    if ops.len() > 0 {
        let init = ops.drop_last();
        assert(in_time_order(init));
        lemma_paused_behind_last_call(c, init);
        if init.len() > 0 {
            assert(init.last() == ops[ops.len() - 2]);
        }
    }
}

/// A clock made at some instant (disabled, reading zero) never runs ahead of the
/// time since that instant: after any enable and disable calls at non-decreasing
/// moments, its reading at any later moment `s` is at most `s`.
pub proof fn law_clock_never_runs_ahead(c: ClockState, ops: Seq<(bool, u64)>, s: u64)
    requires
        !c.enabled(),
        c.paused() == 0,
        in_time_order(ops),
        ops.len() > 0 ==> ops.last().1 <= s,
    ensures
        clock_after(c, ops).reading_at(s) <= s,
{
    lemma_paused_behind_last_call(c, ops);
}

/// While enabled, the clock advances exactly as fast as the monotonic clock.
pub proof fn law_enabled_clock_advances(c: ClockState, t1: u64, t2: u64)
    requires
        c.enabled(),
        c.elapsed() <= t1 <= t2,
    ensures
        c.reading_at(t2) - c.reading_at(t1) == t2 - t1,
{
}

} // verus!
