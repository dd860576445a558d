//! The software timer and the single-threaded cooperative scheduler. The
//! timer map orders deadlines ascending; a tick first wakes every waiter
//! whose deadline has passed, then polls the task pool until no task can
//! make progress without new external input ("run until stalled"), never
//! blocking the host.
use vstd::prelude::*;

verus! {

/// The wakers registered under deadline `t`, oldest first; empty if none.
pub open spec fn wakers_of(s: Seq<(u64, Vec<u64>)>, t: u64) -> Seq<u64>
    decreases s.len(),
{
    if s.len() == 0 {
        Seq::empty()
    } else if s[0].0 == t {
        s[0].1@
    } else {
        wakers_of(s.drop_first(), t)
    }
}

/// Every waker under a deadline at most `now`, in ascending deadline order.
pub open spec fn fired(s: Seq<(u64, Vec<u64>)>, now: u64) -> Seq<u64>
    decreases s.len(),
{
    if s.len() == 0 {
        Seq::empty()
    } else if s[0].0 <= now {
        s[0].1@ + fired(s.drop_first(), now)
    } else {
        fired(s.drop_first(), now)
    }
}

/// The entries whose deadline lies after `now`, in order.
pub open spec fn remaining(s: Seq<(u64, Vec<u64>)>, now: u64) -> Seq<(u64, Vec<u64>)>
    decreases s.len(),
{
    if s.len() == 0 {
        s
    } else if s[0].0 <= now {
        remaining(s.drop_first(), now)
    } else {
        seq![s[0]] + remaining(s.drop_first(), now)
    }
}

/// The ordered deadline map: deadline, ascending, to the waiters registered
/// under it.
pub struct TimerMap {
    entries: Vec<(u64, Vec<u64>)>,
}

proof fn lemma_timer_found(s: Seq<(u64, Vec<u64>)>, t: u64, i: int)
    requires
        0 <= i < s.len(),
        s[i].0 == t,
        forall|k: int| 0 <= k < i ==> s[k].0 != t,
    ensures
        wakers_of(s, t) == s[i].1@,
    decreases i,
{
    if i > 0 {
        assert(s.drop_first()[i - 1] == s[i]);
        assert forall|k: int| 0 <= k < i - 1 implies s.drop_first()[k].0 != t by {
            assert(s.drop_first()[k] == s[k + 1]);
        }
        lemma_timer_found(s.drop_first(), t, i - 1);
    }
}

proof fn lemma_timer_absent(s: Seq<(u64, Vec<u64>)>, t: u64)
    requires
        forall|k: int| 0 <= k < s.len() ==> s[k].0 != t,
    ensures
        wakers_of(s, t) == Seq::<u64>::empty(),
    decreases s.len(),
{
    if s.len() > 0 {
        assert forall|k: int| 0 <= k < s.len() - 1 implies s.drop_first()[k].0 != t by {
            assert(s.drop_first()[k] == s[k + 1]);
        }
        lemma_timer_absent(s.drop_first(), t);
    }
}

proof fn lemma_timer_update_same(s: Seq<(u64, Vec<u64>)>, i: int, entry: (u64, Vec<u64>), n: u64)
    requires
        0 <= i < s.len(),
        s[i].0 == entry.0,
        n != entry.0,
    ensures
        wakers_of(s.update(i, entry), n) == wakers_of(s, n),
    decreases s.len(),
{
    let upd = s.update(i, entry);
    if s.len() > 0 {
        if i == 0 {
            assert(upd[0] == entry);
            assert(upd.drop_first() =~= s.drop_first());
        } else {
            assert(upd[0] == s[0]);
            assert(upd.drop_first() =~= s.drop_first().update(i - 1, entry));
            assert(s.drop_first()[i - 1] == s[i]);
            lemma_timer_update_same(s.drop_first(), i - 1, entry, n);
        }
    }
}

proof fn lemma_timer_insert(s: Seq<(u64, Vec<u64>)>, i: int, entry: (u64, Vec<u64>), n: u64)
    requires
        0 <= i <= s.len(),
        forall|k: int| 0 <= k < s.len() ==> s[k].0 != entry.0,
    ensures
        wakers_of(s.insert(i, entry), entry.0) == entry.1@,
        n != entry.0 ==> wakers_of(s.insert(i, entry), n) == wakers_of(s, n),
    decreases s.len(),
{
    let ins = s.insert(i, entry);
    if i == 0 {
        assert(ins[0] == entry);
        assert(ins.drop_first() =~= s);
        lemma_timer_absent(s, entry.0);
    } else {
        assert(ins[0] == s[0]);
        assert(ins.drop_first() =~= s.drop_first().insert(i - 1, entry));
        assert forall|k: int| 0 <= k < s.drop_first().len() implies s.drop_first()[k].0
            != entry.0 by {
            assert(s.drop_first()[k] == s[k + 1]);
        }
        lemma_timer_insert(s.drop_first(), i - 1, entry, n);
    }
}

proof fn lemma_timer_all_later(s: Seq<(u64, Vec<u64>)>, now: u64)
    requires
        forall|k: int| 0 <= k < s.len() ==> s[k].0 > now,
    ensures
        fired(s, now) == Seq::<u64>::empty(),
        remaining(s, now) == s,
    decreases s.len(),
{
    if s.len() > 0 {
        assert forall|k: int| 0 <= k < s.len() - 1 implies s.drop_first()[k].0 > now by {
            assert(s.drop_first()[k] == s[k + 1]);
        }
        lemma_timer_all_later(s.drop_first(), now);
        assert(seq![s[0]] + s.drop_first() =~= s);
    }
}

proof fn lemma_fired_membership(s: Seq<(u64, Vec<u64>)>, now: u64, w: u64)
    requires
        forall|i: int, j: int| 0 <= i < j < s.len() ==> s[i].0 < s[j].0,
    ensures
        fired(s, now).contains(w) <==> exists|t: u64|
            t <= now && #[trigger] wakers_of(s, t).contains(w),
    decreases s.len(),
{
    if s.len() == 0 {
        assert(!fired(s, now).contains(w));
        assert forall|t: u64| !(#[trigger] wakers_of(s, t).contains(w)) by {}
    } else {
        let t0 = s[0].0;
        let head = s[0].1@;
        let tail = s.drop_first();
        assert forall|i: int, j: int| 0 <= i < j < tail.len() implies tail[i].0 < tail[j].0 by {
            assert(tail[i] == s[i + 1]);
            assert(tail[j] == s[j + 1]);
        }
        assert forall|k: int| 0 <= k < tail.len() implies tail[k].0 != t0 by {
            assert(tail[k] == s[k + 1]);
        }
        lemma_fired_membership(tail, now, w);
        lemma_timer_absent(tail, t0);
        if fired(s, now).contains(w) {
            if t0 <= now {
                let i = choose|i: int| 0 <= i < fired(s, now).len() && fired(s, now)[i] == w;
                if i < head.len() {
                    assert(wakers_of(s, t0).contains(w)) by {
                        assert(wakers_of(s, t0) == head);
                        assert(head[i] == w);
                    }
                } else {
                    assert(fired(tail, now)[i - head.len()] == w);
                    assert(fired(tail, now).contains(w));
                    let t = choose|t: u64| t <= now && #[trigger] wakers_of(tail, t).contains(w);
                    assert(t != t0);
                    assert(wakers_of(s, t) == wakers_of(tail, t));
                    assert(wakers_of(s, t).contains(w));
                }
            } else {
                let t = choose|t: u64| t <= now && #[trigger] wakers_of(tail, t).contains(w);
                assert(t != t0);
                assert(wakers_of(s, t) == wakers_of(tail, t));
                assert(wakers_of(s, t).contains(w));
            }
        }
        if exists|t: u64| t <= now && #[trigger] wakers_of(s, t).contains(w) {
            let t = choose|t: u64| t <= now && #[trigger] wakers_of(s, t).contains(w);
            if t == t0 {
                assert(wakers_of(s, t0) == head);
                let i = choose|i: int| 0 <= i < head.len() && head[i] == w;
                assert(fired(s, now)[i] == w);
                assert(fired(s, now).contains(w));
            } else {
                assert(wakers_of(tail, t) == wakers_of(s, t));
                assert(fired(tail, now).contains(w));
                let i = choose|i: int|
                    0 <= i < fired(tail, now).len() && fired(tail, now)[i] == w;
                if t0 <= now {
                    assert(fired(s, now)[head.len() + i] == w);
                } else {
                    assert(fired(s, now)[i] == w);
                }
                assert(fired(s, now).contains(w));
            }
        }
    }
}

impl TimerMap {
    /// Deadlines are strictly ascending, so each occurs once.
    pub closed spec fn wf(&self) -> bool {
        forall|i: int, j: int|
            0 <= i < j < self.entries@.len() ==> self.entries@[i].0 < self.entries@[j].0
    }

    /// The waiters registered under deadline `t`, oldest first.
    pub closed spec fn waiters(&self, t: u64) -> Seq<u64> {
        wakers_of(self.entries@, t)
    }

    /// Every waiter under a deadline at most `now`, ascending by deadline.
    pub closed spec fn due(&self, now: u64) -> Seq<u64> {
        fired(self.entries@, now)
    }

    /// Membership in the due list: a waker stands in `due(now)` exactly
    /// when some deadline at most `now` holds it among its waiters.
    pub proof fn lemma_due_membership(&self, now: u64, w: u64)
        requires
            self.wf(),
        ensures
            self.due(now).contains(w) <==> exists|t: u64|
                t <= now && #[trigger] self.waiters(t).contains(w),
    {
        lemma_fired_membership(self.entries@, now, w);
        if self.due(now).contains(w) {
            let t = choose|t: u64| t <= now && #[trigger] wakers_of(self.entries@, t).contains(w);
            assert(self.waiters(t).contains(w));
        }
        if exists|t: u64| t <= now && #[trigger] self.waiters(t).contains(w) {
            let t = choose|t: u64| t <= now && #[trigger] self.waiters(t).contains(w);
            assert(wakers_of(self.entries@, t).contains(w));
        }
    }

    /// Whether the map holds no deadline at all.
    pub closed spec fn is_empty_map(&self) -> bool {
        self.entries@.len() == 0
    }

    /// An empty timer map.
    pub fn new() -> (r: TimerMap)
        ensures
            r.wf(),
            r.is_empty_map(),
            forall|t: u64| r.waiters(t) == Seq::<u64>::empty(),
            forall|now: u64| r.due(now) == Seq::<u64>::empty(),
    {
        let r = TimerMap { entries: Vec::new() };
        proof {
            assert forall|t: u64| r.waiters(t) == Seq::<u64>::empty() by {
                lemma_timer_absent(r.entries@, t);
            }
        }
        r
    }

    /// How many waiters stand under deadline `t`.
    pub fn waiter_count(&self, t: u64) -> (r: usize)
        requires
            self.wf(),
        ensures
            r == self.waiters(t).len(),
    {
        let n = self.entries.len();
        let mut i: usize = 0;
        while i < n
            invariant
                i <= n,
                n == self.entries@.len(),
                forall|k: int| 0 <= k < i ==> self.entries@[k].0 != t,
            decreases n - i,
        {
            if self.entries[i].0 == t {
                proof {
                    lemma_timer_found(self.entries@, t, i as int);
                }
                return self.entries[i].1.len();
            }
            i = i + 1;
        }
        proof {
            lemma_timer_absent(self.entries@, t);
        }
        0
    }

    /// Registers `waker` under `deadline`: appended to that deadline's
    /// waiters, with every other deadline untouched.
    pub fn insert(&mut self, deadline: u64, waker: u64)
        requires
            old(self).wf(),
        ensures
            final(self).wf(),
            final(self).waiters(deadline) == old(self).waiters(deadline).push(waker),
            forall|t: u64| t != deadline ==> final(self).waiters(t) == old(self).waiters(t),
    {
        let n = self.entries.len();
        let mut i: usize = 0;
        while i < n && self.entries[i].0 < deadline
            invariant
                i <= n,
                n == self.entries@.len(),
                self.wf(),
                forall|k: int| 0 <= k < i ==> self.entries@[k].0 < deadline,
            decreases n - i,
        {
            i = i + 1;
        }
        if i < self.entries.len() {
            let probe = self.entries[i].0;
            if probe == deadline {
                let ghost olds = self.entries@;
                let (t, mut ids) = self.entries.remove(i);
                let ghost oldids = ids@;
                ids.push(waker);
                self.entries.insert(i, (t, ids));
                proof {
                    assert(self.entries@ =~= olds.update(i as int, self.entries@[i as int]));
                    lemma_timer_found(olds, deadline, i as int);
                    lemma_timer_found(self.entries@, deadline, i as int);
                    assert forall|t2: u64| t2 != deadline implies wakers_of(self.entries@, t2)
                        == wakers_of(olds, t2) by {
                        lemma_timer_update_same(olds, i as int, self.entries@[i as int], t2);
                    }
                }
                return;
            }
        }
        let ghost olds = self.entries@;
        let mut ids: Vec<u64> = Vec::new();
        ids.push(waker);
        self.entries.insert(i, (deadline, ids));
        proof {
            assert forall|k: int| 0 <= k < olds.len() implies olds[k].0 != deadline by {
                if k >= i {
                    if k > i {
                        assert(olds[i as int].0 < olds[k].0);
                    }
                }
            }
            lemma_timer_insert(olds, i as int, self.entries@[i as int], deadline);
            lemma_timer_absent(olds, deadline);
            assert(self.entries@[i as int].1@ =~= Seq::<u64>::empty().push(waker));
            assert forall|t2: u64| t2 != deadline implies wakers_of(self.entries@, t2)
                == wakers_of(olds, t2) by {
                lemma_timer_insert(olds, i as int, self.entries@[i as int], t2);
            }
            assert forall|a: int, b: int|
                0 <= a < b < self.entries@.len() implies self.entries@[a].0
                < self.entries@[b].0 by {
                if b < i {
                } else if a < i && b == i {
                } else if a < i && b > i {
                    assert(self.entries@[b] == olds[b - 1]);
                } else if a == i {
                    assert(self.entries@[b] == olds[b - 1]);
                    if b - 1 > i {
                        assert(olds[i as int].0 < olds[b - 1].0);
                    }
                } else {
                    assert(self.entries@[a] == olds[a - 1]);
                    assert(self.entries@[b] == olds[b - 1]);
                }
            }
        }
    }

    /// Removes every deadline at most `now` and returns their waiters, in
    /// ascending deadline order; later deadlines stay untouched.
    pub fn fire(&mut self, now: u64) -> (woken: Vec<u64>)
        requires
            old(self).wf(),
        ensures
            final(self).wf(),
            woken@ == old(self).due(now),
            forall|t: u64| t <= now ==> final(self).waiters(t) == Seq::<u64>::empty(),
            forall|t: u64| t > now ==> final(self).waiters(t) == old(self).waiters(t),
            final(self).due(now) == Seq::<u64>::empty(),
    {
        let mut woken: Vec<u64> = Vec::new();
        while self.entries.len() > 0 && self.entries[0].0 <= now
            invariant
                self.wf(),
                fired(old(self).entries@, now) =~= woken@ + fired(self.entries@, now),
                remaining(old(self).entries@, now) == remaining(self.entries@, now),
                forall|t: u64|
                    t > now ==> wakers_of(old(self).entries@, t) == wakers_of(self.entries@, t),
            decreases self.entries@.len(),
        {
            let ghost olds = self.entries@;
            let (t, mut ids) = self.entries.remove(0);
            proof {
                assert(self.entries@ =~= olds.drop_first());
                assert forall|t2: u64| t2 > now implies wakers_of(olds, t2) == wakers_of(
                    self.entries@,
                    t2,
                ) by {}
            }
            let ghost oldwoken = woken@;
            woken.append(&mut ids);
            proof {
                assert(woken@ =~= oldwoken + olds[0].1@);
                assert(oldwoken + (olds[0].1@ + fired(self.entries@, now)) =~= (oldwoken
                    + olds[0].1@) + fired(self.entries@, now));
            }
        }
        proof {
            if self.entries@.len() > 0 {
                assert forall|k: int| 0 <= k < self.entries@.len() implies self.entries@[k].0
                    > now by {
                    if k > 0 {
                        assert(self.entries@[0].0 < self.entries@[k].0);
                    }
                }
                lemma_timer_all_later(self.entries@, now);
            }
            assert(woken@ =~= woken@ + fired(self.entries@, now));
            assert forall|t: u64| t <= now implies wakers_of(self.entries@, t)
                == Seq::<u64>::empty() by {
                assert forall|k: int| 0 <= k < self.entries@.len() implies self.entries@[k].0
                    != t by {
                    if k > 0 {
                        assert(self.entries@[0].0 < self.entries@[k].0);
                    }
                }
                lemma_timer_absent(self.entries@, t);
            }
        }
        woken
    }
}

} // verus!

verus! {

/// What a task reports when polled: finished, waiting for external input, or
/// asking to sleep for a duration.
#[derive(Debug, Clone, Copy, PartialEq, Eq, Structural)]
pub enum TaskStep {
    /// The task completed and leaves the pool.
    Done,
    /// The task can make no progress until an external wake.
    Pending,
    /// The task suspends until the given duration has elapsed.
    Sleep(u64),
}

/// A synchronous request a task makes of its runtime while being polled.
#[derive(Debug)]
pub enum GuestAction {
    /// Publish a local event with an encoded payload.
    Emit { name: Vec<u8>, payload: Vec<u8> },
    /// Publish an event toward a remote peer with an encoded payload.
    EmitNet { name: Vec<u8>, target: Vec<u8>, payload: Vec<u8> },
    /// Write a log line.
    Log(Vec<u8>),
}

/// What a task sees while being polled: the current time, and a sink for the
/// actions it requests.
pub struct TaskCtx {
    pub now: u64,
    pub actions: Vec<GuestAction>,
}

/// A cooperative task: polled by the scheduler, it runs until it completes,
/// parks for an external wake, or asks to sleep.
pub trait GuestTask {
    /// Makes as much progress as possible without blocking, pushing any
    /// requested actions into the context.
    fn poll(&mut self, ctx: &mut TaskCtx) -> TaskStep;
}

/// The scheduling state of one pooled task.
#[derive(Debug, Clone, Copy, PartialEq, Eq, Structural)]
pub enum TaskState {
    /// Will be polled at the next opportunity.
    Ready,
    /// Suspended until the deadline it carries.
    Sleeping(u64),
    /// Suspended until an external wake.
    Parked,
}

/// One pooled task with its scheduling state.
pub struct TaskSlot<T> {
    pub id: u64,
    pub state: TaskState,
    pub task: T,
}

/// The state of the task registered under `id`, if any.
pub open spec fn slot_lookup<T>(slots: Seq<TaskSlot<T>>, id: u64) -> Option<TaskState>
    decreases slots.len(),
{
    if slots.len() == 0 {
        None
    } else if slots[0].id == id {
        Some(slots[0].state)
    } else {
        slot_lookup(slots.drop_first(), id)
    }
}

/// How many pooled tasks are ready to be polled.
pub open spec fn ready_count<T>(slots: Seq<TaskSlot<T>>) -> nat
    decreases slots.len(),
{
    if slots.len() == 0 {
        0
    } else {
        (if slots[0].state is Ready {
            1nat
        } else {
            0nat
        }) + ready_count(slots.drop_first())
    }
}

proof fn lemma_slot_found<T>(slots: Seq<TaskSlot<T>>, id: u64, i: int)
    requires
        0 <= i < slots.len(),
        slots[i].id == id,
        forall|k: int| 0 <= k < i ==> slots[k].id != id,
    ensures
        slot_lookup(slots, id) == Some(slots[i].state),
    decreases i,
{
    if i > 0 {
        assert(slots.drop_first()[i - 1] == slots[i]);
        assert forall|k: int| 0 <= k < i - 1 implies slots.drop_first()[k].id != id by {
            assert(slots.drop_first()[k] == slots[k + 1]);
        }
        lemma_slot_found(slots.drop_first(), id, i - 1);
    }
}

proof fn lemma_slot_absent<T>(slots: Seq<TaskSlot<T>>, id: u64)
    requires
        forall|k: int| 0 <= k < slots.len() ==> slots[k].id != id,
    ensures
        slot_lookup(slots, id) is None,
    decreases slots.len(),
{
    if slots.len() > 0 {
        assert forall|k: int| 0 <= k < slots.len() - 1 implies slots.drop_first()[k].id != id by {
            assert(slots.drop_first()[k] == slots[k + 1]);
        }
        lemma_slot_absent(slots.drop_first(), id);
    }
}

proof fn lemma_slot_update_same_id<T>(slots: Seq<TaskSlot<T>>, i: int, slot: TaskSlot<T>, n: u64)
    requires
        0 <= i < slots.len(),
        slots[i].id == slot.id,
        n != slot.id,
    ensures
        slot_lookup(slots.update(i, slot), n) == slot_lookup(slots, n),
    decreases slots.len(),
{
    let upd = slots.update(i, slot);
    if slots.len() > 0 {
        if i == 0 {
            assert(upd[0] == slot);
            assert(upd.drop_first() =~= slots.drop_first());
        } else {
            assert(upd[0] == slots[0]);
            assert(upd.drop_first() =~= slots.drop_first().update(i - 1, slot));
            assert(slots.drop_first()[i - 1] == slots[i]);
            lemma_slot_update_same_id(slots.drop_first(), i - 1, slot, n);
        }
    }
}

proof fn lemma_slot_push<T>(slots: Seq<TaskSlot<T>>, slot: TaskSlot<T>, n: u64)
    ensures
        slot_lookup(slots.push(slot), n) == if slot_lookup(slots, n) is Some {
            slot_lookup(slots, n)
        } else if n == slot.id {
            Some(slot.state)
        } else {
            None
        },
    decreases slots.len(),
{
    let p = slots.push(slot);
    if slots.len() == 0 {
        assert(p[0] == slot);
        assert(p.drop_first() =~= Seq::<TaskSlot<T>>::empty());
        assert(slot_lookup(slots, n) is None);
        if n == slot.id {
            assert(slot_lookup(p, n) == Some(slot.state));
        } else {
            assert(slot_lookup(p.drop_first(), n) is None);
            assert(slot_lookup(p, n) is None);
        }
    } else {
        assert(p[0] == slots[0]);
        assert(p.drop_first() =~= slots.drop_first().push(slot));
        lemma_slot_push(slots.drop_first(), slot, n);
        if p[0].id == n {
            assert(slot_lookup(p, n) == Some(p[0].state));
            assert(slot_lookup(slots, n) == Some(slots[0].state));
        } else {
            assert(slot_lookup(p, n) == slot_lookup(p.drop_first(), n));
            assert(slot_lookup(slots, n) == slot_lookup(slots.drop_first(), n));
        }
    }
}

proof fn lemma_slot_remove<T>(slots: Seq<TaskSlot<T>>, i: int, n: u64)
    requires
        0 <= i < slots.len(),
        forall|k: int| 0 <= k < slots.len() ==> k != i ==> slots[k].id != slots[i].id,
    ensures
        slot_lookup(slots.remove(i), slots[i].id) is None,
        n != slots[i].id ==> slot_lookup(slots.remove(i), n) == slot_lookup(slots, n),
    decreases slots.len(),
{
    let rem = slots.remove(i);
    assert forall|k: int| 0 <= k < rem.len() implies rem[k].id != slots[i].id by {
        if k < i {
            assert(rem[k] == slots[k]);
        } else {
            assert(rem[k] == slots[k + 1]);
        }
    }
    lemma_slot_absent(rem, slots[i].id);
    if n != slots[i].id {
        if i == 0 {
            assert(rem =~= slots.drop_first());
        } else {
            assert(rem[0] == slots[0]);
            assert(rem.drop_first() =~= slots.drop_first().remove(i - 1));
            assert(slots.drop_first()[i - 1] == slots[i]);
            assert forall|k: int|
                0 <= k < slots.drop_first().len() && k != i - 1 implies (
            #[trigger] slots.drop_first()[k]).id != slots.drop_first()[i - 1].id by {
                assert(slots.drop_first()[k] == slots[k + 1]);
            }
            lemma_slot_remove(slots.drop_first(), i - 1, n);
        }
    }
}

proof fn lemma_ready_count_remove<T>(slots: Seq<TaskSlot<T>>, i: int)
    requires
        0 <= i < slots.len(),
    ensures
        ready_count(slots.remove(i)) == ready_count(slots) - (
        if slots[i].state is Ready {
            1int
        } else {
            0int
        }),
    decreases slots.len(),
{
    let rem = slots.remove(i);
    if i == 0 {
        assert(rem =~= slots.drop_first());
    } else {
        assert(rem[0] == slots[0]);
        assert(rem.drop_first() =~= slots.drop_first().remove(i - 1));
        assert(slots.drop_first()[i - 1] == slots[i]);
        lemma_ready_count_remove(slots.drop_first(), i - 1);
    }
}

proof fn lemma_ready_count_insert<T>(slots: Seq<TaskSlot<T>>, i: int, slot: TaskSlot<T>)
    requires
        0 <= i <= slots.len(),
    ensures
        ready_count(slots.insert(i, slot)) == ready_count(slots) + (
        if slot.state is Ready {
            1int
        } else {
            0int
        }),
    decreases slots.len(),
{
    let ins = slots.insert(i, slot);
    if i == 0 {
        assert(ins[0] == slot);
        assert(ins.drop_first() =~= slots);
    } else {
        assert(ins[0] == slots[0]);
        assert(ins.drop_first() =~= slots.drop_first().insert(i - 1, slot));
        lemma_ready_count_insert(slots.drop_first(), i - 1, slot);
    }
}

proof fn lemma_no_ready_lookup<T>(slots: Seq<TaskSlot<T>>, id: u64)
    requires
        forall|k: int| 0 <= k < slots.len() ==> !((#[trigger] slots[k]).state is Ready),
    ensures
        !(slot_lookup(slots, id) matches Some(TaskState::Ready)),
    decreases slots.len(),
{
    if slots.len() > 0 && slots[0].id != id {
        assert forall|k: int|
            0 <= k < slots.drop_first().len() implies !((#[trigger] slots.drop_first()[k]).state
            is Ready) by {
            assert(slots.drop_first()[k] == slots[k + 1]);
        }
        lemma_no_ready_lookup(slots.drop_first(), id);
    }
}

} // verus!

verus! {

proof fn lemma_lookup_statemap<T>(s1: Seq<TaskSlot<T>>, s2: Seq<TaskSlot<T>>, id: u64)
    requires
        s1.len() == s2.len(),
        forall|k: int| 0 <= k < s1.len() ==> (#[trigger] s2[k]).id == s1[k].id,
        forall|k: int|
            0 <= k < s1.len() ==> (#[trigger] s2[k]).state == (
            if s1[k].state is Parked {
                TaskState::Ready
            } else {
                s1[k].state
            }),
    ensures
        slot_lookup(s2, id) == match slot_lookup(s1, id) {
            Some(TaskState::Parked) => Some(TaskState::Ready),
            other => other,
        },
    decreases s1.len(),
{
    if s1.len() > 0 {
        assert(s2[0].id == s1[0].id);
        if s1[0].id != id {
            assert forall|k: int|
                0 <= k < s1.drop_first().len() implies (#[trigger] s2.drop_first()[k]).id
                == s1.drop_first()[k].id by {
                assert(s2.drop_first()[k] == s2[k + 1]);
                assert(s1.drop_first()[k] == s1[k + 1]);
            }
            assert forall|k: int|
                0 <= k < s1.drop_first().len() implies (#[trigger] s2.drop_first()[k]).state == (
                if s1.drop_first()[k].state is Parked {
                    TaskState::Ready
                } else {
                    s1.drop_first()[k].state
                }) by {
                assert(s2.drop_first()[k] == s2[k + 1]);
                assert(s1.drop_first()[k] == s1[k + 1]);
            }
            lemma_lookup_statemap(s1.drop_first(), s2.drop_first(), id);
        }
    }
}

/// The single-threaded cooperative scheduler: a pool of tasks, the timer
/// map, and a simulated clock that only the host-driven tick advances.
pub struct Scheduler<T> {
    slots: Vec<TaskSlot<T>>,
    timers: TimerMap,
    next_id: u64,
    now: u64,
}

impl<T: GuestTask> Scheduler<T> {
    /// Task identifiers are unique and at most `next_id`; the timers are
    /// ordered.
    pub closed spec fn wf(&self) -> bool {
        &&& forall|i: int, j: int|
            0 <= i < j < self.slots@.len() ==> self.slots@[i].id != self.slots@[j].id
        &&& forall|i: int|
            0 <= i < self.slots@.len() ==> 1 <= #[trigger] self.slots@[i].id <= self.next_id
        &&& self.timers.wf()
    }

    /// The scheduling state of the task under `id`, if it is still pooled.
    pub closed spec fn state_of(&self, id: u64) -> Option<TaskState> {
        slot_lookup(self.slots@, id)
    }

    /// The simulated clock.
    pub closed spec fn spec_now(&self) -> u64 {
        self.now
    }

    /// The identifier the next spawn will exceed.
    pub closed spec fn spec_next_id(&self) -> u64 {
        self.next_id
    }

    /// The waiters registered under deadline `t`.
    pub closed spec fn timer_waiters(&self, t: u64) -> Seq<u64> {
        self.timers.waiters(t)
    }

    /// An empty pool at time zero.
    pub fn new() -> (r: Scheduler<T>)
        ensures
            r.wf(),
            r.spec_now() == 0,
            r.spec_next_id() == 0,
            forall|id: u64| r.state_of(id) is None,
            forall|t: u64| r.timer_waiters(t) == Seq::<u64>::empty(),
    {
        let r = Scheduler { slots: Vec::new(), timers: TimerMap::new(), next_id: 0, now: 0 };
        proof {
            assert forall|id: u64| r.state_of(id) is None by {
                lemma_slot_absent(r.slots@, id);
            }
        }
        r
    }

    /// The current simulated time.
    pub fn now(&self) -> (r: u64)
        ensures
            r == self.spec_now(),
    {
        self.now
    }

    /// The scheduling state of the task under `id`.
    pub fn task_state(&self, id: u64) -> (r: Option<TaskState>)
        requires
            self.wf(),
        ensures
            r == self.state_of(id),
    {
        match self.find_index(id) {
            Some(i) => Some(self.slots[i].state),
            None => None,
        }
    }

    /// Index of the slot under `id`, if any.
    fn find_index(&self, id: u64) -> (r: Option<usize>)
        requires
            self.wf(),
        ensures
            match r {
                Some(i) => i < self.slots@.len() && self.slots@[i as int].id == id && self.state_of(
                    id,
                ) == Some(self.slots@[i as int].state) && forall|k: int|
                    0 <= k < self.slots@.len() && k != i ==> self.slots@[k].id != id,
                None => self.state_of(id) is None,
            },
    {
        let n = self.slots.len();
        let mut i: usize = 0;
        while i < n
            invariant
                i <= n,
                n == self.slots@.len(),
                self.wf(),
                forall|k: int| 0 <= k < i ==> self.slots@[k].id != id,
            decreases n - i,
        {
            if self.slots[i].id == id {
                proof {
                    lemma_slot_found(self.slots@, id, i as int);
                }
                return Some(i);
            }
            i = i + 1;
        }
        proof {
            lemma_slot_absent(self.slots@, id);
        }
        None
    }

    /// Enqueues a task for polling at the next opportunity and hands back
    /// its fresh identifier. Identifiers grow monotonically.
    pub fn spawn(&mut self, task: T) -> (id: u64)
        requires
            old(self).wf(),
            old(self).spec_next_id() < u64::MAX,
        ensures
            final(self).wf(),
            id == old(self).spec_next_id() + 1,
            final(self).spec_next_id() == id,
            final(self).state_of(id) == Some(TaskState::Ready),
            old(self).state_of(id) is None,
            forall|n: u64| n != id ==> final(self).state_of(n) == old(self).state_of(n),
            final(self).spec_now() == old(self).spec_now(),
            forall|t: u64| final(self).timer_waiters(t) == old(self).timer_waiters(t),
    {
        let id = self.next_id + 1;
        self.next_id = id;
        proof {
            lemma_slot_absent(self.slots@, id);
        }
        let ghost olds = self.slots@;
        self.slots.push(TaskSlot { id, state: TaskState::Ready, task });
        proof {
            assert(self.slots@ =~= olds.push(self.slots@[olds.len() as int]));
            assert forall|n: u64| #![auto] true implies slot_lookup(self.slots@, n) == (
            if n == id {
                Some(TaskState::Ready)
            } else {
                slot_lookup(olds, n)
            }) by {
                lemma_slot_push(olds, self.slots@[olds.len() as int], n);
                if n == id {
                    lemma_slot_absent(olds, n);
                }
            }
        }
        id
    }

    /// Suspends the task under `id` until `deadline`: its waiter joins the
    /// timer map and the task will not be polled before the deadline fires.
    pub fn sleep_until(&mut self, id: u64, deadline: u64)
        requires
            old(self).wf(),
        ensures
            final(self).wf(),
            final(self).spec_now() == old(self).spec_now(),
            final(self).spec_next_id() == old(self).spec_next_id(),
            match old(self).state_of(id) {
                Some(_) => final(self).state_of(id) == Some(TaskState::Sleeping(deadline)) && (
                final(self).timer_waiters(deadline) == old(self).timer_waiters(deadline).push(id))
                    && forall|t: u64|
                    t != deadline ==> final(self).timer_waiters(t) == old(self).timer_waiters(t),
                None => final(self).state_of(id) is None && forall|t: u64|
                    final(self).timer_waiters(t) == old(self).timer_waiters(t),
            },
            forall|n: u64| n != id ==> final(self).state_of(n) == old(self).state_of(n),
    {
        match self.find_index(id) {
            Some(i) => {
                let ghost olds = self.slots@;
                let mut slot = self.slots.remove(i);
                slot.state = TaskState::Sleeping(deadline);
                self.slots.insert(i, slot);
                self.timers.insert(deadline, id);
                proof {
                    assert(self.slots@ =~= olds.update(i as int, self.slots@[i as int]));
                    lemma_slot_found(self.slots@, id, i as int);
                    assert forall|n: u64| n != id implies slot_lookup(self.slots@, n)
                        == slot_lookup(olds, n) by {
                        lemma_slot_update_same_id(olds, i as int, self.slots@[i as int], n);
                    }
                }
            },
            None => {},
        }
    }

    /// Wakes the task under `id` if its deadline has come: a task sleeping
    /// until at most `now` becomes ready; any other state is untouched.
    fn wake_due(&mut self, id: u64, now: u64)
        requires
            old(self).wf(),
        ensures
            final(self).wf(),
            final(self).spec_now() == old(self).spec_now(),
            final(self).spec_next_id() == old(self).spec_next_id(),
            forall|t: u64| final(self).timer_waiters(t) == old(self).timer_waiters(t),
            forall|n: u64| n != id ==> final(self).state_of(n) == old(self).state_of(n),
            match old(self).state_of(id) {
                Some(TaskState::Sleeping(d)) => final(self).state_of(id) == if d <= now {
                    Some(TaskState::Ready)
                } else {
                    Some(TaskState::Sleeping(d))
                },
                _ => final(self).state_of(id) == old(self).state_of(id),
            },
    {
        match self.find_index(id) {
            Some(i) => {
                let due = match self.slots[i].state {
                    TaskState::Sleeping(d) => d <= now,
                    _ => false,
                };
                if due {
                    let ghost olds = self.slots@;
                    let mut slot = self.slots.remove(i);
                    slot.state = TaskState::Ready;
                    self.slots.insert(i, slot);
                    proof {
                        assert(self.slots@ =~= olds.update(i as int, self.slots@[i as int]));
                        lemma_slot_found(self.slots@, id, i as int);
                        assert forall|n: u64| n != id implies slot_lookup(self.slots@, n)
                            == slot_lookup(olds, n) by {
                            lemma_slot_update_same_id(olds, i as int, self.slots@[i as int], n);
                        }
                    }
                }
            },
            None => {},
        }
    }

    /// Wakes every parked task: used right after an event delivery, so tasks
    /// unblocked by the event make progress without waiting for a tick.
    pub fn wake_parked(&mut self)
        requires
            old(self).wf(),
        ensures
            final(self).wf(),
            final(self).spec_now() == old(self).spec_now(),
            final(self).spec_next_id() == old(self).spec_next_id(),
            forall|t: u64| final(self).timer_waiters(t) == old(self).timer_waiters(t),
            forall|n: u64|
                final(self).state_of(n) == match old(self).state_of(n) {
                    Some(TaskState::Parked) => Some(TaskState::Ready),
                    other => other,
                },
    {
        let n = self.slots.len();
        let mut i: usize = 0;
        while i < n
            invariant
                i <= n,
                n == self.slots@.len(),
                self.timers == old(self).timers,
                self.now == old(self).spec_now(),
                self.next_id == old(self).spec_next_id(),
                forall|k: int|
                    0 <= k < n ==> (#[trigger] self.slots@[k]).id == old(self).slots@[k].id,
                forall|k: int|
                    0 <= k < i ==> (#[trigger] self.slots@[k]).state == (
                    if old(self).slots@[k].state is Parked {
                        TaskState::Ready
                    } else {
                        old(self).slots@[k].state
                    }),
                forall|k: int|
                    i <= k < n ==> (#[trigger] self.slots@[k]).state == old(self).slots@[k].state,
            decreases n - i,
        {
            let parked = match self.slots[i].state {
                TaskState::Parked => true,
                _ => false,
            };
            if parked {
                let ghost olds = self.slots@;
                let mut slot = self.slots.remove(i);
                slot.state = TaskState::Ready;
                self.slots.insert(i, slot);
                proof {
                    assert(self.slots@ =~= olds.update(i as int, self.slots@[i as int]));
                }
            }
            i = i + 1;
        }
        proof {
            assert forall|k: int, j: int|
                0 <= k < j < self.slots@.len() implies (#[trigger] self.slots@[k]).id != (
            #[trigger] self.slots@[j]).id by {
                assert(old(self).slots@[k].id != old(self).slots@[j].id);
            }
            assert forall|k: int|
                0 <= k < self.slots@.len() implies 1 <= (#[trigger] self.slots@[k]).id
                <= self.next_id by {
                assert(old(self).slots@[k].id == self.slots@[k].id);
            }
            assert forall|n2: u64| #![auto]
                true implies slot_lookup(self.slots@, n2) == (match slot_lookup(
                old(self).slots@,
                n2,
            ) {
                Some(TaskState::Parked) => Some(TaskState::Ready),
                other => other,
            }) by {
                lemma_lookup_statemap(old(self).slots@, self.slots@, n2);
            }
        }
    }
    /// Index of the first ready task, if any.
    fn find_ready(&self) -> (r: Option<usize>)
        ensures
            match r {
                Some(i) => i < self.slots@.len() && self.slots@[i as int].state is Ready,
                None => forall|k: int|
                    0 <= k < self.slots@.len() ==> !((#[trigger] self.slots@[k]).state is Ready),
            },
    {
        let n = self.slots.len();
        let mut i: usize = 0;
        while i < n
            invariant
                i <= n,
                n == self.slots@.len(),
                forall|k: int| 0 <= k < i ==> !((#[trigger] self.slots@[k]).state is Ready),
            decreases n - i,
        {
            let ready = match self.slots[i].state {
                TaskState::Ready => true,
                _ => false,
            };
            if ready {
                return Some(i);
            }
            i = i + 1;
        }
        None
    }

    /// Polls ready tasks until none can make further progress without new
    /// external input, and collects the actions they requested. Suspended
    /// tasks are untouched: a sleeping task stays sleeping, a parked task
    /// stays parked, and no new timer is registered before the current time.
    pub fn run_until_stalled(&mut self) -> (actions: Vec<GuestAction>)
        requires
            old(self).wf(),
        ensures
            final(self).wf(),
            final(self).spec_now() == old(self).spec_now(),
            final(self).spec_next_id() == old(self).spec_next_id(),
            forall|id: u64| !(#[trigger] final(self).state_of(id) matches Some(TaskState::Ready)),
            forall|id: u64, d: u64|
                old(self).state_of(id) == Some(TaskState::Sleeping(d)) ==> final(self).state_of(id)
                    == Some(TaskState::Sleeping(d)),
            forall|id: u64|
                old(self).state_of(id) == Some(TaskState::Parked) ==> final(self).state_of(id)
                    == Some(TaskState::Parked),
            forall|id: u64| old(self).state_of(id) is None ==> final(self).state_of(id) is None,
            forall|id: u64|
                #![trigger final(self).state_of(id)]
                final(self).state_of(id) matches Some(TaskState::Sleeping(e)) ==> old(
                    self,
                ).state_of(id) == Some(TaskState::Sleeping(e)) || e >= old(self).spec_now(),
            forall|t: u64|
                t < old(self).spec_now() ==> final(self).timer_waiters(t) == old(
                    self,
                ).timer_waiters(t),
    {
        let mut actions: Vec<GuestAction> = Vec::new();
        loop
            invariant
                self.wf(),
                self.now == old(self).spec_now(),
                self.next_id == old(self).spec_next_id(),
                forall|id: u64, d: u64|
                    old(self).state_of(id) == Some(TaskState::Sleeping(d)) ==> self.state_of(id)
                        == Some(TaskState::Sleeping(d)),
                forall|id: u64|
                    old(self).state_of(id) == Some(TaskState::Parked) ==> self.state_of(id) == Some(
                        TaskState::Parked,
                    ),
                forall|id: u64| old(self).state_of(id) is None ==> self.state_of(id) is None,
                forall|id: u64|
                    (#[trigger] self.state_of(id)) matches Some(TaskState::Ready) ==> old(
                        self,
                    ).state_of(id) == Some(TaskState::Ready),
                forall|id: u64|
                    #![trigger self.state_of(id)]
                    self.state_of(id) matches Some(TaskState::Sleeping(e)) ==> old(self).state_of(
                        id,
                    ) == Some(TaskState::Sleeping(e)) || e >= old(self).spec_now(),
                forall|t: u64|
                    t < old(self).spec_now() ==> self.timer_waiters(t) == old(self).timer_waiters(
                        t,
                    ),
            ensures
                forall|k: int|
                    0 <= k < self.slots@.len() ==> !((#[trigger] self.slots@[k]).state is Ready),
            decreases ready_count(self.slots@),
        {
            let i = match self.find_ready() {
                Some(i) => i,
                None => {
                    break;
                },
            };
            let ghost olds = self.slots@;
            let mut slot = self.slots.remove(i);
            let id = slot.id;
            proof {
                assert forall|k: int| 0 <= k < olds.len() && k != i implies (
                #[trigger] olds[k]).id != olds[i as int].id by {}
                lemma_slot_found(olds, id, i as int);
                lemma_slot_remove(olds, i as int, id);
                assert forall|n2: u64| n2 != id implies slot_lookup(self.slots@, n2)
                    == slot_lookup(olds, n2) by {
                    lemma_slot_remove(olds, i as int, n2);
                }
                lemma_ready_count_remove(olds, i as int);
            }
            let mut ctx = TaskCtx { now: self.now, actions: Vec::new() };
            let step = slot.task.poll(&mut ctx);
            actions.append(&mut ctx.actions);
            match step {
                TaskStep::Done => {},
                TaskStep::Pending => {
                    let ghost mids = self.slots@;
                    slot.state = TaskState::Parked;
                    self.slots.insert(i, slot);
                    proof {
                        lemma_ready_count_insert(mids, i as int, self.slots@[i as int]);
                        assert forall|k: int| 0 <= k < self.slots@.len() && k != i implies (
                        #[trigger] self.slots@[k]).id != id by {
                            if k < i {
                                assert(self.slots@[k] == mids[k]);
                                assert(mids[k] == olds[k]);
                            } else {
                                assert(self.slots@[k] == mids[k - 1]);
                                if k - 1 < i {
                                    assert(mids[k - 1] == olds[k - 1]);
                                } else {
                                    assert(mids[k - 1] == olds[k]);
                                }
                            }
                        }
                        lemma_slot_found(self.slots@, id, i as int);
                        assert(self.slots@.remove(i as int) =~= mids);
                        assert forall|n2: u64| n2 != id implies slot_lookup(self.slots@, n2)
                            == slot_lookup(mids, n2) by {
                            lemma_slot_remove(self.slots@, i as int, n2);
                        }
                    }
                },
                TaskStep::Sleep(d) => {
                    let deadline = if d > u64::MAX - self.now {
                        u64::MAX
                    } else {
                        self.now + d
                    };
                    self.timers.insert(deadline, id);
                    let ghost mids = self.slots@;
                    slot.state = TaskState::Sleeping(deadline);
                    self.slots.insert(i, slot);
                    proof {
                        lemma_ready_count_insert(mids, i as int, self.slots@[i as int]);
                        assert forall|k: int| 0 <= k < self.slots@.len() && k != i implies (
                        #[trigger] self.slots@[k]).id != id by {
                            if k < i {
                                assert(self.slots@[k] == mids[k]);
                                assert(mids[k] == olds[k]);
                            } else {
                                assert(self.slots@[k] == mids[k - 1]);
                                if k - 1 < i {
                                    assert(mids[k - 1] == olds[k - 1]);
                                } else {
                                    assert(mids[k - 1] == olds[k]);
                                }
                            }
                        }
                        lemma_slot_found(self.slots@, id, i as int);
                        assert(self.slots@.remove(i as int) =~= mids);
                        assert forall|n2: u64| n2 != id implies slot_lookup(self.slots@, n2)
                            == slot_lookup(mids, n2) by {
                            lemma_slot_remove(self.slots@, i as int, n2);
                        }
                    }
                },
            }
        }
        proof {
            assert forall|id: u64| !(#[trigger] slot_lookup(self.slots@, id) matches Some(
                TaskState::Ready,
            )) by {
                lemma_no_ready_lookup(self.slots@, id);
            }
        }
        actions
    }

    /// One host-driven tick at time `now`: wakes every waiter whose deadline
    /// has passed (a waiter with a later deadline remains suspended), then
    /// polls the pool until it stalls, without ever blocking the host.
    pub fn tick(&mut self, now: u64) -> (actions: Vec<GuestAction>)
        requires
            old(self).wf(),
            now >= old(self).spec_now(),
        ensures
            final(self).wf(),
            final(self).spec_now() == now,
            final(self).spec_next_id() == old(self).spec_next_id(),
            forall|id: u64| !(#[trigger] final(self).state_of(id) matches Some(TaskState::Ready)),
            forall|id: u64, d: u64|
                old(self).state_of(id) == Some(TaskState::Sleeping(d)) && d > now
                    ==> final(self).state_of(id) == Some(TaskState::Sleeping(d)),
            forall|id: u64|
                old(self).state_of(id) == Some(TaskState::Parked) ==> final(self).state_of(id)
                    == Some(TaskState::Parked),
            forall|id: u64| old(self).state_of(id) is None ==> final(self).state_of(id) is None,
            forall|id: u64, d: u64|
                old(self).state_of(id) == Some(TaskState::Sleeping(d)) && d < now && #[trigger] old(
                    self,
                ).timer_waiters(d).contains(id) ==> !(#[trigger] final(self).state_of(id)
                    matches Some(TaskState::Sleeping(e)) && e < now),
            forall|t: u64| t < now ==> final(self).timer_waiters(t) == Seq::<u64>::empty(),
    {
        self.now = now;
        let woken = self.timers.fire(now);
        let n = woken.len();
        let mut j: usize = 0;
        proof {
            assert(woken@.subrange(0, 0) =~= Seq::<u64>::empty());
        }
        while j < n
            invariant
                j <= n,
                n == woken@.len(),
                self.wf(),
                self.now == now,
                self.next_id == old(self).spec_next_id(),
                forall|t: u64| t <= now ==> self.timer_waiters(t) == Seq::<u64>::empty(),
                forall|id: u64, d: u64|
                    old(self).state_of(id) == Some(TaskState::Sleeping(d)) && d > now
                        ==> self.state_of(id) == Some(TaskState::Sleeping(d)),
                forall|id: u64|
                    old(self).state_of(id) == Some(TaskState::Parked) ==> self.state_of(id) == Some(
                        TaskState::Parked,
                    ),
                forall|id: u64| old(self).state_of(id) is None ==> self.state_of(id) is None,
                forall|id: u64|
                    #![trigger self.state_of(id)]
                    self.state_of(id) == old(self).state_of(id) || self.state_of(id) == Some(
                        TaskState::Ready,
                    ),
                forall|id: u64|
                    #![trigger woken@.subrange(0, j as int).contains(id)]
                    (old(self).state_of(id) matches Some(TaskState::Sleeping(d)) && d <= now
                        && woken@.subrange(0, j as int).contains(id)) ==> self.state_of(id) == Some(
                        TaskState::Ready,
                    ),
            decreases n - j,
        {
            let ghost pre = *self;
            let waker = woken[j];
            self.wake_due(waker, now);
            proof {
                assert forall|id: u64|
                    #![trigger woken@.subrange(0, j + 1).contains(id)]
                    (old(self).state_of(id) matches Some(TaskState::Sleeping(d)) && d <= now
                        && woken@.subrange(0, j + 1).contains(id)) implies self.state_of(id)
                    == Some(TaskState::Ready) by {
                    if id == waker {
                        assert(pre.state_of(id) == old(self).state_of(id) || pre.state_of(id)
                            == Some(TaskState::Ready));
                    } else {
                        let k = choose|k: int|
                            0 <= k < j + 1 && #[trigger] woken@.subrange(0, j + 1)[k] == id;
                        assert(woken@.subrange(0, j as int)[k] == id);
                        assert(woken@.subrange(0, j as int).contains(id));
                    }
                }
            }
            j = j + 1;
        }
        let ghost mid = *self;
        proof {
            assert(woken@.subrange(0, n as int) =~= woken@);
        }
        let actions = self.run_until_stalled();
        proof {
            assert forall|id: u64, d: u64|
                old(self).state_of(id) == Some(TaskState::Sleeping(d)) && d < now && #[trigger] old(
                    self,
                ).timer_waiters(d).contains(id) implies !(#[trigger] self.state_of(id)
                matches Some(TaskState::Sleeping(e)) && e < now) by {
                old(self).timers.lemma_due_membership(now, id);
                assert(old(self).timers.due(now).contains(id));
                assert(woken@.contains(id));
                assert(mid.state_of(id) == Some(TaskState::Ready));
            }
        }
        actions
    }

    /// Registers a sleep of `duration` for the task under `id`: it will not
    /// be polled again before the deadline `now + duration` (saturating)
    /// fires.
    pub fn sleep_for(&mut self, id: u64, duration: u64)
        requires
            old(self).wf(),
        ensures
            final(self).wf(),
            final(self).spec_now() == old(self).spec_now(),
            final(self).spec_next_id() == old(self).spec_next_id(),
            ({
                let deadline = if duration > u64::MAX - old(self).spec_now() {
                    u64::MAX
                } else {
                    (old(self).spec_now() + duration) as u64
                };
                match old(self).state_of(id) {
                    Some(_) => final(self).state_of(id) == Some(TaskState::Sleeping(deadline))
                        && final(self).timer_waiters(deadline) == old(self).timer_waiters(
                        deadline,
                    ).push(id) && (forall|t: u64|
                        t != deadline ==> final(self).timer_waiters(t) == old(self).timer_waiters(
                            t,
                        )),
                    None => final(self).state_of(id) is None && (forall|t: u64|
                        final(self).timer_waiters(t) == old(self).timer_waiters(t)),
                }
            }),
            forall|n: u64| n != id ==> final(self).state_of(n) == old(self).state_of(n),
    {
        let deadline = if duration > u64::MAX - self.now {
            u64::MAX
        } else {
            self.now + duration
        };
        self.sleep_until(id, deadline);
    }
}

} // verus!
