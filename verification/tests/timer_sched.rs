//! Timer ordering and the cooperative scheduler: a tick wakes exactly the
//! waiters whose deadline has passed, in a single pass, and later waiters
//! stay suspended.
use cfx_rt::sched::{GuestTask, Scheduler, TaskCtx, TaskState, TaskStep, TimerMap};

struct SleepOnce {
    delay: u64,
    slept: bool,
}

impl GuestTask for SleepOnce {
    fn poll(&mut self, _ctx: &mut TaskCtx) -> TaskStep {
        if self.slept {
            TaskStep::Done
        } else {
            self.slept = true;
            TaskStep::Sleep(self.delay)
        }
    }
}

#[test]
fn fire_wakes_exactly_the_due_deadlines_in_order() {
    let mut timers = TimerMap::new();
    timers.insert(30, 103);
    timers.insert(10, 101);
    timers.insert(20, 102);
    timers.insert(20, 104);

    let woken = timers.fire(25);
    // Deadlines ascending; two waiters under one deadline keep their order.
    assert_eq!(woken, vec![101, 102, 104]);
    assert_eq!(timers.waiter_count(10), 0);
    assert_eq!(timers.waiter_count(20), 0);
    assert_eq!(timers.waiter_count(30), 1);

    // A second pass at the same time wakes nothing further.
    assert_eq!(timers.fire(25), Vec::<u64>::new());
    assert_eq!(timers.waiter_count(30), 1);

    assert_eq!(timers.fire(30), vec![103]);
}

#[test]
fn tick_wakes_past_deadlines_and_keeps_later_ones_suspended() {
    let mut sched: Scheduler<SleepOnce> = Scheduler::new();
    let t1 = sched.spawn(SleepOnce { delay: 10, slept: false });
    let t2 = sched.spawn(SleepOnce { delay: 20, slept: false });
    let t3 = sched.spawn(SleepOnce { delay: 30, slept: false });

    // The first tick polls all three; each suspends until its deadline.
    sched.tick(0);
    assert_eq!(sched.task_state(t1), Some(TaskState::Sleeping(10)));
    assert_eq!(sched.task_state(t2), Some(TaskState::Sleeping(20)));
    assert_eq!(sched.task_state(t3), Some(TaskState::Sleeping(30)));

    // Advancing past the second deadline wakes exactly the first two, in a
    // single tick; both run to completion, while the third stays suspended.
    sched.tick(25);
    assert_eq!(sched.task_state(t1), None);
    assert_eq!(sched.task_state(t2), None);
    assert_eq!(sched.task_state(t3), Some(TaskState::Sleeping(30)));

    sched.tick(30);
    assert_eq!(sched.task_state(t3), None);
}

#[test]
fn spawned_task_runs_at_the_next_tick() {
    let mut sched: Scheduler<SleepOnce> = Scheduler::new();
    let id = sched.spawn(SleepOnce { delay: 0, slept: true });
    assert_eq!(sched.task_state(id), Some(TaskState::Ready));
    sched.tick(0);
    assert_eq!(sched.task_state(id), None);
}

#[test]
fn sleep_for_registers_a_deadline_from_now() {
    let mut sched: Scheduler<SleepOnce> = Scheduler::new();
    let id = sched.spawn(SleepOnce { delay: 0, slept: true });
    sched.sleep_for(id, 15);
    assert_eq!(sched.task_state(id), Some(TaskState::Sleeping(15)));
    sched.tick(14);
    assert_eq!(sched.task_state(id), Some(TaskState::Sleeping(15)));
    sched.tick(15);
    assert_eq!(sched.task_state(id), None);
}

struct ParkOnce {
    parked: bool,
}

impl GuestTask for ParkOnce {
    fn poll(&mut self, _ctx: &mut TaskCtx) -> TaskStep {
        if self.parked {
            TaskStep::Done
        } else {
            self.parked = true;
            TaskStep::Pending
        }
    }
}

#[test]
fn parked_task_progresses_only_after_an_external_wake() {
    let mut sched: Scheduler<ParkOnce> = Scheduler::new();
    let id = sched.spawn(ParkOnce { parked: false });
    sched.run_until_stalled();
    assert_eq!(sched.task_state(id), Some(TaskState::Parked));
    // A tick alone does not wake a parked task.
    sched.tick(5);
    assert_eq!(sched.task_state(id), Some(TaskState::Parked));
    // The wake that follows an event delivery does.
    sched.wake_parked();
    sched.run_until_stalled();
    assert_eq!(sched.task_state(id), None);
}
