//! Round-robin scheduling decisions. The caller performs the context switch
//! that a decision names (save the old task's stack pointer, load the new
//! one's).
use vstd::prelude::*;
use crate::memory::pmm::{Pmm, PAGE_SIZE};
use crate::multitask::task::{
    MAX_TASKS, Task, TaskState, TaskTable, with_state, woken, due_pids, asleep, finished,
    slot_of_pid_from, lemma_slot_of_pid,
};

verus! {

/// Ticks a task may run before it is preempted.
pub const TIME_SLICE_TICKS: u64 = 3;

/// Timer interrupts per second.
pub const TICKS_PER_SECOND: u64 = 100;

/// Whether the slot `k` places after `c` (cyclically) is ready.
pub open spec fn ready_at(ts: Seq<Task>, c: int, k: int) -> bool {
    ts[(c + k) % (MAX_TASKS as int)].state == TaskState::Ready
}

/// The smallest offset in `k..=MAX_TASKS` after `c` whose slot is ready.
pub open spec fn first_ready(ts: Seq<Task>, c: int, k: int) -> Option<int>
    decreases MAX_TASKS + 1 - k,
{
    if k < 1 || k > MAX_TASKS {
        None
    } else if ready_at(ts, c, k) {
        Some(k)
    } else {
        first_ready(ts, c, k + 1)
    }
}

/// The table with the running task `c` put back to ready.
pub open spec fn demoted(ts: Seq<Task>, c: int) -> Seq<Task> {
    if ts[c].state == TaskState::Running {
        ts.update(c, with_state(ts[c], TaskState::Ready))
    } else {
        ts
    }
}

/// The slot the scheduler switches to from `c`: the nearest ready slot after
/// `c` in cyclic order, unless that is `c` itself or none is ready.
pub open spec fn pick_next(ts: Seq<Task>, c: int) -> Option<int> {
    match first_ready(demoted(ts, c), c, 1) {
        Some(k) => if k == MAX_TASKS {
            None
        } else {
            Some((c + k) % (MAX_TASKS as int))
        },
        None => None,
    }
}

/// The tasks after a scheduling decision from `c`.
pub open spec fn scheduled(ts: Seq<Task>, c: int) -> Seq<Task> {
    match pick_next(ts, c) {
        Some(n) => demoted(ts, c).update(n, with_state(ts[n], TaskState::Running)),
        None => ts.update(c, with_state(ts[c], TaskState::Running)),
    }
}

/// The running slot after a scheduling decision from `c`.
pub open spec fn scheduled_current(ts: Seq<Task>, c: int) -> int {
    match pick_next(ts, c) {
        Some(n) => n,
        None => c,
    }
}

/// The context switch a scheduling decision from `c` asks for.
pub open spec fn switch_of(ts: Seq<Task>, c: int) -> Option<(usize, usize)> {
    match pick_next(ts, c) {
        Some(n) => Some((c as usize, n as usize)),
        None => None,
    }
}

/// Tasks, running slot, slice counter and requested switch after
/// scheduling from state (`ts`, `c`, `slice`).
pub open spec fn schedule_post(
    t: &TaskTable,
    ts: Seq<Task>,
    c: int,
    slice: u64,
    r: Option<(usize, usize)>,
) -> bool {
    &&& t.tasks() == scheduled(ts, c)
    &&& t.current() == scheduled_current(ts, c)
    &&& t.slice_ticks() == if pick_next(ts, c) is Some {
        0
    } else {
        slice
    }
    &&& r == switch_of(ts, c)
}

proof fn lemma_first_ready(ts: Seq<Task>, c: int, k: int)
    requires
        1 <= k,
        0 <= c < MAX_TASKS,
        ts.len() == MAX_TASKS,
    ensures
        first_ready(ts, c, k) matches Some(j) ==> k <= j <= MAX_TASKS && ready_at(ts, c, j),
    decreases MAX_TASKS + 1 - k,
{
    if k <= MAX_TASKS {
        lemma_first_ready(ts, c, k + 1);
    }
}

/// Offset (1..=MAX_TASKS) after the running slot of the nearest ready slot.
fn find_ready(table: &TaskTable) -> (r: Option<usize>)
    requires
        table.wf(),
    ensures
        r == match first_ready(table.tasks(), table.current(), 1) {
            Some(k) => Some(k as usize),
            None => None::<usize>,
        },
{
    let c = table.current_slot();
    let mut next_idx = (c + 1) % MAX_TASKS;
    let mut k: usize = 1;
    while k <= MAX_TASKS
        invariant
            table.wf(),
            c == table.current(),
            1 <= k <= MAX_TASKS + 1,
            next_idx == (c + k) % (MAX_TASKS as int),
            first_ready(table.tasks(), c as int, 1) == first_ready(table.tasks(), c as int, k as int),
        decreases MAX_TASKS + 1 - k,
    {
        if table.get_task(next_idx).state == TaskState::Ready {
            return Some(k);
        }
        next_idx = (next_idx + 1) % MAX_TASKS;
        k = k + 1;
    }
    None
}

/// Picks the next task to run: the running task goes back to ready, and the
/// nearest ready task after it (cyclically) runs next; with no other ready
/// task, the current one keeps running. Returns the switch to perform.
pub fn schedule(table: &mut TaskTable) -> (r: Option<(usize, usize)>)
    requires
        old(table).wf(),
    ensures
        final(table).wf(),
        final(table).next_pid() == old(table).next_pid(),
        schedule_post(final(table), old(table).tasks(), old(table).current(), old(table).slice_ticks(), r),
{
    let ghost ts = table.tasks();
    let curr_idx = table.current_slot();
    let curr = table.get_task(curr_idx);
    if curr.state == TaskState::Running {
        table.replace(curr_idx, Task { state: TaskState::Ready, ..curr });
    }
    assert(table.tasks() == demoted(ts, curr_idx as int));
    assert(table.wf());
    let found = find_ready(table);
    proof {
        lemma_first_ready(table.tasks(), curr_idx as int, 1);
    }
    match found {
        None => {
            let c = table.get_task(curr_idx);
            table.replace(curr_idx, Task { state: TaskState::Running, ..c });
            assert(table.tasks() =~= scheduled(ts, curr_idx as int));
            None
        },
        Some(k) => {
            let next_idx = (curr_idx + k) % MAX_TASKS;
            if next_idx == curr_idx {
                assert(k == MAX_TASKS);
                let c = table.get_task(curr_idx);
                table.replace(curr_idx, Task { state: TaskState::Running, ..c });
                assert(table.tasks() =~= scheduled(ts, curr_idx as int));
                None
            } else {
                assert(k != MAX_TASKS);
                let n = table.get_task(next_idx);
                table.switch_current(next_idx);
                table.replace(next_idx, Task { state: TaskState::Running, ..n });
                assert(table.tasks() =~= scheduled(ts, curr_idx as int));
                assert forall|i: int| 0 <= i < MAX_TASKS && i != table.current() implies (#[trigger] table.tasks()[i]).state
                    != TaskState::Running by {
                    if i != curr_idx {
                        assert(ts[i].state != TaskState::Running);
                    }
                }
                Some((curr_idx, next_idx))
            }
        },
    }
}

/// `t` with one more tick of run time.
pub open spec fn ticked(t: Task) -> Task {
    Task { ticks_run: (t.ticks_run + 1) as u64, ..t }
}

/// The tasks of `ts` after the wake-up pass of tick `tick` and the charge
/// of one tick to slot `c`.
pub open spec fn after_tick(ts: Seq<Task>, c: int, tick: u64) -> Seq<Task> {
    let w = Seq::new(MAX_TASKS as nat, |i: int| woken(ts[i], tick));
    w.update(c, ticked(w[c]))
}

/// Handles timer tick `current_tick`: wakes due sleepers, charges the tick to
/// the running task, and reschedules when its slice is used up. Returns the
/// pids woken and the switch to perform.
pub fn tick(table: &mut TaskTable, current_tick: u64) -> (r: (Vec<u32>, Option<(usize, usize)>))
    requires
        old(table).wf(),
        old(table).tasks()[old(table).current()].ticks_run < u64::MAX,
    ensures
        final(table).wf(),
        final(table).next_pid() == old(table).next_pid(),
        r.0@ == due_pids(old(table).tasks(), current_tick),
        old(table).slice_ticks() + 1 >= TIME_SLICE_TICKS ==> schedule_post(
            final(table),
            after_tick(old(table).tasks(), old(table).current(), current_tick),
            old(table).current(),
            0,
            r.1,
        ),
        old(table).slice_ticks() + 1 < TIME_SLICE_TICKS ==> {
            &&& final(table).tasks() == after_tick(
                old(table).tasks(),
                old(table).current(),
                current_tick,
            )
            &&& final(table).current() == old(table).current()
            &&& final(table).slice_ticks() == old(table).slice_ticks() + 1
            &&& r.1 is None
        },
{
    let woke = table.wake_sleeping_tasks(current_tick);
    let c = table.current_slot();
    let t = table.get_task(c);
    table.replace(c, Task { ticks_run: t.ticks_run + 1, ..t });
    assert(table.tasks() =~= after_tick(old(table).tasks(), c as int, current_tick));
    let used = table.slice_used() + 1;
    if used >= TIME_SLICE_TICKS {
        table.set_slice_ticks(0);
        let sw = schedule(table);
        (woke, sw)
    } else {
        table.set_slice_ticks(used);
        (woke, None)
    }
}

/// Gives up the processor: the running task becomes ready and the
/// scheduler picks again. Returns the switch to perform.
pub fn yield_cpu(table: &mut TaskTable) -> (r: Option<(usize, usize)>)
    requires
        old(table).wf(),
    ensures
        final(table).wf(),
        final(table).next_pid() == old(table).next_pid(),
        schedule_post(
            final(table),
            old(table).tasks().update(
                old(table).current(),
                with_state(old(table).tasks()[old(table).current()], TaskState::Ready),
            ),
            old(table).current(),
            old(table).slice_ticks(),
            r,
        ),
{
    let c = table.current_slot();
    let t = table.get_task(c);
    table.replace(c, Task { state: TaskState::Ready, ..t });
    schedule(table)
}

/// Tick at which a task that starts sleeping `ms` milliseconds at tick `now`
/// wakes: at least one tick later.
pub open spec fn wake_tick(now: u64, ms: u64) -> int {
    let wait = ms * TICKS_PER_SECOND / 1000;
    now + if wait >= 1 {
        wait
    } else {
        1
    }
}

/// A task that sleeps `ms` milliseconds wakes after the whole number of
/// timer ticks (at `TICKS_PER_SECOND` a second) that fit in `ms`, and never
/// before the next tick.
pub proof fn law_sleep_duration(now: u64, ms: u64)
    ensures
        wake_tick(now, ms) >= now + 1,
        ms * TICKS_PER_SECOND >= 1000 ==> (wake_tick(now, ms) - now) * 1000 <= ms * TICKS_PER_SECOND
            < (wake_tick(now, ms) - now + 1) * 1000,
        ms * TICKS_PER_SECOND < 1000 ==> wake_tick(now, ms) == now + 1,
{
    let x: int = ms * TICKS_PER_SECOND;
    assert(x / 1000 * 1000 <= x < (x / 1000 + 1) * 1000);
    assert(x >= 1000 ==> x / 1000 >= 1);
    assert(x < 1000 ==> x / 1000 == 0);
}

/// Blocks the running task for `ms` milliseconds from tick `now` and picks
/// another task. Returns the switch to perform.
pub fn sleep_ms(table: &mut TaskTable, now: u64, ms: u64) -> (r: Option<(usize, usize)>)
    requires
        old(table).wf(),
        ms <= u64::MAX / 100,
        wake_tick(now, ms) <= u64::MAX,
    ensures
        final(table).wf(),
        final(table).next_pid() == old(table).next_pid(),
        schedule_post(
            final(table),
            old(table).tasks().update(
                old(table).current(),
                asleep(old(table).tasks()[old(table).current()], wake_tick(now, ms) as u64),
            ),
            old(table).current(),
            old(table).slice_ticks(),
            r,
        ),
{
    let ticks_to_wait = (ms * TICKS_PER_SECOND) / 1000;
    let wait = if ticks_to_wait >= 1 {
        ticks_to_wait
    } else {
        1
    };
    let wake_at = now + wait;
    let c = table.current_slot();
    table.block_until(c, wake_at);
    schedule(table)
}

/// `t` after task `pid` exits with `code`: a task blocked waiting on `pid`
/// becomes ready and receives the code.
pub open spec fn released(t: Task, pid: u32, code: i32) -> Task {
    if t.state == TaskState::Blocked && t.wait_for_pid == Some(pid) {
        Task { state: TaskState::Ready, wait_for_pid: None, exit_code: code, ..t }
    } else {
        t
    }
}

/// The tasks after the running task `c` exits with `code`, before the
/// scheduler picks again.
pub open spec fn after_exit(ts: Seq<Task>, c: int, code: i32) -> Seq<Task> {
    let rel = Seq::new(MAX_TASKS as nat, |i: int| released(ts[i], ts[c].pid, code));
    rel.update(c, finished(rel[c], code))
}

/// Ends the running task with `code`: tasks waiting on it become ready with
/// the code, its slot is marked terminated, the first page of its stack is
/// released, and another task is picked. Returns the switch to perform.
pub fn exit(table: &mut TaskTable, pmm: &mut Pmm, code: i32) -> (r: Option<(usize, usize)>)
    requires
        old(table).wf(),
        old(pmm).wf(),
        old(table).tasks()[old(table).current()].stack_base % PAGE_SIZE == 0,
        old(table).tasks()[old(table).current()].stack_base / 4096 < old(pmm).total(),
        old(pmm).used()[old(table).tasks()[old(table).current()].stack_base as int / 4096],
    ensures
        final(table).wf(),
        final(table).next_pid() == old(table).next_pid(),
        schedule_post(
            final(table),
            after_exit(old(table).tasks(), old(table).current(), code),
            old(table).current(),
            old(table).slice_ticks(),
            r,
        ),
        final(pmm).wf(),
        final(pmm).total() == old(pmm).total(),
        final(pmm).usable() == old(pmm).usable(),
        final(pmm).bitmap_range() == old(pmm).bitmap_range(),
        final(pmm).used() == old(pmm).used().update(
            old(table).tasks()[old(table).current()].stack_base as int / 4096,
            false,
        ),
        final(pmm).free_pages() == old(pmm).free_pages() + 1,
{
    let ghost ts = table.tasks();
    let c = table.current_slot();
    let our_pid = table.get_task(c).pid;
    let mut i: usize = 0;
    while i < MAX_TASKS
        invariant
            i <= MAX_TASKS,
            ts == old(table).tasks(),
            c == old(table).current(),
            our_pid == ts[c as int].pid,
            table.wf(),
            table.current() == c,
            table.next_pid() == old(table).next_pid(),
            table.slice_ticks() == old(table).slice_ticks(),
            forall|k: int| 0 <= k < i ==> table.tasks()[k] == released(ts[k], our_pid, code),
            forall|k: int| i <= k < MAX_TASKS ==> table.tasks()[k] == ts[k],
        decreases MAX_TASKS - i,
    {
        let t = table.get_task(i);
        let waiting = match t.wait_for_pid {
            Some(p) => p == our_pid,
            None => false,
        };
        if t.state == TaskState::Blocked && waiting {
            table.replace(i, Task { state: TaskState::Ready, wait_for_pid: None, exit_code: code, ..t });
        }
        i = i + 1;
    }
    assert(table.tasks() =~= Seq::new(MAX_TASKS as nat, |k: int| released(ts[k], ts[c as int].pid, code)));
    table.terminate(pmm, c, code);
    assert(table.tasks() =~= after_exit(ts, c as int, code));
    schedule(table)
}

/// One round of waiting for task `pid`.
#[derive(Clone, Copy, Debug, PartialEq, Eq)]
pub enum WaitStep {
    /// The wait is over with this exit code (-1: no such task).
    Exited(i32),
    /// The caller was blocked; perform this switch, then wait again.
    Blocked(Option<(usize, usize)>),
}

/// One round of waiting for task `pid`: with no such task the result is -1;
/// a terminated task's slot is freed and its exit code returned; otherwise
/// the running task blocks on `pid` and another is picked.
pub fn wait_for(table: &mut TaskTable, pid: u32) -> (r: WaitStep)
    requires
        old(table).wf(),
    ensures
        final(table).wf(),
        final(table).next_pid() == old(table).next_pid(),
        match slot_of_pid_from(old(table).tasks(), pid, 0) {
            None => r == WaitStep::Exited(-1i32) && final(table).tasks() == old(table).tasks()
                && final(table).current() == old(table).current() && final(table).slice_ticks()
                == old(table).slice_ticks(),
            Some(s) => if old(table).tasks()[s].state == TaskState::Terminated {
                &&& r == WaitStep::Exited(old(table).tasks()[s].exit_code)
                &&& final(table).tasks() == old(table).tasks().update(
                    s,
                    with_state(old(table).tasks()[s], TaskState::Empty),
                )
                &&& final(table).current() == old(table).current()
                &&& final(table).slice_ticks() == old(table).slice_ticks()
            } else {
                &&& r matches WaitStep::Blocked(sw)
                &&& schedule_post(
                    final(table),
                    old(table).tasks().update(
                        old(table).current(),
                        blocked_on(old(table).tasks()[old(table).current()], pid),
                    ),
                    old(table).current(),
                    old(table).slice_ticks(),
                    sw,
                )
            },
        },
{
    proof {
        lemma_slot_of_pid(table.tasks(), pid, 0);
    }
    match table.find_pid(pid) {
        None => WaitStep::Exited(-1),
        Some(slot) => {
            let t = table.get_task(slot);
            if t.state == TaskState::Terminated {
                let code = t.exit_code;
                table.replace(slot, Task { state: TaskState::Empty, ..t });
                assert forall|i: int| 0 <= i < MAX_TASKS && i != table.current() implies (#[trigger] table.tasks()[i]).state
                    != TaskState::Running by {
                    if i != slot {
                        assert(table.tasks()[i] == old(table).tasks()[i]);
                    }
                }
                WaitStep::Exited(code)
            } else {
                let c = table.current_slot();
                let cur = table.get_task(c);
                table.replace(c, Task { state: TaskState::Blocked, wait_for_pid: Some(pid), ..cur });
                let sw = schedule(table);
                WaitStep::Blocked(sw)
            }
        },
    }
}

/// `t` blocked waiting for task `pid`.
pub open spec fn blocked_on(t: Task, pid: u32) -> Task {
    Task { state: TaskState::Blocked, wait_for_pid: Some(pid), ..t }
}

/// `first_ready` finds the nearest ready offset: none before it is ready,
/// and it finds nothing only when no offset from `k` on is ready.
proof fn lemma_first_ready_nearest(ts: Seq<Task>, c: int, k: int)
    requires
        1 <= k,
    ensures
        first_ready(ts, c, k) matches Some(j) ==> forall|m: int| k <= m < j ==> !#[trigger] ready_at(ts, c, m),
        first_ready(ts, c, k) is None ==> forall|m: int| k <= m <= MAX_TASKS ==> !#[trigger] ready_at(ts, c, m),
        first_ready(ts, c, k) matches Some(j) ==> k <= j <= MAX_TASKS && ready_at(ts, c, j),
    decreases MAX_TASKS + 1 - k,
{
    if k <= MAX_TASKS {
        lemma_first_ready_nearest(ts, c, k + 1);
    }
}

/// Round robin: a scheduling decision switches away exactly when some other
/// task is ready, and then to the nearest ready one after the running slot;
/// afterwards the task in the running slot is `Running`.
pub proof fn law_schedule_round_robin(ts: Seq<Task>, c: int)
    requires
        ts.len() == MAX_TASKS,
        0 <= c < MAX_TASKS,
    ensures
        scheduled(ts, c)[scheduled_current(ts, c)].state == TaskState::Running,
        (pick_next(ts, c) is Some) == (exists|k: int| 1 <= k < MAX_TASKS && #[trigger] ready_at(demoted(ts, c), c, k)),
        pick_next(ts, c) matches Some(n) ==> (exists|k: int|
            1 <= k < MAX_TASKS && n == (c + k) % (MAX_TASKS as int) && ready_at(demoted(ts, c), c, k)
                && forall|m: int| 1 <= m < k ==> !#[trigger] ready_at(demoted(ts, c), c, m)),
{
    let d = demoted(ts, c);
    lemma_first_ready_nearest(d, c, 1);
    match first_ready(d, c, 1) {
        Some(j) => {
            if j < MAX_TASKS {
                assert(ready_at(d, c, j));
            }
        },
        None => {},
    }
}

} // verus!
