//! The fixed-size task table: slots, process ids, kernel stacks.
use vstd::prelude::*;
use crate::memory::pmm::{Pmm, PAGE_SIZE, alloc_page, free_page, lemma_count_all_used};
use crate::memory::vmm::{PhysMem, with_words};
use crate::device::serial::{wire_bytes, print, print_usize};
use crate::text::dec_digits;
use vstd::string::StringSliceAdditionalSpecFns;

verus! {

pub const MAX_TASKS: usize = 32;
pub const STACK_PAGES: usize = 2;
pub const STACK_SIZE: usize = 8192;
pub const KERNEL_CS: u64 = 0x28;
pub const KERNEL_SS: u64 = 0x30;
pub const INITIAL_RFLAGS: u64 = 0x202;
/// Words in the interrupt frame a new task starts from.
pub const FRAME_WORDS: usize = 22;

#[derive(Clone, Copy, Debug, PartialEq, Eq, Structural)]
pub enum TaskState {
    Empty,
    Created,
    Ready,
    Running,
    Blocked,
    Terminated,
}

/// One slot of the task table.
#[derive(Clone, Copy, Debug)]
pub struct Task {
    /// Saved stack pointer while the task is switched out.
    pub rsp: usize,
    pub state: TaskState,
    pub pid: u32,
    /// Zero-terminated name.
    pub name: [u8; 16],
    /// Physical address of the first stack frame.
    pub stack_base: usize,
    /// Virtual address one past the top of the stack.
    pub stack_top: usize,
    pub ticks_run: u64,
    /// Tick at which a sleeping task wakes (0: not sleeping).
    pub sleep_until: u64,
    /// Pid of the task that this one is waiting for, if any.
    pub wait_for_pid: Option<u32>,
    pub exit_code: i32,
}

pub open spec fn empty_task() -> Task {
    Task {
        rsp: 0,
        state: TaskState::Empty,
        pid: 0,
        name: vstd::array::spec_array_fill_for_copy_type::<u8, 16>(0u8),
        stack_base: 0,
        stack_top: 0,
        ticks_run: 0,
        sleep_until: 0,
        wait_for_pid: None,
        exit_code: 0,
    }
}

/// `t` with its state replaced by `s`.
pub open spec fn with_state(t: Task, s: TaskState) -> Task {
    Task { state: s, ..t }
}

impl Task {
    /// An unused slot.
    pub fn empty() -> (r: Task)
        ensures
            r == empty_task(),
            forall|i: int| 0 <= i < 16 ==> r.name@[i] == 0u8,
    {
        let r = Task {
            rsp: 0,
            state: TaskState::Empty,
            pid: 0,
            name: [0u8; 16],
            stack_base: 0,
            stack_top: 0,
            ticks_run: 0,
            sleep_until: 0,
            wait_for_pid: None,
            exit_code: 0,
        };
        r
    }
}

/// The kernel's tasks and the scheduler's bookkeeping.
pub struct TaskTable {
    tasks: Vec<Task>,
    next_pid: u32,
    current: usize,
    ticks_on_current: u64,
}

/// The lowest index at or after `i` whose slot is empty.
pub open spec fn first_empty_from(ts: Seq<Task>, i: int) -> Option<int>
    decreases ts.len() - i,
{
    if i < 0 || i >= ts.len() {
        None
    } else if ts[i].state == TaskState::Empty {
        Some(i)
    } else {
        first_empty_from(ts, i + 1)
    }
}

/// The lowest slot holding a live (non-empty) task with process id `pid`.
pub open spec fn slot_of_pid_from(ts: Seq<Task>, pid: u32, i: int) -> Option<int>
    decreases ts.len() - i,
{
    if i < 0 || i >= ts.len() {
        None
    } else if ts[i].state != TaskState::Empty && ts[i].pid == pid {
        Some(i)
    } else {
        slot_of_pid_from(ts, pid, i + 1)
    }
}

/// The name array after storing `name`: at most fifteen bytes, then a zero;
/// bytes after the zero are left as they were.
pub open spec fn stored_name(old_name: Seq<u8>, name: Seq<u8>) -> Seq<u8> {
    let n = if name.len() < 15 {
        name.len() as int
    } else {
        15
    };
    Seq::new(
        16,
        |i: int|
            if i < n {
                name[i]
            } else if i == n {
                0u8
            } else {
                old_name[i]
            },
    )
}

/// The words of the interrupt frame a new task starts from, lowest address
/// first: fifteen zeroed registers, zero vector and error code, then the
/// entry point, kernel code segment, flags with interrupts on, the stack top
/// and the kernel stack segment.
pub open spec fn initial_frame(stack_top: u64, entry: u64) -> Seq<u64> {
    Seq::new(17, |i: int| 0u64) + seq![entry, KERNEL_CS, INITIAL_RFLAGS, stack_top, KERNEL_SS]
}

/// `t` running as the idle task, named `name`.
pub open spec fn as_idle(t: Task, name: [u8; 16]) -> Task {
    Task { state: TaskState::Running, pid: 0, name: name, ..t }
}

/// `t` blocked until tick `wake`.
pub open spec fn asleep(t: Task, wake: u64) -> Task {
    Task { state: TaskState::Blocked, sleep_until: wake, ..t }
}

/// `t` terminated with `code`.
pub open spec fn finished(t: Task, code: i32) -> Task {
    Task { state: TaskState::Terminated, exit_code: code, ..t }
}

/// Whether a sleeping task is due at `tick`.
pub open spec fn due(t: Task, tick: u64) -> bool {
    t.state == TaskState::Blocked && t.sleep_until != 0 && t.sleep_until <= tick
}

/// `t` after a wake-up check at `tick`.
pub open spec fn woken(t: Task, tick: u64) -> Task {
    if due(t, tick) {
        Task { state: TaskState::Ready, sleep_until: 0, ..t }
    } else {
        t
    }
}

/// Pids of the tasks in `ts` that are due at `tick`, in slot order.
pub open spec fn due_pids(ts: Seq<Task>, tick: u64) -> Seq<u32>
    decreases ts.len(),
{
    if ts.len() == 0 {
        seq![]
    } else {
        let rest = due_pids(ts.drop_last(), tick);
        if due(ts.last(), tick) {
            rest.push(ts.last().pid)
        } else {
            rest
        }
    }
}

pub proof fn lemma_first_empty(ts: Seq<Task>, i: int)
    requires
        0 <= i,
    ensures
        first_empty_from(ts, i) matches Some(k) ==> i <= k < ts.len() && ts[k].state
            == TaskState::Empty,
        forall|j: int|
            i <= j < ts.len() && (first_empty_from(ts, i) is None || j < first_empty_from(ts, i)->0)
                ==> (#[trigger] ts[j]).state != TaskState::Empty,
    decreases ts.len() - i,
{
    if i < ts.len() {
        lemma_first_empty(ts, i + 1);
    }
}

pub proof fn lemma_slot_of_pid(ts: Seq<Task>, pid: u32, i: int)
    requires
        0 <= i,
    ensures
        slot_of_pid_from(ts, pid, i) matches Some(k) ==> i <= k < ts.len() && ts[k].state
            != TaskState::Empty && ts[k].pid == pid,
        forall|j: int|
            i <= j < ts.len() && (slot_of_pid_from(ts, pid, i) is None || j < slot_of_pid_from(
                ts,
                pid,
                i,
            )->0) ==> !((#[trigger] ts[j]).state != TaskState::Empty && ts[j].pid == pid),
    decreases ts.len() - i,
{
    if i < ts.len() {
        lemma_slot_of_pid(ts, pid, i + 1);
    }
}

impl TaskTable {
    pub closed spec fn tasks(&self) -> Seq<Task> {
        self.tasks@
    }

    pub closed spec fn current(&self) -> int {
        self.current as int
    }

    pub closed spec fn next_pid(&self) -> u32 {
        self.next_pid
    }

    /// Ticks the current task has run since it was last switched in.
    pub closed spec fn slice_ticks(&self) -> u64 {
        self.ticks_on_current
    }

    /// Thirty-two slots, a valid current slot, and no task but the current
    /// one in the `Running` state.
    pub open spec fn wf(&self) -> bool {
        &&& self.tasks().len() == MAX_TASKS
        &&& 0 <= self.current() < MAX_TASKS
        &&& self.slice_ticks() < 3
        &&& forall|i: int|
            0 <= i < MAX_TASKS && i != self.current() ==> (#[trigger] self.tasks()[i]).state
                != TaskState::Running
    }

    /// Every slot empty, slot 0 current, process ids starting at 1.
    pub fn new() -> (r: Self)
        ensures
            r.wf(),
            r.tasks() == Seq::new(MAX_TASKS as nat, |i: int| empty_task()),
            r.current() == 0,
            r.next_pid() == 1,
            r.slice_ticks() == 0,
    {
        let mut tasks: Vec<Task> = Vec::new();
        let mut i: usize = 0;
        while i < MAX_TASKS
            invariant
                i <= MAX_TASKS,
                tasks@ == Seq::new(i as nat, |k: int| empty_task()),
            decreases MAX_TASKS - i,
        {
            tasks.push(Task::empty());
            i = i + 1;
            assert(tasks@ =~= Seq::new(i as nat, |k: int| empty_task()));
        }
        TaskTable { tasks, next_pid: 1, current: 0, ticks_on_current: 0 }
    }

    /// Makes slot 0 the running idle task with process id 0 and the current
    /// slot. No other slot may be running then: the table keeps at most one
    /// running task.
    pub fn init_tasks(&mut self)
        requires
            old(self).wf(),
            forall|i: int| 1 <= i < MAX_TASKS ==> #[trigger] old(self).tasks()[i].state != TaskState::Running,
        ensures
            final(self).wf(),
            final(self).current() == 0,
            final(self).next_pid() == 1,
            final(self).slice_ticks() == old(self).slice_ticks(),
            forall|i: int| 1 <= i < MAX_TASKS ==> #[trigger] final(self).tasks()[i] == old(self).tasks()[i],
            final(self).tasks()[0].state == TaskState::Running,
            final(self).tasks()[0].pid == 0,
            final(self).tasks()[0].name@ == old(self).tasks()[0].name@.update(0, 105u8).update(
                1,
                100u8,
            ).update(2, 108u8).update(3, 101u8),
            final(self).tasks()[0] == as_idle(old(self).tasks()[0], final(self).tasks()[0].name),
    {
        let mut t = self.tasks[0];
        t.state = TaskState::Running;
        t.pid = 0;
        t.name[0] = 105u8;
        t.name[1] = 100u8;
        t.name[2] = 108u8;
        t.name[3] = 101u8;
        self.tasks.set(0, t);
        self.current = 0;
        self.next_pid = 1;
        assert forall|i: int| 0 <= i < MAX_TASKS && i != 0 implies (#[trigger] self.tasks()[i]).state
            != TaskState::Running by {
            assert(old(self).tasks()[i] == self.tasks()[i]);
        }
    }

    /// Hands out the next process id.
    fn alloc_pid(&mut self) -> (r: u32)
        requires
            old(self).next_pid < u32::MAX,
        ensures
            r == old(self).next_pid,
            final(self).next_pid == old(self).next_pid + 1,
            final(self).tasks == old(self).tasks,
            final(self).current == old(self).current,
            final(self).ticks_on_current == old(self).ticks_on_current,
    {
        let p = self.next_pid;
        self.next_pid = self.next_pid + 1;
        p
    }

    /// The lowest empty slot.
    fn alloc_slot(&self) -> (r: Option<usize>)
        requires
            self.wf(),
        ensures
            r == match first_empty_from(self.tasks(), 0) {
                Some(i) => Some(i as usize),
                None => None::<usize>,
            },
    {
        let mut i: usize = 0;
        while i < MAX_TASKS
            invariant
                self.wf(),
                i <= MAX_TASKS,
                first_empty_from(self.tasks(), 0) == first_empty_from(self.tasks(), i as int),
            decreases MAX_TASKS - i,
        {
            if self.tasks[i].state == TaskState::Empty {
                return Some(i);
            }
            i = i + 1;
        }
        None
    }

    /// Overwrites slot `slot`.
    pub(crate) fn replace(&mut self, slot: usize, t: Task)
        requires
            slot < old(self).tasks().len(),
        ensures
            final(self).tasks() == old(self).tasks().update(slot as int, t),
            final(self).current() == old(self).current(),
            final(self).next_pid() == old(self).next_pid(),
            final(self).slice_ticks() == old(self).slice_ticks(),
    {
        self.tasks.set(slot, t);
    }

    /// Makes `slot` the running slot with a fresh time slice.
    pub(crate) fn switch_current(&mut self, slot: usize)
        ensures
            final(self).tasks() == old(self).tasks(),
            final(self).current() == slot,
            final(self).next_pid() == old(self).next_pid(),
            final(self).slice_ticks() == 0,
    {
        self.current = slot;
        self.ticks_on_current = 0;
    }

    /// Sets the number of ticks the running task has used of its slice.
    pub(crate) fn set_slice_ticks(&mut self, ticks: u64)
        ensures
            final(self).tasks() == old(self).tasks(),
            final(self).current() == old(self).current(),
            final(self).next_pid() == old(self).next_pid(),
            final(self).slice_ticks() == ticks,
    {
        self.ticks_on_current = ticks;
    }

    /// Ticks the running task has used of its slice.
    pub fn slice_used(&self) -> (r: u64)
        ensures
            r == self.slice_ticks(),
    {
        self.ticks_on_current
    }

    /// The process id the next new task gets.
    pub fn next_free_pid(&self) -> (r: u32)
        ensures
            r == self.next_pid(),
    {
        self.next_pid
    }

    /// A copy of slot `slot`.
    pub fn get_task(&self, slot: usize) -> (r: Task)
        requires
            self.wf(),
            slot < MAX_TASKS,
        ensures
            r == self.tasks()[slot as int],
    {
        self.tasks[slot]
    }

    /// Index of the slot that is running.
    pub fn current_slot(&self) -> (r: usize)
        ensures
            r == self.current(),
    {
        self.current
    }

    /// A copy of the running task's slot.
    pub fn current_task(&self) -> (r: Task)
        requires
            self.wf(),
        ensures
            r == self.tasks()[self.current()],
    {
        self.tasks[self.current]
    }

    /// Process id of the running task.
    pub fn current_pid(&self) -> (r: u32)
        requires
            self.wf(),
        ensures
            r == self.tasks()[self.current()].pid,
    {
        self.tasks[self.current].pid
    }

    /// The lowest slot whose live task has process id `pid`.
    pub fn find_pid(&self, pid: u32) -> (r: Option<usize>)
        requires
            self.wf(),
        ensures
            r == match slot_of_pid_from(self.tasks(), pid, 0) {
                Some(i) => Some(i as usize),
                None => None::<usize>,
            },
    {
        let mut i: usize = 0;
        while i < MAX_TASKS
            invariant
                self.wf(),
                i <= MAX_TASKS,
                slot_of_pid_from(self.tasks(), pid, 0) == slot_of_pid_from(self.tasks(), pid, i as int),
            decreases MAX_TASKS - i,
        {
            let t = self.tasks[i];
            if t.state != TaskState::Empty && t.pid == pid {
                return Some(i);
            }
            i = i + 1;
        }
        None
    }

    /// Puts slot `slot` to sleep until tick `wake_tick`.
    pub fn block_until(&mut self, slot: usize, wake_tick: u64)
        requires
            old(self).wf(),
            slot < MAX_TASKS,
        ensures
            final(self).wf(),
            final(self).tasks() == old(self).tasks().update(
                slot as int,
                asleep(old(self).tasks()[slot as int], wake_tick),
            ),
            final(self).current() == old(self).current(),
            final(self).next_pid() == old(self).next_pid(),
            final(self).slice_ticks() == old(self).slice_ticks(),
    {
        let mut t = self.tasks[slot];
        t.state = TaskState::Blocked;
        t.sleep_until = wake_tick;
        self.tasks.set(slot, t);
    }

    /// Makes every task whose sleep has ended ready; returns their pids in
    /// slot order.
    pub fn wake_sleeping_tasks(&mut self, current_tick: u64) -> (r: Vec<u32>)
        requires
            old(self).wf(),
        ensures
            final(self).wf(),
            final(self).tasks() == Seq::new(
                MAX_TASKS as nat,
                |i: int| woken(old(self).tasks()[i], current_tick),
            ),
            r@ == due_pids(old(self).tasks(), current_tick),
            final(self).current() == old(self).current(),
            final(self).next_pid() == old(self).next_pid(),
            final(self).slice_ticks() == old(self).slice_ticks(),
    {
        let ghost old_ts = self.tasks@;
        let mut woke: Vec<u32> = Vec::new();
        let mut i: usize = 0;
        while i < MAX_TASKS
            invariant
                i <= MAX_TASKS,
                old_ts == old(self).tasks(),
                old_ts.len() == MAX_TASKS,
                self.tasks@.len() == MAX_TASKS,
                self.current == old(self).current,
                self.next_pid == old(self).next_pid,
                self.ticks_on_current == old(self).ticks_on_current,
                forall|k: int| 0 <= k < i ==> self.tasks@[k] == woken(old_ts[k], current_tick),
                forall|k: int| i <= k < MAX_TASKS ==> self.tasks@[k] == old_ts[k],
                woke@ == due_pids(old_ts.take(i as int), current_tick),
            decreases MAX_TASKS - i,
        {
            let t = self.tasks[i];
            assert(old_ts.take(i + 1).drop_last() =~= old_ts.take(i as int));
            if t.state == TaskState::Blocked && t.sleep_until != 0 && t.sleep_until <= current_tick {
                let mut nt = t;
                nt.state = TaskState::Ready;
                nt.sleep_until = 0;
                self.tasks.set(i, nt);
                woke.push(t.pid);
            }
            i = i + 1;
        }
        assert(old_ts.take(MAX_TASKS as int) =~= old_ts);
        assert(self.tasks@ =~= Seq::new(MAX_TASKS as nat, |k: int| woken(old_ts[k], current_tick)));
        assert forall|k: int| 0 <= k < MAX_TASKS && k != self.current() implies (#[trigger] self.tasks()[k]).state
            != TaskState::Running by {
            assert(old_ts[k].state != TaskState::Running);
        }
        woke
    }

    /// Marks slot `slot` terminated with `exit_code` and releases the first
    /// page of its stack.
    pub fn terminate(&mut self, pmm: &mut Pmm, slot: usize, exit_code: i32)
        requires
            old(self).wf(),
            slot < MAX_TASKS,
            old(pmm).wf(),
            old(self).tasks()[slot as int].stack_base % PAGE_SIZE == 0,
            old(self).tasks()[slot as int].stack_base / 4096 < old(pmm).total(),
            old(pmm).used()[old(self).tasks()[slot as int].stack_base as int / 4096],
        ensures
            final(self).wf(),
            final(self).tasks() == old(self).tasks().update(
                slot as int,
                finished(old(self).tasks()[slot as int], exit_code),
            ),
            final(self).current() == old(self).current(),
            final(self).next_pid() == old(self).next_pid(),
            final(self).slice_ticks() == old(self).slice_ticks(),
            final(pmm).wf(),
            final(pmm).total() == old(pmm).total(),
            final(pmm).usable() == old(pmm).usable(),
            final(pmm).bitmap_range() == old(pmm).bitmap_range(),
            final(pmm).used() == old(pmm).used().update(
                old(self).tasks()[slot as int].stack_base as int / 4096,
                false,
            ),
            final(pmm).free_pages() == old(pmm).free_pages() + 1,
    {
        let mut t = self.tasks[slot];
        t.state = TaskState::Terminated;
        t.exit_code = exit_code;
        self.tasks.set(slot, t);
        free_page(pmm, t.stack_base);
    }
}

impl TaskTable {
    /// Creates a ready task named `name` (at most fifteen bytes kept) that
    /// starts at `entry`, in the lowest empty slot, with a stack made of the
    /// two lowest free frames; `None`, with nothing changed, when no slot is
    /// empty or fewer than two frames are free.
    pub fn new_kernel_task(&mut self, mem: &mut PhysMem, pmm: &mut Pmm, hhdm: usize, name: &[u8], entry: usize) -> (r:
        Option<u32>)
        requires
            old(self).wf(),
            old(pmm).wf(),
            old(pmm).total() * 512 <= old(mem)@.len(),
            old(self).next_pid() < u32::MAX,
            hhdm <= usize::MAX - old(pmm).total() * 4096,
        ensures
            final(self).wf(),
            final(pmm).wf(),
            final(pmm).total() == old(pmm).total(),
            final(pmm).usable() == old(pmm).usable(),
            final(pmm).bitmap_range() == old(pmm).bitmap_range(),
            final(self).current() == old(self).current(),
            final(self).slice_ticks() == old(self).slice_ticks(),
            r is None <==> (first_empty_from(old(self).tasks(), 0) is None || old(pmm).free_pages()
                < 2),
            r is None ==> {
                &&& final(self).tasks() == old(self).tasks()
                &&& final(self).next_pid() == old(self).next_pid()
                &&& final(mem)@ == old(mem)@
                &&& final(pmm).used() == old(pmm).used()
                &&& final(pmm).free_pages() == old(pmm).free_pages()
            },
            r is Some ==> {
                let slot = first_empty_from(old(self).tasks(), 0)->0;
                let t = final(self).tasks()[slot];
                let p0 = t.stack_base as int / 4096;
                let p1 = (t.stack_top - hhdm - 4096) / 4096;
                &&& r->0 == old(self).next_pid()
                &&& final(self).next_pid() == old(self).next_pid() + 1
                &&& final(self).tasks() == old(self).tasks().update(slot, t)
                &&& t.state == TaskState::Ready
                &&& t.pid == old(self).next_pid()
                &&& t.ticks_run == 0
                &&& t.sleep_until == 0
                &&& t.wait_for_pid is None
                &&& t.exit_code == 0
                &&& t.name@ == stored_name(old(self).tasks()[slot].name@, name@)
                &&& t.stack_base % 4096 == 0
                &&& (t.stack_top - hhdm) % 4096 == 0
                &&& t.stack_top - hhdm >= 4096
                &&& t.rsp == t.stack_top - FRAME_WORDS * 8
                &&& !old(pmm).used()[p0]
                &&& forall|q: int| 0 <= q < p0 ==> #[trigger] old(pmm).used()[q]
                &&& 0 <= p1 < old(pmm).total()
                &&& p1 != p0
                &&& !old(pmm).used()[p1]
                &&& forall|q: int| 0 <= q < p1 && q != p0 ==> #[trigger] old(pmm).used()[q]
                &&& final(pmm).used() == old(pmm).used().update(p0, true).update(p1, true)
                &&& final(pmm).free_pages() + 2 == old(pmm).free_pages()
                &&& final(mem)@ == with_words(
                    old(mem)@,
                    (t.rsp - hhdm) / 8,
                    initial_frame(t.stack_top as u64, entry as u64),
                )
            },
    {
        let slot = match self.alloc_slot() {
            Some(s) => s,
            None => {
                return None;
            },
        };
        proof {
            lemma_first_empty(self.tasks(), 0);
        }
        let ghost used0 = pmm.used();
        let phys0 = match alloc_page(pmm) {
            Some(p) => p,
            None => {
                proof {
                    old(pmm).lemma_wf_bounds();
                    assert forall|i: int| 0 <= i < used0.len() implies used0[i] by {
                        assert(old(pmm).used()[i]);
                    }
                    lemma_count_all_used(used0);
                }
                return None;
            },
        };
        let ghost used1 = pmm.used();
        let phys1 = match alloc_page(pmm) {
            Some(p) => p,
            None => {
                proof {
                    pmm.lemma_wf_bounds();
                    assert forall|i: int| 0 <= i < used1.len() implies used1[i] by {
                        assert(used1[i]);
                    }
                    lemma_count_all_used(used1);
                }
                proof {
                    old(pmm).lemma_wf_bounds();
                    assert(!used0[phys0 as int / 4096]);
                    assert(pmm.used() == used1);
                }
                free_page(pmm, phys0);
                proof {
                    let p0 = phys0 as int / 4096;
                    assert(pmm.used() == used1.update(p0, false));
                    assert(used1 == used0.update(p0, true));
                    assert(used0.update(p0, true).update(p0, false) =~= used0);
                    assert(pmm.used() =~= used0);
                }
                return None;
            },
        };
        proof {
            old(pmm).lemma_wf_bounds();
            let tot = old(pmm).total();
            assert(phys1 + 4096 <= tot * 4096) by (nonlinear_arith)
                requires
                    phys1 % 4096 == 0,
                    phys1 / 4096 < tot,
            ;
            assert(used1[phys0 as int / 4096]);
        }
        let stack_base = phys0;
        let stack_virt_top = phys1 + PAGE_SIZE + hhdm;
        let pid = self.alloc_pid();
        let (rsp, frame) = setup_inital_stack(stack_virt_top, entry);
        proof {
            assert(rsp - hhdm == phys1 + 4096 - 176);
            assert((phys1 + 4096 - 176) / 8 == phys1 / 8 + 490);
        }
        mem.store((rsp - hhdm) / 8, frame.as_slice());
        let mut t = self.tasks[slot];
        t.rsp = rsp;
        t.pid = pid;
        t.state = TaskState::Ready;
        t.stack_base = stack_base;
        t.stack_top = stack_virt_top;
        t.ticks_run = 0;
        t.sleep_until = 0;
        t.wait_for_pid = None;
        t.exit_code = 0;
        let mut nm: [u8; 16] = t.name;
        let ghost old_name = nm@;
        let copy_len: usize = if name.len() < 15 {
            name.len()
        } else {
            15
        };
        let mut k: usize = 0;
        while k < copy_len
            invariant
                k <= copy_len,
                copy_len <= 15,
                copy_len <= name@.len(),
                old_name.len() == 16,
                forall|i: int| 0 <= i < k ==> nm@[i] == name@[i],
                forall|i: int| k <= i < 16 ==> nm@[i] == old_name[i],
            decreases copy_len - k,
        {
            nm[k] = name[k];
            k = k + 1;
        }
        nm[copy_len] = 0u8;
        assert(nm@ =~= stored_name(old_name, name@));
        t.name = nm;
        self.tasks.set(slot, t);
        assert forall|i: int| 0 <= i < MAX_TASKS && i != self.current() implies (#[trigger] self.tasks()[i]).state
            != TaskState::Running by {
            if i != slot {
                assert(self.tasks()[i] == old(self).tasks()[i]);
            }
        }
        proof {
            let p0 = phys0 as int / 4096;
            let p1 = phys1 as int / 4096;
            assert forall|q: int| 0 <= q < p1 && q != p0 implies #[trigger] old(pmm).used()[q] by {
                assert(used1[q]);
            }
        }
        Some(pid)
    }
}

/// Where a new task's stack pointer starts and the words of the frame
/// stored there (lowest address first); the frame makes the first switch to
/// the task return into `entry` with interrupts enabled.
pub fn setup_inital_stack(stack_top: usize, entry: usize) -> (r: (usize, Vec<u64>))
    requires
        stack_top >= FRAME_WORDS * 8,
    ensures
        r.0 == stack_top - FRAME_WORDS * 8,
        r.1@ == initial_frame(stack_top as u64, entry as u64),
{
    let frame_start = stack_top - FRAME_WORDS * 8;
    let mut frame: Vec<u64> = Vec::new();
    let mut i: usize = 0;
    while i < 17
        invariant
            i <= 17,
            frame@ == Seq::new(i as nat, |k: int| 0u64),
        decreases 17 - i,
    {
        frame.push(0u64);
        i = i + 1;
        assert(frame@ =~= Seq::new(i as nat, |k: int| 0u64));
    }
    frame.push(entry as u64);
    frame.push(KERNEL_CS);
    frame.push(INITIAL_RFLAGS);
    frame.push(stack_top as u64);
    frame.push(KERNEL_SS);
    assert(frame@ =~= initial_frame(stack_top as u64, entry as u64));
    (frame_start, frame)
}

/// Length of a stored name: the bytes before the first zero at or after `i`
/// (all of them if there is none).
pub open spec fn name_len(name: Seq<u8>, i: int) -> int
    decreases name.len() - i,
{
    if i >= name.len() {
        name.len() as int
    } else if name[i] == 0 {
        i
    } else {
        name_len(name, i + 1)
    }
}

/// The word a task dump shows for a state.
pub open spec fn state_label(s: TaskState) -> Seq<u8> {
    match s {
        TaskState::Empty => "empty".spec_bytes(),
        TaskState::Created => "created".spec_bytes(),
        TaskState::Ready => "ready".spec_bytes(),
        TaskState::Running => "running".spec_bytes(),
        TaskState::Blocked => "blocked".spec_bytes(),
        TaskState::Terminated => "terminated".spec_bytes(),
    }
}

/// The serial line of the dump for slot `i`: nothing for an empty slot.
pub open spec fn task_line(i: int, t: Task) -> Seq<u8> {
    if t.state == TaskState::Empty {
        seq![]
    } else {
        wire_bytes(" [".spec_bytes()) + dec_digits(i as nat) + wire_bytes("] pid=".spec_bytes())
            + dec_digits(t.pid as nat) + wire_bytes(" state=".spec_bytes()) + wire_bytes(
            state_label(t.state),
        ) + wire_bytes(" ticks=".spec_bytes()) + dec_digits((t.ticks_run as usize) as nat)
            + wire_bytes(" name=".spec_bytes()) + t.name@.take(name_len(t.name@, 0)) + wire_bytes(
            "\n".spec_bytes(),
        )
    }
}

/// The lines of the first `n` slots.
pub open spec fn task_lines(ts: Seq<Task>, n: int) -> Seq<u8>
    decreases n,
{
    if n <= 0 {
        seq![]
    } else {
        task_lines(ts, n - 1) + task_line(n - 1, ts[n - 1])
    }
}

/// The whole dump of a task table, as sent over the serial line.
pub open spec fn task_dump(ts: Seq<Task>) -> Seq<u8> {
    wire_bytes("\n--- Task Table ---\n".spec_bytes()) + task_lines(ts, ts.len() as int) + wire_bytes(
        "----------------------\n".spec_bytes(),
    )
}

/// The state's label.
fn state_word(s: TaskState) -> (r: &'static str)
    ensures
        r.spec_bytes() == state_label(s),
{
    match s {
        TaskState::Empty => "empty",
        TaskState::Created => "created",
        TaskState::Ready => "ready",
        TaskState::Running => "running",
        TaskState::Blocked => "blocked",
        TaskState::Terminated => "terminated",
    }
}

/// The stored name up to its first zero byte.
fn name_bytes(name: &[u8; 16]) -> (r: Vec<u8>)
    ensures
        r@ == name@.take(name_len(name@, 0)),
{
    let mut n: usize = 0;
    while n < 16 && name[n] != 0
        invariant
            n <= 16,
            name@.len() == 16,
            name_len(name@, 0) == name_len(name@, n as int),
            forall|k: int| 0 <= k < n ==> name@[k] != 0,
        decreases 16 - n,
    {
        n = n + 1;
    }
    let mut out: Vec<u8> = Vec::new();
    let mut i: usize = 0;
    while i < n
        invariant
            i <= n <= 16,
            name@.len() == 16,
            out@ == name@.take(i as int),
        decreases n - i,
    {
        out.push(name[i]);
        i = i + 1;
        assert(out@ =~= name@.take(i as int));
    }
    out
}

/// The dump line of one slot.
fn dump_line(i: usize, t: &Task) -> (r: Vec<u8>)
    ensures
        r@ == task_line(i as int, *t),
{
    let mut out: Vec<u8> = Vec::new();
    if t.state == TaskState::Empty {
        return out;
    }
    let mut p = print(" [");
    out.append(&mut p);
    let mut p = print_usize(i);
    out.append(&mut p);
    let mut p = print("] pid=");
    out.append(&mut p);
    let mut p = print_usize(t.pid as usize);
    out.append(&mut p);
    let mut p = print(" state=");
    out.append(&mut p);
    let mut p = print(state_word(t.state));
    out.append(&mut p);
    let mut p = print(" ticks=");
    out.append(&mut p);
    let mut p = print_usize(t.ticks_run as usize);
    out.append(&mut p);
    let mut p = print(" name=");
    out.append(&mut p);
    let mut p = name_bytes(&t.name);
    out.append(&mut p);
    let mut p = print("\n");
    out.append(&mut p);
    out
}

impl TaskTable {
    /// The task table as sent over the serial line: one line for each slot
    /// in use, with its slot, pid, state, ticks run and name.
    pub fn dump_tasks(&self) -> (r: Vec<u8>)
        requires
            self.wf(),
        ensures
            r@ == task_dump(self.tasks()),
    {
        let mut out = print("\n--- Task Table ---\n");
        let mut i: usize = 0;
        while i < MAX_TASKS
            invariant
                i <= MAX_TASKS,
                self.wf(),
                out@ == wire_bytes("\n--- Task Table ---\n".spec_bytes()) + task_lines(self.tasks(), i as int),
            decreases MAX_TASKS - i,
        {
            let mut line = dump_line(i, &self.tasks[i]);
            out.append(&mut line);
            i = i + 1;
        }
        let mut tail = print("----------------------\n");
        out.append(&mut tail);
        out
    }
}

/// The dump names each state by its own word, and no two states alike.
pub proof fn law_state_labels()
    ensures
        state_label(TaskState::Empty) == "empty".spec_bytes(),
        state_label(TaskState::Created) == "created".spec_bytes(),
        state_label(TaskState::Ready) == "ready".spec_bytes(),
        state_label(TaskState::Running) == "running".spec_bytes(),
        state_label(TaskState::Blocked) == "blocked".spec_bytes(),
        state_label(TaskState::Terminated) == "terminated".spec_bytes(),
        forall|a: TaskState, b: TaskState| state_label(a) == state_label(b) ==> a == b,
{
    reveal_strlit("empty");
    reveal_strlit("created");
    reveal_strlit("ready");
    reveal_strlit("running");
    reveal_strlit("blocked");
    reveal_strlit("terminated");
    vstd::string::is_ascii_spec_bytes("empty");
    vstd::string::is_ascii_spec_bytes("created");
    vstd::string::is_ascii_spec_bytes("ready");
    vstd::string::is_ascii_spec_bytes("running");
    vstd::string::is_ascii_spec_bytes("blocked");
    vstd::string::is_ascii_spec_bytes("terminated");
    assert(vstd::string::is_ascii("empty"));
    assert(vstd::string::is_ascii("created"));
    assert(vstd::string::is_ascii("ready"));
    assert(vstd::string::is_ascii("running"));
    assert(vstd::string::is_ascii("blocked"));
    assert(vstd::string::is_ascii("terminated"));
    assert forall|a: TaskState, b: TaskState| state_label(a) == state_label(b) implies a == b by {
        if a != b {
            let x = state_label(a);
            let y = state_label(b);
            assert(x.len() != y.len() || x[0] != y[0] || x[1] != y[1]);
        }
    }
}

} // verus!
