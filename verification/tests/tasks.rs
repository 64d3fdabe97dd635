use hobby_kernel::memory::pmm::{
    alloc_page, get_free_page_count, get_total_page_count, init_pmm, page_in_use, MemRegion, Pmm,
};
use hobby_kernel::memory::vmm::PhysMem;
use hobby_kernel::multitask::demo_tasks::{task_a, task_b};
use hobby_kernel::multitask::scheduler::{exit, schedule, sleep_ms, tick, wait_for, yield_cpu, WaitStep};
use hobby_kernel::multitask::task::{setup_inital_stack, TaskState, TaskTable, FRAME_WORDS};
use hobby_kernel::ui::terminal::{FramebufferInfo, Terminal};

const HHDM: usize = 0xffff_8000_0000_0000;

fn pmm() -> Pmm {
    init_pmm(&[
        MemRegion { base: 0x1000, length: 0x1000, usable: true },
        MemRegion { base: 0x100000, length: 0x10000, usable: true },
    ])
}

fn memory(pmm: &Pmm) -> PhysMem {
    PhysMem::new(vec![0u64; get_total_page_count(pmm) * 512])
}

fn booted(pmm: &mut Pmm, names: &[&[u8]]) -> TaskTable {
    let mut mem = memory(pmm);
    let mut t = TaskTable::new();
    t.init_tasks();
    for (i, n) in names.iter().enumerate() {
        assert_eq!(t.new_kernel_task(&mut mem, pmm, HHDM, n, 0x1000 + i), Some(i as u32 + 1));
    }
    t
}

fn term() -> Terminal {
    let mut f = vec![0u8; 32 + 256 * 16];
    f[8..12].copy_from_slice(&32u32.to_le_bytes());
    f[20..24].copy_from_slice(&16u32.to_le_bytes());
    f[24..28].copy_from_slice(&16u32.to_le_bytes());
    f[28..32].copy_from_slice(&8u32.to_le_bytes());
    for c in 0..256usize {
        f[32 + c * 16 + 3] = c as u8;
    }
    Terminal::new(Some(FramebufferInfo { width: 320, height: 64, pitch: 1280 }), f).unwrap()
}

#[test]
fn idle_task_runs_in_slot_zero() {
    let mut t = TaskTable::new();
    assert_eq!(t.get_task(0).state, TaskState::Empty);
    t.init_tasks();
    assert_eq!(t.current_slot(), 0);
    assert_eq!(t.current_pid(), 0);
    let idle = t.current_task();
    assert_eq!(idle.state, TaskState::Running);
    assert_eq!(&idle.name[..5], b"idle\0");
    assert_eq!(t.get_task(1).state, TaskState::Empty);
}

#[test]
fn new_task_gets_a_stack_and_an_initial_frame() {
    let mut p = pmm();
    let mut mem = memory(&p);
    let mut t = TaskTable::new();
    t.init_tasks();
    let pid = t.new_kernel_task(&mut mem, &mut p, HHDM, b"a_rather_long_task_name", 0x4242);
    assert_eq!(pid, Some(1));
    assert_eq!(get_free_page_count(&p), 14);
    let task = t.get_task(1);
    assert_eq!(task.state, TaskState::Ready);
    assert_eq!(task.pid, 1);
    assert_eq!(&task.name[..], b"a_rather_long_t\0");
    assert_eq!(task.stack_base, 0x100000);
    assert_eq!(task.stack_top, HHDM + 0x102000);
    assert_eq!(task.rsp, task.stack_top - FRAME_WORDS * 8);
    // The initial frame sits at the top of the second stack frame.
    let at = (task.rsp - HHDM) / 8;
    let words = &mem.words()[at..at + 22];
    assert!(words[..17].iter().all(|w| *w == 0));
    assert_eq!(&words[17..], &[0x4242, 0x28, 0x202, (HHDM + 0x102000) as u64, 0x30]);
    assert_eq!(mem.words()[at - 1], 0);
    assert_eq!(t.find_pid(1), Some(1));
    assert_eq!(t.find_pid(7), None);
}

#[test]
fn task_creation_fails_without_two_free_frames() {
    let mut p = init_pmm(&[
        MemRegion { base: 0x1000, length: 0x1000, usable: true },
        MemRegion { base: 0x100000, length: 0x1000, usable: true },
    ]);
    let mut mem = memory(&p);
    let mut t = TaskTable::new();
    t.init_tasks();
    assert_eq!(t.new_kernel_task(&mut mem, &mut p, HHDM, b"x", 0x1000), None);
    assert_eq!(get_free_page_count(&p), 1);
    assert_eq!(t.get_task(1).state, TaskState::Empty);
}

#[test]
fn task_table_holds_thirty_two_tasks() {
    let mut p = init_pmm(&[
        MemRegion { base: 0x1000, length: 0x1000, usable: true },
        MemRegion { base: 0x100000, length: 0x100000, usable: true },
    ]);
    let mut mem = memory(&p);
    let mut t = TaskTable::new();
    t.init_tasks();
    for i in 1..32u32 {
        assert_eq!(t.new_kernel_task(&mut mem, &mut p, HHDM, b"w", 0x1000), Some(i));
    }
    let free = get_free_page_count(&p);
    assert_eq!(t.new_kernel_task(&mut mem, &mut p, HHDM, b"w", 0x1000), None);
    assert_eq!(get_free_page_count(&p), free);
}

#[test]
fn initial_stack_frame_returns_into_entry() {
    let (rsp, frame) = setup_inital_stack(0x9000, 0xabcd);
    assert_eq!(rsp, 0x9000 - 22 * 8);
    assert_eq!(frame.len(), 22);
    assert!(frame[..17].iter().all(|w| *w == 0));
    assert_eq!(&frame[17..], &[0xabcd, 0x28, 0x202, 0x9000, 0x30]);
}

#[test]
fn schedule_is_round_robin() {
    let mut p = pmm();
    let mut t = booted(&mut p, &[b"a", b"b"]);
    assert_eq!(schedule(&mut t), Some((0, 1)));
    assert_eq!(t.current_slot(), 1);
    assert_eq!(t.get_task(1).state, TaskState::Running);
    assert_eq!(t.get_task(0).state, TaskState::Ready);
    assert_eq!(schedule(&mut t), Some((1, 2)));
    assert_eq!(schedule(&mut t), Some((2, 0)));
    assert_eq!(t.current_pid(), 0);
}

#[test]
fn schedule_alone_keeps_running() {
    let mut t = TaskTable::new();
    t.init_tasks();
    assert_eq!(schedule(&mut t), None);
    assert_eq!(t.current_task().state, TaskState::Running);
    assert_eq!(yield_cpu(&mut t), None);
    assert_eq!(t.current_task().state, TaskState::Running);
}

#[test]
fn timer_preempts_after_the_time_slice() {
    let mut p = pmm();
    let mut t = booted(&mut p, &[b"a"]);
    assert_eq!(tick(&mut t, 1), (vec![], None));
    assert_eq!(tick(&mut t, 2), (vec![], None));
    assert_eq!(t.slice_used(), 2);
    assert_eq!(tick(&mut t, 3), (vec![], Some((0, 1))));
    assert_eq!(t.get_task(0).ticks_run, 3);
    assert_eq!(t.slice_used(), 0);
}

#[test]
fn sleepers_wake_when_due() {
    let mut p = pmm();
    let mut t = booted(&mut p, &[b"a"]);
    schedule(&mut t);
    assert_eq!(t.current_pid(), 1);
    // 500 ms at 100 Hz is 50 ticks.
    assert_eq!(sleep_ms(&mut t, 10, 500), Some((1, 0)));
    let s = t.get_task(1);
    assert_eq!(s.state, TaskState::Blocked);
    assert_eq!(s.sleep_until, 60);
    assert_eq!(t.wake_sleeping_tasks(59), Vec::<u32>::new());
    assert_eq!(t.wake_sleeping_tasks(60), vec![1]);
    assert_eq!(t.get_task(1).state, TaskState::Ready);
    assert_eq!(t.get_task(1).sleep_until, 0);
}

#[test]
fn short_sleeps_last_at_least_one_tick() {
    let mut t = TaskTable::new();
    t.init_tasks();
    assert_eq!(sleep_ms(&mut t, 5, 1), None);
    // No other task is ready: the sleeper keeps the processor.
    assert_eq!(t.current_task().sleep_until, 6);
    assert_eq!(t.current_task().state, TaskState::Running);
}

#[test]
fn exit_and_wait() {
    let mut p = pmm();
    let mut t = booted(&mut p, &[b"child"]);
    // The idle task waits for the child, which runs and exits with 7.
    assert_eq!(wait_for(&mut t, 1), WaitStep::Blocked(Some((0, 1))));
    assert_eq!(t.get_task(0).state, TaskState::Blocked);
    assert_eq!(t.get_task(0).wait_for_pid, Some(1));
    let stack = t.current_task().stack_base;
    assert!(page_in_use(&p, stack / 4096));
    assert_eq!(exit(&mut t, &mut p, 7), Some((1, 0)));
    assert!(!page_in_use(&p, stack / 4096));
    assert_eq!(t.get_task(1).state, TaskState::Terminated);
    assert_eq!(t.get_task(0).exit_code, 7);
    assert_eq!(wait_for(&mut t, 1), WaitStep::Exited(7));
    assert_eq!(t.get_task(1).state, TaskState::Empty);
    assert_eq!(wait_for(&mut t, 1), WaitStep::Exited(-1));
    assert!(alloc_page(&mut p).is_some());
}

#[test]
fn dump_lists_used_slots() {
    let mut p = pmm();
    let mut t = booted(&mut p, &[b"task_a", b"shell"]);
    schedule(&mut t);
    tick(&mut t, 1);
    let d = t.dump_tasks();
    let want = "\r\n--- Task Table ---\r\n [0] pid=0 state=ready ticks=0 name=idle\r\n [1] pid=1 state=running ticks=1 name=task_a\r\n [2] pid=2 state=ready ticks=0 name=shell\r\n----------------------\r\n";
    assert_eq!(String::from_utf8(d).unwrap(), want);
}

#[test]
fn demo_task_rounds() {
    let mut term_a = term();
    let log = task_a(&mut term_a, 0);
    assert_eq!(log, b"[task_a] tick0\r\n".to_vec());
    let mut want = term();
    want.print("Process A (count=0)\n");
    assert_eq!(term_a.pixels(), want.pixels());
    assert_eq!(term_a.cursor(), (0, 1));

    let mut term_b = term();
    let log = task_b(&mut term_b, 1234);
    assert_eq!(log, b"[task_b] tick1234\r\n".to_vec());
    let mut want = term();
    want.print("Process B (count=1234)\n");
    assert_eq!(term_b.pixels(), want.pixels());
}

#[test]
fn schedule_skips_tasks_that_are_not_ready() {
    let mut p = pmm();
    let mut t = booted(&mut p, &[b"a", b"b", b"c"]);
    // Task a sleeps; from idle the scheduler passes over it to b.
    assert_eq!(schedule(&mut t), Some((0, 1)));
    assert_eq!(sleep_ms(&mut t, 0, 1000), Some((1, 2)));
    assert_eq!(schedule(&mut t), Some((2, 3)));
    assert_eq!(schedule(&mut t), Some((3, 0)));
    assert_eq!(schedule(&mut t), Some((0, 2)));
    assert_eq!(t.get_task(1).state, TaskState::Blocked);
}
