use hobby_kernel::device::keyboard::KeyBuffer;
use hobby_kernel::device::port::PortWrite;
use hobby_kernel::interrupt::idt::{
    exception_name_of, init_idt, route, IdtEntry, InterruptFrame, Route, GATE_INTERRUPT, KERNEL_CS,
};
use hobby_kernel::interrupt::pic::{mask_port, read_irr, read_isr, remap, send_eoi, set_mark, svr_enabled};
use hobby_kernel::interrupt::pit::{init as pit_init, next_tick, ticks_to_wait, wait_over};
use hobby_kernel::interrupt::syscall::{dispatch, handle_syscall, set_result, sys_read, Syscall, SyscallOutcome};

fn frame() -> InterruptFrame {
    InterruptFrame {
        r15: 0, r14: 0, r13: 0, r12: 0, r11: 0, r10: 0, r9: 0, r8: 0, rbp: 0, rdi: 0, rsi: 0,
        rdx: 0, rcx: 0, rbx: 0, rax: 0, vector: 0, error_code: 0, rip: 0, cs: 0, rflags: 0,
        rsp: 0, ss: 0,
    }
}

#[test]
fn idt_entry_splits_handler_address() {
    let mut e = IdtEntry::zero();
    assert_eq!(e, IdtEntry { offset_low: 0, selector: 0, ist: 0, type_attr: 0, offset_mid: 0, offset_high: 0, zero: 0 });
    e.set(0xffff_8000_1234_5678, KERNEL_CS, GATE_INTERRUPT);
    assert_eq!(e.offset_low, 0x5678);
    assert_eq!(e.offset_mid, 0x1234);
    assert_eq!(e.offset_high, 0xffff_8000);
    assert_eq!(e.selector, 0x28);
    assert_eq!(e.type_attr, 0x8e);
    let back = (e.offset_low as u64) | ((e.offset_mid as u64) << 16) | ((e.offset_high as u64) << 32);
    assert_eq!(back, 0xffff_8000_1234_5678);
}

#[test]
fn idt_table_layout() {
    let stubs: Vec<u64> = (0..48u64).map(|v| 0x1000 + v * 16).collect();
    let t = init_idt(&stubs, 0xdead_beef_0000);
    assert_eq!(t.len(), 256);
    for v in 0..48usize {
        let e = t[v];
        assert_eq!(e.offset_low as u64, 0x1000 + v as u64 * 16);
        assert_eq!(e.type_attr, 0x8e);
        assert_eq!(e.selector, 0x28);
    }
    assert_eq!(t[128].type_attr, 0xee);
    assert_eq!(t[128].offset_low, 0x0000);
    assert_eq!(t[128].offset_mid, 0xbeef);
    assert_eq!(t[128].offset_high, 0xdead);
    assert_eq!(t[48], IdtEntry::zero());
    assert_eq!(t[255], IdtEntry::zero());
}

#[test]
fn vectors_are_routed() {
    assert!(matches!(route(0), Route::DivideByZero));
    assert!(matches!(route(6), Route::InvalidOpcode));
    assert!(matches!(route(8), Route::DoubleFault));
    assert!(matches!(route(13), Route::GeneralProtection));
    assert!(matches!(route(14), Route::PageFault));
    assert!(matches!(route(32), Route::Irq(0)));
    assert!(matches!(route(33), Route::Irq(1)));
    assert!(matches!(route(47), Route::Irq(15)));
    assert!(matches!(route(128), Route::Syscall));
    match route(3) {
        Route::Exception(n) => assert_eq!(n, "Breakpoint"),
        _ => panic!("vector 3 is an exception"),
    }
    match route(24) {
        Route::Exception(n) => assert_eq!(n, "Reserved"),
        _ => panic!("vector 24 is reserved"),
    }
    match route(48) {
        Route::Exception(n) => assert_eq!(n, "Unknown"),
        _ => panic!("vector 48 is unknown"),
    }
}

#[test]
fn exception_names() {
    assert_eq!(exception_name_of(1), "Debug");
    assert_eq!(exception_name_of(2), "Non-Maskable Interrupt");
    assert_eq!(exception_name_of(12), "Stack-Segment Fault");
    assert_eq!(exception_name_of(15), "Reserved");
    assert_eq!(exception_name_of(30), "Security Exception");
    assert_eq!(exception_name_of(31), "Reserved");
    assert_eq!(exception_name_of(200), "Unknown");
}

#[test]
fn pic_remap_sequence() {
    let got: Vec<(u16, u8)> = remap().iter().map(|w| (w.port, w.value)).collect();
    assert_eq!(
        got,
        vec![
            (0x20, 0x11), (0xA0, 0x11), (0x21, 32), (0xA1, 40), (0x21, 4), (0xA1, 2),
            (0x21, 1), (0xA1, 1), (0x21, 0xFC), (0xA1, 0xFF),
        ]
    );
}

#[test]
fn pic_end_of_interrupt_and_masks() {
    assert_eq!(send_eoi(1), vec![PortWrite { port: 0x20, value: 0x20 }]);
    assert_eq!(send_eoi(12), vec![PortWrite { port: 0xA0, value: 0x20 }, PortWrite { port: 0x20, value: 0x20 }]);
    assert_eq!(mask_port(3), 0x21);
    assert_eq!(mask_port(9), 0xA1);
    assert_eq!(set_mark(2, 0b0000_0001), PortWrite { port: 0x21, value: 0b0000_0101 });
    assert_eq!(set_mark(10, 0), PortWrite { port: 0xA1, value: 0b0000_0100 });
    assert_eq!(read_irr(), PortWrite { port: 0x20, value: 0x0A });
    assert_eq!(read_isr(), PortWrite { port: 0x20, value: 0x0B });
    assert_eq!(svr_enabled(0x0000_0010), 0x0000_01FF);
    assert_eq!(svr_enabled(0xABC0_0000), 0xABC0_01FF);
}

#[test]
fn pit_programs_one_hundred_hertz() {
    let w = pit_init();
    assert_eq!(w, vec![
        PortWrite { port: 0x43, value: 0x36 },
        PortWrite { port: 0x40, value: (11931 & 0xff) as u8 },
        PortWrite { port: 0x40, value: (11931 >> 8) as u8 },
    ]);
}

#[test]
fn pit_waits_round_up_and_wrap() {
    assert_eq!(ticks_to_wait(0), 0);
    assert_eq!(ticks_to_wait(1), 1);
    assert_eq!(ticks_to_wait(10), 1);
    assert_eq!(ticks_to_wait(11), 2);
    assert_eq!(ticks_to_wait(500), 50);
    assert!(wait_over(15, 10, 5));
    assert!(!wait_over(14, 10, 5));
    assert!(wait_over(2, u64::MAX - 2, 5));
    assert!(!wait_over(1, u64::MAX - 2, 5));
    assert_eq!(next_tick(41), 42);
    assert_eq!(next_tick(u64::MAX), 0);
}

#[test]
fn syscalls_are_decoded() {
    let mut f = frame();
    f.rax = 0;
    f.rdi = 1;
    f.rsi = 0x5000;
    f.rdx = 12;
    assert_eq!(dispatch(&f), Syscall::Write { fd: 1, buf: 0x5000, len: 12 });
    f.rax = 1;
    assert_eq!(dispatch(&f), Syscall::Read { fd: 1, buf: 0x5000, len: 12 });
    f.rax = 2;
    assert_eq!(dispatch(&f), Syscall::Reboot);
    f.rax = 99;
    assert_eq!(dispatch(&f), Syscall::Invalid);
    set_result(&mut f, u64::MAX);
    assert_eq!(f.rax, u64::MAX);
    assert_eq!(f.rsi, 0x5000);
}

#[test]
fn sys_read_takes_typed_bytes_in_order() {
    let mut keys = KeyBuffer::new();
    for b in b"hello" {
        keys.push(*b);
    }
    let (n, got) = sys_read(&mut keys, 0x4000, 3);
    assert_eq!(n, 3);
    assert_eq!(got, b"hel".to_vec());
    let (n, got) = sys_read(&mut keys, 0x4000, 10);
    assert_eq!(n, 2);
    assert_eq!(got, b"lo".to_vec());
    let (n, got) = sys_read(&mut keys, 0x4000, 10);
    assert_eq!(n, 0);
    assert!(got.is_empty());
}

#[test]
fn sys_read_rejects_null_buffer_and_zero_length() {
    let mut keys = KeyBuffer::new();
    keys.push(b'q');
    assert_eq!(sys_read(&mut keys, 0, 4), (u64::MAX, Vec::new()));
    assert_eq!(sys_read(&mut keys, 0x10, 0), (u64::MAX, Vec::new()));
    assert_eq!(keys.pop(), Some(b'q'));
}

#[test]
fn syscall_answers_in_rax() {
    let mut keys = KeyBuffer::new();
    for b in b"abc" {
        keys.push(*b);
    }
    // An unknown call number.
    let mut f = frame();
    f.rax = 3;
    f.rdi = 9;
    let (t, out) = handle_syscall(&mut f, None, &mut keys, &[]);
    assert!(t.is_none());
    assert!(matches!(out, SyscallOutcome::Done));
    assert_eq!(f.rax, u64::MAX);
    assert_eq!(f.rdi, 9);
    // A read of two bytes.
    let mut f = frame();
    f.rax = 1;
    f.rsi = 0x8000;
    f.rdx = 2;
    let (_, out) = handle_syscall(&mut f, None, &mut keys, &[]);
    assert_eq!(f.rax, 2);
    match out {
        SyscallOutcome::Store(v) => assert_eq!(v, b"ab".to_vec()),
        other => panic!("unexpected {:?}", other),
    }
    // A read into a null buffer.
    let mut f = frame();
    f.rax = 1;
    f.rdx = 2;
    handle_syscall(&mut f, None, &mut keys, &[]);
    assert_eq!(f.rax, u64::MAX);
    assert_eq!(keys.pop(), Some(b'c'));
    // A write without a framebuffer still answers its length.
    let mut f = frame();
    f.rax = 0;
    f.rsi = 0x9000;
    f.rdx = 5;
    let (_, out) = handle_syscall(&mut f, None, &mut keys, b"hello");
    assert!(matches!(out, SyscallOutcome::Done));
    assert_eq!(f.rax, 5);
    // A write of more than 4096 bytes is refused.
    let mut f = frame();
    f.rax = 0;
    f.rsi = 0x9000;
    f.rdx = 4097;
    handle_syscall(&mut f, None, &mut keys, &[]);
    assert_eq!(f.rax, u64::MAX);
    // Reboot leaves the frame alone.
    let mut f = frame();
    f.rax = 2;
    let (_, out) = handle_syscall(&mut f, None, &mut keys, &[]);
    assert!(matches!(out, SyscallOutcome::Reboot));
    assert_eq!(f.rax, 2);
}
