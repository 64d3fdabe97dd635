//! Interrupt descriptor table entries, the saved register frame, and the
//! routing of vectors to handlers.
use vstd::prelude::*;
use crate::device::serial::hex64_text;
use crate::ui::terminal::{Terminal, Screen, Geometry, put_chars, byte_chars, lemma_put_chars_concat, COLOR_BG, COLOR_FG, COLOR_PANIC};

verus! {

/// Code segment selector of the kernel.
pub const KERNEL_CS: u16 = 0x28;
/// Type/attribute byte of a ring-0 interrupt gate.
pub const GATE_INTERRUPT: u8 = 0x8e;
/// Type/attribute byte of the system-call gate, callable from ring 3.
pub const GATE_USER_INTERRUPT: u8 = 0xee;
/// Number of descriptors in the table.
pub const IDT_ENTRIES: usize = 256;
/// Number of vectors (exceptions and remapped IRQs) that get a stub.
pub const STUB_VECTORS: usize = 48;
/// The system-call vector.
pub const SYSCALL_VECTOR: usize = 128;
/// Limit field of the IDT register: the table's size in bytes, minus one.
pub const IDT_LIMIT: u16 = 4095;

/// One 16-byte gate descriptor of the interrupt descriptor table.
#[derive(Clone, Copy, Debug, PartialEq, Eq, Structural)]
pub struct IdtEntry {
    pub offset_low: u16,
    pub selector: u16,
    pub ist: u8,
    pub type_attr: u8,
    pub offset_mid: u16,
    pub offset_high: u32,
    pub zero: u32,
}

/// The empty (not present) descriptor.
pub open spec fn empty_gate() -> IdtEntry {
    IdtEntry { offset_low: 0, selector: 0, ist: 0, type_attr: 0, offset_mid: 0, offset_high: 0, zero: 0 }
}

/// The descriptor of a gate to `handler` through code segment `selector`.
pub open spec fn gate(handler: u64, selector: u16, type_attr: u8) -> IdtEntry {
    IdtEntry {
        offset_low: (handler & 0xffff) as u16,
        selector,
        ist: 0,
        type_attr,
        offset_mid: ((handler >> 16) & 0xffff) as u16,
        offset_high: ((handler >> 32) & 0xffff_ffff) as u32,
        zero: 0,
    }
}

/// The handler address a descriptor points to, put back together from its
/// three offset fields.
pub open spec fn gate_offset(e: IdtEntry) -> u64 {
    (e.offset_low as u64) | ((e.offset_mid as u64) << 16) | ((e.offset_high as u64) << 32)
}

/// A descriptor built for `handler` points back to `handler`: splitting the
/// address over the three offset fields loses nothing.
pub proof fn law_gate_offset(handler: u64, selector: u16, type_attr: u8)
    ensures
        gate_offset(gate(handler, selector, type_attr)) == handler,
        gate(handler, selector, type_attr).selector == selector,
        gate(handler, selector, type_attr).type_attr == type_attr,
{
    assert(((handler & 0xffff) as u16 as u64) | ((((handler >> 16) & 0xffff) as u16 as u64) << 16)
        | ((((handler >> 32) & 0xffff_ffff) as u32 as u64) << 32) == handler) by (bit_vector);
}

impl IdtEntry {
    /// The empty descriptor.
    pub fn zero() -> (r: IdtEntry)
        ensures
            r == empty_gate(),
    {
        IdtEntry { offset_low: 0, selector: 0, ist: 0, type_attr: 0, offset_mid: 0, offset_high: 0, zero: 0 }
    }

    /// Makes this descriptor a gate to `handler`.
    pub fn set(&mut self, handler: u64, selector: u16, type_attr: u8)
        ensures
            *final(self) == gate(handler, selector, type_attr),
    {
        self.offset_low = (handler & 0xffff) as u16;
        self.offset_mid = ((handler >> 16) & 0xffff) as u16;
        self.offset_high = ((handler >> 32) & 0xffff_ffff) as u32;
        self.selector = selector;
        self.ist = 0;
        self.type_attr = type_attr;
        self.zero = 0;
    }
}

/// The descriptor the table holds at vector `v`, given the addresses of the
/// per-vector stubs and of the system-call stub.
pub open spec fn idt_slot(stubs: Seq<u64>, syscall_stub: u64, v: int) -> IdtEntry {
    if 0 <= v < STUB_VECTORS {
        gate(stubs[v], KERNEL_CS, GATE_INTERRUPT)
    } else if v == SYSCALL_VECTOR {
        gate(syscall_stub, KERNEL_CS, GATE_USER_INTERRUPT)
    } else {
        empty_gate()
    }
}

/// The whole table: vectors 0 to 47 go to their stubs as ring-0 interrupt
/// gates, vector 128 to the system-call stub as a gate open to ring 3, and
/// every other descriptor is empty.
pub fn init_idt(stubs: &[u64], syscall_stub: u64) -> (r: Vec<IdtEntry>)
    requires
        stubs@.len() == STUB_VECTORS,
    ensures
        r@.len() == IDT_ENTRIES,
        forall|v: int| 0 <= v < IDT_ENTRIES ==> #[trigger] r@[v] == idt_slot(stubs@, syscall_stub, v),
{
    let mut table: Vec<IdtEntry> = Vec::new();
    let mut v: usize = 0;
    while v < IDT_ENTRIES
        invariant
            v <= IDT_ENTRIES,
            stubs@.len() == STUB_VECTORS,
            table@.len() == v,
            forall|k: int| 0 <= k < v ==> #[trigger] table@[k] == idt_slot(stubs@, syscall_stub, k),
        decreases IDT_ENTRIES - v,
    {
        let mut e = IdtEntry::zero();
        if v < STUB_VECTORS {
            e.set(stubs[v], KERNEL_CS, GATE_INTERRUPT);
        } else if v == SYSCALL_VECTOR {
            e.set(syscall_stub, KERNEL_CS, GATE_USER_INTERRUPT);
        }
        table.push(e);
        v = v + 1;
    }
    table
}

/// Registers saved by the interrupt entry path, lowest address first.
#[derive(Clone, Copy, Debug)]
pub struct InterruptFrame {
    pub r15: u64,
    pub r14: u64,
    pub r13: u64,
    pub r12: u64,
    pub r11: u64,
    pub r10: u64,
    pub r9: u64,
    pub r8: u64,
    pub rbp: u64,
    pub rdi: u64,
    pub rsi: u64,
    pub rdx: u64,
    pub rcx: u64,
    pub rbx: u64,
    pub rax: u64,
    pub vector: u64,
    pub error_code: u64,
    pub rip: u64,
    pub cs: u64,
    pub rflags: u64,
    pub rsp: u64,
    pub ss: u64,
}

/// The name under which an exception without a report of its own is shown.
pub open spec fn exception_name(v: u64) -> Seq<char> {
    if v == 1 {
        "Debug"@
    } else if v == 2 {
        "Non-Maskable Interrupt"@
    } else if v == 3 {
        "Breakpoint"@
    } else if v == 4 {
        "Overflow"@
    } else if v == 5 {
        "Bound Range Exceeded"@
    } else if v == 7 {
        "Device Not Available"@
    } else if v == 9 {
        "Coprocessor Segment Overrun"@
    } else if v == 10 {
        "Invalid TSS"@
    } else if v == 11 {
        "Segment Not Present"@
    } else if v == 12 {
        "Stack-Segment Fault"@
    } else if v == 16 {
        "x87 Floating-Point Exception"@
    } else if v == 17 {
        "Alignment Check"@
    } else if v == 18 {
        "Machine Check"@
    } else if v == 19 {
        "SIMD Floating-Point Exception"@
    } else if v == 20 {
        "Virtualization Exception"@
    } else if v == 21 {
        "Control Protection Exception"@
    } else if v == 28 {
        "Hypervisor Injection Exception"@
    } else if v == 29 {
        "VMM Communication Exception"@
    } else if v == 30 {
        "Security Exception"@
    } else if v == 15 || (22 <= v <= 27) || v == 31 {
        "Reserved"@
    } else {
        "Unknown"@
    }
}

/// The name of exception vector `v` in reports.
pub fn exception_name_of(v: u64) -> (r: &'static str)
    ensures
        r@ == exception_name(v),
{
    if v == 1 {
        "Debug"
    } else if v == 2 {
        "Non-Maskable Interrupt"
    } else if v == 3 {
        "Breakpoint"
    } else if v == 4 {
        "Overflow"
    } else if v == 5 {
        "Bound Range Exceeded"
    } else if v == 7 {
        "Device Not Available"
    } else if v == 9 {
        "Coprocessor Segment Overrun"
    } else if v == 10 {
        "Invalid TSS"
    } else if v == 11 {
        "Segment Not Present"
    } else if v == 12 {
        "Stack-Segment Fault"
    } else if v == 16 {
        "x87 Floating-Point Exception"
    } else if v == 17 {
        "Alignment Check"
    } else if v == 18 {
        "Machine Check"
    } else if v == 19 {
        "SIMD Floating-Point Exception"
    } else if v == 20 {
        "Virtualization Exception"
    } else if v == 21 {
        "Control Protection Exception"
    } else if v == 28 {
        "Hypervisor Injection Exception"
    } else if v == 29 {
        "VMM Communication Exception"
    } else if v == 30 {
        "Security Exception"
    } else if v == 15 || (22 <= v && v <= 27) || v == 31 {
        "Reserved"
    } else {
        "Unknown"
    }
}

/// What the common interrupt entry does with a vector.
pub enum Route {
    DivideByZero,
    InvalidOpcode,
    DoubleFault,
    GeneralProtection,
    PageFault,
    /// Any other exception (or unknown vector), reported under this name.
    Exception(&'static str),
    /// A hardware interrupt, numbered from 0 after the PIC remap.
    Irq(u8),
    Syscall,
}

/// Routes vector `v`: the exceptions with reports of their own, hardware
/// interrupts 32 to 47, the system call at 128, and everything else as a
/// named exception.
pub fn route(v: u64) -> (r: Route)
    ensures
        (v == 0) == (r is DivideByZero),
        (v == 6) == (r is InvalidOpcode),
        (v == 8) == (r is DoubleFault),
        (v == 13) == (r is GeneralProtection),
        (v == 14) == (r is PageFault),
        (32 <= v < 48) == (r is Irq),
        (v == 128) == (r is Syscall),
        r is Irq ==> r->Irq_0 == v - 32,
        r is Exception ==> r->Exception_0@ == exception_name(v),
{
    if v == 0 {
        Route::DivideByZero
    } else if v == 6 {
        Route::InvalidOpcode
    } else if v == 8 {
        Route::DoubleFault
    } else if v == 13 {
        Route::GeneralProtection
    } else if v == 14 {
        Route::PageFault
    } else if 32 <= v && v < 48 {
        Route::Irq((v - 32) as u8)
    } else if v == 128 {
        Route::Syscall
    } else {
        Route::Exception(exception_name_of(v))
    }
}

/// `v` as `0x` and sixteen hexadecimal digits, as characters.
pub open spec fn hexc(v: u64) -> Seq<char> {
    byte_chars(hex64_text(v))
}

/// The screen after an exception report `text`: written in the panic colour,
/// with the normal colours restored afterwards.
pub open spec fn reported(g: Geometry, s: Screen, text: Seq<char>) -> Screen {
    Screen {
        fg: COLOR_FG,
        bg: COLOR_BG,
        ..put_chars(g, Screen { fg: COLOR_PANIC, bg: COLOR_BG, ..s }, text)
    }
}

/// Writes `text` after the characters `done` already written since `start`.
fn say(term: &mut Terminal, text: &str, Ghost(start): Ghost<Screen>, Ghost(done): Ghost<Seq<char>>) -> (r: Ghost<Seq<char>>)
    requires
        old(term).wf(),
        old(term).screen() == put_chars(old(term).geom(), start, done),
    ensures
        final(term).wf(),
        final(term).geom() == old(term).geom(),
        r@ == done + text@,
        final(term).screen() == put_chars(old(term).geom(), start, r@),
{
    term.print(text);
    proof {
        lemma_put_chars_concat(term.geom(), start, done, text@);
    }
    Ghost(done + text@)
}

/// Writes `v` in hexadecimal after the characters `done` already written
/// since `start`.
fn say_hex(term: &mut Terminal, v: u64, Ghost(start): Ghost<Screen>, Ghost(done): Ghost<Seq<char>>) -> (r: Ghost<Seq<char>>)
    requires
        old(term).wf(),
        old(term).screen() == put_chars(old(term).geom(), start, done),
    ensures
        final(term).wf(),
        final(term).geom() == old(term).geom(),
        r@ == done + hexc(v),
        final(term).screen() == put_chars(old(term).geom(), start, r@),
{
    term.print_hex64(v);
    proof {
        lemma_put_chars_concat(term.geom(), start, done, hexc(v));
    }
    Ghost(done + hexc(v))
}

/// Switches to the panic colour; the screen as it then is, with nothing
/// written yet.
fn begin_report(term: &mut Terminal) -> (r: Ghost<Screen>)
    requires
        old(term).wf(),
    ensures
        final(term).wf(),
        final(term).geom() == old(term).geom(),
        r@ == (Screen { fg: COLOR_PANIC, bg: COLOR_BG, ..old(term).screen() }),
        final(term).screen() == put_chars(old(term).geom(), r@, Seq::<char>::empty()),
{
    term.set_color(COLOR_PANIC, COLOR_BG);
    Ghost(term.screen())
}

/// The report of an exception without one of its own.
pub open spec fn generic_report(name: Seq<char>, f: InterruptFrame) -> Seq<char> {
    "\n!! CPU EXCEPTION: "@ + name + "\n!! Vector: "@ + hexc(f.vector) + "\nError code: "@
        + hexc(f.error_code) + "\nRIP: "@ + hexc(f.rip) + "\n"@
}

/// Reports exception `name` with the vector, error code and faulting
/// instruction of `frame`.
pub fn exception_generic(term: &mut Terminal, name: &str, frame: &InterruptFrame)
    requires
        old(term).wf(),
    ensures
        final(term).wf(),
        final(term).geom() == old(term).geom(),
        final(term).screen() == reported(old(term).geom(), old(term).screen(), generic_report(name@, *frame)),
{
    let Ghost(s) = begin_report(term);
    let Ghost(d) = say(term, "\n!! CPU EXCEPTION: ", Ghost(s), Ghost(Seq::empty()));
    let Ghost(d) = say(term, name, Ghost(s), Ghost(d));
    let Ghost(d) = say(term, "\n!! Vector: ", Ghost(s), Ghost(d));
    let Ghost(d) = say_hex(term, frame.vector, Ghost(s), Ghost(d));
    let Ghost(d) = say(term, "\nError code: ", Ghost(s), Ghost(d));
    let Ghost(d) = say_hex(term, frame.error_code, Ghost(s), Ghost(d));
    let Ghost(d) = say(term, "\nRIP: ", Ghost(s), Ghost(d));
    let Ghost(d) = say_hex(term, frame.rip, Ghost(s), Ghost(d));
    let Ghost(d) = say(term, "\n", Ghost(s), Ghost(d));
    assert(d =~= Seq::<char>::empty() + generic_report(name@, *frame));
    term.set_color(COLOR_FG, COLOR_BG);
}

/// The report of a page fault at address `cr2`: the error code's present,
/// write and user bits spelled out.
pub open spec fn page_fault_report(cr2: u64, f: InterruptFrame) -> Seq<char> {
    "\n!! PAGE FAULT !!\n"@ + "CR2 (fault addr): "@ + hexc(cr2) + "\nError code:      "@
        + hexc(f.error_code) + "\nReason:          "@
        + (if f.error_code & 1 == 0 { "not-present "@ } else { "protection-violation "@ })
        + (if f.error_code & 2 != 0 { "write "@ } else { "read "@ })
        + (if f.error_code & 4 != 0 { "user-mode "@ } else { Seq::<char>::empty() })
        + "\nRIP:             "@ + hexc(f.rip) + "\n"@
}

/// Reports a page fault at address `cr2`.
pub fn exception_page_fault(term: &mut Terminal, cr2: u64, frame: &InterruptFrame)
    requires
        old(term).wf(),
    ensures
        final(term).wf(),
        final(term).geom() == old(term).geom(),
        final(term).screen() == reported(old(term).geom(), old(term).screen(), page_fault_report(cr2, *frame)),
{
    let Ghost(s) = begin_report(term);
    let Ghost(d) = say(term, "\n!! PAGE FAULT !!\n", Ghost(s), Ghost(Seq::empty()));
    let Ghost(d) = say(term, "CR2 (fault addr): ", Ghost(s), Ghost(d));
    let Ghost(d) = say_hex(term, cr2, Ghost(s), Ghost(d));
    let Ghost(d) = say(term, "\nError code:      ", Ghost(s), Ghost(d));
    let Ghost(d) = say_hex(term, frame.error_code, Ghost(s), Ghost(d));
    let Ghost(d) = say(term, "\nReason:          ", Ghost(s), Ghost(d));
    let Ghost(d) = if frame.error_code & 1 == 0 {
        say(term, "not-present ", Ghost(s), Ghost(d))
    } else {
        say(term, "protection-violation ", Ghost(s), Ghost(d))
    };
    let Ghost(d) = if frame.error_code & 2 != 0 {
        say(term, "write ", Ghost(s), Ghost(d))
    } else {
        say(term, "read ", Ghost(s), Ghost(d))
    };
    let Ghost(d) = if frame.error_code & 4 != 0 {
        say(term, "user-mode ", Ghost(s), Ghost(d))
    } else {
        proof {
            assert(d + Seq::<char>::empty() =~= d);
        }
        Ghost(d + Seq::<char>::empty())
    };
    let Ghost(d) = say(term, "\nRIP:             ", Ghost(s), Ghost(d));
    let Ghost(d) = say_hex(term, frame.rip, Ghost(s), Ghost(d));
    let Ghost(d) = say(term, "\n", Ghost(s), Ghost(d));
    assert(d =~= Seq::<char>::empty() + page_fault_report(cr2, *frame));
    term.set_color(COLOR_FG, COLOR_BG);
}

/// The report of a division by zero.
pub open spec fn divide_by_zero_report(f: InterruptFrame) -> Seq<char> {
    "\n !! DIVIDE-BY-ZERO EXCEPTION !! \nRIP: "@ + hexc(f.rip) + "\n"@
}

/// Reports a division by zero at the faulting instruction.
pub fn exception_divide_by_zero(term: &mut Terminal, frame: &InterruptFrame)
    requires
        old(term).wf(),
    ensures
        final(term).wf(),
        final(term).geom() == old(term).geom(),
        final(term).screen() == reported(old(term).geom(), old(term).screen(), divide_by_zero_report(*frame)),
{
    let Ghost(s) = begin_report(term);
    let Ghost(d) = say(term, "\n !! DIVIDE-BY-ZERO EXCEPTION !! \nRIP: ", Ghost(s), Ghost(Seq::empty()));
    let Ghost(d) = say_hex(term, frame.rip, Ghost(s), Ghost(d));
    let Ghost(d) = say(term, "\n", Ghost(s), Ghost(d));
    assert(d =~= Seq::<char>::empty() + divide_by_zero_report(*frame));
    term.set_color(COLOR_FG, COLOR_BG);
}

/// The report of a general protection fault.
pub open spec fn general_protection_report(f: InterruptFrame) -> Seq<char> {
    "\n!! GENERAL PROTECTION FAULT !!\n"@ + "Saved RIP:     "@ + hexc(f.rip) + "\nError code:   "@
        + hexc(f.error_code) + "\nCS:           "@ + hexc(f.cs) + "\n"@
}

/// Reports a general protection fault.
pub fn exception_general_protection_fault(term: &mut Terminal, frame: &InterruptFrame)
    requires
        old(term).wf(),
    ensures
        final(term).wf(),
        final(term).geom() == old(term).geom(),
        final(term).screen() == reported(old(term).geom(), old(term).screen(), general_protection_report(*frame)),
{
    let Ghost(s) = begin_report(term);
    let Ghost(d) = say(term, "\n!! GENERAL PROTECTION FAULT !!\n", Ghost(s), Ghost(Seq::empty()));
    let Ghost(d) = say(term, "Saved RIP:     ", Ghost(s), Ghost(d));
    let Ghost(d) = say_hex(term, frame.rip, Ghost(s), Ghost(d));
    let Ghost(d) = say(term, "\nError code:   ", Ghost(s), Ghost(d));
    let Ghost(d) = say_hex(term, frame.error_code, Ghost(s), Ghost(d));
    let Ghost(d) = say(term, "\nCS:           ", Ghost(s), Ghost(d));
    let Ghost(d) = say_hex(term, frame.cs, Ghost(s), Ghost(d));
    let Ghost(d) = say(term, "\n", Ghost(s), Ghost(d));
    assert(d =~= Seq::<char>::empty() + general_protection_report(*frame));
    term.set_color(COLOR_FG, COLOR_BG);
}

/// The report of an invalid opcode.
pub open spec fn invalid_opcode_report(f: InterruptFrame) -> Seq<char> {
    "\n!! INVALID OPCODE EXCEPTION !! \nRIP: "@ + hexc(f.rip) + "\n"@
}

/// Reports an invalid opcode at the faulting instruction.
pub fn exception_invalid_opcode(term: &mut Terminal, frame: &InterruptFrame)
    requires
        old(term).wf(),
    ensures
        final(term).wf(),
        final(term).geom() == old(term).geom(),
        final(term).screen() == reported(old(term).geom(), old(term).screen(), invalid_opcode_report(*frame)),
{
    let Ghost(s) = begin_report(term);
    let Ghost(d) = say(term, "\n!! INVALID OPCODE EXCEPTION !! \nRIP: ", Ghost(s), Ghost(Seq::empty()));
    let Ghost(d) = say_hex(term, frame.rip, Ghost(s), Ghost(d));
    let Ghost(d) = say(term, "\n", Ghost(s), Ghost(d));
    assert(d =~= Seq::<char>::empty() + invalid_opcode_report(*frame));
    term.set_color(COLOR_FG, COLOR_BG);
}

/// The register dump of a double fault: two registers a line.
pub open spec fn double_fault_report(f: InterruptFrame) -> Seq<char> {
    "\n!! DOUBLE FAULT !! (register dump)\n"@
        + "RIP: "@ + hexc(f.rip) + "\n"@
        + "CS:  "@ + hexc(f.cs) + "\n"@
        + "RAX: "@ + hexc(f.rax) + "  "@
        + "RBX: "@ + hexc(f.rbx) + "\n"@
        + "RCX: "@ + hexc(f.rcx) + "  "@
        + "RDX: "@ + hexc(f.rdx) + "\n"@
        + "RSI: "@ + hexc(f.rsi) + "  "@
        + "RDI: "@ + hexc(f.rdi) + "\n"@
        + "RBP: "@ + hexc(f.rbp) + "  "@
        + "RSP: "@ + hexc(f.rsp) + "\n"@
        + "R8:  "@ + hexc(f.r8) + "  "@
        + "R9:  "@ + hexc(f.r9) + "\n"@
        + "R10: "@ + hexc(f.r10) + "  "@
        + "R11: "@ + hexc(f.r11) + "\n"@
        + "R12: "@ + hexc(f.r12) + "  "@
        + "R13: "@ + hexc(f.r13) + "\n"@
        + "R14: "@ + hexc(f.r14) + "  "@
        + "R15: "@ + hexc(f.r15) + "\n"@
        + "RFLAGS: "@ + hexc(f.rflags) + "\n"@
}

/// Reports a double fault with a dump of the saved registers.
#[verifier::rlimit(50)]
pub fn exception_double_fault(term: &mut Terminal, frame: &InterruptFrame)
    requires
        old(term).wf(),
    ensures
        final(term).wf(),
        final(term).geom() == old(term).geom(),
        final(term).screen() == reported(old(term).geom(), old(term).screen(), double_fault_report(*frame)),
{
    let Ghost(s) = begin_report(term);
    let Ghost(d) = say(term, "\n!! DOUBLE FAULT !! (register dump)\n", Ghost(s), Ghost(Seq::empty()));
    let Ghost(d) = say(term, "RIP: ", Ghost(s), Ghost(d));
    let Ghost(d) = say_hex(term, frame.rip, Ghost(s), Ghost(d));
    let Ghost(d) = say(term, "\n", Ghost(s), Ghost(d));
    let Ghost(d) = say(term, "CS:  ", Ghost(s), Ghost(d));
    let Ghost(d) = say_hex(term, frame.cs, Ghost(s), Ghost(d));
    let Ghost(d) = say(term, "\n", Ghost(s), Ghost(d));
    let Ghost(d) = say(term, "RAX: ", Ghost(s), Ghost(d));
    let Ghost(d) = say_hex(term, frame.rax, Ghost(s), Ghost(d));
    let Ghost(d) = say(term, "  ", Ghost(s), Ghost(d));
    let Ghost(d) = say(term, "RBX: ", Ghost(s), Ghost(d));
    let Ghost(d) = say_hex(term, frame.rbx, Ghost(s), Ghost(d));
    let Ghost(d) = say(term, "\n", Ghost(s), Ghost(d));
    let Ghost(d) = say(term, "RCX: ", Ghost(s), Ghost(d));
    let Ghost(d) = say_hex(term, frame.rcx, Ghost(s), Ghost(d));
    let Ghost(d) = say(term, "  ", Ghost(s), Ghost(d));
    let Ghost(d) = say(term, "RDX: ", Ghost(s), Ghost(d));
    let Ghost(d) = say_hex(term, frame.rdx, Ghost(s), Ghost(d));
    let Ghost(d) = say(term, "\n", Ghost(s), Ghost(d));
    let Ghost(d) = say(term, "RSI: ", Ghost(s), Ghost(d));
    let Ghost(d) = say_hex(term, frame.rsi, Ghost(s), Ghost(d));
    let Ghost(d) = say(term, "  ", Ghost(s), Ghost(d));
    let Ghost(d) = say(term, "RDI: ", Ghost(s), Ghost(d));
    let Ghost(d) = say_hex(term, frame.rdi, Ghost(s), Ghost(d));
    let Ghost(d) = say(term, "\n", Ghost(s), Ghost(d));
    let Ghost(d) = say(term, "RBP: ", Ghost(s), Ghost(d));
    let Ghost(d) = say_hex(term, frame.rbp, Ghost(s), Ghost(d));
    let Ghost(d) = say(term, "  ", Ghost(s), Ghost(d));
    let Ghost(d) = say(term, "RSP: ", Ghost(s), Ghost(d));
    let Ghost(d) = say_hex(term, frame.rsp, Ghost(s), Ghost(d));
    let Ghost(d) = say(term, "\n", Ghost(s), Ghost(d));
    let Ghost(d) = say(term, "R8:  ", Ghost(s), Ghost(d));
    let Ghost(d) = say_hex(term, frame.r8, Ghost(s), Ghost(d));
    let Ghost(d) = say(term, "  ", Ghost(s), Ghost(d));
    let Ghost(d) = say(term, "R9:  ", Ghost(s), Ghost(d));
    let Ghost(d) = say_hex(term, frame.r9, Ghost(s), Ghost(d));
    let Ghost(d) = say(term, "\n", Ghost(s), Ghost(d));
    let Ghost(d) = say(term, "R10: ", Ghost(s), Ghost(d));
    let Ghost(d) = say_hex(term, frame.r10, Ghost(s), Ghost(d));
    let Ghost(d) = say(term, "  ", Ghost(s), Ghost(d));
    let Ghost(d) = say(term, "R11: ", Ghost(s), Ghost(d));
    let Ghost(d) = say_hex(term, frame.r11, Ghost(s), Ghost(d));
    let Ghost(d) = say(term, "\n", Ghost(s), Ghost(d));
    let Ghost(d) = say(term, "R12: ", Ghost(s), Ghost(d));
    let Ghost(d) = say_hex(term, frame.r12, Ghost(s), Ghost(d));
    let Ghost(d) = say(term, "  ", Ghost(s), Ghost(d));
    let Ghost(d) = say(term, "R13: ", Ghost(s), Ghost(d));
    let Ghost(d) = say_hex(term, frame.r13, Ghost(s), Ghost(d));
    let Ghost(d) = say(term, "\n", Ghost(s), Ghost(d));
    let Ghost(d) = say(term, "R14: ", Ghost(s), Ghost(d));
    let Ghost(d) = say_hex(term, frame.r14, Ghost(s), Ghost(d));
    let Ghost(d) = say(term, "  ", Ghost(s), Ghost(d));
    let Ghost(d) = say(term, "R15: ", Ghost(s), Ghost(d));
    let Ghost(d) = say_hex(term, frame.r15, Ghost(s), Ghost(d));
    let Ghost(d) = say(term, "\n", Ghost(s), Ghost(d));
    let Ghost(d) = say(term, "RFLAGS: ", Ghost(s), Ghost(d));
    let Ghost(d) = say_hex(term, frame.rflags, Ghost(s), Ghost(d));
    let Ghost(d) = say(term, "\n", Ghost(s), Ghost(d));
    assert(d =~= Seq::<char>::empty() + double_fault_report(*frame));
    term.set_color(COLOR_FG, COLOR_BG);
}

} // verus!
