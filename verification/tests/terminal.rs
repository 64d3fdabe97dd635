use hobby_kernel::device::keyboard::KeyBuffer;
use hobby_kernel::fatal::panic_screen;
use hobby_kernel::interrupt::syscall::handle_syscall;
use hobby_kernel::interrupt::idt::{
    exception_divide_by_zero, exception_double_fault, exception_general_protection_fault,
    exception_generic, exception_invalid_opcode, exception_page_fault, InterruptFrame,
};
use hobby_kernel::memory::heap::{kmalloc, kmalloc_dump, kmalloc_init, HEAP_START};
use hobby_kernel::memory::pmm::{init_pmm, MemRegion};
use hobby_kernel::memory::vmm::PhysMem;
use hobby_kernel::ui::terminal::{get_glyph, psf2_header, FramebufferInfo, Terminal, COLOR_BG, COLOR_FG, COLOR_PANIC};

const COLS: usize = 16;
const PITCH: usize = 128;

fn font() -> Vec<u8> {
    let mut f = vec![0u8; 32 + 256 * 16];
    f[8..12].copy_from_slice(&32u32.to_le_bytes());
    f[20..24].copy_from_slice(&16u32.to_le_bytes());
    f[24..28].copy_from_slice(&16u32.to_le_bytes());
    f[28..32].copy_from_slice(&8u32.to_le_bytes());
    for row in 0..16 {
        f[32 + 65 * 16 + row] = 0xF0; // 'A': left half lit
        f[32 + 63 * 16 + row] = 0xFF; // '?': fully lit
        f[32 + 66 * 16 + row] = if row == 0 { 0x80 } else { 0 }; // 'B': one dot
    }
    f
}

fn term() -> Terminal {
    let fb = FramebufferInfo { width: 128, height: 64, pitch: 512 };
    Terminal::new(Some(fb), font()).unwrap()
}

fn px(t: &Terminal, col: usize, row: usize, x: usize, y: usize) -> u32 {
    t.pixels()[(row * 16 + y) * PITCH + col * 8 + x]
}

fn cell_is(t: &Terminal, col: usize, row: usize, color: u32) -> bool {
    (0..16).all(|y| (0..8).all(|x| px(t, col, row, x, y) == color))
}

fn frame() -> InterruptFrame {
    InterruptFrame {
        r15: 0, r14: 0, r13: 0, r12: 0, r11: 0, r10: 0, r9: 0, r8: 0, rbp: 0, rdi: 0, rsi: 0,
        rdx: 0, rcx: 0, rbx: 0, rax: 0, vector: 3, error_code: 0, rip: 0x1000, cs: 0x28, rflags: 0,
        rsp: 0, ss: 0,
    }
}

#[test]
fn font_header_and_glyphs() {
    let f = font();
    assert_eq!(psf2_header(&f), (32, 16, 16, 8));
    assert_eq!(get_glyph(&f, 65, 32, 16), &[0xF0u8; 16][..]);
    assert_eq!(get_glyph(&f, 0, 32, 16), &[0u8; 16][..]);
}

#[test]
fn no_framebuffer_no_terminal() {
    assert!(Terminal::new(None, font()).is_none());
}

#[test]
fn new_terminal_is_cleared_with_cursor_home() {
    let t = term();
    assert_eq!(t.cursor(), (0, 0));
    assert_eq!(t.pitch(), PITCH);
    assert_eq!(t.pixels().len(), 64 * PITCH);
    assert!(t.pixels().iter().all(|p| *p == COLOR_BG));
}

#[test]
fn putc_draws_the_glyph_and_advances() {
    let mut t = term();
    t.putc('A');
    assert_eq!(t.cursor(), (1, 0));
    for y in 0..16 {
        for x in 0..8 {
            let want = if x < 4 { COLOR_FG } else { COLOR_BG };
            assert_eq!(px(&t, 0, 0, x, y), want);
        }
    }
    assert!(cell_is(&t, 1, 0, COLOR_BG));
}

#[test]
fn unprintable_characters_show_as_question_mark() {
    let mut t = term();
    t.putc('\u{7}');
    t.putc('é');
    assert_eq!(t.cursor(), (2, 0));
    assert!(cell_is(&t, 0, 0, COLOR_FG));
    assert!(cell_is(&t, 1, 0, COLOR_FG));
}

#[test]
fn newline_carriage_return_and_wrap() {
    let mut t = term();
    t.print("BB\nB");
    assert_eq!(t.cursor(), (1, 1));
    t.putc('\r');
    assert_eq!(t.cursor(), (0, 1));
    t.print("0123456789abcdef");
    assert_eq!(t.cursor(), (0, 2));
}

#[test]
fn writing_past_the_last_row_scrolls() {
    let mut t = term();
    t.putc('A');
    t.print("\n\n\n");
    assert_eq!(t.cursor(), (0, 3));
    t.putc('B');
    t.putc('\n');
    // The 'A' cell moved out of view; row 2 now shows what row 3 had.
    assert_eq!(t.cursor(), (0, 3));
    assert!(cell_is(&t, 0, 0, COLOR_BG));
    assert_eq!(px(&t, 0, 2, 0, 0), COLOR_FG);
    assert!(cell_is(&t, 0, 3, COLOR_BG));
}

#[test]
fn backspace_after_putc_restores_cursor_and_blanks_cell() {
    let mut t = term();
    t.print("BB");
    t.putc('A');
    t.backspace();
    assert_eq!(t.cursor(), (2, 0));
    assert!(cell_is(&t, 2, 0, COLOR_BG));
    // At a row start the cursor goes to the end of the row above.
    t.print("\n");
    t.backspace();
    assert_eq!(t.cursor(), (COLS - 1, 0));
    // Across a wrap, too.
    let mut t = term();
    t.print("0123456789abcde");
    t.putc('A');
    assert_eq!(t.cursor(), (0, 1));
    t.backspace();
    assert_eq!(t.cursor(), (COLS - 1, 0));
    assert!(cell_is(&t, COLS - 1, 0, COLOR_BG));
}

#[test]
fn backspace_at_top_left_does_nothing() {
    let mut t = term();
    t.backspace();
    assert_eq!(t.cursor(), (0, 0));
    assert!(t.pixels().iter().all(|p| *p == COLOR_BG));
}

#[test]
fn colors_apply_to_later_output_and_clear() {
    let mut t = term();
    t.set_color(0x00ff_0000, 0x0000_00ff);
    t.putc('?');
    assert!(cell_is(&t, 0, 0, 0x00ff_0000));
    assert_eq!(px(&t, 1, 0, 0, 0), COLOR_BG);
    t.clear();
    assert_eq!(t.cursor(), (0, 0));
    assert!(t.pixels().iter().all(|p| *p == 0x0000_00ff));
}

#[test]
fn numbers_take_their_digit_count() {
    let mut t = term();
    t.print_hex64(0xabc);
    assert_eq!(t.cursor(), (2, 1));
    t.print_usize(12345);
    assert_eq!(t.cursor(), (7, 1));
    t.print_usize(0);
    assert_eq!(t.cursor(), (8, 1));
}

#[test]
fn exception_report_is_written_in_the_panic_colour() {
    let mut t = term();
    exception_divide_by_zero(&mut t, &frame());
    // "\n !! DIVIDE-BY-ZERO EXCEPTION !! \nRIP: " + 18 hex characters + "\n"
    let mut u = term();
    u.set_color(COLOR_PANIC, COLOR_BG);
    u.print("\n !! DIVIDE-BY-ZERO EXCEPTION !! \nRIP: ");
    u.print_hex64(0x1000);
    u.print("\n");
    u.set_color(COLOR_FG, COLOR_BG);
    assert_eq!(t.cursor(), u.cursor());
    assert_eq!(t.pixels(), u.pixels());
    t.putc('?');
    u.putc('?');
    assert_eq!(t.pixels(), u.pixels());
}

#[test]
fn generic_and_page_fault_reports() {
    let mut t = term();
    exception_generic(&mut t, "Breakpoint", &frame());
    let mut u = term();
    u.set_color(COLOR_PANIC, COLOR_BG);
    u.print("\n!! CPU EXCEPTION: Breakpoint\n!! Vector: ");
    u.print_hex64(3);
    u.print("\nError code: ");
    u.print_hex64(0);
    u.print("\nRIP: ");
    u.print_hex64(0x1000);
    u.print("\n");
    assert_eq!(t.cursor(), u.cursor());
    assert_eq!(t.pixels(), u.pixels());

    let mut t = term();
    let mut f = frame();
    f.error_code = 0b110;
    exception_page_fault(&mut t, 0xdead_b000, &f);
    let mut u = term();
    u.set_color(COLOR_PANIC, COLOR_BG);
    u.print("\n!! PAGE FAULT !!\nCR2 (fault addr): ");
    u.print_hex64(0xdead_b000);
    u.print("\nError code:      ");
    u.print_hex64(6);
    u.print("\nReason:          not-present write user-mode \nRIP:             ");
    u.print_hex64(0x1000);
    u.print("\n");
    assert_eq!(t.cursor(), u.cursor());
    assert_eq!(t.pixels(), u.pixels());
}

#[test]
fn panic_notice_on_screen() {
    let mut t = term();
    panic_screen(&mut t, Some("a.rs"));
    let mut u = term();
    u.set_color(COLOR_PANIC, COLOR_BG);
    u.print("\nKERNEL PANIC\n");
    u.set_color(COLOR_FG, COLOR_BG);
    u.print("at: a.rs\n");
    assert_eq!(t.cursor(), u.cursor());
    assert_eq!(t.pixels(), u.pixels());
    assert_eq!(t.cursor(), (0, 3));
}

#[test]
fn open_checks_font_and_framebuffer() {
    let fb = FramebufferInfo { width: 128, height: 64, pitch: 512 };
    assert!(Terminal::open(Some(fb), font()).unwrap().usable());
    assert!(Terminal::open(None, font()).is_none());
    assert!(Terminal::open(Some(fb), vec![0u8; 16]).is_none());
    // A glyph width of zero.
    let mut f = font();
    f[28] = 0;
    assert!(Terminal::open(Some(fb), f).is_none());
    // Too few glyph bytes for 256 glyphs.
    let mut f = font();
    f.truncate(32 + 255 * 16);
    assert!(Terminal::open(Some(fb), f).is_none());
    // Pixel counts that do not fit.
    assert!(Terminal::open(Some(FramebufferInfo { width: 8, height: u64::MAX, pitch: 64 }), font()).is_none());
    let t = Terminal::open(Some(fb), font()).unwrap();
    assert_eq!(t.cursor(), (0, 0));
    assert!(t.pixels().iter().all(|p| *p == COLOR_BG));
}

#[test]
fn small_framebuffers_get_a_terminal_that_cannot_be_written_on() {
    // Narrower than one glyph, lower than one glyph, wider than a scanline.
    for fb in [
        FramebufferInfo { width: 7, height: 64, pitch: 512 },
        FramebufferInfo { width: 128, height: 15, pitch: 512 },
        FramebufferInfo { width: 129, height: 64, pitch: 512 },
    ] {
        let t = Terminal::open(Some(fb), font()).unwrap();
        assert!(!t.usable());
        assert_eq!(t.cursor(), (0, 0));
        assert_eq!(t.pixels().len(), fb.height as usize * 128);
        assert!(t.pixels().iter().all(|p| *p == COLOR_BG));
    }
}

fn wide_term() -> Terminal {
    let fb = FramebufferInfo { width: 640, height: 480, pitch: 2560 };
    Terminal::new(Some(fb), font()).unwrap()
}

#[test]
fn other_exception_reports() {
    let mut f = frame();
    f.rax = 1;
    f.rbx = 2;
    f.r15 = 15;
    f.rflags = 0x202;
    f.error_code = 0x10;
    let mut t = wide_term();
    exception_double_fault(&mut t, &f);
    let mut u = wide_term();
    u.set_color(COLOR_PANIC, COLOR_BG);
    u.print("\n!! DOUBLE FAULT !! (register dump)\n");
    let regs: [(&str, u64, &str); 19] = [
        ("RIP: ", f.rip, "\n"), ("CS:  ", f.cs, "\n"), ("RAX: ", f.rax, "  "), ("RBX: ", f.rbx, "\n"),
        ("RCX: ", f.rcx, "  "), ("RDX: ", f.rdx, "\n"), ("RSI: ", f.rsi, "  "), ("RDI: ", f.rdi, "\n"),
        ("RBP: ", f.rbp, "  "), ("RSP: ", f.rsp, "\n"), ("R8:  ", f.r8, "  "), ("R9:  ", f.r9, "\n"),
        ("R10: ", f.r10, "  "), ("R11: ", f.r11, "\n"), ("R12: ", f.r12, "  "), ("R13: ", f.r13, "\n"),
        ("R14: ", f.r14, "  "), ("R15: ", f.r15, "\n"), ("RFLAGS: ", f.rflags, "\n"),
    ];
    for (label, v, sep) in regs {
        u.print(label);
        u.print_hex64(v);
        u.print(sep);
    }
    u.set_color(COLOR_FG, COLOR_BG);
    assert_eq!(t.cursor(), u.cursor());
    assert_eq!(t.pixels(), u.pixels());
    assert_eq!(t.cursor(), (0, 13));

    let mut t = wide_term();
    exception_general_protection_fault(&mut t, &f);
    let mut u = wide_term();
    u.set_color(COLOR_PANIC, COLOR_BG);
    u.print("\n!! GENERAL PROTECTION FAULT !!\nSaved RIP:     ");
    u.print_hex64(f.rip);
    u.print("\nError code:   ");
    u.print_hex64(0x10);
    u.print("\nCS:           ");
    u.print_hex64(0x28);
    u.print("\n");
    assert_eq!(t.pixels(), u.pixels());
    assert_eq!(t.cursor(), u.cursor());

    let mut t = wide_term();
    exception_invalid_opcode(&mut t, &f);
    let mut u = wide_term();
    u.set_color(COLOR_PANIC, COLOR_BG);
    u.print("\n!! INVALID OPCODE EXCEPTION !! \nRIP: ");
    u.print_hex64(f.rip);
    u.print("\n");
    assert_eq!(t.pixels(), u.pixels());
    assert_eq!(t.cursor(), (0, 3));
}

#[test]
fn page_fault_reason_words() {
    let mut f = frame();
    f.error_code = 0b001;
    let mut t = wide_term();
    exception_page_fault(&mut t, 0, &f);
    let mut u = wide_term();
    u.set_color(COLOR_PANIC, COLOR_BG);
    u.print("\n!! PAGE FAULT !!\nCR2 (fault addr): ");
    u.print_hex64(0);
    u.print("\nError code:      ");
    u.print_hex64(1);
    u.print("\nReason:          protection-violation read \nRIP:             ");
    u.print_hex64(f.rip);
    u.print("\n");
    assert_eq!(t.pixels(), u.pixels());
}

#[test]
fn heap_dump_lists_blocks() {
    let map = [
        MemRegion { base: 0x1000, length: 0x1000, usable: true },
        MemRegion { base: 0x100000, length: 0x10000, usable: true },
    ];
    let mut pmm = init_pmm(&map);
    let mut mem = PhysMem::new(vec![0u64; 0x110000 / 8]);
    let mut heap = kmalloc_init(&mut mem, &mut pmm, 0x2000, HEAP_START as usize, 0x2000);
    kmalloc(&mut heap, &mut mem, &mut pmm, 0x2000, 100);
    let mut t = wide_term();
    kmalloc_dump(&heap, &mut t);
    // A title line, one line per block, an end line.
    assert_eq!(t.cursor(), (0, 5));
}

#[test]
fn write_syscall_draws_on_the_terminal() {
    let mut keys = KeyBuffer::new();
    let mut f = frame();
    f.rax = 0;
    f.rdi = 1;
    f.rsi = 0x4000;
    f.rdx = 2;
    let (t, _) = handle_syscall(&mut f, Some(term()), &mut keys, b"AB");
    let t = t.unwrap();
    assert_eq!(f.rax, 2);
    let mut u = term();
    u.print("AB");
    assert_eq!(t.pixels(), u.pixels());
    assert_eq!(t.cursor(), (2, 0));
    // A refused write leaves the terminal as it was.
    let mut f = frame();
    f.rax = 0;
    f.rdx = 2;
    let (t, _) = handle_syscall(&mut f, Some(term()), &mut keys, &[]);
    assert_eq!(f.rax, u64::MAX);
    assert_eq!(t.unwrap().cursor(), (0, 0));
}
