use hobby_kernel::device::serial::print_usize as serial_usize;
use hobby_kernel::shell::{
    memtest_report, parse_command, parse_decimal, parse_hex6, run_shell, split_first_word,
    trim_ascii, Command, Shell, ShellAction, SystemInfo,
};
use hobby_kernel::ui::terminal::{FramebufferInfo, Terminal};

fn font() -> Vec<u8> {
    let mut f = vec![0u8; 32 + 256 * 16];
    f[8..12].copy_from_slice(&32u32.to_le_bytes());
    f[20..24].copy_from_slice(&16u32.to_le_bytes());
    f[24..28].copy_from_slice(&16u32.to_le_bytes());
    f[28..32].copy_from_slice(&8u32.to_le_bytes());
    for c in 0..256usize {
        for row in 0..16usize {
            f[32 + c * 16 + row] = (c as u8).rotate_left(row as u32);
        }
    }
    f
}

fn term() -> Terminal {
    let fb = FramebufferInfo { width: 640, height: 480, pitch: 2560 };
    Terminal::new(Some(fb), font()).unwrap()
}

fn info() -> SystemInfo {
    SystemInfo { free_pages: 1000, total_pages: 4096, ticks: 250 }
}

#[test]
fn trimming_and_words() {
    assert_eq!(trim_ascii(b"  echo hi  "), b"echo hi");
    assert_eq!(trim_ascii(b"   "), b"");
    // Only spaces are trimmed.
    assert_eq!(trim_ascii(b"\tx\n"), b"\tx\n");
    assert_eq!(split_first_word(b"color ff0000 000000"), (&b"color"[..], &b"ff0000 000000"[..]));
    assert_eq!(split_first_word(b"help"), (&b"help"[..], &b""[..]));
}

#[test]
fn hex_colours() {
    assert_eq!(parse_hex6(b"ff8000"), Some(0xff8000));
    assert_eq!(parse_hex6(b"FFaa0"), Some(0xffaa0));
    assert_eq!(parse_hex6(b"0"), Some(0));
    assert_eq!(parse_hex6(b""), None);
    assert_eq!(parse_hex6(b"1234567"), None);
    assert_eq!(parse_hex6(b"12g4"), None);
}

#[test]
fn decimal_numbers() {
    assert_eq!(parse_decimal(b"0"), Some(0));
    assert_eq!(parse_decimal(b"42"), Some(42));
    assert_eq!(parse_decimal(b"007"), Some(7));
    assert_eq!(parse_decimal(b"4294967295"), Some(u32::MAX));
    assert_eq!(parse_decimal(b"4294967296"), None);
    assert_eq!(parse_decimal(b""), None);
    assert_eq!(parse_decimal(b"-1"), None);
    assert_eq!(parse_decimal(b"1 2"), None);
}

#[test]
fn decimal_round_trip() {
    for n in [0u32, 1, 9, 10, 99, 12345, 4_000_000_000, u32::MAX] {
        assert_eq!(parse_decimal(&serial_usize(n as usize)), Some(n));
    }
}

#[test]
fn commands_are_parsed() {
    assert!(matches!(parse_command(b"   "), Command::Empty));
    assert!(matches!(parse_command(b"help"), Command::Help));
    assert!(matches!(parse_command(b"  cls "), Command::Cls));
    match parse_command(b"echo   hello world  ") {
        Command::Echo(t) => assert_eq!(t, b"hello world".to_vec()),
        other => panic!("unexpected {:?}", other),
    }
    assert!(matches!(parse_command(b"color ff0000 00ff00"), Command::Color(Some((0xff0000, 0x00ff00)))));
    assert!(matches!(parse_command(b"color ff0000"), Command::Color(None)));
    assert!(matches!(parse_command(b"color red blue"), Command::Color(None)));
    assert!(matches!(parse_command(b"sleep 3"), Command::Sleep(3)));
    assert!(matches!(parse_command(b"sleep"), Command::Sleep(1)));
    assert!(matches!(parse_command(b"sleep x"), Command::Sleep(1)));
    assert!(matches!(parse_command(b"reboot"), Command::Reboot));
    assert!(matches!(parse_command(b"meminfo"), Command::MemInfo));
    assert!(matches!(parse_command(b"memtest"), Command::MemTest));
    assert!(matches!(parse_command(b"heap"), Command::Heap));
    assert!(matches!(parse_command(b"pgfault"), Command::PgFault));
    assert!(matches!(parse_command(b"divzero"), Command::DivZero));
    assert!(matches!(parse_command(b"intopcode"), Command::IntOpcode));
    assert!(matches!(parse_command(b"breakpoint"), Command::Breakpoint));
    assert!(matches!(parse_command(b"dfault"), Command::DFault));
    assert!(matches!(parse_command(b"uptime"), Command::Uptime));
    match parse_command(b"synwrite  hi there") {
        Command::SynWrite(t) => assert_eq!(t, b"hi there".to_vec()),
        other => panic!("unexpected {:?}", other),
    }
    match parse_command(b"frobnicate now") {
        Command::Unknown(w) => assert_eq!(w, b"frobnicate".to_vec()),
        other => panic!("unexpected {:?}", other),
    }
    // Commands are case sensitive.
    assert!(matches!(parse_command(b"HELP"), Command::Unknown(_)));
}

#[test]
fn line_editing_with_backspace() {
    let mut t = term();
    let mut sh = run_shell(&mut t);
    for k in b"ecbo" {
        assert!(sh.handle_key(&mut t, *k).is_none());
    }
    sh.handle_key(&mut t, 8);
    sh.handle_key(&mut t, 8);
    sh.handle_key(&mut t, b'h');
    sh.handle_key(&mut t, b'o');
    sh.handle_key(&mut t, 0x1b); // ignored
    sh.handle_key(&mut t, b' ');
    sh.handle_key(&mut t, b'x');
    match sh.handle_key(&mut t, b'\n') {
        Some(Command::Echo(v)) => assert_eq!(v, b"x".to_vec()),
        other => panic!("unexpected {:?}", other),
    }
    // The line is empty again.
    assert!(matches!(sh.handle_key(&mut t, b'\n'), Some(Command::Empty)));
}

#[test]
fn backspace_on_empty_line_keeps_the_prompt() {
    let mut t = term();
    let mut sh = run_shell(&mut t);
    let before = t.cursor();
    sh.handle_key(&mut t, 8);
    assert_eq!(t.cursor(), before);
}

#[test]
fn long_lines_stop_at_the_buffer_size() {
    let mut t = term();
    let mut sh = Shell::new();
    sh.handle_key(&mut t, b'e');
    sh.handle_key(&mut t, b'c');
    sh.handle_key(&mut t, b'h');
    sh.handle_key(&mut t, b'o');
    sh.handle_key(&mut t, b' ');
    for _ in 0..400 {
        sh.handle_key(&mut t, b'z');
    }
    match sh.handle_key(&mut t, b'\n') {
        Some(Command::Echo(v)) => assert_eq!(v.len(), 255 - 5),
        other => panic!("unexpected {:?}", other),
    }
}

#[test]
fn commands_ask_for_their_actions() {
    let sh = Shell::new();
    let mut t = term();
    let cases: Vec<(&[u8], fn(&ShellAction) -> bool)> = vec![
        (b"reboot", |a| matches!(a, ShellAction::Reboot)),
        (b"memtest", |a| matches!(a, ShellAction::MemTest)),
        (b"heap", |a| matches!(a, ShellAction::HeapDump)),
        (b"pgfault", |a| matches!(a, ShellAction::PageFault)),
        (b"divzero", |a| matches!(a, ShellAction::DivideByZero)),
        (b"intopcode", |a| matches!(a, ShellAction::InvalidOpcode)),
        (b"breakpoint", |a| matches!(a, ShellAction::Breakpoint)),
        (b"dfault", |a| matches!(a, ShellAction::DoubleFault)),
        (b"sleep 2", |a| matches!(a, ShellAction::Sleep(2))),
        (b"help", |a| matches!(a, ShellAction::Done)),
        (b"echo a", |a| matches!(a, ShellAction::Done)),
        (b"nothing", |a| matches!(a, ShellAction::Done)),
        (b"uptime", |a| matches!(a, ShellAction::Done)),
        (b"meminfo", |a| matches!(a, ShellAction::Done)),
        (b"color 1 2", |a| matches!(a, ShellAction::Done)),
        (b"cls", |a| matches!(a, ShellAction::Done)),
    ];
    for (line, ok) in cases {
        let a = sh.execute(&mut t, &parse_command(line), &info());
        assert!(ok(&a), "{:?}", String::from_utf8_lossy(line));
    }
    match sh.execute(&mut t, &parse_command(b"synwrite abc"), &info()) {
        ShellAction::SysWrite(v) => assert_eq!(v, b"abc".to_vec()),
        other => panic!("unexpected {:?}", other),
    }
}

#[test]
fn echo_writes_its_text() {
    let sh = Shell::new();
    let mut t = term();
    sh.execute(&mut t, &parse_command(b"echo hello"), &info());
    let mut u = term();
    u.print("hello\n");
    assert_eq!(t.pixels(), u.pixels());
    assert_eq!(t.cursor(), (0, 1));
}

#[test]
fn cls_clears_and_color_sets_colours() {
    let sh = Shell::new();
    let mut t = term();
    t.print("junk");
    sh.execute(&mut t, &parse_command(b"color 00ff00 000080"), &info());
    sh.execute(&mut t, &parse_command(b"cls"), &info());
    assert_eq!(t.cursor(), (0, 0));
    assert!(t.pixels().iter().all(|p| *p == 0x000080));
}

#[test]
fn meminfo_and_uptime_report_numbers() {
    let sh = Shell::new();
    let mut t = term();
    sh.execute(&mut t, &parse_command(b"meminfo"), &info());
    assert!(t.cursor().1 >= 1);
    let mut t2 = term();
    sh.execute(&mut t2, &parse_command(b"uptime"), &info());
    assert!(t2.cursor().1 >= 1);
}

#[test]
fn after_an_action_the_prompt_returns() {
    let sh = Shell::new();
    let mut t = term();
    sh.complete(&mut t, &ShellAction::Sleep(1));
    let mut u = term();
    u.print("Awake.\nkernel> ");
    assert_eq!(t.pixels(), u.pixels());
    assert_eq!(t.cursor(), (8, 1));
}

#[test]
fn memtest_result_lines() {
    let mut t = term();
    memtest_report(&mut t, true, false);
    let mut u = term();
    u.print("  Pattern check : PASS\n  Coalesce test : FAIL\nTest complete. Heap dump follows:\n");
    assert_eq!(t.pixels(), u.pixels());
    assert_eq!(t.cursor(), (0, 3));
}
