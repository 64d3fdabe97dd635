use hobby_kernel::device::port::PortWrite;
use hobby_kernel::device::serial::{init, print, print_hex64, print_usize, putc, transmit_ready, COM1};

#[test]
fn serial_init_programs_com1() {
    let w = init();
    let expect: Vec<(u16, u8)> = vec![
        (0x3F9, 0x00),
        (0x3FB, 0x80),
        (0x3F8, 0x03),
        (0x3F9, 0x00),
        (0x3FB, 0x03),
        (0x3FA, 0xC7),
        (0x3FC, 0x0B),
    ];
    let got: Vec<(u16, u8)> = w.iter().map(|p| (p.port, p.value)).collect();
    assert_eq!(got, expect);
}

#[test]
fn serial_print_puts_carriage_return_before_newline() {
    assert_eq!(print("a\nb\n"), b"a\r\nb\r\n".to_vec());
    assert_eq!(print(""), Vec::<u8>::new());
    assert_eq!(print("plain"), b"plain".to_vec());
}

#[test]
fn serial_hex_is_sixteen_lower_case_digits() {
    assert_eq!(print_hex64(0x1234_abcd), b"0x000000001234abcd".to_vec());
    assert_eq!(print_hex64(u64::MAX), b"0xffffffffffffffff".to_vec());
    assert_eq!(print_hex64(0), b"0x0000000000000000".to_vec());
}

#[test]
fn serial_decimal_has_no_leading_zeros() {
    assert_eq!(print_usize(0), b"0".to_vec());
    assert_eq!(print_usize(7), b"7".to_vec());
    assert_eq!(print_usize(1234567890), b"1234567890".to_vec());
}

#[test]
fn serial_putc_and_line_status() {
    assert_eq!(putc(b'k'), PortWrite { port: COM1, value: b'k' });
    assert!(transmit_ready(0x20));
    assert!(transmit_ready(0x60));
    assert!(!transmit_ready(0x1f));
}
