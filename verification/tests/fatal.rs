use hobby_kernel::fatal::panic_serial;

#[test]
fn panic_report_with_location() {
    let r = panic_serial(Some(("src/main.rs", 42)));
    assert_eq!(r, b"\r\n!!! KERNEL PANIC !!!\r\nat: src/main.rs:42\r\n".to_vec());
}

#[test]
fn panic_report_without_location() {
    assert_eq!(panic_serial(None), b"\r\n!!! KERNEL PANIC !!!\r\n".to_vec());
}
