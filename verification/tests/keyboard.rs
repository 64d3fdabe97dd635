use hobby_kernel::device::keyboard::{can_read, can_write, init, KeyBuffer, Keyboard, PS2_COMMAND, PS2_DATA};
use hobby_kernel::device::port::PortWrite;

#[test]
fn key_buffer_is_first_in_first_out() {
    let mut b = KeyBuffer::new();
    assert!(b.is_empty());
    b.push(b'x');
    b.push(b'y');
    b.push(b'z');
    assert!(!b.is_empty());
    assert_eq!(b.pop(), Some(b'x'));
    assert_eq!(b.pop(), Some(b'y'));
    b.push(b'w');
    assert_eq!(b.pop(), Some(b'z'));
    assert_eq!(b.pop(), Some(b'w'));
    assert_eq!(b.pop(), None);
    assert!(b.is_empty());
}

#[test]
fn key_buffer_full_drops_new_bytes() {
    let mut b = KeyBuffer::new();
    for i in 0..300u32 {
        b.push((i % 256) as u8);
    }
    let mut out = Vec::new();
    while let Some(x) = b.pop() {
        out.push(x);
    }
    assert_eq!(out.len(), 255);
    for (i, x) in out.iter().enumerate() {
        assert_eq!(*x, i as u8);
    }
}

#[test]
fn key_buffer_wraps_around_its_array() {
    let mut b = KeyBuffer::new();
    for round in 0..4u32 {
        for i in 0..200u32 {
            b.push(((i + round) % 256) as u8);
        }
        for i in 0..200u32 {
            assert_eq!(b.pop(), Some(((i + round) % 256) as u8));
        }
    }
    assert_eq!(b.pop(), None);
}

#[test]
fn keyboard_translates_with_and_without_shift() {
    let mut kb = Keyboard::new();
    kb.handle_irq(0x1e); // a
    kb.handle_irq(0x2a); // left shift down
    kb.handle_irq(0x1e); // A
    kb.handle_irq(0x02); // !
    kb.handle_irq(0xaa); // left shift up
    kb.handle_irq(0x02); // 1
    kb.handle_irq(0x36); // right shift down
    kb.handle_irq(0x10); // Q
    kb.handle_irq(0xb6); // right shift up
    kb.handle_irq(0x1c); // enter
    kb.handle_irq(0x0e); // backspace
    let mut typed = Vec::new();
    while let Some(c) = kb.buffer.pop() {
        typed.push(c);
    }
    assert_eq!(typed, vec![b'a', b'A', b'!', b'1', b'Q', b'\n', 8u8]);
}

#[test]
fn keyboard_ignores_break_codes_and_unmapped_keys() {
    let mut kb = Keyboard::new();
    kb.handle_irq(0x9e); // release of a
    kb.handle_irq(0x1d); // left control: no character
    kb.handle_irq(0x60); // beyond the table
    assert_eq!(kb.buffer.pop(), None);
}

#[test]
fn keyboard_init_enables_port_interrupt_and_clock() {
    let w = init(0b0011_0000);
    assert_eq!(w, vec![PortWrite { port: PS2_COMMAND, value: 0x60 }, PortWrite { port: PS2_DATA, value: 0b0010_0001 }]);
    let w = init(0xff);
    assert_eq!(w[1].value, 0xef);
}

#[test]
fn controller_status_bits() {
    assert!(can_write(0x00));
    assert!(!can_write(0x02));
    assert!(can_read(0x01));
    assert!(!can_read(0xfe));
}
