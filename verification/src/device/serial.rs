//! COM1 serial port: initialisation sequence and the bytes that printing sends.
use vstd::prelude::*;
use crate::device::port::{PortWrite, pw};
use crate::text::{hex16, dec_digits, hex16_digits, decimal_digits};
use vstd::string::StringSliceAdditionalSpecFns;

verus! {

/// Base I/O port of COM1.
pub const COM1: u16 = 0x3F8;

/// The register writes that set COM1 to 38400 baud, 8N1, FIFO on.
pub open spec fn init_sequence() -> Seq<PortWrite> {
    seq![
        pw(0x3F9, 0x00),
        pw(0x3FB, 0x80),
        pw(0x3F8, 0x03),
        pw(0x3F9, 0x00),
        pw(0x3FB, 0x03),
        pw(0x3FA, 0xC7),
        pw(0x3FC, 0x0B),
    ]
}

/// Port writes that initialise COM1, in order.
pub fn init() -> (r: Vec<PortWrite>)
    ensures
        r@ == init_sequence(),
{
    let mut v: Vec<PortWrite> = Vec::new();
    v.push(PortWrite { port: COM1 + 1, value: 0x00 });
    v.push(PortWrite { port: COM1 + 3, value: 0x80 });
    v.push(PortWrite { port: COM1 + 0, value: 0x03 });
    v.push(PortWrite { port: COM1 + 1, value: 0x00 });
    v.push(PortWrite { port: COM1 + 3, value: 0x03 });
    v.push(PortWrite { port: COM1 + 2, value: 0xC7 });
    v.push(PortWrite { port: COM1 + 4, value: 0x0B });
    assert(v@ =~= init_sequence());
    v
}

/// Whether the line status register says the transmitter can take a byte.
pub fn transmit_ready(line_status: u8) -> (r: bool)
    ensures
        r == (line_status & 0x20 != 0),
{
    line_status & 0x20 != 0
}

/// The port write that sends byte `c`.
pub fn putc(c: u8) -> (r: PortWrite)
    ensures
        r == pw(COM1, c),
{
    PortWrite { port: COM1, value: c }
}

/// `bs` as sent on the wire: every line feed is preceded by a carriage return.
pub open spec fn wire_bytes(bs: Seq<u8>) -> Seq<u8>
    decreases bs.len(),
{
    if bs.len() == 0 {
        seq![]
    } else {
        let rest = wire_bytes(bs.drop_last());
        if bs.last() == 10u8 {
            rest + seq![13u8, 10u8]
        } else {
            rest.push(bs.last())
        }
    }
}

/// Sending two pieces sends them one after the other.
pub proof fn lemma_wire_bytes_concat(a: Seq<u8>, b: Seq<u8>)
    ensures
        wire_bytes(a + b) == wire_bytes(a) + wire_bytes(b),
    decreases b.len(),
{
    if b.len() == 0 {
        assert(a + b =~= a);
        assert(wire_bytes(a) + wire_bytes(b) =~= wire_bytes(a));
    } else {
        assert((a + b).drop_last() =~= a + b.drop_last());
        lemma_wire_bytes_concat(a, b.drop_last());
        if b.last() == 10u8 {
            assert(wire_bytes(a) + wire_bytes(b) =~= wire_bytes(a) + wire_bytes(b.drop_last()) + seq![13u8, 10u8]);
        } else {
            assert(wire_bytes(a) + wire_bytes(b) =~= (wire_bytes(a) + wire_bytes(b.drop_last())).push(b.last()));
        }
    }
}

/// The bytes that printing `s` sends.
pub fn print(s: &str) -> (r: Vec<u8>)
    ensures
        r@ == wire_bytes(s.spec_bytes()),
{
    let bytes = s.as_bytes();
    let mut out: Vec<u8> = Vec::new();
    let mut i: usize = 0;
    while i < bytes.len()
        invariant
            i <= bytes@.len(),
            bytes@ == s.spec_bytes(),
            out@ == wire_bytes(bytes@.take(i as int)),
        decreases bytes.len() - i,
    {
        let b = bytes[i];
        assert(bytes@.take(i + 1).drop_last() =~= bytes@.take(i as int));
        if b == 10u8 {
            out.push(13u8);
        }
        out.push(b);
        i = i + 1;
        proof {
            if b == 10u8 {
                assert(out@ =~= wire_bytes(bytes@.take(i - 1)) + seq![13u8, 10u8]);
            }
        }
    }
    assert(bytes@.take(i as int) =~= bytes@);
    out
}

/// `"0x"` followed by the sixteen hexadecimal digits of `v`.
pub open spec fn hex64_text(v: u64) -> Seq<u8> {
    seq![48u8, 120u8] + hex16(v)
}

/// The bytes that printing `v` in hexadecimal sends.
pub fn print_hex64(v: u64) -> (r: Vec<u8>)
    ensures
        r@ == hex64_text(v),
{
    let mut out: Vec<u8> = Vec::new();
    out.push(48u8);
    out.push(120u8);
    let digits = hex16_digits(v);
    let mut i: usize = 0;
    while i < digits.len()
        invariant
            i <= digits@.len(),
            digits@ == hex16(v),
            out@ =~= seq![48u8, 120u8] + digits@.take(i as int),
        decreases digits.len() - i,
    {
        out.push(digits[i]);
        i = i + 1;
    }
    assert(digits@.take(i as int) =~= digits@);
    out
}

/// The bytes that printing `v` in decimal sends.
pub fn print_usize(v: usize) -> (r: Vec<u8>)
    ensures
        r@ == dec_digits(v as nat),
{
    decimal_digits(v as u64)
}

} // verus!
