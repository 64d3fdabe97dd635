//! System calls through `int 0x80`: decoding, and the work of write and read.
use vstd::prelude::*;
use crate::interrupt::idt::InterruptFrame;
use crate::device::keyboard::KeyBuffer;
use crate::ui::terminal::{Terminal, put_chars, byte_chars};

verus! {

pub const SYS_WRITE: u64 = 0;
pub const SYS_READ: u64 = 1;
pub const SYS_REBOOT: u64 = 2;
/// Most bytes one write call accepts.
pub const MAX_WRITE: usize = 4096;

/// A decoded system call.
#[derive(Clone, Copy, Debug, PartialEq, Eq)]
pub enum Syscall {
    Write { fd: u64, buf: u64, len: usize },
    Read { fd: u64, buf: u64, len: usize },
    Reboot,
    /// An unknown number; the call returns `u64::MAX`.
    Invalid,
}

/// The call that `frame` asks for: number in rax, arguments in rdi, rsi,
/// rdx.
pub open spec fn decoded(frame: InterruptFrame) -> Syscall {
    if frame.rax == SYS_WRITE {
        Syscall::Write { fd: frame.rdi, buf: frame.rsi, len: frame.rdx as usize }
    } else if frame.rax == SYS_READ {
        Syscall::Read { fd: frame.rdi, buf: frame.rsi, len: frame.rdx as usize }
    } else if frame.rax == SYS_REBOOT {
        Syscall::Reboot
    } else {
        Syscall::Invalid
    }
}

/// Decodes the call in `frame`: number in rax, arguments in rdi, rsi, rdx.
pub fn dispatch(frame: &InterruptFrame) -> (r: Syscall)
    ensures
        r == decoded(*frame),
{
    if frame.rax == SYS_WRITE {
        Syscall::Write { fd: frame.rdi, buf: frame.rsi, len: frame.rdx as usize }
    } else if frame.rax == SYS_READ {
        Syscall::Read { fd: frame.rdi, buf: frame.rsi, len: frame.rdx as usize }
    } else if frame.rax == SYS_REBOOT {
        Syscall::Reboot
    } else {
        Syscall::Invalid
    }
}

/// Stores a call's result in rax.
pub fn set_result(frame: &mut InterruptFrame, result: u64)
    ensures
        *final(frame) == (InterruptFrame { rax: result, ..*old(frame) }),
{
    frame.rax = result;
}

/// Whether a write of `len` bytes from `buf` is accepted: a non-null
/// buffer and 1 to 4096 bytes.
pub open spec fn write_ok(buf: u64, len: usize) -> bool {
    buf != 0 && len != 0 && len <= MAX_WRITE
}

/// Writes `bytes` (the `len` bytes at `buf`) to the terminal as characters;
/// returns `len`, or `u64::MAX` for a rejected call (nothing written).
pub fn sys_write(term: &mut Terminal, buf: u64, len: usize, bytes: &[u8]) -> (r: u64)
    requires
        old(term).wf(),
        write_ok(buf, len) ==> bytes@.len() == len,
    ensures
        final(term).wf(),
        final(term).geom() == old(term).geom(),
        write_ok(buf, len) ==> r == len && final(term).screen() == put_chars(
            old(term).geom(),
            old(term).screen(),
            byte_chars(bytes@),
        ),
        !write_ok(buf, len) ==> r == u64::MAX && final(term).screen() == old(term).screen(),
{
    if buf == 0 || len == 0 || len > MAX_WRITE {
        return u64::MAX;
    }
    let ghost g = term.geom();
    let ghost s0 = term.screen();
    let mut i: usize = 0;
    while i < len
        invariant
            i <= len,
            len == bytes@.len(),
            term.wf(),
            term.geom() == g,
            term.screen() == put_chars(g, s0, byte_chars(bytes@.take(i as int))),
        decreases len - i,
    {
        assert(byte_chars(bytes@.take(i + 1)).drop_last() =~= byte_chars(bytes@.take(i as int)));
        term.putc(bytes[i] as char);
        i = i + 1;
    }
    assert(bytes@.take(i as int) =~= bytes@);
    len as u64
}

/// Takes up to `len` typed bytes, oldest first, for the buffer at `buf`;
/// returns the count (or `u64::MAX` for a null buffer or zero length) and
/// the bytes to store.
pub fn sys_read(keys: &mut KeyBuffer, buf: u64, len: usize) -> (r: (u64, Vec<u8>))
    requires
        old(keys).wf(),
    ensures
        final(keys).wf(),
        buf == 0 || len == 0 ==> r.0 == u64::MAX && r.1@ == Seq::<u8>::empty() && final(keys)@ == old(keys)@,
        buf != 0 && len != 0 ==> {
            let n = if old(keys)@.len() < len {
                old(keys)@.len()
            } else {
                len as nat
            };
            &&& r.0 == n
            &&& r.1@ == old(keys)@.take(n as int)
            &&& final(keys)@ == old(keys)@.skip(n as int)
        },
{
    let mut out: Vec<u8> = Vec::new();
    if buf == 0 || len == 0 {
        return (u64::MAX, out);
    }
    let mut count: usize = 0;
    while count < len
        invariant
            buf != 0,
            len != 0,
            count <= len,
            keys.wf(),
            count <= old(keys)@.len(),
            out@ == old(keys)@.take(count as int),
            keys@ == old(keys)@.skip(count as int),
        decreases len - count,
    {
        match keys.pop() {
            Some(b) => {
                out.push(b);
                count = count + 1;
                assert(out@ =~= old(keys)@.take(count as int));
                assert(keys@ =~= old(keys)@.skip(count as int));
            },
            None => {
                assert(old(keys)@.skip(count as int).len() == 0);
                return (count as u64, out);
            },
        }
    }
    (count as u64, out)
}

/// What the caller does once a system call has been handled.
#[derive(Debug)]
pub enum SyscallOutcome {
    /// Nothing more: rax holds the result.
    Done,
    /// Store these bytes at the read call's buffer.
    Store(Vec<u8>),
    /// Reset the machine; the call does not return.
    Reboot,
}

/// The result a write call leaves in rax.
pub open spec fn write_result(buf: u64, len: usize) -> u64 {
    if write_ok(buf, len) {
        len as u64
    } else {
        u64::MAX
    }
}

/// Handles the system call in `frame`. A write puts its `len` bytes (given
/// in `user`, read from its buffer) on the terminal when there is one and
/// answers `len`, or `u64::MAX` for a null buffer or a length outside 1 to
/// 4096; a read takes up to `len` typed bytes for its buffer and answers
/// their count, or `u64::MAX` for a null buffer or a zero length; reboot
/// leaves the frame as it is; any other number answers `u64::MAX`. The
/// answer is stored in rax; no other register changes.
pub fn handle_syscall(
    frame: &mut InterruptFrame,
    term: Option<Terminal>,
    keys: &mut KeyBuffer,
    user: &[u8],
) -> (r: (Option<Terminal>, SyscallOutcome))
    requires
        old(keys).wf(),
        term matches Some(t) ==> t.wf(),
        decoded(*old(frame)) matches Syscall::Write { fd, buf, len } ==> (write_ok(buf, len)
            ==> user@.len() == len),
    ensures
        final(keys).wf(),
        (r.0 is Some) == (term is Some),
        match decoded(*old(frame)) {
            Syscall::Write { fd, buf, len } => {
                &&& *final(frame) == (InterruptFrame { rax: write_result(buf, len), ..*old(frame) })
                &&& r.1 is Done
                &&& final(keys)@ == old(keys)@
                &&& term matches Some(t) ==> (r.0 matches Some(t2) && t2.wf() && t2.geom() == t.geom()
                    && t2.screen() == if write_ok(buf, len) {
                    put_chars(t.geom(), t.screen(), byte_chars(user@))
                } else {
                    t.screen()
                })
            },
            Syscall::Read { fd, buf, len } => {
                let n = if old(keys)@.len() < len {
                    old(keys)@.len()
                } else {
                    len as nat
                };
                &&& r.0 == term
                &&& buf == 0 || len == 0 ==> {
                    &&& *final(frame) == (InterruptFrame { rax: u64::MAX, ..*old(frame) })
                    &&& r.1 matches SyscallOutcome::Store(v) && v@ == Seq::<u8>::empty()
                    &&& final(keys)@ == old(keys)@
                }
                &&& buf != 0 && len != 0 ==> {
                    &&& *final(frame) == (InterruptFrame { rax: n as u64, ..*old(frame) })
                    &&& r.1 matches SyscallOutcome::Store(v) && v@ == old(keys)@.take(n as int)
                    &&& final(keys)@ == old(keys)@.skip(n as int)
                }
            },
            Syscall::Reboot => {
                &&& *final(frame) == *old(frame)
                &&& r.1 is Reboot
                &&& r.0 == term
                &&& final(keys)@ == old(keys)@
            },
            Syscall::Invalid => {
                &&& *final(frame) == (InterruptFrame { rax: u64::MAX, ..*old(frame) })
                &&& r.1 is Done
                &&& r.0 == term
                &&& final(keys)@ == old(keys)@
            },
        },
{
    match dispatch(frame) {
        Syscall::Write { fd: _, buf, len } => {
            let (term, result) = match term {
                Some(mut t) => {
                    let result = sys_write(&mut t, buf, len, user);
                    (Some(t), result)
                },
                None => {
                    let result = if buf == 0 || len == 0 || len > MAX_WRITE {
                        u64::MAX
                    } else {
                        len as u64
                    };
                    (None, result)
                },
            };
            set_result(frame, result);
            (term, SyscallOutcome::Done)
        },
        Syscall::Read { fd: _, buf, len } => {
            let (n, bytes) = sys_read(keys, buf, len);
            set_result(frame, n);
            (term, SyscallOutcome::Store(bytes))
        },
        Syscall::Reboot => (term, SyscallOutcome::Reboot),
        Syscall::Invalid => {
            set_result(frame, u64::MAX);
            (term, SyscallOutcome::Done)
        },
    }
}

} // verus!
