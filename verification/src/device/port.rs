//! A write to an x86 I/O port, as computed by the library and performed by
//! the caller.
use vstd::prelude::*;

verus! {

/// Write `value` to I/O port `port`.
#[derive(Clone, Copy, Debug, PartialEq, Eq, Structural)]
pub struct PortWrite {
    pub port: u16,
    pub value: u8,
}

/// The port write `(port, value)`.
pub open spec fn pw(port: u16, value: u8) -> PortWrite {
    PortWrite { port, value }
}

} // verus!
