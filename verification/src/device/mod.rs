//! PS/2 keyboard and 16550 serial port.
pub mod keyboard;
pub mod port;
pub mod serial;
