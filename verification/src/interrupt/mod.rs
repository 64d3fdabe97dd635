//! Interrupt descriptor table, 8259 PIC, 8253 PIT and system calls.
pub mod idt;
pub mod pic;
pub mod pit;
pub mod syscall;
