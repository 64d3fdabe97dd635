//! Verified core of a small x86_64 hobby kernel: device protocols, interrupt
//! routing, physical/virtual memory management, the kernel heap, the task
//! table and scheduler, the framebuffer terminal and the command shell.
use vstd::prelude::*;

pub mod device;
pub mod fatal;
pub mod interrupt;
pub mod memory;
pub mod multitask;
pub mod shell;
pub mod text;
pub mod ui;
