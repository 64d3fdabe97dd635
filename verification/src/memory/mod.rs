//! Physical page frames, page tables and the kernel heap.
pub mod heap;
pub mod pmm;
pub mod vmm;
