# hobby_kernel

The core of a small x86_64 kernel, written in Verus: the kernel's data
structures and most of its decisions are verified functions, and a crate in
`app/` performs what those functions ask for on the machine. `app/` also holds
what cannot be verified here: the boot loader interface, port and register
access, the interrupt entry stubs and the order in which the interrupt
handler calls registered handlers, the context switch, the spin lock, the
memory allocator for the library's vectors, and the heap test's writes and
reads of heap memory. Before each library call with a precondition, `app/`
tests it, with the library's own readiness functions where there is one
(`map_ready`, `kmalloc_init_ready`, `kmalloc_ready`).

## Layout

- `src/device`: the COM1 serial port (initialisation, what printing sends),
  the PS/2 keyboard (scancode translation, the key buffer).
- `src/interrupt`: the interrupt descriptor table and the routing of
  vectors, the exception reports, the 8259 PICs and the local APIC mapping,
  the PIT, and the system calls.
- `src/memory`: the physical frame allocator (a bitmap built from the boot
  memory map), four-level page tables over a model of physical memory, and
  the first-fit kernel heap.
- `src/multitask`: the task table, the round-robin scheduler's decisions and
  the demonstration tasks.
- `src/ui`: the framebuffer terminal drawing PSF2 glyphs.
- `src/shell.rs`: the command line editor, parser and commands.
- `src/fatal.rs`: what a kernel panic shows.
- `app/`: boot loader requests (limine), port and register access,
  interrupt entry stubs, the context switch and the task loops.

Each module states its behaviour as `requires`/`ensures` over spec
functions, and the laws that tie operations together (a frame freed after
allocation restores the allocator, a mapped page translates, the key buffer
is first in first out, and so on) are public proof functions next to the
code they speak of. `tests/` runs the library on concrete values.
