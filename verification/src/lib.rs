//! Dynamic-memory subsystem of a freestanding kernel: a monotonic bump
//! allocator, a first-fit free-list heap, and a size-class allocator layered
//! on top of it, all behind a busy-wait exclusive-access wrapper, together
//! with the small decision tables of the surrounding kernel.

pub mod allocator;
pub mod interrupts;
pub mod memory;
pub mod vga_buffer;
