//! Process- and memory-management core of a small teaching operating system.
//!
//! The crate models the kernel's state — the task arena, the ready queue,
//! the running task, per-task address spaces and the physical frame pool —
//! as one explicitly constructed [`kernel::Kernel`] value.  The syscall
//! layer mutates that value and every syscall's observable behaviour is
//! stated in its contract.  External collaborators (the program-image
//! loader, the elapsed-time source, the context-switch primitive and the
//! raw stores into user memory) stay outside: callers register program
//! images, advance the clock, and perform the stores that the syscalls
//! hand back as plain values.

pub mod config;
pub mod util;
pub mod frame_alloc;
pub mod memory_set;
pub mod loader;
pub mod task;
pub mod kernel;
pub mod syscall;
pub mod laws;
