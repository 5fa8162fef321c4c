//! Process-management core of a small teaching kernel: address spaces with
//! `mmap`/`munmap` regions, task control blocks, a stride scheduler, the
//! process lifecycle (`fork`, `exec`, `spawn`, `waitpid`, `exit`) and the
//! system-call dispatcher that ties them together.
//!
//! The kernel state is an explicit value, [`processor::Kernel`], that callers
//! own and pass by reference. Anything that touches hardware (the context
//! switch, the clock, address translation, the program loader) stays outside:
//! the functions here take what those sources produced as plain arguments and
//! return what has to be done next.

pub mod config;
pub mod fairness;
pub mod laws;
pub mod loader;
pub mod mm;
pub mod model;
pub mod processor;
pub mod syscall;
pub mod task;
