//! Process, address-space and synchronization model of a small single-core
//! kernel, with the system-call layer written as verified transitions over it.

pub mod mm;
pub mod primitives;
pub mod semaphore;
pub mod task;
pub mod process;
pub mod kernel;
pub mod sys_sync;
pub mod sys_process;
