//! Inter-process communication for a small kernel: bounded message queues,
//! named endpoints and the system-call layer that reaches them.

pub mod ringbuffer;
pub mod endpoint;
pub mod registry;
pub mod model;
pub mod ipc;
pub mod syscall;
pub mod laws;
