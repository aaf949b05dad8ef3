//! Core of a microkernel: physical frame allocation, per-process address
//! spaces, the process/thread tree, path-addressed synchronous IPC, and the
//! two-level scheduler, together with the contracts each component obeys.
//!
//! Hardware access (page-table walks in physical memory, port output, control
//! registers) lives outside this crate; here every structure is modelled as
//! owned data, so the resource-ownership rules — exclusive frame ownership,
//! atomic frame transfer with message status, downward-only ownership in the
//! process tree — are stated and machine-checked.

pub mod error;
pub mod frame;
pub mod ipc;
pub mod kernel;
pub mod laws;
pub mod mapping;
pub mod page;
pub mod proc;
pub mod sched;
pub mod stack;
pub mod syscall;
pub mod userspace;
