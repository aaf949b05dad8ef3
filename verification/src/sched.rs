//! Per-core scheduler state.
//!
//! Each logical core runs one `ProcessorScheduler`: an owned ready queue of
//! thread handles, a weak reference to the process whose address space is
//! installed, and the thread currently executing. Dispatch is O(1) at the
//! front of the queue; the long-term scheduler refills queues by scanning
//! the whole process tree.

use vstd::prelude::*;

verus! {

/// The fixed base weight every ready thread carries in a long-term scan.
pub const THREAD_BASE_WEIGHT: usize = 100;

/// One core's scheduler state, created once at boot and never torn down.
pub struct ProcessorScheduler {
    pub ready_queue: Vec<usize>,
    pub current_process: Option<usize>,
    pub current_thread: Option<usize>,
}

impl ProcessorScheduler {
    pub fn new() -> (r: ProcessorScheduler)
        ensures
            r.ready_queue@.len() == 0,
            r.current_process is None,
            r.current_thread is None,
    {
        ProcessorScheduler { ready_queue: Vec::new(), current_process: None, current_thread: None }
    }
}

} // verus!
