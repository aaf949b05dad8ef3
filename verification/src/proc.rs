//! Processes and threads: the tree nodes and schedulable units.
//!
//! Ownership flows strictly downward — a process owns its address space, its
//! threads, and its children — while every back-reference (thread to
//! process, process to parent) is a plain index, never an owning link.
//! Within the kernel's arenas an index is a weak handle: the holder must
//! check liveness before use.

use vstd::prelude::*;

use crate::ipc::Descriptor;
use crate::page::ManagedPageTable;
use crate::stack::SyscallStack;

verus! {

/// The thread state machine. `Aborted` is terminal; the index payloads name
/// the core executing the thread, the server it awaits a request on, or the
/// message it awaits a response to.
#[derive(Clone, Copy, Debug, PartialEq, Eq, Structural)]
pub enum Status {
    Ready,
    Aborted,
    Executing(usize),
    AwaitingRequest(usize),
    AwaitingResponse(usize),
}

/// Per-thread user trap vectors, one word per fault class.
#[derive(Clone, Copy, Debug, PartialEq, Eq, Structural)]
pub struct PanicVectors {
    pub emergency: u64,
    pub divide: u64,
    pub debug: u64,
    pub breakpoint: u64,
    pub overflow: u64,
    pub bound: u64,
    pub opcode: u64,
    pub device: u64,
    pub double: u64,
    pub stack: u64,
    pub protection: u64,
    pub page: u64,
    pub floating: u64,
    pub simd: u64,
    pub control: u64,
    pub security: u64,
}

impl PanicVectors {
    /// All vectors unset.
    pub fn empty() -> (r: PanicVectors)
        ensures
            r == PanicVectors::spec_empty(),
    {
        PanicVectors {
            emergency: 0,
            divide: 0,
            debug: 0,
            breakpoint: 0,
            overflow: 0,
            bound: 0,
            opcode: 0,
            device: 0,
            double: 0,
            stack: 0,
            protection: 0,
            page: 0,
            floating: 0,
            simd: 0,
            control: 0,
            security: 0,
        }
    }

    /// The all-zero vector table.
    pub open spec fn spec_empty() -> PanicVectors {
        PanicVectors {
            emergency: 0,
            divide: 0,
            debug: 0,
            breakpoint: 0,
            overflow: 0,
            bound: 0,
            opcode: 0,
            device: 0,
            double: 0,
            stack: 0,
            protection: 0,
            page: 0,
            floating: 0,
            simd: 0,
            control: 0,
            security: 0,
        }
    }
}

/// The register snapshot the trap path restores on return to the thread.
#[derive(Clone, Copy, Debug, PartialEq, Eq, Structural)]
pub struct InterruptFrame {
    pub instruction_pointer: u64,
    pub code_segment: u64,
    pub cpu_flags: u64,
    pub stack_pointer: u64,
    pub stack_segment: u64,
}

/// A schedulable unit, owned by exactly one process and referenced weakly by
/// whichever core currently executes it. Priority has three components: the
/// user-set value, the scheduler-granted (propagated) value, and the
/// inherited boost from servers this thread services.
pub struct Thread {
    pub general_registers: [u64; 16],
    pub stack_pointer: usize,
    pub interrupt_frame: InterruptFrame,
    pub status: Status,
    pub set_priority: u64,
    pub propagated_priority: u64,
    pub inherited_priority: u64,
    pub kernel_stack: SyscallStack,
    pub panic_vectors: PanicVectors,
    pub fs_base: u64,
    pub gs_base: u64,
    /// Weak back-reference to the owning process.
    pub process: usize,
}

/// A thread's effective priority: the largest of its user-set, scheduler-
/// propagated and inherited components.
pub open spec fn spec_effective_priority(t: Thread) -> u64 {
    if t.set_priority >= t.propagated_priority && t.set_priority >= t.inherited_priority {
        t.set_priority
    } else if t.propagated_priority >= t.inherited_priority {
        t.propagated_priority
    } else {
        t.inherited_priority
    }
}

impl Thread {
    /// The largest of the three priority components.
    pub fn effective_priority(&self) -> (r: u64)
        ensures
            r == spec_effective_priority(*self),
    {
        if self.set_priority >= self.propagated_priority && self.set_priority
            >= self.inherited_priority {
            self.set_priority
        } else if self.propagated_priority >= self.inherited_priority {
            self.propagated_priority
        } else {
            self.inherited_priority
        }
    }
}

/// A process-tree node: priorities, the weak parent back-reference, the
/// exclusively owned address space, and the owned thread, child, message,
/// server and descriptor lists. A process is destroyed only after its thread
/// list is empty and its children are gone.
pub struct Process {
    pub set_priority: u64,
    pub propagated_priority: u64,
    pub parent: Option<usize>,
    pub pages: ManagedPageTable,
    pub threads: Vec<usize>,
    pub children: Vec<usize>,
    /// Outbound requests still in flight (weak message handles).
    pub requests: Vec<usize>,
    /// Inbound responded messages.
    pub responses: Vec<usize>,
    pub servers: Vec<usize>,
    pub descriptors: Vec<Descriptor>,
    pub alive: bool,
}

} // verus!
