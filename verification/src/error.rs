//! The kernel's error taxonomy.
//!
//! Boot-time, one-shot initialisation failures are fatal to the caller;
//! steady-state per-request failures are surfaced to the calling thread as a
//! value of this type, never as a system-wide halt.

use vstd::prelude::*;

verus! {

/// Every way a kernel request can fail.
#[derive(Clone, Copy, Debug, PartialEq, Eq, Structural)]
pub enum KernelError {
    /// No free physical frame exists anywhere in the bitmap.
    ResourceExhaustion,
    /// An allocator operation was attempted before initialisation.
    AllocatorNotReady,
    /// A page-table insert or lookup was rejected (page already mapped,
    /// page outside the user half, or frame already referenced).
    MappingFailure,
    /// The descriptor's state mask does not permit the requested operation.
    PermissionDenied,
    /// The server or process on the other end of an IPC exchange is gone.
    PeerGone,
    /// Unknown syscall selector or malformed argument.
    ProtocolMisuse,
}

impl KernelError {
    /// The error word of the syscall ABI: zero is reserved for success, so
    /// every error maps to a distinct nonzero word.
    pub fn code(self) -> (r: u64)
        ensures
            r == self.spec_code(),
            r != 0,
    {
        match self {
            KernelError::ResourceExhaustion => 1,
            KernelError::AllocatorNotReady => 2,
            KernelError::MappingFailure => 3,
            KernelError::PermissionDenied => 4,
            KernelError::PeerGone => 5,
            KernelError::ProtocolMisuse => 6,
        }
    }

    /// The word `code` returns, as a specification-level function.
    pub open spec fn spec_code(self) -> u64 {
        match self {
            KernelError::ResourceExhaustion => 1,
            KernelError::AllocatorNotReady => 2,
            KernelError::MappingFailure => 3,
            KernelError::PermissionDenied => 4,
            KernelError::PeerGone => 5,
            KernelError::ProtocolMisuse => 6,
        }
    }

    /// A human-readable rendering, for the debug console at the crate's edge.
    pub fn describe(self) -> String {
        match self {
            KernelError::ResourceExhaustion => "resource exhaustion".to_string(),
            KernelError::AllocatorNotReady => "allocator not ready".to_string(),
            KernelError::MappingFailure => "mapping failure".to_string(),
            KernelError::PermissionDenied => "permission denied".to_string(),
            KernelError::PeerGone => "peer gone".to_string(),
            KernelError::ProtocolMisuse => "protocol misuse".to_string(),
        }
    }
}

} // verus!
