//! The user-side runtime pieces: page-granular buffers and their
//! reconfiguration arithmetic.
//!
//! A buffer is a run of pages; creating or dropping one maps or unmaps its
//! run through the Map syscall, which the surrounding runtime performs. The
//! splitting arithmetic here is pure: it decides what to map or unmap and
//! how the run divides, and the runtime carries the action out.

use vstd::prelude::*;

verus! {

/// Bytes per page, as the buffer arithmetic uses it.
pub const BUFFER_PAGE_SIZE: usize = 4096;

/// A run of `page_length` pages starting at `page_index`.
#[derive(Clone, Copy, Debug, PartialEq, Eq, Structural)]
pub struct Buffer {
    pub page_index: usize,
    pub page_length: usize,
}

/// What the runtime must do to the address space to realise a
/// reconfiguration: nothing, or map or unmap one run of pages.
#[derive(Clone, Copy, Debug, PartialEq, Eq, Structural)]
pub enum BufferAction {
    Keep,
    MapRange { page_index: usize, page_count: usize },
    UnmapRange { page_index: usize, page_count: usize },
}

impl Buffer {
    /// A buffer over the given run.
    pub fn new(page_index: usize, page_length: usize) -> (r: Buffer)
        requires
            page_index + page_length <= usize::MAX,
        ensures
            r.page_index == page_index,
            r.page_length == page_length,
    {
        Buffer { page_index, page_length }
    }

    /// The buffer's length in bytes.
    pub fn len(&self) -> (r: usize)
        requires
            self.page_length * BUFFER_PAGE_SIZE <= usize::MAX,
        ensures
            r == self.page_length * BUFFER_PAGE_SIZE,
    {
        self.page_length * BUFFER_PAGE_SIZE
    }

    /// Splits the buffer into two adjacent buffers of the given page counts
    /// and says what the runtime must map or unmap: the tail is unmapped
    /// when the new lengths fall short of the old, a fresh run is mapped
    /// when they exceed it, and nothing moves when they match exactly.
    pub fn reconfigure(self, first_page_length: usize, second_page_length: usize) -> (r: (
        Buffer,
        Buffer,
        BufferAction,
    ))
        requires
            first_page_length + second_page_length <= usize::MAX - self.page_index,
            self.page_index + self.page_length <= usize::MAX,
        ensures
            r.0 == (Buffer { page_index: self.page_index, page_length: first_page_length }),
            r.1 == (Buffer {
                page_index: (self.page_index + first_page_length) as usize,
                page_length: second_page_length,
            }),
            first_page_length + second_page_length < self.page_length ==> r.2
                == (BufferAction::UnmapRange {
                page_index: (self.page_index + first_page_length + second_page_length) as usize,
                page_count: (self.page_length - first_page_length - second_page_length) as usize,
            }),
            first_page_length + second_page_length > self.page_length ==> r.2
                == (BufferAction::MapRange {
                page_index: (self.page_index + self.page_length) as usize,
                page_count: (first_page_length + second_page_length - self.page_length) as usize,
            }),
            first_page_length + second_page_length == self.page_length ==> r.2
                == BufferAction::Keep,
    {
        let total = first_page_length + second_page_length;
        let action = if total < self.page_length {
            BufferAction::UnmapRange {
                page_index: self.page_index + total,
                page_count: self.page_length - total,
            }
        } else if total > self.page_length {
            BufferAction::MapRange {
                page_index: self.page_index + self.page_length,
                page_count: total - self.page_length,
            }
        } else {
            BufferAction::Keep
        };
        (
            Buffer { page_index: self.page_index, page_length: first_page_length },
            Buffer {
                page_index: self.page_index + first_page_length,
                page_length: second_page_length,
            },
            action,
        )
    }
}

/// The emulator's exit classes; writing the code to the exit port is the
/// debug edge's business.
#[derive(Clone, Copy, Debug, PartialEq, Eq, Structural)]
pub enum ExitCode {
    Success,
    Failure,
}

impl ExitCode {
    /// The word the exit port expects for this class.
    pub fn code(self) -> (r: u32)
        ensures
            self is Success ==> r == 0x10,
            self is Failure ==> r == 0x11,
    {
        match self {
            ExitCode::Success => 0x10,
            ExitCode::Failure => 0x11,
        }
    }
}

} // verus!
