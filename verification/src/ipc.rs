//! IPC building blocks: permitted-operation masks, capability descriptors,
//! namespace bindings, servers and messages.
//!
//! A descriptor names a path relative to a server and carries a state mask;
//! every descriptor operation maps to exactly one outbound message and is
//! permission-gated by that mask before any message is built. Bindings
//! redirect a path prefix into another server, filtered by a mask of their
//! own, giving union/overlay namespace semantics.

use vstd::prelude::*;

verus! {

/// The permitted-operation mask of a descriptor or binding.
#[derive(Clone, Copy, Debug, PartialEq, Eq, Structural)]
pub struct State {
    pub walk: bool,
    pub rename: bool,
    pub make: bool,
    pub remove: bool,
    pub read: bool,
    pub insert: bool,
    pub overwrite: bool,
    pub truncate: bool,
    pub seek_forward: bool,
    pub seek_backward: bool,
    pub seek_start: bool,
    pub seek_end: bool,
    pub tell: bool,
    pub lock: bool,
}

/// The operations a state mask gates.
#[derive(Clone, Copy, Debug, PartialEq, Eq, Structural)]
pub enum DescriptorOp {
    Walk,
    Rename,
    Make,
    Remove,
    Read,
    Insert,
    Overwrite,
    Truncate,
    SeekForward,
    SeekBackward,
    SeekStart,
    SeekEnd,
    Tell,
    Lock,
}

impl State {
    /// Whether the mask permits the operation.
    pub open spec fn spec_permits(self, op: DescriptorOp) -> bool {
        match op {
            DescriptorOp::Walk => self.walk,
            DescriptorOp::Rename => self.rename,
            DescriptorOp::Make => self.make,
            DescriptorOp::Remove => self.remove,
            DescriptorOp::Read => self.read,
            DescriptorOp::Insert => self.insert,
            DescriptorOp::Overwrite => self.overwrite,
            DescriptorOp::Truncate => self.truncate,
            DescriptorOp::SeekForward => self.seek_forward,
            DescriptorOp::SeekBackward => self.seek_backward,
            DescriptorOp::SeekStart => self.seek_start,
            DescriptorOp::SeekEnd => self.seek_end,
            DescriptorOp::Tell => self.tell,
            DescriptorOp::Lock => self.lock,
        }
    }

    /// The all-denying mask.
    pub fn new() -> (r: State)
        ensures
            forall|op: DescriptorOp| !r.spec_permits(op),
    {
        State {
            walk: false,
            rename: false,
            make: false,
            remove: false,
            read: false,
            insert: false,
            overwrite: false,
            truncate: false,
            seek_forward: false,
            seek_backward: false,
            seek_start: false,
            seek_end: false,
            tell: false,
            lock: false,
        }
    }

    /// Whether the mask permits the operation.
    pub fn permits(&self, op: DescriptorOp) -> (r: bool)
        ensures
            r == self.spec_permits(op),
    {
        match op {
            DescriptorOp::Walk => self.walk,
            DescriptorOp::Rename => self.rename,
            DescriptorOp::Make => self.make,
            DescriptorOp::Remove => self.remove,
            DescriptorOp::Read => self.read,
            DescriptorOp::Insert => self.insert,
            DescriptorOp::Overwrite => self.overwrite,
            DescriptorOp::Truncate => self.truncate,
            DescriptorOp::SeekForward => self.seek_forward,
            DescriptorOp::SeekBackward => self.seek_backward,
            DescriptorOp::SeekStart => self.seek_start,
            DescriptorOp::SeekEnd => self.seek_end,
            DescriptorOp::Tell => self.tell,
            DescriptorOp::Lock => self.lock,
        }
    }

    pub fn walk(self, value: bool) -> (r: State)
        ensures
            r == (State { walk: value, ..self }),
    {
        State { walk: value, ..self }
    }

    pub fn rename(self, value: bool) -> (r: State)
        ensures
            r == (State { rename: value, ..self }),
    {
        State { rename: value, ..self }
    }

    pub fn make(self, value: bool) -> (r: State)
        ensures
            r == (State { make: value, ..self }),
    {
        State { make: value, ..self }
    }

    pub fn remove(self, value: bool) -> (r: State)
        ensures
            r == (State { remove: value, ..self }),
    {
        State { remove: value, ..self }
    }

    pub fn read(self, value: bool) -> (r: State)
        ensures
            r == (State { read: value, ..self }),
    {
        State { read: value, ..self }
    }

    pub fn insert(self, value: bool) -> (r: State)
        ensures
            r == (State { insert: value, ..self }),
    {
        State { insert: value, ..self }
    }

    pub fn overwrite(self, value: bool) -> (r: State)
        ensures
            r == (State { overwrite: value, ..self }),
    {
        State { overwrite: value, ..self }
    }

    pub fn truncate(self, value: bool) -> (r: State)
        ensures
            r == (State { truncate: value, ..self }),
    {
        State { truncate: value, ..self }
    }

    pub fn seek_forward(self, value: bool) -> (r: State)
        ensures
            r == (State { seek_forward: value, ..self }),
    {
        State { seek_forward: value, ..self }
    }

    pub fn seek_backward(self, value: bool) -> (r: State)
        ensures
            r == (State { seek_backward: value, ..self }),
    {
        State { seek_backward: value, ..self }
    }

    pub fn seek_start(self, value: bool) -> (r: State)
        ensures
            r == (State { seek_start: value, ..self }),
    {
        State { seek_start: value, ..self }
    }

    pub fn seek_end(self, value: bool) -> (r: State)
        ensures
            r == (State { seek_end: value, ..self }),
    {
        State { seek_end: value, ..self }
    }

    pub fn tell(self, value: bool) -> (r: State)
        ensures
            r == (State { tell: value, ..self }),
    {
        State { tell: value, ..self }
    }

    pub fn lock(self, value: bool) -> (r: State)
        ensures
            r == (State { lock: value, ..self }),
    {
        State { lock: value, ..self }
    }
}

/// The message tag under which each descriptor operation travels; tags are
/// pairwise distinct, so one operation maps to exactly one message shape.
pub fn operation_tag(op: DescriptorOp) -> (r: u64)
    ensures
        r == spec_operation_tag(op),
{
    match op {
        DescriptorOp::Walk => 0,
        DescriptorOp::Rename => 1,
        DescriptorOp::Make => 2,
        DescriptorOp::Remove => 3,
        DescriptorOp::Read => 4,
        DescriptorOp::Insert => 5,
        DescriptorOp::Overwrite => 6,
        DescriptorOp::Truncate => 7,
        DescriptorOp::SeekForward => 8,
        DescriptorOp::SeekBackward => 9,
        DescriptorOp::SeekStart => 10,
        DescriptorOp::SeekEnd => 11,
        DescriptorOp::Tell => 12,
        DescriptorOp::Lock => 13,
    }
}

/// The tag of each operation, as a specification-level function.
pub open spec fn spec_operation_tag(op: DescriptorOp) -> u64 {
    match op {
        DescriptorOp::Walk => 0,
        DescriptorOp::Rename => 1,
        DescriptorOp::Make => 2,
        DescriptorOp::Remove => 3,
        DescriptorOp::Read => 4,
        DescriptorOp::Insert => 5,
        DescriptorOp::Overwrite => 6,
        DescriptorOp::Truncate => 7,
        DescriptorOp::SeekForward => 8,
        DescriptorOp::SeekBackward => 9,
        DescriptorOp::SeekStart => 10,
        DescriptorOp::SeekEnd => 11,
        DescriptorOp::Tell => 12,
        DescriptorOp::Lock => 13,
    }
}

/// A capability: a weak reference to a server, a path relative to it, and
/// the mask of operations the holder may request. Cloning a descriptor
/// duplicates the handle and grants no additional ownership of the target.
#[derive(Clone)]
pub struct Descriptor {
    pub server: usize,
    pub path: Vec<u8>,
    pub state_mask: State,
}

impl Descriptor {
    /// Gates one operation on the state mask: the permission check that runs
    /// before any message is built.
    pub fn check_operation(&self, op: DescriptorOp) -> (r: Result<(), crate::error::KernelError>)
        ensures
            match r {
                Ok(()) => self.state_mask.spec_permits(op),
                Err(e) => {
                    &&& e == crate::error::KernelError::PermissionDenied
                    &&& !self.state_mask.spec_permits(op)
                },
            },
    {
        if self.state_mask.permits(op) {
            Ok(())
        } else {
            Err(crate::error::KernelError::PermissionDenied)
        }
    }
}

/// A namespace overlay: requests whose path starts with `from_path` are
/// redirected into `to_server` under `to_path`, filtered by `state_mask`.
pub struct Binding {
    pub from_path: Vec<u8>,
    pub to_server: usize,
    pub to_path: Vec<u8>,
    pub state_mask: State,
}

/// The user-space server variant: a FIFO request queue, the in-flight set of
/// received messages, and the accumulated priority of blocked clients.
pub struct UserServer {
    pub requests: Vec<usize>,
    pub working: Vec<usize>,
    pub priority_sum: u64,
}

/// Server variants differ in few operations, so they are a tagged union with
/// exhaustive matching at each call site; kernel endpoints take no user
/// messages in this model.
pub enum ServerKind {
    User(UserServer),
    Kernel,
}

/// A named IPC endpoint, hosted by one process, with its ordered path
/// bindings.
pub struct Server {
    pub bindings: Vec<Binding>,
    pub kind: ServerKind,
    /// Weak back-reference to the hosting process.
    pub host: usize,
    pub alive: bool,
}

/// Message progress: strictly `Sent` to `Received` to `Responded`, never
/// skipping or reversing.
#[derive(Clone, Copy, Debug, PartialEq, Eq, Structural)]
pub enum MessageStatus {
    Sent,
    Received,
    Responded,
}

/// The rank of a status in the message lifecycle.
pub open spec fn status_rank(s: MessageStatus) -> int {
    match s {
        MessageStatus::Sent => 0,
        MessageStatus::Received => 1,
        MessageStatus::Responded => 2,
    }
}

/// One IPC exchange. Frame ownership — not byte content — travels with the
/// message: `frames` lists the transferred frames, `origin_pages` remembers
/// where in the sender's space they were unmapped, so the response can be
/// mapped back there. `boost` is the priority contribution added to the
/// server while this message is outstanding, and `failed` marks a message
/// forcibly resolved because its peer disappeared.
pub struct Message {
    pub tag: u64,
    pub frames: Vec<usize>,
    pub origin_pages: Vec<u64>,
    pub status: MessageStatus,
    /// Weak back-reference to the sending thread.
    pub sender: usize,
    pub server: usize,
    pub boost: u64,
    pub failed: bool,
}

/// The on-wire header of a message payload.
#[derive(Clone, Copy, Debug, PartialEq, Eq, Structural)]
pub struct MessageHeader {
    pub length: u64,
    pub tag: u64,
    pub offset: u64,
}

} // verus!
