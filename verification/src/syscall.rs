//! The syscall boundary: a register-passed selector, up to five further
//! argument words, and one error/result pair coming back.
//!
//! The convention is fixed here once: the error word is zero on success and
//! carries the error's nonzero code otherwise; the second word is the
//! result. An unknown selector or a malformed argument is `ProtocolMisuse`.
//! Suspension happens only at these boundaries — they are the sole
//! cooperative yield points.

use vstd::prelude::*;

use crate::error::KernelError;
use crate::kernel::Kernel;

verus! {

/// The syscall selectors.
#[derive(Clone, Copy, Debug, PartialEq, Eq, Structural)]
pub enum Selector {
    Abort,
    MapPages,
    Length,
    Send,
    Query,
    Receive,
    Respond,
    Block,
    Check,
}

/// The register word of each selector.
pub open spec fn spec_selector_word(s: Selector) -> u64 {
    match s {
        Selector::Abort => 0,
        Selector::MapPages => 1,
        Selector::Length => 2,
        Selector::Send => 3,
        Selector::Query => 4,
        Selector::Receive => 5,
        Selector::Respond => 6,
        Selector::Block => 7,
        Selector::Check => 8,
    }
}

/// The selector a register word decodes to, if any.
pub open spec fn spec_decode(word: u64) -> Option<Selector> {
    if word == 0 {
        Some(Selector::Abort)
    } else if word == 1 {
        Some(Selector::MapPages)
    } else if word == 2 {
        Some(Selector::Length)
    } else if word == 3 {
        Some(Selector::Send)
    } else if word == 4 {
        Some(Selector::Query)
    } else if word == 5 {
        Some(Selector::Receive)
    } else if word == 6 {
        Some(Selector::Respond)
    } else if word == 7 {
        Some(Selector::Block)
    } else if word == 8 {
        Some(Selector::Check)
    } else {
        None
    }
}

impl Selector {
    /// Encodes the selector into its register word.
    pub fn to_word(self) -> (r: u64)
        ensures
            r == spec_selector_word(self),
    {
        match self {
            Selector::Abort => 0,
            Selector::MapPages => 1,
            Selector::Length => 2,
            Selector::Send => 3,
            Selector::Query => 4,
            Selector::Receive => 5,
            Selector::Respond => 6,
            Selector::Block => 7,
            Selector::Check => 8,
        }
    }

    /// Decodes a register word; every word nine or above is rejected.
    pub fn decode(word: u64) -> (r: Option<Selector>)
        ensures
            r == spec_decode(word),
    {
        if word == 0 {
            Some(Selector::Abort)
        } else if word == 1 {
            Some(Selector::MapPages)
        } else if word == 2 {
            Some(Selector::Length)
        } else if word == 3 {
            Some(Selector::Send)
        } else if word == 4 {
            Some(Selector::Query)
        } else if word == 5 {
            Some(Selector::Receive)
        } else if word == 6 {
            Some(Selector::Respond)
        } else if word == 7 {
            Some(Selector::Block)
        } else if word == 8 {
            Some(Selector::Check)
        } else {
            None
        }
    }
}

/// Round trip: every selector decodes back from its own word.
pub proof fn lemma_selector_round_trip(s: Selector)
    ensures
        spec_decode(spec_selector_word(s)) == Some(s),
{
}

/// The page list `[start, start + count)`, as a specification-level value.
pub open spec fn spec_page_range(start: u64, count: u64) -> Seq<u64> {
    Seq::new(count as nat, |i: int| (start + i) as u64)
}

/// Whether a page-range argument pair is well formed.
pub open spec fn spec_range_ok(start: u64, count: u64) -> bool {
    start + count <= u64::MAX && count <= 512
}

/// Builds the page list `[start, start + count)` that the page-range
/// syscalls pass.
fn page_range(start: u64, count: u64) -> (r: Option<Vec<u64>>)
    ensures
        match r {
            Some(v) => {
                &&& spec_range_ok(start, count)
                &&& v@.len() == count
                &&& forall|i: int| 0 <= i < count ==> v@[i] == start + i
                &&& v@ == spec_page_range(start, count)
            },
            None => !spec_range_ok(start, count),
        },
{
    if count > 512 {
        return None;
    }
    if start > u64::MAX - count {
        return None;
    }
    let mut v: Vec<u64> = Vec::new();
    let mut i: u64 = 0;
    while i < count
        invariant
            start + count <= u64::MAX,
            i <= count,
            v@.len() == i,
            forall|k: int| 0 <= k < i ==> v@[k] == start + k,
        decreases count - i,
    {
        v.push(start + i);
        i = i + 1;
    }
    proof {
        assert(v@ =~= spec_page_range(start, count));
    }
    Some(v)
}

/// Dispatches one trap: decodes the selector, runs the operation on behalf
/// of the thread executing on this core, and encodes the outcome as the
/// fixed error/result pair — zero error word on success, the error's code
/// otherwise. Unknown selectors change nothing and report `ProtocolMisuse`;
/// so does a trap on a core with no current thread. Each operation's exact
/// behaviour is its own contract; this function only marshals.
pub fn handle_syscall(k: &mut Kernel, core: usize, selector_word: u64, args: [u64; 5]) -> (r: (
    u64,
    u64,
))
    requires
        old(k).wf(),
        core < old(k).processors@.len(),
    ensures
        final(k).wf(),
        spec_decode(selector_word) is None ==> (*final(k) == *old(k) && r.0
            == KernelError::ProtocolMisuse.spec_code() && r.1 == 0),
        old(k).processors@[core as int].current_thread is None ==> (*final(k) == *old(k) && r.0
            == KernelError::ProtocolMisuse.spec_code() && r.1 == 0),
        ({
            let cur = old(k).processors@[core as int].current_thread;
            let tid = cur->Some_0 as int;
            (cur is Some && cur->Some_0 < old(k).threads@.len()) ==> match spec_decode(
                selector_word,
            ) {
                Some(sel) => match sel {
                    Selector::Abort => ((r.0 == 0) <==> old(k).threads@[tid].status
                        != crate::proc::Status::Aborted),
                    Selector::Length => {
                        &&& *final(k) == *old(k)
                        &&& (args[0] < old(k).messages@.len() ==> r == (
                        0u64,
                        old(k).messages@[args[0] as int].frames@.len() as u64,
                        ))
                        &&& (args[0] >= old(k).messages@.len() ==> r == (
                        KernelError::PeerGone.spec_code(),
                        0u64,
                        ))
                    },
                    Selector::Query => {
                        &&& *final(k) == *old(k)
                        &&& ((args[0] >= old(k).messages@.len() || old(
                            k,
                        ).messages@[args[0] as int].failed) ==> r == (
                        KernelError::PeerGone.spec_code(),
                        0u64,
                        ))
                        &&& ((args[0] < old(k).messages@.len() && !old(
                            k,
                        ).messages@[args[0] as int].failed) ==> r == (
                        0u64,
                        crate::ipc::status_rank(
                            old(k).messages@[args[0] as int].status,
                        ) as u64,
                        ))
                    },
                    Selector::Check => {
                        &&& *final(k) == *old(k)
                        &&& (args[0] >= old(k).servers@.len() ==> r == (
                        KernelError::PeerGone.spec_code(),
                        0u64,
                        ))
                        &&& ((args[0] < old(k).servers@.len() && old(
                            k,
                        ).servers@[args[0] as int].kind is Kernel) ==> r == (
                        KernelError::ProtocolMisuse.spec_code(),
                        0u64,
                        ))
                        &&& ((args[0] < old(k).servers@.len() && old(
                            k,
                        ).servers@[args[0] as int].kind is User) ==> r == (
                        0u64,
                        if old(k).servers@[args[0] as int].kind->User_0.requests@.len() > 0 {
                            1u64
                        } else {
                            0u64
                        },
                        ))
                    },
                    Selector::Block => ((r.0 == 0) <==> old(k).spec_block_ok(tid, args[0] as int)),
                    Selector::Send => ((r.0 == 0) <==> (spec_range_ok(args[2], args[3]) && old(k).spec_send_ok(tid, args[0] as int, spec_page_range(args[2], args[3])))),
                    Selector::Receive => {
                        &&& ((r.0 == 0) ==> (spec_range_ok(args[1], args[2]) && old(
                            k,
                        ).spec_receive_ready(
                            tid,
                            args[0] as int,
                            spec_page_range(args[1], args[2]),
                        )))
                        &&& ((spec_range_ok(args[1], args[2]) && old(k).spec_receive_ready(
                            tid as int,
                            args[0] as int,
                            spec_page_range(args[1], args[2]),
                        )) ==> (r.0 == 0 || (r.0 == KernelError::ResourceExhaustion.spec_code()
                            && final(k).the_alloc().spec_free_count() == 0)))
                    },
                    Selector::Respond => {
                        &&& ((r.0 == 0) ==> (spec_range_ok(args[2], args[3]) && old(
                            k,
                        ).spec_respond_ready(
                            tid,
                            args[0] as int,
                            args[1] as int,
                            spec_page_range(args[2], args[3]),
                        )))
                        &&& ((spec_range_ok(args[2], args[3]) && old(k).spec_respond_ready(
                            tid as int,
                            args[0] as int,
                            args[1] as int,
                            spec_page_range(args[2], args[3]),
                        )) ==> (r.0 == 0 || (r.0 == KernelError::ResourceExhaustion.spec_code()
                            && final(k).the_alloc().spec_free_count() == 0)))
                    },
                    Selector::MapPages => {
                        let pid = old(k).threads@[tid].process as int;
                        &&& ((r.0 == 0) ==> (args[0] < crate::page::USER_HALF_PAGES && !old(
                            k,
                        ).processes@[pid].pages.maps_page(args[0])))
                        &&& ((old(k).processes@[pid].alive && old(k).alloc_ready() && args[0]
                            < crate::page::USER_HALF_PAGES && !old(
                            k,
                        ).processes@[pid].pages.maps_page(args[0]) && old(
                            k,
                        ).the_alloc().spec_free_count() >= 4) ==> r.0 == 0)
                    },
                },
                None => true,
            }
        }),
{
    let selector = match Selector::decode(selector_word) {
        Some(s) => s,
        None => {
            return (KernelError::ProtocolMisuse.code(), 0);
        },
    };
    let tid = match k.processors[core].current_thread {
        Some(t) => t,
        None => {
            return (KernelError::ProtocolMisuse.code(), 0);
        },
    };
    if tid >= k.threads.len() {
        return (KernelError::ProtocolMisuse.code(), 0);
    }
    match selector {
        Selector::Abort => {
            match k.abort_thread(tid) {
                Ok(()) => (0, 0),
                Err(e) => (e.code(), 0),
            }
        },
        Selector::MapPages => {
            proof {
                assert(old(k).wf_thread(tid as int));
            }
            let pid = k.threads[tid].process;
            if !k.processes[pid].alive {
                return (KernelError::PeerGone.code(), 0);
            }
            match k.map_page(pid, args[0], crate::page::PageProfile::User) {
                Ok(frame) => (0, frame as u64),
                Err(e) => (e.code(), 0),
            }
        },
        Selector::Length => {
            if args[0] >= k.messages.len() as u64 {
                return (KernelError::PeerGone.code(), 0);
            }
            let mid = args[0] as usize;
            (0, k.messages[mid].frames.len() as u64)
        },
        Selector::Send => {
            if args[0] >= k.servers.len() as u64 {
                return (KernelError::PeerGone.code(), 0);
            }
            let sid = args[0] as usize;
            let tag = args[1];
            let pages = match page_range(args[2], args[3]) {
                Some(v) => v,
                None => {
                    return (KernelError::ProtocolMisuse.code(), 0);
                },
            };
            match k.send(tid, sid, tag, &pages) {
                Ok(mid) => {
                    if sid < k.servers.len() {
                        let _ = k.wake_request_waiters(sid);
                    }
                    (0, mid as u64)
                },
                Err(e) => (e.code(), 0),
            }
        },
        Selector::Query => {
            if args[0] >= k.messages.len() as u64 {
                return (KernelError::PeerGone.code(), 0);
            }
            let mid = args[0] as usize;
            if k.messages[mid].failed {
                return (KernelError::PeerGone.code(), 0);
            }
            let rank: u64 = match k.messages[mid].status {
                crate::ipc::MessageStatus::Sent => 0,
                crate::ipc::MessageStatus::Received => 1,
                crate::ipc::MessageStatus::Responded => 2,
            };
            (0, rank)
        },
        Selector::Receive => {
            if args[0] >= k.servers.len() as u64 {
                return (KernelError::PeerGone.code(), 0);
            }
            let sid = args[0] as usize;
            let pages = match page_range(args[1], args[2]) {
                Some(v) => v,
                None => {
                    return (KernelError::ProtocolMisuse.code(), 0);
                },
            };
            match k.receive(tid, sid, &pages) {
                Ok(mid) => (0, mid as u64),
                Err(e) => (e.code(), 0),
            }
        },
        Selector::Respond => {
            if args[0] >= k.servers.len() as u64 {
                return (KernelError::PeerGone.code(), 0);
            }
            proof {
                assert(old(k).wf_server(args[0] as int));
            }
            if args[1] >= k.messages.len() as u64 {
                return (KernelError::ProtocolMisuse.code(), 0);
            }
            let sid = args[0] as usize;
            let mid = args[1] as usize;
            let pages = match page_range(args[2], args[3]) {
                Some(v) => v,
                None => {
                    return (KernelError::ProtocolMisuse.code(), 0);
                },
            };
            match k.respond(tid, sid, mid, &pages) {
                Ok(()) => (0, 0),
                Err(e) => (e.code(), 0),
            }
        },
        Selector::Block => {
            if args[0] >= k.servers.len() as u64 {
                return (KernelError::PeerGone.code(), 0);
            }
            match k.block_on_server(tid, args[0] as usize) {
                Ok(()) => (0, 0),
                Err(e) => (e.code(), 0),
            }
        },
        Selector::Check => {
            if args[0] >= k.servers.len() as u64 {
                return (KernelError::PeerGone.code(), 0);
            }
            let sid = args[0] as usize;
            match &k.servers[sid].kind {
                crate::ipc::ServerKind::User(u) => {
                    (0, if u.requests.len() > 0 {
                        1
                    } else {
                        0
                    })
                },
                crate::ipc::ServerKind::Kernel => (KernelError::ProtocolMisuse.code(), 0),
            }
        },
    }
}

} // verus!
