//! The kernel state: every arena, the ownership invariant that ties them
//! together, and the operations over them.
//!
//! Processes, threads, servers and messages live in arenas and refer to each
//! other by index — a weak handle whose liveness the holder checks. The
//! central invariant is exclusive frame ownership: a frame allocated in the
//! ledger is referenced by at most one owner, where an owner is either a
//! live process's address space or a message still in flight. Every
//! operation below preserves it, so no frame is ever simultaneously mapped
//! in two address spaces.
//!
//! Boot order is a hard precondition, encoded as a phased sequence: memory
//! initialisation first, then the boot process, then per-core scheduler
//! state sized by the discovered processor count.

use vstd::prelude::*;

use crate::error::KernelError;
use crate::frame::{BitmapPageFrameAllocator, MemoryRegion};
use crate::ipc::{Message, MessageStatus, Server, ServerKind, UserServer};
use crate::page::ManagedPageTable;
use crate::proc::{InterruptFrame, PanicVectors, Process, Status, Thread};
use crate::sched::ProcessorScheduler;
use crate::stack::SyscallStackPool;

verus! {

/// Whether a page list can take a transfer into a space: the pages are
/// pairwise distinct, lie in the user half, and none is mapped yet.
pub open spec fn pages_receivable(
    space: crate::page::ManagedPageTable,
    pages: Seq<u64>,
) -> bool {
    &&& forall|i: int, j: int| 0 <= i < j < pages.len() ==> pages[i] != pages[j]
    &&& forall|i: int|
        0 <= i < pages.len() ==> (#[trigger] pages[i]) < crate::page::USER_HALF_PAGES
            && !space.maps_page(pages[i])
}

/// Whether a page list can transfer out of a space: the pages are pairwise
/// distinct and every one is mapped.
pub open spec fn pages_transferable(
    space: crate::page::ManagedPageTable,
    pages: Seq<u64>,
) -> bool {
    &&& forall|i: int, j: int| 0 <= i < j < pages.len() ==> pages[i] != pages[j]
    &&& forall|i: int| 0 <= i < pages.len() ==> space.maps_page(#[trigger] pages[i])
}

/// How many of the first `n` threads await a request on this server.
pub open spec fn spec_waiting_count(threads: Seq<crate::proc::Thread>, sid: usize, n: nat) -> int
    decreases n,
{
    if n == 0 {
        0int
    } else {
        spec_waiting_count(threads, sid, (n - 1) as nat) + if threads[n - 1].status
            == crate::proc::Status::AwaitingRequest(sid) {
            1int
        } else {
            0int
        }
    }
}

/// What one thread looks like after a wake pass over one server's waiters.
pub open spec fn final_wake(t: crate::proc::Thread, sid: usize) -> crate::proc::Thread {
    if t.status == crate::proc::Status::AwaitingRequest(sid) {
        crate::proc::Thread { status: crate::proc::Status::Ready, ..t }
    } else {
        t
    }
}

/// Priority words subtract with a floor, never wrapping.
fn saturating_sub(a: u64, b: u64) -> (r: u64)
    ensures
        r == Kernel::spec_saturating_sub(a, b),
{
    if a >= b {
        a - b
    } else {
        0
    }
}

/// Priority words add with a ceiling, never wrapping.
fn saturating_add(a: u64, b: u64) -> (r: u64)
    ensures
        r == Kernel::spec_saturating_add(a, b),
{
    if a <= u64::MAX - b {
        a + b
    } else {
        u64::MAX
    }
}

/// The whole machine state the kernel owns.
pub struct Kernel {
    pub allocator: Option<BitmapPageFrameAllocator>,
    pub processes: Vec<Process>,
    pub threads: Vec<Thread>,
    pub servers: Vec<Server>,
    pub messages: Vec<Message>,
    pub stacks: SyscallStackPool,
    pub processors: Vec<ProcessorScheduler>,
}

impl Kernel {
    /// Addition with a ceiling at the largest priority word.
    pub open spec fn spec_saturating_add(a: u64, b: u64) -> u64 {
        if a + b > u64::MAX {
            u64::MAX
        } else {
            (a + b) as u64
        }
    }

    /// The conditions under which a send is owed success: the sender is
    /// executing in a live process, the server is a live user endpoint, and
    /// the pages can transfer out of the sender's space.
    pub open spec fn spec_send_ok(self, sender: int, sid: int, pages: Seq<u64>) -> bool {
        &&& self.threads@[sender].status matches Status::Executing(c)
        &&& self.processes@[self.threads@[sender].process as int].alive
        &&& 0 <= sid < self.servers@.len()
        &&& self.servers@[sid].alive
        &&& self.servers@[sid].kind matches ServerKind::User(u)
        &&& pages_transferable(self.processes@[self.threads@[sender].process as int].pages, pages)
    }

    /// The conditions under which a receive is owed its dequeue (short of
    /// ledger exhaustion while creating tables): a hosting thread executing
    /// in a live process, a live user server with a queued request, and
    /// destination pages that match its length and can take the transfer.
    pub open spec fn spec_receive_ready(self, receiver: int, sid: int, dest: Seq<u64>) -> bool {
        let rpid = self.threads@[receiver].process as int;
        &&& self.threads@[receiver].status matches Status::Executing(c)
        &&& self.processes@[rpid].alive
        &&& 0 <= sid < self.servers@.len()
        &&& self.servers@[sid].alive
        &&& self.servers@[sid].kind matches ServerKind::User(u)
        &&& self.servers@[sid].host == self.threads@[receiver].process
        &&& self.servers@[sid].kind->User_0.requests@.len() > 0
        &&& dest.len() == self.messages@[self.servers@[sid].kind->User_0.requests@[0] as int].frames@.len()
        &&& pages_receivable(self.processes@[rpid].pages, dest)
    }

    /// The conditions under which a response is owed (short of ledger
    /// exhaustion): the responder hosts the server and executes in a live
    /// process, the message sits in the in-flight set with its sender still
    /// awaiting it in a live, distinct process, the response length matches,
    /// and the frames can move out of the responder and back onto the
    /// request's origin pages.
    pub open spec fn spec_respond_ready(
        self,
        responder: int,
        sid: int,
        mid: int,
        resp: Seq<u64>,
    ) -> bool {
        let rpid = self.threads@[responder].process as int;
        let msg = self.messages@[mid];
        let spid = self.threads@[msg.sender as int].process as int;
        &&& self.threads@[responder].status matches Status::Executing(c)
        &&& self.processes@[rpid].alive
        &&& 0 <= sid < self.servers@.len()
        &&& self.servers@[sid].alive
        &&& self.servers@[sid].kind matches ServerKind::User(u)
        &&& self.servers@[sid].host == self.threads@[responder].process
        &&& exists|i: int|
            0 <= i < self.servers@[sid].kind->User_0.working@.len()
                && self.servers@[sid].kind->User_0.working@[i] == mid
        &&& self.threads@[msg.sender as int].status == Status::AwaitingResponse(mid as usize)
        &&& self.processes@[spid].alive
        &&& spid != rpid
        &&& resp.len() == msg.frames@.len()
        &&& pages_receivable(self.processes@[spid].pages, msg.origin_pages@)
        &&& pages_transferable(self.processes@[rpid].pages, resp)
    }

    /// The conditions under which blocking on a server succeeds: an executing
    /// thread of the hosting process and a live user endpoint.
    pub open spec fn spec_block_ok(self, tid: int, sid: int) -> bool {
        &&& self.threads@[tid].status matches Status::Executing(c)
        &&& 0 <= sid < self.servers@.len()
        &&& self.servers@[sid].alive
        &&& self.servers@[sid].host == self.threads@[tid].process
        &&& self.servers@[sid].kind matches ServerKind::User(u)
    }

    /// Whether the frame allocator has been initialised.
    pub open spec fn alloc_ready(self) -> bool {
        self.allocator is Some
    }

    /// The frame ledger (meaningful once `alloc_ready`).
    pub open spec fn the_alloc(self) -> BitmapPageFrameAllocator {
        self.allocator->Some_0
    }

    /// One process's entries are all in range; children are strictly younger
    /// than their parent (so the tree is acyclic), and every owned thread or
    /// server points back at this process.
    pub open spec fn wf_process(self, pid: int) -> bool {
        let p = self.processes@[pid];
        &&& p.pages.wf()
        &&& forall|i: int|
            0 <= i < p.children@.len() ==> pid < (#[trigger] p.children@[i])
                < self.processes@.len()
        &&& forall|i: int|
            0 <= i < p.threads@.len() ==> (#[trigger] p.threads@[i]) < self.threads@.len()
                && self.threads@[p.threads@[i] as int].process == pid
        &&& forall|i: int|
            0 <= i < p.servers@.len() ==> (#[trigger] p.servers@[i]) < self.servers@.len()
                && self.servers@[p.servers@[i] as int].host == pid
        &&& forall|i: int|
            0 <= i < p.descriptors@.len() ==> (#[trigger] p.descriptors@[i]).server
                < self.servers@.len()
        &&& forall|i: int| 0 <= i < p.requests@.len() ==> (#[trigger] p.requests@[i])
            < self.messages@.len()
        &&& forall|i: int| 0 <= i < p.responses@.len() ==> (#[trigger] p.responses@[i])
            < self.messages@.len()
        &&& (p.parent matches Some(pp) ==> pp < pid)
    }

    /// One thread's back-reference and status payloads are in range, and a
    /// thread awaiting a response awaits its own message.
    pub open spec fn wf_thread(self, tid: int) -> bool {
        let t = self.threads@[tid];
        &&& t.process < self.processes@.len()
        &&& (t.status matches Status::AwaitingRequest(s) ==> s < self.servers@.len())
        &&& (t.status matches Status::AwaitingResponse(m) ==> m < self.messages@.len()
            && self.messages@[m as int].sender == tid)
    }

    /// One server's host and bindings are in range; every queued message is
    /// a distinct in-flight request of this server, every working message a
    /// distinct received one.
    pub open spec fn wf_server(self, sid: int) -> bool {
        let s = self.servers@[sid];
        &&& s.host < self.processes@.len()
        &&& forall|i: int|
            0 <= i < s.bindings@.len() ==> (#[trigger] s.bindings@[i]).to_server
                < self.servers@.len()
        &&& (s.kind matches ServerKind::User(u) ==> {
            &&& forall|i: int|
                0 <= i < u.requests@.len() ==> {
                    let m = #[trigger] u.requests@[i];
                    &&& m < self.messages@.len()
                    &&& self.messages@[m as int].server == sid
                    &&& self.messages@[m as int].status == MessageStatus::Sent
                    &&& !self.messages@[m as int].failed
                }
            &&& forall|i: int, j: int|
                0 <= i < j < u.requests@.len() ==> u.requests@[i] != u.requests@[j]
            &&& forall|i: int|
                0 <= i < u.working@.len() ==> {
                    let m = #[trigger] u.working@[i];
                    &&& m < self.messages@.len()
                    &&& self.messages@[m as int].server == sid
                    &&& self.messages@[m as int].status == MessageStatus::Received
                }
            &&& forall|i: int, j: int|
                0 <= i < j < u.working@.len() ==> u.working@[i] != u.working@[j]
        })
    }

    /// One message's handles are in range and its frame list matches its
    /// origin-page list in length.
    pub open spec fn wf_message(self, mid: int) -> bool {
        let m = self.messages@[mid];
        &&& m.sender < self.threads@.len()
        &&& m.server < self.servers@.len()
        &&& m.frames@.len() == m.origin_pages@.len()
    }

    /// Whether the live process `pid` owns frame `f` through its space.
    pub open spec fn space_owner(self, pid: int, f: int) -> bool {
        &&& 0 <= pid < self.processes@.len()
        &&& self.processes@[pid].alive
        &&& self.processes@[pid].pages.owns(f)
    }

    /// Whether message `mid`, still in flight and unresolved, owns frame `f`.
    pub open spec fn message_owner(self, mid: int, f: int) -> bool {
        &&& 0 <= mid < self.messages@.len()
        &&& self.messages@[mid].status == MessageStatus::Sent
        &&& !self.messages@[mid].failed
        &&& exists|i: int|
            0 <= i < self.messages@[mid].frames@.len() && #[trigger] self.messages@[mid].frames@[i]
                == f
    }

    /// Exclusive frame ownership: every owned frame is allocated, and no two
    /// owners share a frame — no frame is simultaneously mapped in two
    /// address spaces, or both mapped and in flight.
    pub open spec fn wf_frames(self) -> bool {
        &&& forall|pid: int|
            0 <= pid < self.processes@.len() && (#[trigger] self.processes@[pid]).alive
                ==> self.processes@[pid].pages.owned_allocated(self.the_alloc())
        &&& forall|mid: int, i: int|
            #![trigger self.messages@[mid].frames@[i]]
            0 <= mid < self.messages@.len() && self.messages@[mid].status == MessageStatus::Sent
                && !self.messages@[mid].failed && 0 <= i < self.messages@[mid].frames@.len() ==> (
            self.messages@[mid].frames@[i] < self.the_alloc().spec_total_frames()
                && self.the_alloc().allocated(self.messages@[mid].frames@[i] as int))
        &&& forall|mid: int, i: int, j: int|
            #![trigger self.messages@[mid].frames@[i], self.messages@[mid].frames@[j]]
            0 <= mid < self.messages@.len() && 0 <= i < j < self.messages@[mid].frames@.len()
                ==> self.messages@[mid].frames@[i] != self.messages@[mid].frames@[j]
        &&& forall|p1: int, p2: int, f: int|
            #![trigger self.space_owner(p1, f), self.space_owner(p2, f)]
            p1 != p2 ==> !(self.space_owner(p1, f) && self.space_owner(p2, f))
        &&& forall|p: int, m: int, f: int|
            #![trigger self.space_owner(p, f), self.message_owner(m, f)]
            !(self.space_owner(p, f) && self.message_owner(m, f))
        &&& forall|m1: int, m2: int, f: int|
            #![trigger self.message_owner(m1, f), self.message_owner(m2, f)]
            m1 != m2 ==> !(self.message_owner(m1, f) && self.message_owner(m2, f))
    }

    /// The kernel invariant.
    pub open spec fn wf(self) -> bool {
        &&& (self.allocator matches Some(a) ==> a.inv())
        &&& (!self.alloc_ready() ==> self.processes@.len() == 0 && self.threads@.len() == 0
            && self.servers@.len() == 0 && self.messages@.len() == 0)
        &&& forall|pid: int| 0 <= pid < self.processes@.len() ==> self.wf_process(pid)
        &&& forall|tid: int| 0 <= tid < self.threads@.len() ==> self.wf_thread(tid)
        &&& forall|sid: int| 0 <= sid < self.servers@.len() ==> self.wf_server(sid)
        &&& forall|mid: int| 0 <= mid < self.messages@.len() ==> self.wf_message(mid)
        &&& self.wf_frames()
        &&& self.stacks.inv()
    }

    /// Two kernels with the same arenas, ledger and stack pool are equally
    /// well-formed, whatever their per-core state.
    proof fn lemma_wf_same_core(k1: Kernel, k2: Kernel)
        requires
            k1.wf(),
            k2.allocator == k1.allocator,
            k2.processes@ == k1.processes@,
            k2.threads@ == k1.threads@,
            k2.servers@ == k1.servers@,
            k2.messages@ == k1.messages@,
            k2.stacks == k1.stacks,
        ensures
            k2.wf(),
    {
        assert forall|pid: int| 0 <= pid < k2.processes@.len() implies k2.wf_process(pid) by {
            assert(k1.wf_process(pid));
        }
        assert forall|tid: int| 0 <= tid < k2.threads@.len() implies k2.wf_thread(tid) by {
            assert(k1.wf_thread(tid));
        }
        assert forall|sid: int| 0 <= sid < k2.servers@.len() implies k2.wf_server(sid) by {
            assert(k1.wf_server(sid));
        }
        assert forall|mid: int| 0 <= mid < k2.messages@.len() implies k2.wf_message(mid) by {
            assert(k1.wf_message(mid));
        }
        assert(k2.wf_frames()) by {
            assert forall|pid: int|
                0 <= pid < k2.processes@.len() && (#[trigger] k2.processes@[pid]).alive implies k2
                .processes@[pid].pages.owned_allocated(k2.the_alloc()) by {
                assert(k1.processes@[pid].alive);
                assert(k1.processes@[pid].pages.owned_allocated(k1.the_alloc()));
            }
            assert forall|p1: int, p2: int, f: int| p1 != p2 implies !(#[trigger] k2.space_owner(
                p1,
                f,
            ) && #[trigger] k2.space_owner(p2, f)) by {
                assert(k2.space_owner(p1, f) == k1.space_owner(p1, f));
                assert(k2.space_owner(p2, f) == k1.space_owner(p2, f));
            }
            assert forall|p: int, m: int, f: int| !(#[trigger] k2.space_owner(p, f)
                && #[trigger] k2.message_owner(m, f)) by {
                assert(k2.space_owner(p, f) == k1.space_owner(p, f));
                assert(k2.message_owner(m, f) == k1.message_owner(m, f));
            }
            assert forall|m1: int, m2: int, f: int| m1 != m2 implies !(#[trigger] k2.message_owner(
                m1,
                f,
            ) && #[trigger] k2.message_owner(m2, f)) by {
                assert(k2.message_owner(m1, f) == k1.message_owner(m1, f));
                assert(k2.message_owner(m2, f) == k1.message_owner(m2, f));
            }
        }
    }

    /// A frame the ledger records as free is owned by nothing.
    proof fn lemma_free_frame_unowned(self, f: int)
        requires
            self.wf(),
            self.alloc_ready(),
            !self.the_alloc().allocated(f),
        ensures
            forall|p: int| !self.space_owner(p, f),
            forall|m: int| !self.message_owner(m, f),
    {
        assert forall|p: int| !self.space_owner(p, f) by {
            if self.space_owner(p, f) {
                let pages = self.processes@[p].pages;
                assert(pages.owned_allocated(self.the_alloc()));
                if exists|w: int|
                    0 <= w < pages.tables@.len() && #[trigger] pages.tables@[w].frame == f {
                    let w = choose|w: int|
                        0 <= w < pages.tables@.len() && #[trigger] pages.tables@[w].frame == f;
                    assert(self.the_alloc().allocated(pages.tables@[w].frame as int));
                } else if exists|w: int|
                    0 <= w < pages.leaves@.len() && #[trigger] pages.leaves@[w].frame == f {
                    let w = choose|w: int|
                        0 <= w < pages.leaves@.len() && #[trigger] pages.leaves@[w].frame == f;
                    assert(self.the_alloc().allocated(pages.leaves@[w].frame as int));
                } else {
                    assert(pages.top_frame == f);
                    assert(self.the_alloc().allocated(pages.top_frame as int));
                }
            }
        }
        assert forall|m: int| !self.message_owner(m, f) by {
            if self.message_owner(m, f) {
                let w = choose|w: int|
                    0 <= w < self.messages@[m].frames@.len()
                        && #[trigger] self.messages@[m].frames@[w] == f;
                assert(self.the_alloc().allocated(self.messages@[m].frames@[w] as int));
            }
        }
    }

    /// An empty kernel, before any boot phase has run.
    pub fn new() -> (r: Kernel)
        ensures
            r.wf(),
            !r.alloc_ready(),
            r.processes@.len() == 0,
            r.threads@.len() == 0,
            r.servers@.len() == 0,
            r.messages@.len() == 0,
            r.processors@.len() == 0,
    {
        Kernel {
            allocator: None,
            processes: Vec::new(),
            threads: Vec::new(),
            servers: Vec::new(),
            messages: Vec::new(),
            stacks: SyscallStackPool::new(),
            processors: Vec::new(),
        }
    }

    /// First boot phase: builds the frame ledger from the memory map. Must
    /// run before any address-space construction.
    pub fn init_memory(&mut self, regions: &Vec<MemoryRegion>) -> (r: Result<(), KernelError>)
        requires
            old(self).wf(),
            !old(self).alloc_ready(),
            crate::frame::regions_wf(regions@),
        ensures
            final(self).wf(),
            final(self).processes@ == old(self).processes@,
            final(self).threads@ == old(self).threads@,
            final(self).servers@ == old(self).servers@,
            final(self).messages@ == old(self).messages@,
            final(self).processors@ == old(self).processors@,
            match r {
                Ok(()) => {
                    &&& final(self).alloc_ready()
                    &&& final(self).the_alloc().spec_total_frames() == crate::frame::spec_map_frames(
                        regions@,
                    )
                    &&& forall|k: int|
                        0 <= k < final(self).the_alloc().spec_total_frames()
                            ==> final(self).the_alloc().allocated(k)
                            == crate::frame::spec_init_allocated(regions@, k)
                },
                Err(e) => {
                    &&& e == KernelError::ResourceExhaustion
                    &&& *final(self) == *old(self)
                },
            },
            (r is Err) <==> (!crate::frame::has_usable(regions@, regions@.len())
                || crate::frame::find_backing_from(
                regions@,
                crate::frame::spec_map_bitmap_size(regions@),
                0,
            ) is None),
    {
        let a = BitmapPageFrameAllocator::initialise(regions)?;
        self.allocator = Some(a);
        proof {
            assert(self.processes@.len() == 0);
            assert(self.threads@.len() == 0);
            assert(self.servers@.len() == 0);
            assert(self.messages@.len() == 0);
        }
        Ok(())
    }

    /// Second boot phase: sizes per-core scheduler state from the processor
    /// count that platform discovery supplies. Processor count must be known
    /// before this runs; each core gets one scheduler, created once and never
    /// torn down.
    pub fn init_processors(&mut self, processor_count: usize)
        requires
            old(self).wf(),
            old(self).processors@.len() == 0,
        ensures
            final(self).wf(),
            final(self).processors@.len() == processor_count,
            forall|c: int|
                0 <= c < processor_count ==> {
                    &&& (#[trigger] final(self).processors@[c]).ready_queue@.len() == 0
                    &&& final(self).processors@[c].current_process is None
                    &&& final(self).processors@[c].current_thread is None
                },
            final(self).processes@ == old(self).processes@,
            final(self).threads@ == old(self).threads@,
            final(self).servers@ == old(self).servers@,
            final(self).messages@ == old(self).messages@,
            final(self).allocator == old(self).allocator,
    {
        let mut c: usize = 0;
        while c < processor_count
            invariant
                old(self).wf(),
                self.allocator == old(self).allocator,
                self.processes@ == old(self).processes@,
                self.threads@ == old(self).threads@,
                self.servers@ == old(self).servers@,
                self.messages@ == old(self).messages@,
                self.stacks == old(self).stacks,
                self.processors@.len() == c,
                c <= processor_count,
                forall|i: int|
                    0 <= i < c ==> {
                        &&& (#[trigger] self.processors@[i]).ready_queue@.len() == 0
                        &&& self.processors@[i].current_process is None
                        &&& self.processors@[i].current_thread is None
                    },
            decreases processor_count - c,
        {
            self.processors.push(ProcessorScheduler::new());
            c = c + 1;
        }
        proof {
            Self::lemma_wf_same_core(*old(self), *self);
        }
    }

    /// Creates one process: a fresh empty address space (one allocated frame
    /// for its top-level table), empty thread, child, server, message and
    /// descriptor lists — capabilities are not inherited, a child starts with
    /// zero descriptors — and, when a parent is given, a link appended to the
    /// parent's child list together with a weak back-reference.
    fn create_process(&mut self, parent: Option<usize>, set_priority: u64) -> (r: Result<
        usize,
        KernelError,
    >)
        requires
            old(self).wf(),
            (parent matches Some(pp) ==> pp < old(self).processes@.len()
                && old(self).processes@[pp as int].alive),
        ensures
            final(self).wf(),
            final(self).threads@ == old(self).threads@,
            final(self).servers@ == old(self).servers@,
            final(self).messages@ == old(self).messages@,
            final(self).stacks == old(self).stacks,
            final(self).processors@ == old(self).processors@,
            match r {
                Ok(cid) => {
                    &&& cid == old(self).processes@.len()
                    &&& final(self).processes@.len() == old(self).processes@.len() + 1
                    &&& {
                        let c = final(self).processes@[cid as int];
                        &&& c.set_priority == set_priority
                        &&& c.propagated_priority == set_priority
                        &&& c.parent == parent
                        &&& c.alive
                        &&& c.children@.len() == 0
                        &&& c.threads@.len() == 0
                        &&& c.servers@.len() == 0
                        &&& c.descriptors@.len() == 0
                        &&& c.requests@.len() == 0
                        &&& c.responses@.len() == 0
                        &&& c.pages.owned_count() == 1
                        &&& c.pages.leaves@.len() == 0
                    }
                    &&& (parent matches Some(pp) ==> {
                        &&& final(self).processes@[pp as int].children@ == old(self).processes@[pp as int].children@.push(cid)
                        &&& final(self).processes@[pp as int] == (Process {
                            children: final(self).processes@[pp as int].children,
                            ..old(self).processes@[pp as int]
                        })
                    })
                    &&& forall|i: int|
                        0 <= i < old(self).processes@.len() && (parent matches Some(pp) ==> i != pp)
                            ==> final(self).processes@[i] == old(self).processes@[i]
                    &&& final(self).alloc_ready()
                    &&& final(self).the_alloc().spec_total_frames()
                        == old(self).the_alloc().spec_total_frames()
                    &&& final(self).the_alloc().spec_free_count() + 1 == old(self).the_alloc().spec_free_count()
                },
                Err(e) => {
                    &&& *final(self) == *old(self)
                    &&& (e == KernelError::AllocatorNotReady || e
                        == KernelError::ResourceExhaustion)
                    &&& ((e == KernelError::AllocatorNotReady) <==> !old(self).alloc_ready())
                    &&& (e == KernelError::ResourceExhaustion ==> old(self).the_alloc().spec_free_count() == 0)
                },
            },
    {
        let space_result = match &mut self.allocator {
            Some(a) => ManagedPageTable::new(a),
            None => {
                return Err(KernelError::AllocatorNotReady);
            },
        };
        let space = match space_result {
            Ok(s) => s,
            Err(e) => {
                return Err(e);
            },
        };
        let cid = self.processes.len();
        let child = Process {
            set_priority,
            propagated_priority: set_priority,
            parent,
            pages: space,
            threads: Vec::new(),
            children: Vec::new(),
            requests: Vec::new(),
            responses: Vec::new(),
            servers: Vec::new(),
            descriptors: Vec::new(),
            alive: true,
        };
        self.processes.push(child);
        if let Some(pp) = parent {
            let parent_ref = &mut self.processes[pp];
            parent_ref.children.push(cid);
        }
        proof {
            let k1 = *old(self);
            let k2 = *self;
            let a0 = k1.the_alloc();
            let a1 = k2.the_alloc();
            let n = k1.processes@.len() as int;
            let top = k2.processes@[n].pages.top_frame as int;
            k1.lemma_free_frame_unowned(top);
            assert forall|p: int, f: int| 0 <= p < n implies #[trigger] k2.space_owner(p, f)
                == k1.space_owner(p, f) by {
                if parent matches Some(pp) && p == pp {
                    assert(k2.processes@[p].pages == k1.processes@[p].pages);
                    assert(k2.processes@[p].alive == k1.processes@[p].alive);
                } else {
                    assert(k2.processes@[p] == k1.processes@[p]);
                }
            }
            assert forall|f: int| #[trigger] k2.space_owner(n, f) implies f == top by {
                assert(k2.processes@[n].pages.owns(f));
            }
            assert forall|m: int, f: int| #[trigger] k2.message_owner(m, f) == k1.message_owner(
                m,
                f,
            ) by {}
            assert forall|pid: int| 0 <= pid < k2.processes@.len() && (
            #[trigger] k2.processes@[pid]).alive implies k2.processes@[pid].pages.owned_allocated(
                a1,
            ) by {
                if pid < n {
                    assert(k1.processes@[pid].alive);
                    assert(k1.processes@[pid].pages.owned_allocated(a0));
                    assert(k2.processes@[pid].pages == k1.processes@[pid].pages);
                    k1.processes@[pid].pages.lemma_owned_allocated_monotone(a0, a1);
                }
            }
            assert forall|p1: int, p2: int, f: int| p1 != p2 implies !(#[trigger] k2.space_owner(
                p1,
                f,
            ) && #[trigger] k2.space_owner(p2, f)) by {
                if k2.space_owner(p1, f) && k2.space_owner(p2, f) {
                    if p1 < n && p2 < n {
                        assert(!(k1.space_owner(p1, f) && k1.space_owner(p2, f)));
                    } else if p1 == n {
                        assert(f == top && k1.space_owner(p2, f));
                    } else {
                        assert(f == top && k1.space_owner(p1, f));
                    }
                }
            }
            assert forall|p: int, m: int, f: int| !(#[trigger] k2.space_owner(p, f)
                && #[trigger] k2.message_owner(m, f)) by {
                if k2.space_owner(p, f) && k2.message_owner(m, f) {
                    if p < n {
                        assert(k1.space_owner(p, f) && k1.message_owner(m, f));
                    } else {
                        assert(f == top && k1.message_owner(m, f));
                    }
                }
            }
            assert forall|m1: int, m2: int, f: int| m1 != m2 implies !(#[trigger] k2.message_owner(
                m1,
                f,
            ) && #[trigger] k2.message_owner(m2, f)) by {
                assert(k2.message_owner(m1, f) == k1.message_owner(m1, f));
                assert(k2.message_owner(m2, f) == k1.message_owner(m2, f));
            }
            assert forall|mid: int, i: int|
                0 <= mid < k2.messages@.len() && k2.messages@[mid].status == MessageStatus::Sent
                    && !k2.messages@[mid].failed && 0 <= i < k2.messages@[mid].frames@.len() implies (
            #[trigger] k2.messages@[mid].frames@[i]) < a1.spec_total_frames() && a1.allocated(
                k2.messages@[mid].frames@[i] as int,
            ) by {
                assert(a0.allocated(k1.messages@[mid].frames@[i] as int));
            }
            assert forall|pid: int| 0 <= pid < k2.processes@.len() implies k2.wf_process(pid) by {
                if pid < n {
                    assert(k1.wf_process(pid));
                }
            }
            assert forall|tid: int| 0 <= tid < k2.threads@.len() implies k2.wf_thread(tid) by {
                assert(k1.wf_thread(tid));
            }
            assert forall|sid: int| 0 <= sid < k2.servers@.len() implies k2.wf_server(sid) by {
                assert(k1.wf_server(sid));
            }
            assert forall|mid: int| 0 <= mid < k2.messages@.len() implies k2.wf_message(mid) by {
                assert(k1.wf_message(mid));
            }
        }
        Ok(cid)
    }

    /// Adds a thread to a live process: a kernel-mode stack taken from the
    /// stack pool, zeroed register state, status `Ready`, and set and
    /// propagated priority seeded from the process's current set-priority
    /// (the inherited component starts at zero).
    pub fn add_thread(&mut self, pid: usize) -> (r: Result<usize, KernelError>)
        requires
            old(self).wf(),
            pid < old(self).processes@.len(),
            old(self).processes@[pid as int].alive,
        ensures
            final(self).wf(),
            final(self).servers@ == old(self).servers@,
            final(self).messages@ == old(self).messages@,
            final(self).allocator == old(self).allocator,
            match r {
                Ok(tid) => {
                    &&& tid == old(self).threads@.len()
                    &&& final(self).threads@.len() == old(self).threads@.len() + 1
                    &&& {
                        let t = final(self).threads@[tid as int];
                        &&& t.status == Status::Ready
                        &&& t.process == pid
                        &&& t.set_priority == old(self).processes@[pid as int].set_priority
                        &&& t.propagated_priority == old(self).processes@[pid as int].set_priority
                        &&& t.inherited_priority == 0
                        &&& forall|i: int| 0 <= i < 16 ==> t.general_registers@[i] == 0
                        &&& t.fs_base == 0
                        &&& t.gs_base == 0
                        &&& t.stack_pointer == 0
                        &&& !old(self).stacks.taken(t.kernel_stack.0 as int)
                        &&& final(self).stacks.taken(t.kernel_stack.0 as int)
                        &&& t.kernel_stack.0 < crate::mapping::SYSCALL_STACK_SLOTS
                    }
                    &&& forall|i: int|
                        0 <= i < old(self).threads@.len() ==> final(self).threads@[i] == old(self).threads@[i]
                    &&& final(self).processes@[pid as int].threads@ == old(self).processes@[pid as int].threads@.push(tid)
                    &&& final(self).processes@[pid as int] == (Process {
                        threads: final(self).processes@[pid as int].threads,
                        ..old(self).processes@[pid as int]
                    })
                    &&& forall|i: int|
                        0 <= i < old(self).processes@.len() && i != pid ==> final(self).processes@[i] == old(self).processes@[i]
                },
                Err(e) => {
                    &&& e == KernelError::ResourceExhaustion
                    &&& *final(self) == *old(self)
                },
            },
            final(self).processes@.len() == old(self).processes@.len(),
            (r is Err) <==> (old(self).stacks.slots@.len()
                == crate::mapping::SYSCALL_STACK_SLOTS && forall|i: int|
                0 <= i < old(self).stacks.slots@.len() ==> old(self).stacks.taken(i)),
    {
        let stack = match self.stacks.acquire() {
            Ok(s) => s,
            Err(e) => {
                return Err(e);
            },
        };
        let tid = self.threads.len();
        let seeded = self.processes[pid].set_priority;
        let thread = Thread {
            general_registers: [0u64; 16],
            stack_pointer: 0,
            interrupt_frame: InterruptFrame {
                instruction_pointer: 0,
                code_segment: 0,
                cpu_flags: 0,
                stack_pointer: 0,
                stack_segment: 0,
            },
            status: Status::Ready,
            set_priority: seeded,
            propagated_priority: seeded,
            inherited_priority: 0,
            kernel_stack: stack,
            panic_vectors: PanicVectors::empty(),
            fs_base: 0,
            gs_base: 0,
            process: pid,
        };
        self.threads.push(thread);
        let owner = &mut self.processes[pid];
        owner.threads.push(tid);
        proof {
            let k1 = *old(self);
            let k2 = *self;
            let n = k1.threads@.len() as int;
            assert forall|p: int, f: int| #[trigger] k2.space_owner(p, f) == k1.space_owner(
                p,
                f,
            ) by {
                if 0 <= p < k1.processes@.len() {
                    if p == pid {
                        assert(k2.processes@[p].pages == k1.processes@[p].pages);
                        assert(k2.processes@[p].alive == k1.processes@[p].alive);
                    } else {
                        assert(k2.processes@[p] == k1.processes@[p]);
                    }
                }
            }
            assert forall|m: int, f: int| #[trigger] k2.message_owner(m, f) == k1.message_owner(
                m,
                f,
            ) by {}
            assert(k2.wf_frames()) by {
                assert forall|p: int|
                    0 <= p < k2.processes@.len() && (
                #[trigger] k2.processes@[p]).alive implies k2.processes@[p].pages.owned_allocated(
                    k2.the_alloc(),
                ) by {
                    assert(k1.processes@[p].alive);
                    assert(k1.processes@[p].pages.owned_allocated(k1.the_alloc()));
                    assert(k2.processes@[p].pages == k1.processes@[p].pages);
                }
                assert forall|p1: int, p2: int, f: int| p1 != p2 implies !(
                #[trigger] k2.space_owner(p1, f) && #[trigger] k2.space_owner(p2, f)) by {
                    assert(k2.space_owner(p1, f) == k1.space_owner(p1, f));
                    assert(k2.space_owner(p2, f) == k1.space_owner(p2, f));
                }
                assert forall|p: int, m: int, f: int| !(#[trigger] k2.space_owner(p, f)
                    && #[trigger] k2.message_owner(m, f)) by {
                    assert(k2.space_owner(p, f) == k1.space_owner(p, f));
                    assert(k2.message_owner(m, f) == k1.message_owner(m, f));
                }
                assert forall|m1: int, m2: int, f: int| m1 != m2 implies !(
                #[trigger] k2.message_owner(m1, f) && #[trigger] k2.message_owner(m2, f)) by {
                    assert(k2.message_owner(m1, f) == k1.message_owner(m1, f));
                    assert(k2.message_owner(m2, f) == k1.message_owner(m2, f));
                }
            }
            assert forall|p: int| 0 <= p < k2.processes@.len() implies k2.wf_process(p) by {
                assert(k1.wf_process(p));
            }
            assert forall|t: int| 0 <= t < k2.threads@.len() implies k2.wf_thread(t) by {
                if t < n {
                    assert(k1.wf_thread(t));
                }
            }
            assert forall|s: int| 0 <= s < k2.servers@.len() implies k2.wf_server(s) by {
                assert(k1.wf_server(s));
            }
            assert forall|m: int| 0 <= m < k2.messages@.len() implies k2.wf_message(m) by {
                assert(k1.wf_message(m));
            }
        }
        Ok(tid)
    }

    /// Adds a child under `parent`: always appends to the parent's child
    /// list, never to the child's own, which starts empty. Priority starts at
    /// zero; population of capabilities happens only via explicit IPC.
    pub fn add_child(&mut self, parent: usize) -> (r: Result<usize, KernelError>)
        requires
            old(self).wf(),
            parent < old(self).processes@.len(),
            old(self).processes@[parent as int].alive,
        ensures
            final(self).wf(),
            final(self).threads@ == old(self).threads@,
            final(self).servers@ == old(self).servers@,
            final(self).messages@ == old(self).messages@,
            match r {
                Ok(cid) => {
                    &&& cid == old(self).processes@.len()
                    &&& final(self).processes@.len() == old(self).processes@.len() + 1
                    &&& final(self).processes@[parent as int].children@ == old(self).processes@[parent as int].children@.push(cid)
                    &&& {
                        let c = final(self).processes@[cid as int];
                        &&& c.set_priority == 0
                        &&& c.propagated_priority == 0
                        &&& c.parent == Some(parent)
                        &&& c.alive
                        &&& c.children@.len() == 0
                        &&& c.threads@.len() == 0
                        &&& c.descriptors@.len() == 0
                        &&& c.pages.owned_count() == 1
                        &&& c.pages.leaves@.len() == 0
                    }
                    &&& forall|i: int|
                        0 <= i < old(self).processes@.len() && i != parent ==> final(self).processes@[i] == old(self).processes@[i]
                    &&& final(self).the_alloc().spec_free_count() + 1 == old(self).the_alloc().spec_free_count()
                    &&& final(self).the_alloc().spec_total_frames() == old(self).the_alloc().spec_total_frames()
                },
                Err(e) => {
                    &&& *final(self) == *old(self)
                    &&& (e == KernelError::AllocatorNotReady || e
                        == KernelError::ResourceExhaustion)
                    &&& ((e == KernelError::AllocatorNotReady) <==> !old(self).alloc_ready())
                    &&& (e == KernelError::ResourceExhaustion ==> old(self).the_alloc().spec_free_count() == 0)
                },
            },
    {
        self.create_process(Some(parent), 0)
    }

    /// Creates a server hosted by a live process: a user endpoint with an
    /// empty request queue, empty in-flight set and zero accumulated client
    /// priority, or a kernel endpoint.
    pub fn create_server(&mut self, pid: usize, user: bool) -> (r: Result<usize, KernelError>)
        requires
            old(self).wf(),
            pid < old(self).processes@.len(),
            old(self).processes@[pid as int].alive,
        ensures
            final(self).wf(),
            final(self).threads@ == old(self).threads@,
            final(self).messages@ == old(self).messages@,
            final(self).allocator == old(self).allocator,
            match r {
                Ok(sid) => {
                    &&& sid == old(self).servers@.len()
                    &&& final(self).servers@.len() == old(self).servers@.len() + 1
                    &&& {
                        let s = final(self).servers@[sid as int];
                        &&& s.host == pid
                        &&& s.alive
                        &&& s.bindings@.len() == 0
                        &&& (user ==> (s.kind matches ServerKind::User(u) && u.requests@.len() == 0
                            && u.working@.len() == 0 && u.priority_sum == 0))
                        &&& (!user ==> s.kind is Kernel)
                    }
                    &&& forall|i: int|
                        0 <= i < old(self).servers@.len() ==> final(self).servers@[i] == old(self).servers@[i]
                    &&& final(self).processes@[pid as int].servers@ == old(self).processes@[pid as int].servers@.push(sid)
                    &&& forall|i: int|
                        0 <= i < old(self).processes@.len() && i != pid ==> final(self).processes@[i] == old(self).processes@[i]
                    &&& final(self).processes@[pid as int] == (Process {
                        servers: final(self).processes@[pid as int].servers,
                        ..old(self).processes@[pid as int]
                    })
                },
                Err(_) => false,
            },
            final(self).processes@.len() == old(self).processes@.len(),
    {
        let sid = self.servers.len();
        let kind = if user {
            ServerKind::User(UserServer { requests: Vec::new(), working: Vec::new(), priority_sum: 0 })
        } else {
            ServerKind::Kernel
        };
        self.servers.push(Server { bindings: Vec::new(), kind, host: pid, alive: true });
        let owner = &mut self.processes[pid];
        owner.servers.push(sid);
        proof {
            let k1 = *old(self);
            let k2 = *self;
            assert forall|p: int, f: int| #[trigger] k2.space_owner(p, f) == k1.space_owner(
                p,
                f,
            ) by {
                if 0 <= p < k1.processes@.len() {
                    if p == pid {
                        assert(k2.processes@[p].pages == k1.processes@[p].pages);
                        assert(k2.processes@[p].alive == k1.processes@[p].alive);
                    } else {
                        assert(k2.processes@[p] == k1.processes@[p]);
                    }
                }
            }
            assert forall|m: int, f: int| #[trigger] k2.message_owner(m, f) == k1.message_owner(
                m,
                f,
            ) by {}
            assert(k2.wf_frames()) by {
                assert forall|p: int|
                    0 <= p < k2.processes@.len() && (
                #[trigger] k2.processes@[p]).alive implies k2.processes@[p].pages.owned_allocated(
                    k2.the_alloc(),
                ) by {
                    assert(k1.processes@[p].alive);
                    assert(k1.processes@[p].pages.owned_allocated(k1.the_alloc()));
                    assert(k2.processes@[p].pages == k1.processes@[p].pages);
                }
                assert forall|p1: int, p2: int, f: int| p1 != p2 implies !(
                #[trigger] k2.space_owner(p1, f) && #[trigger] k2.space_owner(p2, f)) by {
                    assert(k2.space_owner(p1, f) == k1.space_owner(p1, f));
                    assert(k2.space_owner(p2, f) == k1.space_owner(p2, f));
                }
                assert forall|p: int, m: int, f: int| !(#[trigger] k2.space_owner(p, f)
                    && #[trigger] k2.message_owner(m, f)) by {
                    assert(k2.space_owner(p, f) == k1.space_owner(p, f));
                    assert(k2.message_owner(m, f) == k1.message_owner(m, f));
                }
                assert forall|m1: int, m2: int, f: int| m1 != m2 implies !(
                #[trigger] k2.message_owner(m1, f) && #[trigger] k2.message_owner(m2, f)) by {
                    assert(k2.message_owner(m1, f) == k1.message_owner(m1, f));
                    assert(k2.message_owner(m2, f) == k1.message_owner(m2, f));
                }
            }
            assert forall|p: int| 0 <= p < k2.processes@.len() implies k2.wf_process(p) by {
                assert(k1.wf_process(p));
            }
            assert forall|t: int| 0 <= t < k2.threads@.len() implies k2.wf_thread(t) by {
                assert(k1.wf_thread(t));
            }
            assert forall|s: int| 0 <= s < k2.servers@.len() implies k2.wf_server(s) by {
                if s < k1.servers@.len() {
                    assert(k1.wf_server(s));
                }
            }
            assert forall|m: int| 0 <= m < k2.messages@.len() implies k2.wf_message(m) by {
                assert(k1.wf_message(m));
            }
        }
        Ok(sid)
    }

    /// Hands a process a capability: a descriptor naming a path under a
    /// server, with the given permitted-operation mask. Population happens
    /// only via explicit grants like this one — never by inheritance.
    pub fn grant_descriptor(
        &mut self,
        pid: usize,
        server: usize,
        path: Vec<u8>,
        state_mask: crate::ipc::State,
    ) -> (r: Result<usize, KernelError>)
        requires
            old(self).wf(),
            pid < old(self).processes@.len(),
        ensures
            final(self).wf(),
            final(self).threads@ == old(self).threads@,
            final(self).servers@ == old(self).servers@,
            final(self).messages@ == old(self).messages@,
            final(self).allocator == old(self).allocator,
            match r {
                Ok(di) => {
                    &&& server < old(self).servers@.len()
                    &&& di == old(self).processes@[pid as int].descriptors@.len()
                    &&& final(self).processes@[pid as int].descriptors@ == old(self).processes@[pid as int].descriptors@.push(
                        crate::ipc::Descriptor { server, path: path, state_mask },
                    )
                    &&& forall|i: int|
                        0 <= i < old(self).processes@.len() && i != pid ==> final(self).processes@[i] == old(self).processes@[i]
                    &&& final(self).processes@[pid as int] == (Process {
                        descriptors: final(self).processes@[pid as int].descriptors,
                        ..old(self).processes@[pid as int]
                    })
                },
                Err(e) => {
                    &&& e == KernelError::PeerGone
                    &&& server >= old(self).servers@.len()
                    &&& *final(self) == *old(self)
                },
            },
            final(self).processes@.len() == old(self).processes@.len(),
            (r is Err) <==> server >= old(self).servers@.len(),
    {
        if server >= self.servers.len() {
            return Err(KernelError::PeerGone);
        }
        let di = self.processes[pid].descriptors.len();
        let owner = &mut self.processes[pid];
        owner.descriptors.push(crate::ipc::Descriptor { server, path, state_mask });
        proof {
            let k1 = *old(self);
            let k2 = *self;
            assert forall|p: int, f: int| #[trigger] k2.space_owner(p, f) == k1.space_owner(
                p,
                f,
            ) by {
                if 0 <= p < k1.processes@.len() {
                    if p == pid {
                        assert(k2.processes@[p].pages == k1.processes@[p].pages);
                        assert(k2.processes@[p].alive == k1.processes@[p].alive);
                    } else {
                        assert(k2.processes@[p] == k1.processes@[p]);
                    }
                }
            }
            assert forall|m: int, f: int| #[trigger] k2.message_owner(m, f) == k1.message_owner(
                m,
                f,
            ) by {}
            assert(k2.wf_frames()) by {
                assert forall|p: int|
                    0 <= p < k2.processes@.len() && (
                #[trigger] k2.processes@[p]).alive implies k2.processes@[p].pages.owned_allocated(
                    k2.the_alloc(),
                ) by {
                    assert(k1.processes@[p].alive);
                    assert(k1.processes@[p].pages.owned_allocated(k1.the_alloc()));
                    assert(k2.processes@[p].pages == k1.processes@[p].pages);
                }
                assert forall|p1: int, p2: int, f: int| p1 != p2 implies !(
                #[trigger] k2.space_owner(p1, f) && #[trigger] k2.space_owner(p2, f)) by {
                    assert(k2.space_owner(p1, f) == k1.space_owner(p1, f));
                    assert(k2.space_owner(p2, f) == k1.space_owner(p2, f));
                }
                assert forall|p: int, m: int, f: int| !(#[trigger] k2.space_owner(p, f)
                    && #[trigger] k2.message_owner(m, f)) by {
                    assert(k2.space_owner(p, f) == k1.space_owner(p, f));
                    assert(k2.message_owner(m, f) == k1.message_owner(m, f));
                }
                assert forall|m1: int, m2: int, f: int| m1 != m2 implies !(
                #[trigger] k2.message_owner(m1, f) && #[trigger] k2.message_owner(m2, f)) by {
                    assert(k2.message_owner(m1, f) == k1.message_owner(m1, f));
                    assert(k2.message_owner(m2, f) == k1.message_owner(m2, f));
                }
            }
            assert forall|p: int| 0 <= p < k2.processes@.len() implies k2.wf_process(p) by {
                assert(k1.wf_process(p));
            }
            assert forall|t: int| 0 <= t < k2.threads@.len() implies k2.wf_thread(t) by {
                assert(k1.wf_thread(t));
            }
            assert forall|s: int| 0 <= s < k2.servers@.len() implies k2.wf_server(s) by {
                assert(k1.wf_server(s));
            }
            assert forall|m: int| 0 <= m < k2.messages@.len() implies k2.wf_message(m) by {
                assert(k1.wf_message(m));
            }
        }
        Ok(di)
    }

    /// Allocates a fresh frame (zero-filled at the memory edge) and maps it
    /// at `page` in the process's user half, creating intermediate tables on
    /// demand. A per-thread mapping failure is surfaced to the caller, never
    /// escalated; on exhaustion while creating tables the fresh frame is
    /// returned to the ledger and the tables already created stay owned.
    pub fn map_page(
        &mut self,
        pid: usize,
        page: u64,
        profile: crate::page::PageProfile,
    ) -> (r: Result<usize, KernelError>)
        requires
            old(self).wf(),
            pid < old(self).processes@.len(),
            old(self).processes@[pid as int].alive,
        ensures
            final(self).wf(),
            final(self).threads@ == old(self).threads@,
            final(self).servers@ == old(self).servers@,
            final(self).messages@ == old(self).messages@,
            final(self).alloc_ready() == old(self).alloc_ready(),
            forall|i: int|
                0 <= i < old(self).processes@.len() && i != pid ==> final(self).processes@[i]
                    == old(self).processes@[i],
            final(self).processes@[pid as int] == (Process {
                pages: final(self).processes@[pid as int].pages,
                ..old(self).processes@[pid as int]
            }),
            old(self).alloc_ready() ==> {
                &&& final(self).the_alloc().spec_total_frames() == old(self).the_alloc().spec_total_frames()
                &&& old(self).the_alloc().spec_free_count() == final(self).the_alloc().spec_free_count() + (final(self).processes@[pid as int].pages.owned_count()
                    - old(self).processes@[pid as int].pages.owned_count())
            },
            match r {
                Ok(frame) => {
                    &&& page < crate::page::USER_HALF_PAGES
                    &&& !old(self).processes@[pid as int].pages.maps_page(page)
                    &&& final(self).processes@[pid as int].pages.maps(page, frame)
                    &&& final(self).processes@[pid as int].pages.leaves@ == old(self).processes@[pid as int].pages.leaves@.push(
                        crate::page::LeafEntry { page, frame, profile },
                    )
                },
                Err(e) => {
                    &&& (e == KernelError::AllocatorNotReady || e == KernelError::ResourceExhaustion
                        || e == KernelError::MappingFailure)
                    &&& ((e == KernelError::AllocatorNotReady) <==> !old(self).alloc_ready())
                    &&& final(self).processes@[pid as int].pages.leaves@ == old(self).processes@[pid as int].pages.leaves@
                    &&& ((e == KernelError::MappingFailure) <==> (old(self).alloc_ready() && (page
                        >= crate::page::USER_HALF_PAGES || old(self).processes@[pid as int].pages.maps_page(page))))
                    &&& ((e == KernelError::MappingFailure) ==> *final(self) == *old(self))
                    &&& ((e == KernelError::ResourceExhaustion) ==> old(self).the_alloc().spec_free_count() < 4)
                },
            },
            final(self).processes@.len() == old(self).processes@.len(),
    {
        if page >= crate::page::USER_HALF_PAGES {
            return Err(KernelError::MappingFailure);
        }
        if let Some(_) = self.processes[pid].pages.lookup(page) {
            return Err(KernelError::MappingFailure);
        }
        let a = match &mut self.allocator {
            Some(a) => a,
            None => {
                return Err(KernelError::AllocatorNotReady);
            },
        };
        let frame = match a.allocate_frame() {
            Ok(f) => f,
            Err(e) => {
                return Err(e);
            },
        };
        let ghost a1 = *a;
        proof {
            old(self).lemma_free_frame_unowned(frame as int);
            assert(old(self).wf_process(pid as int));
            assert(old(self).processes@[pid as int].pages.owned_allocated(
                old(self).the_alloc(),
            ));
            old(self).processes@[pid as int].pages.lemma_owned_allocated_monotone(
                old(self).the_alloc(),
                a1,
            );
        }
        let owner = &mut self.processes[pid];
        let map_result = owner.pages.map(a, page, frame, profile);
        proof {
            let k1 = *old(self);
            let k2 = *self;
            let a0 = k1.the_alloc();
            let af = k2.the_alloc();
            assert forall|p: int, f: int| 0 <= p < k1.processes@.len() && p != pid implies (
            #[trigger] k2.space_owner(p, f)) == k1.space_owner(p, f) by {
                assert(k2.processes@[p] == k1.processes@[p]);
            }
            assert forall|m: int, f: int| #[trigger] k2.message_owner(m, f) == k1.message_owner(
                m,
                f,
            ) by {}
            // frames newly owned by this space were free in the old ledger,
            // except the caller-allocated one
            assert forall|f: int|
                #[trigger] k2.space_owner(pid as int, f) && !k1.space_owner(pid as int, f) && f
                    != frame implies !a0.allocated(f) by {
                assert(!a1.allocated(f));
            }
            assert forall|k: int|
                0 <= k < a0.spec_total_frames() && #[trigger] a0.allocated(
                    k,
                ) implies af.allocated(k) by {
                assert(a1.allocated(k));
            }
            assert(k2.wf_frames()) by {
                assert forall|p: int|
                    0 <= p < k2.processes@.len() && (
                #[trigger] k2.processes@[p]).alive implies k2.processes@[p].pages.owned_allocated(
                    af,
                ) by {
                    if p != pid {
                        assert(k1.processes@[p].alive);
                        assert(k1.processes@[p].pages.owned_allocated(a0));
                        assert(k2.processes@[p].pages == k1.processes@[p].pages);
                        k1.processes@[p].pages.lemma_owned_allocated_monotone(a0, af);
                    }
                }
                assert forall|p1: int, p2: int, f: int| p1 != p2 implies !(
                #[trigger] k2.space_owner(p1, f) && #[trigger] k2.space_owner(p2, f)) by {
                    if k2.space_owner(p1, f) && k2.space_owner(p2, f) {
                        if p1 != pid && p2 != pid {
                            assert(k1.space_owner(p1, f) && k1.space_owner(p2, f));
                        } else {
                            let other: int = if p1 == pid {
                                p2
                            } else {
                                p1
                            };
                            assert(k2.space_owner(other, f) == k1.space_owner(other, f));
                            if k1.space_owner(pid as int, f) {
                                assert(!(k1.space_owner(pid as int, f) && k1.space_owner(
                                    other,
                                    f,
                                )));
                            } else if f == frame {
                                assert(!k1.space_owner(other, f));
                            } else {
                                k1.lemma_free_frame_unowned(f);
                            }
                        }
                    }
                }
                assert forall|p: int, m: int, f: int| !(#[trigger] k2.space_owner(p, f)
                    && #[trigger] k2.message_owner(m, f)) by {
                    if k2.space_owner(p, f) && k2.message_owner(m, f) {
                        assert(k1.message_owner(m, f));
                        if p != pid {
                            assert(k1.space_owner(p, f));
                        } else {
                            if k1.space_owner(pid as int, f) {
                                assert(!(k1.space_owner(pid as int, f) && k1.message_owner(m, f)));
                            } else if f == frame {
                                assert(!k1.message_owner(m, f));
                            } else {
                                k1.lemma_free_frame_unowned(f);
                            }
                        }
                    }
                }
                assert forall|m1: int, m2: int, f: int| m1 != m2 implies !(
                #[trigger] k2.message_owner(m1, f) && #[trigger] k2.message_owner(m2, f)) by {
                    assert(k2.message_owner(m1, f) == k1.message_owner(m1, f));
                    assert(k2.message_owner(m2, f) == k1.message_owner(m2, f));
                }
                assert forall|mid: int, i: int|
                    0 <= mid < k2.messages@.len() && k2.messages@[mid].status
                        == MessageStatus::Sent && !k2.messages@[mid].failed && 0 <= i
                        < k2.messages@[mid].frames@.len() implies (
                #[trigger] k2.messages@[mid].frames@[i]) < af.spec_total_frames() && af.allocated(
                    k2.messages@[mid].frames@[i] as int,
                ) by {
                    assert(a0.allocated(k1.messages@[mid].frames@[i] as int));
                }
            }
            assert forall|p: int| 0 <= p < k2.processes@.len() implies k2.wf_process(p) by {
                assert(k1.wf_process(p));
            }
            assert forall|t: int| 0 <= t < k2.threads@.len() implies k2.wf_thread(t) by {
                assert(k1.wf_thread(t));
            }
            assert forall|s: int| 0 <= s < k2.servers@.len() implies k2.wf_server(s) by {
                assert(k1.wf_server(s));
            }
            assert forall|m: int| 0 <= m < k2.messages@.len() implies k2.wf_message(m) by {
                assert(k1.wf_message(m));
            }
        }
        match map_result {
            Ok(()) => Ok(frame),
            Err(e) => {
                let ghost k2 = *self;
                let a2 = match &mut self.allocator {
                    Some(x) => x,
                    None => {
                        proof {
                            assert(false);
                        }
                        return Err(e);
                    },
                };
                a2.deallocate_frame(frame);
                proof {
                    let k3 = *self;
                    let af = k2.the_alloc();
                    let a3 = k3.the_alloc();
                    assert forall|p: int, f: int| #[trigger] k3.space_owner(p, f)
                        == k2.space_owner(p, f) by {
                        if 0 <= p < k2.processes@.len() {
                            assert(k3.processes@[p] == k2.processes@[p]);
                        }
                    }
                    assert forall|m: int, f: int| #[trigger] k3.message_owner(m, f)
                        == k2.message_owner(m, f) by {}
                    assert(k3.wf_frames()) by {
                        assert forall|p: int|
                            0 <= p < k3.processes@.len() && (
                        #[trigger] k3.processes@[p]).alive implies k3.processes@[p].pages.owned_allocated(
                            a3,
                        ) by {
                            assert(k2.processes@[p].alive);
                            assert(k2.processes@[p].pages.owned_allocated(af));
                            assert(k3.processes@[p].pages == k2.processes@[p].pages);
                            assert(!k2.processes@[p].pages.owns(frame as int)) by {
                                if p == pid {
                                    if k2.processes@[p].pages.owns(frame as int) {
                                        assert(!old(self).processes@[p].pages.owns(
                                            frame as int,
                                        )) by {
                                            assert(!old(self).space_owner(p, frame as int));
                                        }
                                    }
                                } else {
                                    assert(!old(self).space_owner(p, frame as int));
                                    assert(k2.processes@[p] == old(self).processes@[p]);
                                }
                            }
                            k2.processes@[p].pages.lemma_owned_allocated_after_free(af, a3, frame);
                        }
                        assert forall|p1: int, p2: int, f: int| p1 != p2 implies !(
                        #[trigger] k3.space_owner(p1, f) && #[trigger] k3.space_owner(p2, f)) by {
                            assert(k3.space_owner(p1, f) == k2.space_owner(p1, f));
                            assert(k3.space_owner(p2, f) == k2.space_owner(p2, f));
                        }
                        assert forall|p: int, m: int, f: int| !(#[trigger] k3.space_owner(p, f)
                            && #[trigger] k3.message_owner(m, f)) by {
                            assert(k3.space_owner(p, f) == k2.space_owner(p, f));
                            assert(k3.message_owner(m, f) == k2.message_owner(m, f));
                        }
                        assert forall|m1: int, m2: int, f: int| m1 != m2 implies !(
                        #[trigger] k3.message_owner(m1, f) && #[trigger] k3.message_owner(m2, f)) by {
                            assert(k3.message_owner(m1, f) == k2.message_owner(m1, f));
                            assert(k3.message_owner(m2, f) == k2.message_owner(m2, f));
                        }
                        assert forall|mid: int, i: int|
                            0 <= mid < k3.messages@.len() && k3.messages@[mid].status
                                == MessageStatus::Sent && !k3.messages@[mid].failed && 0 <= i
                                < k3.messages@[mid].frames@.len() implies (
                        #[trigger] k3.messages@[mid].frames@[i]) < a3.spec_total_frames()
                            && a3.allocated(k3.messages@[mid].frames@[i] as int) by {
                            assert(af.allocated(k2.messages@[mid].frames@[i] as int));
                            assert(!k2.message_owner(mid, frame as int));
                            assert(k2.messages@[mid].frames@[i] != frame);
                        }
                    }
                    assert forall|p: int| 0 <= p < k3.processes@.len() implies k3.wf_process(
                        p,
                    ) by {
                        assert(k2.wf_process(p));
                    }
                    assert forall|t: int| 0 <= t < k3.threads@.len() implies k3.wf_thread(t) by {
                        assert(k2.wf_thread(t));
                    }
                    assert forall|s: int| 0 <= s < k3.servers@.len() implies k3.wf_server(s) by {
                        assert(k2.wf_server(s));
                    }
                    assert forall|m: int| 0 <= m < k3.messages@.len() implies k3.wf_message(
                        m,
                    ) by {
                        assert(k2.wf_message(m));
                    }
                }
                Err(e)
            },
        }
    }

    /// Sends one message: builds `Message { tag, frames, status: Sent }`
    /// from the caller's pages, appends it to the destination server's FIFO
    /// request queue, and blocks the caller awaiting the response. Frame
    /// ownership — not byte content — transfers to the message: the frames
    /// are unmapped from the sender's space here, atomically with the status
    /// transition (every check precedes the first mutation, so no partial
    /// transfer is ever observable). The sender's effective priority is added
    /// (saturating) to the server's accumulated client priority.
    #[verifier::rlimit(100)]
    pub fn send(
        &mut self,
        sender: usize,
        sid: usize,
        tag: u64,
        pages: &Vec<u64>,
    ) -> (r: Result<usize, KernelError>)
        requires
            old(self).wf(),
            sender < old(self).threads@.len(),
        ensures
            final(self).wf(),
            final(self).alloc_ready() == old(self).alloc_ready(),
            match r {
                Ok(mid) => {
                    &&& old(self).spec_send_ok(sender as int, sid as int, pages@)
                    &&& mid == old(self).messages@.len()
                    &&& final(self).messages@.len() == old(self).messages@.len() + 1
                    &&& {
                        let m = final(self).messages@[mid as int];
                        &&& m.tag == tag
                        &&& m.status == MessageStatus::Sent
                        &&& !m.failed
                        &&& m.sender == sender
                        &&& m.server == sid
                        &&& m.origin_pages@ == pages@
                        &&& m.frames@.len() == pages@.len()
                        &&& m.boost == crate::proc::spec_effective_priority(
                            old(self).threads@[sender as int],
                        )
                        &&& forall|i: int|
                            0 <= i < pages@.len() ==> old(self).processes@[old(self).threads@[sender as int].process as int].pages.maps(
                                pages@[i],
                                #[trigger] m.frames@[i],
                            )
                    }
                    &&& forall|i: int|
                        0 <= i < old(self).messages@.len() ==> final(self).messages@[i] == old(self).messages@[i]
                    &&& {
                        let pid = old(self).threads@[sender as int].process as int;
                        let sp = final(self).processes@[pid].pages;
                        &&& forall|i: int|
                            0 <= i < pages@.len() ==> !sp.maps_page(#[trigger] pages@[i])
                        &&& forall|p: u64, fr: usize|
                            !pages@.contains(p) ==> (#[trigger] sp.maps(p, fr) <==> old(self).processes@[pid].pages.maps(p, fr))
                    }
                    &&& final(self).threads@[sender as int].status == Status::AwaitingResponse(mid)
                    &&& forall|i: int|
                        0 <= i < old(self).threads@.len() && i != sender ==> final(self).threads@[i] == old(self).threads@[i]
                    &&& (old(self).servers@[sid as int].kind is User ==> ({
                        let u = final(self).servers@[sid as int].kind->User_0;
                        let u0 = old(self).servers@[sid as int].kind->User_0;
                        &&& final(self).servers@[sid as int].kind is User
                        &&& u.requests@ == u0.requests@.push(mid)
                        &&& u.working@ == u0.working@
                        &&& u.priority_sum == Self::spec_saturating_add(
                            u0.priority_sum,
                            crate::proc::spec_effective_priority(
                                old(self).threads@[sender as int],
                            ),
                        )
                    }))
                    &&& forall|i: int|
                        0 <= i < old(self).servers@.len() && i != sid ==> final(self).servers@[i]
                            == old(self).servers@[i]
                    &&& final(self).allocator == old(self).allocator
                    &&& final(self).processes@.len() == old(self).processes@.len()
                    &&& ({
                        let pid = old(self).threads@[sender as int].process as int;
                        &&& forall|q: int|
                            0 <= q < old(self).processes@.len() && q != pid ==> final(self).processes@[q] == old(self).processes@[q]
                        &&& final(self).processes@[pid].requests@ == old(self).processes@[pid].requests@.push(mid)
                        &&& final(self).processes@[pid] == (Process {
                            pages: final(self).processes@[pid].pages,
                            requests: final(self).processes@[pid].requests,
                            ..old(self).processes@[pid]
                        })
                    })
                },
                Err(e) => {
                    &&& *final(self) == *old(self)
                    &&& (e == KernelError::ProtocolMisuse || e == KernelError::PeerGone || e
                        == KernelError::MappingFailure)
                    &&& {
                        let executing = old(self).threads@[sender as int].status
                            matches Status::Executing(c);
                        let proc_alive = old(self).processes@[old(self).threads@[sender as int].process as int].alive;
                        let server_live = sid < old(self).servers@.len() && old(self).servers@[sid as int].alive;
                        let user_kind = server_live && (old(self).servers@[sid as int].kind
                            matches ServerKind::User(u));
                        &&& ((e == KernelError::ProtocolMisuse) <==> (!executing || (proc_alive
                            && server_live && !user_kind)))
                        &&& ((e == KernelError::PeerGone) <==> (executing && (!proc_alive
                            || !server_live)))
                        &&& ((e == KernelError::MappingFailure) <==> (executing && proc_alive
                            && server_live && user_kind && !pages_transferable(
                            old(self).processes@[old(self).threads@[sender as int].process as int].pages,
                            pages@,
                        )))
                    }
                },
            },
    {
        let executing = match self.threads[sender].status {
            Status::Executing(_) => true,
            _ => false,
        };
        if !executing {
            return Err(KernelError::ProtocolMisuse);
        }
        let pid = self.threads[sender].process;
        proof {
            assert(old(self).wf_thread(sender as int));
        }
        if !self.processes[pid].alive {
            return Err(KernelError::PeerGone);
        }
        if sid >= self.servers.len() {
            return Err(KernelError::PeerGone);
        }
        if !self.servers[sid].alive {
            return Err(KernelError::PeerGone);
        }
        let user_kind = match &self.servers[sid].kind {
            ServerKind::User(_) => true,
            ServerKind::Kernel => false,
        };
        if !user_kind {
            return Err(KernelError::ProtocolMisuse);
        }
        proof {
            assert(old(self).wf_process(pid as int));
            assert(old(self).processes@[pid as int].pages.owned_allocated(old(self).the_alloc()));
        }
        let ghost s0 = self.processes@[pid as int].pages;
        let n = pages.len();
        let mut ci: usize = 0;
        while ci < n
            invariant
                *self == *old(self),
                old(self).wf(),
                sender < old(self).threads@.len(),
                old(self).threads@[sender as int].status matches Status::Executing(c),
                pid == old(self).threads@[sender as int].process,
                pid < old(self).processes@.len(),
                old(self).processes@[pid as int].alive,
                sid < old(self).servers@.len(),
                old(self).servers@[sid as int].alive,
                old(self).servers@[sid as int].kind matches ServerKind::User(u),
                n == pages@.len(),
                ci <= n,
                forall|a: int, b: int| 0 <= a < b < n && a < ci ==> pages@[a] != pages@[b],
            decreases n - ci,
        {
            let mut cj: usize = ci + 1;
            while cj < n
                invariant
                    *self == *old(self),
                    old(self).wf(),
                    sender < old(self).threads@.len(),
                    old(self).threads@[sender as int].status matches Status::Executing(c),
                    pid == old(self).threads@[sender as int].process,
                    pid < old(self).processes@.len(),
                    old(self).processes@[pid as int].alive,
                    sid < old(self).servers@.len(),
                    old(self).servers@[sid as int].alive,
                    old(self).servers@[sid as int].kind matches ServerKind::User(u),
                    n == pages@.len(),
                    ci < n,
                    ci < cj,
                    forall|a: int, b: int| 0 <= a < b < n && a < ci ==> pages@[a] != pages@[b],
                    forall|b: int| ci < b < cj ==> pages@[ci as int] != pages@[b],
                decreases n - cj,
            {
                if pages[ci] == pages[cj] {
                    return Err(KernelError::MappingFailure);
                }
                cj = cj + 1;
            }
            ci = ci + 1;
        }
        let mut frames: Vec<usize> = Vec::new();
        let mut li: usize = 0;
        while li < n
            invariant
                *self == *old(self),
                old(self).wf(),
                sender < old(self).threads@.len(),
                old(self).threads@[sender as int].status matches Status::Executing(c),
                pid == old(self).threads@[sender as int].process,
                pid < old(self).processes@.len(),
                old(self).processes@[pid as int].alive,
                sid < old(self).servers@.len(),
                old(self).servers@[sid as int].alive,
                old(self).servers@[sid as int].kind matches ServerKind::User(u),
                s0 == self.processes@[pid as int].pages,
                s0.wf(),
                n == pages@.len(),
                li <= n,
                frames@.len() == li,
                forall|k: int| 0 <= k < li ==> s0.maps(pages@[k], #[trigger] frames@[k]),
                forall|a: int, b: int| 0 <= a < b < n ==> pages@[a] != pages@[b],
                forall|a: int, b: int| 0 <= a < b < li ==> frames@[a] != frames@[b],
            decreases n - li,
        {
            let leaf = match self.processes[pid].pages.lookup(pages[li]) {
                Some(l) => l,
                None => {
                    return Err(KernelError::MappingFailure);
                },
            };
            proof {
                assert forall|a: int| 0 <= a < li implies frames@[a] != leaf.frame by {
                    s0.lemma_maps_injective(pages@[a], frames@[a], pages@[li as int], leaf.frame);
                }
            }
            frames.push(leaf.frame);
            li = li + 1;
        }
        proof {
            assert forall|i: int| 0 <= i < pages@.len() implies s0.maps_page(
                #[trigger] pages@[i],
            ) by {
                assert(s0.maps(pages@[i], frames@[i] as usize));
                let w = choose|w: int|
                    0 <= w < s0.leaves@.len() && #[trigger] s0.leaves@[w].page == pages@[i]
                        && s0.leaves@[w].frame == frames@[i];
                assert(s0.leaves@[w].page == pages@[i]);
            }
            assert(pages_transferable(s0, pages@));
        }
        let mut origin: Vec<u64> = Vec::new();
        let mut oi: usize = 0;
        while oi < n
            invariant
                n == pages@.len(),
                oi <= n,
                origin@.len() == oi,
                forall|k: int| 0 <= k < oi ==> origin@[k] == pages@[k],
            decreases n - oi,
        {
            origin.push(pages[oi]);
            oi = oi + 1;
        }
        proof {
            assert(origin@ =~= pages@);
        }
        let boost = self.threads[sender].effective_priority();

        // every check has passed: transfer the frames, enqueue the message
        // and block the sender, all in one indivisible step of the model
        let ghost fseq = frames@;
        let mut ui: usize = 0;
        while ui < n
            invariant
                old(self).wf(),
                s0.wf(),
                sender < old(self).threads@.len(),
                old(self).threads@[sender as int].status matches Status::Executing(c),
                pid == old(self).threads@[sender as int].process,
                pid < self.processes@.len(),
                old(self).processes@[pid as int].alive,
                sid < old(self).servers@.len(),
                old(self).servers@[sid as int].alive,
                old(self).servers@[sid as int].kind matches ServerKind::User(u),
                self.processes@.len() == old(self).processes@.len(),
                self.threads@ == old(self).threads@,
                self.servers@ == old(self).servers@,
                self.messages@ == old(self).messages@,
                self.allocator == old(self).allocator,
                self.stacks == old(self).stacks,
                self.processors@ == old(self).processors@,
                forall|q: int|
                    0 <= q < old(self).processes@.len() && q != pid ==> self.processes@[q] == old(self).processes@[q],
                self.processes@[pid as int] == (Process {
                    pages: self.processes@[pid as int].pages,
                    ..old(self).processes@[pid as int]
                }),
                s0 == old(self).processes@[pid as int].pages,
                n == pages@.len(),
                ui <= n,
                fseq.len() == n,
                fseq == frames@,
                forall|k: int| 0 <= k < n ==> s0.maps(pages@[k], #[trigger] fseq[k] as usize),
                forall|a: int, b: int| 0 <= a < b < n ==> pages@[a] != pages@[b],
                forall|a: int, b: int| 0 <= a < b < n ==> fseq[a] != fseq[b],
                ({
                    let sp = self.processes@[pid as int].pages;
                    &&& sp.wf()
                    &&& sp.tables@ == s0.tables@
                    &&& sp.top_frame == s0.top_frame
                    &&& sp.owned_allocated(old(self).the_alloc())
                    &&& forall|k: int|
                        0 <= k < ui ==> !sp.maps_page(#[trigger] pages@[k]) && !sp.owns(
                            fseq[k] as int,
                        )
                    &&& forall|f: int| #[trigger] sp.owns(f) ==> s0.owns(f)
                    &&& forall|p: u64, fr: usize|
                        (forall|k: int| 0 <= k < ui ==> pages@[k] != p) ==> (#[trigger] sp.maps(
                            p,
                            fr,
                        ) <==> s0.maps(p, fr))
                    &&& sp.owned_count() == s0.owned_count() - ui
                }),
            decreases n - ui,
        {
            let page_i = pages[ui];
            proof {
                let sp = self.processes@[pid as int].pages;
                assert(s0.maps(pages@[ui as int], fseq[ui as int] as usize));
                assert forall|k: int| 0 <= k < ui implies pages@[k] != page_i by {}
                assert(sp.maps(page_i, frames@[ui as int]));
            }
            let ghost prev = self.processes@[pid as int].pages;
            let owner = &mut self.processes[pid];
            let unmapped = match owner.pages.unmap(page_i) {
                Ok(l) => l,
                Err(_) => {
                    proof {
                        assert(false);
                    }
                    return Err(KernelError::MappingFailure);
                },
            };
            proof {
                let sp = self.processes@[pid as int].pages;
                crate::page::ManagedPageTable::lemma_owned_allocated_shrink(
                    prev,
                    sp,
                    old(self).the_alloc(),
                );
                prev.lemma_maps_functional(page_i, unmapped.frame, frames@[ui as int]);
            }
            ui = ui + 1;
        }
        let mid = self.messages.len();
        let message = Message {
            tag,
            frames,
            origin_pages: origin,
            status: MessageStatus::Sent,
            sender,
            server: sid,
            boost,
            failed: false,
        };
        self.messages.push(message);
        let srv = &mut self.servers[sid];
        match &mut srv.kind {
            ServerKind::User(u) => {
                u.requests.push(mid);
                u.priority_sum = saturating_add(u.priority_sum, boost);
            },
            ServerKind::Kernel => {
                proof {
                    assert(false);
                }
            },
        }
        let th = &mut self.threads[sender];
        th.status = Status::AwaitingResponse(mid);
        let pr = &mut self.processes[pid];
        pr.requests.push(mid);
        proof {
            let k1 = *old(self);
            let k2 = *self;
            let a = k1.the_alloc();
            let nmid = mid as int;
            let sp = k2.processes@[pid as int].pages;
            // the transferred frames were owned by the sender's space
            assert forall|k: int| 0 <= k < n implies k1.space_owner(pid as int, fseq[k] as int) by {
                s0.lemma_maps_implies_owns(pages@[k], fseq[k] as usize);
            }
            assert forall|p: int, f: int| 0 <= p < k1.processes@.len() && p != pid implies (
            #[trigger] k2.space_owner(p, f)) == k1.space_owner(p, f) by {
                assert(k2.processes@[p] == k1.processes@[p]);
            }
            assert forall|f: int| #[trigger] k2.space_owner(pid as int, f) implies k1.space_owner(
                pid as int,
                f,
            ) by {}
            assert forall|m: int, f: int| 0 <= m < nmid implies #[trigger] k2.message_owner(m, f)
                == k1.message_owner(m, f) by {
                assert(k2.messages@[m] == k1.messages@[m]);
            }
            assert forall|f: int| #[trigger] k2.message_owner(nmid, f) implies exists|k: int|
                0 <= k < n && fseq[k] == f by {}
            assert(k2.wf_frames()) by {
                assert forall|p: int|
                    0 <= p < k2.processes@.len() && (
                #[trigger] k2.processes@[p]).alive implies k2.processes@[p].pages.owned_allocated(
                    k2.the_alloc(),
                ) by {
                    if p != pid {
                        assert(k1.processes@[p].alive);
                        assert(k1.processes@[p].pages.owned_allocated(a));
                        assert(k2.processes@[p].pages == k1.processes@[p].pages);
                    }
                }
                assert forall|p1: int, p2: int, f: int| p1 != p2 implies !(
                #[trigger] k2.space_owner(p1, f) && #[trigger] k2.space_owner(p2, f)) by {
                    if k2.space_owner(p1, f) && k2.space_owner(p2, f) {
                        assert(k1.space_owner(p1, f));
                        assert(k1.space_owner(p2, f));
                    }
                }
                assert forall|p: int, m: int, f: int| !(#[trigger] k2.space_owner(p, f)
                    && #[trigger] k2.message_owner(m, f)) by {
                    if k2.space_owner(p, f) && k2.message_owner(m, f) {
                        assert(k1.space_owner(p, f));
                        if m < nmid {
                            assert(k1.message_owner(m, f));
                        } else {
                            let k = choose|k: int| 0 <= k < n && fseq[k] == f;
                            assert(k1.space_owner(pid as int, f));
                            if p == pid {
                                assert(!sp.owns(fseq[k] as int));
                            } else {
                                assert(!(k1.space_owner(p, f) && k1.space_owner(pid as int, f)));
                            }
                        }
                    }
                }
                assert forall|m1: int, m2: int, f: int| m1 != m2 implies !(
                #[trigger] k2.message_owner(m1, f) && #[trigger] k2.message_owner(m2, f)) by {
                    if k2.message_owner(m1, f) && k2.message_owner(m2, f) {
                        if m1 < nmid && m2 < nmid {
                            assert(k1.message_owner(m1, f));
                            assert(k1.message_owner(m2, f));
                        } else {
                            let fresh: int = if m1 == nmid {
                                m2
                            } else {
                                m1
                            };
                            let k = choose|k: int| 0 <= k < n && fseq[k] == f;
                            assert(k1.space_owner(pid as int, f));
                            assert(k1.message_owner(fresh, f));
                        }
                    }
                }
                assert forall|m: int, i: int|
                    0 <= m < k2.messages@.len() && k2.messages@[m].status == MessageStatus::Sent
                        && !k2.messages@[m].failed && 0 <= i
                        < k2.messages@[m].frames@.len() implies (
                #[trigger] k2.messages@[m].frames@[i]) < k2.the_alloc().spec_total_frames()
                    && k2.the_alloc().allocated(k2.messages@[m].frames@[i] as int) by {
                    if m < nmid {
                        assert(a.allocated(k1.messages@[m].frames@[i] as int));
                    } else {
                        s0.lemma_maps_implies_owns(pages@[i], fseq[i] as usize);
                        let w = choose|w: int|
                            0 <= w < s0.leaves@.len() && #[trigger] s0.leaves@[w].frame == fseq[i];
                        assert(s0.owned_allocated(a));
                        assert(a.allocated(s0.leaves@[w].frame as int));
                    }
                }
                assert forall|m: int, i: int, j: int|
                    0 <= m < k2.messages@.len() && 0 <= i < j
                        < k2.messages@[m].frames@.len() implies (
                #[trigger] k2.messages@[m].frames@[i]) != (#[trigger] k2.messages@[m].frames@[j]) by {
                    if m < nmid {
                        assert(k1.messages@[m].frames@[i] != k1.messages@[m].frames@[j]);
                    }
                }
            }
            assert forall|p: int| 0 <= p < k2.processes@.len() implies k2.wf_process(p) by {
                assert(k1.wf_process(p));
            }
            assert forall|t: int| 0 <= t < k2.threads@.len() implies k2.wf_thread(t) by {
                assert(k1.wf_thread(t));
            }
            assert forall|sx: int| 0 <= sx < k2.servers@.len() implies k2.wf_server(sx) by {
                assert(k1.wf_server(sx));
                if sx == sid && k1.servers@[sx].kind is User {
                    let u0 = k1.servers@[sx].kind->User_0;
                    assert forall|i: int, j: int|
                        0 <= i < j
                            < k2.servers@[sx].kind->User_0.requests@.len() implies k2.servers@[sx].kind->User_0.requests@[i]
                        != k2.servers@[sx].kind->User_0.requests@[j] by {
                        if j < u0.requests@.len() {
                            assert(u0.requests@[i] != u0.requests@[j]);
                        } else {
                            assert(u0.requests@[i] < k1.messages@.len());
                        }
                    }
                }
            }
            assert forall|m: int| 0 <= m < k2.messages@.len() implies k2.wf_message(m) by {
                if m < nmid {
                    assert(k1.wf_message(m));
                }
            }
        }
        Ok(mid)
    }

    /// When one live process's space grows by freshly allocated frames and
    /// nothing else moves, the kernel invariant is preserved.
    proof fn lemma_wf_after_space_grow(k1: Kernel, k2: Kernel, pid: int)
        requires
            k1.wf(),
            0 <= pid < k1.processes@.len(),
            k1.processes@[pid].alive,
            k1.alloc_ready(),
            k2.alloc_ready(),
            k2.the_alloc().inv(),
            k2.processes@.len() == k1.processes@.len(),
            k2.threads@ == k1.threads@,
            k2.servers@ == k1.servers@,
            k2.messages@ == k1.messages@,
            k2.stacks == k1.stacks,
            k2.allocator is Some,
            forall|q: int|
                0 <= q < k1.processes@.len() && q != pid ==> k2.processes@[q] == k1.processes@[q],
            k2.processes@[pid] == (Process { pages: k2.processes@[pid].pages, ..k1.processes@[pid] }),
            k2.processes@[pid].pages.wf(),
            k2.processes@[pid].pages.owned_allocated(k2.the_alloc()),
            ManagedPageTable::grow_ok(
                k1.processes@[pid].pages,
                k1.the_alloc(),
                k2.processes@[pid].pages,
                k2.the_alloc(),
                None,
            ),
        ensures
            k2.wf(),
    {
        let a0 = k1.the_alloc();
        let af = k2.the_alloc();
        assert forall|p: int, f: int| 0 <= p < k1.processes@.len() && p != pid implies (
        #[trigger] k2.space_owner(p, f)) == k1.space_owner(p, f) by {
            assert(k2.processes@[p] == k1.processes@[p]);
        }
        assert forall|m: int, f: int| #[trigger] k2.message_owner(m, f) == k1.message_owner(
            m,
            f,
        ) by {}
        assert forall|k: int|
            0 <= k < a0.spec_total_frames() && #[trigger] a0.allocated(k) implies af.allocated(
            k,
        ) by {}
        assert(k2.wf_frames()) by {
            assert forall|p: int|
                0 <= p < k2.processes@.len() && (
            #[trigger] k2.processes@[p]).alive implies k2.processes@[p].pages.owned_allocated(
                af,
            ) by {
                if p != pid {
                    assert(k1.processes@[p].alive);
                    assert(k1.processes@[p].pages.owned_allocated(a0));
                    assert(k2.processes@[p].pages == k1.processes@[p].pages);
                    k1.processes@[p].pages.lemma_owned_allocated_monotone(a0, af);
                }
            }
            assert forall|p1: int, p2: int, f: int| p1 != p2 implies !(#[trigger] k2.space_owner(
                p1,
                f,
            ) && #[trigger] k2.space_owner(p2, f)) by {
                if k2.space_owner(p1, f) && k2.space_owner(p2, f) {
                    if p1 != pid && p2 != pid {
                        assert(k1.space_owner(p1, f) && k1.space_owner(p2, f));
                    } else {
                        let other: int = if p1 == pid {
                            p2
                        } else {
                            p1
                        };
                        assert(k2.space_owner(other, f) == k1.space_owner(other, f));
                        if k1.space_owner(pid, f) {
                            assert(!(k1.space_owner(pid, f) && k1.space_owner(other, f)));
                        } else {
                            assert(!a0.allocated(f));
                            k1.lemma_free_frame_unowned(f);
                        }
                    }
                }
            }
            assert forall|p: int, m: int, f: int| !(#[trigger] k2.space_owner(p, f)
                && #[trigger] k2.message_owner(m, f)) by {
                if k2.space_owner(p, f) && k2.message_owner(m, f) {
                    assert(k1.message_owner(m, f));
                    if p != pid {
                        assert(k1.space_owner(p, f));
                    } else {
                        if k1.space_owner(pid, f) {
                            assert(!(k1.space_owner(pid, f) && k1.message_owner(m, f)));
                        } else {
                            assert(!a0.allocated(f));
                            k1.lemma_free_frame_unowned(f);
                        }
                    }
                }
            }
            assert forall|m1: int, m2: int, f: int| m1 != m2 implies !(#[trigger] k2.message_owner(
                m1,
                f,
            ) && #[trigger] k2.message_owner(m2, f)) by {
                assert(k2.message_owner(m1, f) == k1.message_owner(m1, f));
                assert(k2.message_owner(m2, f) == k1.message_owner(m2, f));
            }
            assert forall|mid: int, i: int|
                0 <= mid < k2.messages@.len() && k2.messages@[mid].status == MessageStatus::Sent
                    && !k2.messages@[mid].failed && 0 <= i
                    < k2.messages@[mid].frames@.len() implies (
            #[trigger] k2.messages@[mid].frames@[i]) < af.spec_total_frames() && af.allocated(
                k2.messages@[mid].frames@[i] as int,
            ) by {
                assert(a0.allocated(k1.messages@[mid].frames@[i] as int));
            }
        }
        assert forall|p: int| 0 <= p < k2.processes@.len() implies k2.wf_process(p) by {
            assert(k1.wf_process(p));
        }
        assert forall|t: int| 0 <= t < k2.threads@.len() implies k2.wf_thread(t) by {
            assert(k1.wf_thread(t));
        }
        assert forall|sx: int| 0 <= sx < k2.servers@.len() implies k2.wf_server(sx) by {
            assert(k1.wf_server(sx));
        }
        assert forall|m: int| 0 <= m < k2.messages@.len() implies k2.wf_message(m) by {
            assert(k1.wf_message(m));
        }
    }

    /// Receives the oldest queued message of a server the caller's process
    /// hosts: dequeues it (FIFO within one server), transitions it `Sent` to
    /// `Received`, moves it into the server's in-flight set, and maps its
    /// frames into the receiver's space at the given destination pages. The
    /// transfer is atomic with the status transition: intermediate tables are
    /// prepared in a fallible phase first, and nothing is dequeued or mapped
    /// until that phase has succeeded. Receiving samples the server's
    /// accumulated client priority as the receiver's inherited priority.
    #[verifier::rlimit(100)]
    pub fn receive(
        &mut self,
        receiver: usize,
        sid: usize,
        dest_pages: &Vec<u64>,
    ) -> (r: Result<usize, KernelError>)
        requires
            old(self).wf(),
            receiver < old(self).threads@.len(),
        ensures
            final(self).wf(),
            final(self).messages@.len() == old(self).messages@.len(),
            final(self).threads@.len() == old(self).threads@.len(),
            final(self).processes@.len() == old(self).processes@.len(),
            final(self).servers@.len() == old(self).servers@.len(),
            match r {
                Ok(mid) => {
                    &&& old(self).spec_receive_ready(receiver as int, sid as int, dest_pages@)
                    &&& old(self).servers@[sid as int].kind is User
                    &&& old(self).servers@[sid as int].kind->User_0.requests@.len() > 0
                    &&& mid == old(self).servers@[sid as int].kind->User_0.requests@[0]
                    &&& old(self).messages@[mid as int].status == MessageStatus::Sent
                    &&& final(self).messages@[mid as int] == (Message {
                        status: MessageStatus::Received,
                        ..old(self).messages@[mid as int]
                    })
                    &&& final(self).messages@[mid as int].frames@.len() == old(self).messages@[mid as int].frames@.len()
                    &&& forall|i: int|
                        0 <= i < old(self).messages@.len() && i != mid ==> final(self).messages@[i] == old(self).messages@[i]
                    &&& ({
                        let u = final(self).servers@[sid as int].kind->User_0;
                        let u0 = old(self).servers@[sid as int].kind->User_0;
                        &&& final(self).servers@[sid as int].kind is User
                        &&& u.requests@ == u0.requests@.subrange(1, u0.requests@.len() as int)
                        &&& u.working@ == u0.working@.push(mid)
                        &&& u.priority_sum == u0.priority_sum
                    })
                    &&& ({
                        let rpid = old(self).threads@[receiver as int].process as int;
                        let sp = final(self).processes@[rpid].pages;
                        &&& dest_pages@.len() == old(self).messages@[mid as int].frames@.len()
                        &&& forall|i: int|
                            0 <= i < dest_pages@.len() ==> sp.maps(
                                dest_pages@[i],
                                #[trigger] old(self).messages@[mid as int].frames@[i],
                            )
                    })
                    &&& final(self).threads@[receiver as int] == (Thread {
                        inherited_priority: old(self).servers@[sid as int].kind->User_0.priority_sum,
                        ..old(self).threads@[receiver as int]
                    })
                    &&& forall|i: int|
                        0 <= i < old(self).threads@.len() && i != receiver ==> final(self).threads@[i] == old(self).threads@[i]
                    &&& forall|i: int|
                        0 <= i < old(self).servers@.len() && i != sid ==> final(self).servers@[i]
                            == old(self).servers@[i]
                },
                Err(e) => {
                    &&& (e == KernelError::ProtocolMisuse || e == KernelError::PeerGone || e
                        == KernelError::PermissionDenied || e == KernelError::MappingFailure || e
                        == KernelError::ResourceExhaustion)
                    &&& final(self).messages@ == old(self).messages@
                    &&& final(self).threads@ == old(self).threads@
                    &&& final(self).servers@ == old(self).servers@
                    &&& (e != KernelError::ResourceExhaustion ==> *final(self) == *old(self))
                    &&& {
                        let rpid = old(self).threads@[receiver as int].process as int;
                        let executing = old(self).threads@[receiver as int].status
                            matches Status::Executing(c);
                        let proc_alive = old(self).processes@[rpid].alive;
                        let server_live = sid < old(self).servers@.len() && old(self).servers@[sid as int].alive;
                        let user_kind = server_live && (old(self).servers@[sid as int].kind
                            matches ServerKind::User(u));
                        let hosted = server_live && old(self).servers@[sid as int].host == old(self).threads@[receiver as int].process;
                        let queue = old(self).servers@[sid as int].kind->User_0.requests@;
                        let queue_nonempty = user_kind && queue.len() > 0;
                        let length_ok = queue_nonempty && dest_pages@.len() == old(self).messages@[queue[0] as int].frames@.len();
                        let dest_ok = pages_receivable(
                            old(self).processes@[rpid].pages,
                            dest_pages@,
                        );
                        &&& ((e == KernelError::PeerGone) <==> (executing && (!proc_alive
                            || !server_live)))
                        &&& ((e == KernelError::PermissionDenied) <==> (executing && proc_alive
                            && user_kind && !hosted))
                        &&& ((e == KernelError::ProtocolMisuse) <==> (!executing || (proc_alive
                            && server_live && !user_kind) || (proc_alive && user_kind && hosted
                            && !queue_nonempty) || (proc_alive && user_kind && hosted
                            && queue_nonempty && !length_ok)))
                        &&& ((e == KernelError::MappingFailure) <==> (executing && proc_alive
                            && user_kind && hosted && queue_nonempty && length_ok && !dest_ok))
                        &&& ((e == KernelError::ResourceExhaustion) ==> final(self).the_alloc().spec_free_count() == 0)
                    }
                },
            },
    {
        let executing = match self.threads[receiver].status {
            Status::Executing(_) => true,
            _ => false,
        };
        if !executing {
            return Err(KernelError::ProtocolMisuse);
        }
        let rpid = self.threads[receiver].process;
        proof {
            assert(old(self).wf_thread(receiver as int));
        }
        if !self.processes[rpid].alive {
            return Err(KernelError::PeerGone);
        }
        if sid >= self.servers.len() {
            return Err(KernelError::PeerGone);
        }
        if !self.servers[sid].alive {
            return Err(KernelError::PeerGone);
        }
        let user_kind = match &self.servers[sid].kind {
            ServerKind::User(_) => true,
            ServerKind::Kernel => false,
        };
        if !user_kind {
            return Err(KernelError::ProtocolMisuse);
        }
        if self.servers[sid].host != rpid {
            return Err(KernelError::PermissionDenied);
        }
        let queue_len = match &self.servers[sid].kind {
            ServerKind::User(u) => u.requests.len(),
            ServerKind::Kernel => 0,
        };
        if queue_len == 0 {
            return Err(KernelError::ProtocolMisuse);
        }
        let mid = match &self.servers[sid].kind {
            ServerKind::User(u) => u.requests[0],
            ServerKind::Kernel => 0,
        };
        proof {
            assert(old(self).wf_server(sid as int));
            assert(old(self).wf_process(rpid as int));
            assert(old(self).wf_message(mid as int));
            assert(old(self).processes@[rpid as int].pages.owned_allocated(old(self).the_alloc()));
        }
        let n = self.messages[mid].frames.len();
        if dest_pages.len() != n {
            return Err(KernelError::ProtocolMisuse);
        }
        // destination checks: user half, distinct, unmapped
        let mut ci: usize = 0;
        while ci < n
            invariant
                *self == *old(self),
                old(self).wf(),
                receiver < old(self).threads@.len(),
                old(self).threads@[receiver as int].status matches Status::Executing(c),
                rpid == old(self).threads@[receiver as int].process,
                old(self).processes@[rpid as int].alive,
                sid < old(self).servers@.len(),
                old(self).servers@[sid as int].alive,
                old(self).servers@[sid as int].kind matches ServerKind::User(u),
                old(self).servers@[sid as int].host == rpid,
                old(self).servers@[sid as int].kind->User_0.requests@.len() > 0,
                mid == old(self).servers@[sid as int].kind->User_0.requests@[0],
                n == old(self).messages@[mid as int].frames@.len(),
                n == dest_pages@.len(),
                ci <= n,
                forall|k: int|
                    0 <= k < ci ==> (#[trigger] dest_pages@[k]) < crate::page::USER_HALF_PAGES,
                forall|a: int, b: int| 0 <= a < b < n && a < ci ==> dest_pages@[a] != dest_pages@[b],
                rpid < self.processes@.len(),
                forall|k: int|
                    0 <= k < ci ==> !old(self).processes@[rpid as int].pages.maps_page(
                        #[trigger] dest_pages@[k],
                    ),
            decreases n - ci,
        {
            if dest_pages[ci] >= crate::page::USER_HALF_PAGES {
                return Err(KernelError::MappingFailure);
            }
            if let Some(_) = self.processes[rpid].pages.lookup(dest_pages[ci]) {
                return Err(KernelError::MappingFailure);
            }
            let mut cj: usize = ci + 1;
            while cj < n
                invariant
                    *self == *old(self),
                    old(self).wf(),
                    receiver < old(self).threads@.len(),
                    old(self).threads@[receiver as int].status matches Status::Executing(c),
                    rpid == old(self).threads@[receiver as int].process,
                    old(self).processes@[rpid as int].alive,
                    sid < old(self).servers@.len(),
                    old(self).servers@[sid as int].alive,
                    old(self).servers@[sid as int].kind matches ServerKind::User(u),
                    old(self).servers@[sid as int].host == rpid,
                    old(self).servers@[sid as int].kind->User_0.requests@.len() > 0,
                    mid == old(self).servers@[sid as int].kind->User_0.requests@[0],
                    n == old(self).messages@[mid as int].frames@.len(),
                    n == dest_pages@.len(),
                    ci < n,
                    ci < cj,
                    rpid < self.processes@.len(),
                    forall|a: int, b: int|
                        0 <= a < b < n && a < ci ==> dest_pages@[a] != dest_pages@[b],
                    forall|b: int| ci < b < cj ==> dest_pages@[ci as int] != dest_pages@[b],
                decreases n - cj,
            {
                if dest_pages[ci] == dest_pages[cj] {
                    return Err(KernelError::MappingFailure);
                }
                cj = cj + 1;
            }
            ci = ci + 1;
        }
        // copy the frame list out of the message
        let mut mframes: Vec<usize> = Vec::new();
        let mut fi: usize = 0;
        while fi < n
            invariant
                *self == *old(self),
                mid < self.messages@.len(),
                n == self.messages@[mid as int].frames@.len(),
                fi <= n,
                mframes@.len() == fi,
                forall|k: int|
                    0 <= k < fi ==> mframes@[k] == self.messages@[mid as int].frames@[k],
            decreases n - fi,
        {
            let v = self.messages[mid].frames[fi];
            mframes.push(v);
            fi = fi + 1;
        }
        proof {
            assert(mframes@ =~= old(self).messages@[mid as int].frames@);
        }
        let ghost s0 = self.processes@[rpid as int].pages;
        let ghost a0 = self.the_alloc();
        // fallible phase: create the intermediate tables the mapping needs
        let mut pi: usize = 0;
        while pi < n
            invariant
                old(self).wf(),
                receiver < old(self).threads@.len(),
                old(self).threads@[receiver as int].status matches Status::Executing(c),
                rpid == old(self).threads@[receiver as int].process,
                rpid < self.processes@.len(),
                old(self).processes@[rpid as int].alive,
                sid < old(self).servers@.len(),
                old(self).servers@[sid as int].alive,
                old(self).servers@[sid as int].kind matches ServerKind::User(u),
                old(self).servers@[sid as int].host == rpid,
                old(self).servers@[sid as int].kind->User_0.requests@.len() > 0,
                mid == old(self).servers@[sid as int].kind->User_0.requests@[0],
                n == old(self).messages@[mid as int].frames@.len(),
                forall|a: int, b: int| 0 <= a < b < n ==> dest_pages@[a] != dest_pages@[b],
                forall|k: int|
                    0 <= k < n ==> (#[trigger] dest_pages@[k]) < crate::page::USER_HALF_PAGES
                        && !old(self).processes@[rpid as int].pages.maps_page(dest_pages@[k]),
                old(self).alloc_ready(),
                self.alloc_ready(),
                self.the_alloc().inv(),
                self.processes@.len() == old(self).processes@.len(),
                self.threads@ == old(self).threads@,
                self.servers@ == old(self).servers@,
                self.messages@ == old(self).messages@,
                self.stacks == old(self).stacks,
                self.processors@ == old(self).processors@,
                forall|q: int|
                    0 <= q < old(self).processes@.len() && q != rpid ==> self.processes@[q] == old(self).processes@[q],
                self.processes@[rpid as int] == (Process {
                    pages: self.processes@[rpid as int].pages,
                    ..old(self).processes@[rpid as int]
                }),
                s0 == old(self).processes@[rpid as int].pages,
                a0 == old(self).the_alloc(),
                n == dest_pages@.len(),
                pi <= n,
                forall|k: int|
                    0 <= k < n ==> (#[trigger] dest_pages@[k]) < crate::page::USER_HALF_PAGES,
                forall|k: int| 0 <= k < n ==> !s0.maps_page(#[trigger] dest_pages@[k]),
                forall|a: int, b: int| 0 <= a < b < n ==> dest_pages@[a] != dest_pages@[b],
                ({
                    let sp = self.processes@[rpid as int].pages;
                    &&& sp.wf()
                    &&& sp.leaves@ == s0.leaves@
                    &&& sp.top_frame == s0.top_frame
                    &&& sp.owned_allocated(self.the_alloc())
                    &&& ManagedPageTable::grow_ok(s0, a0, sp, self.the_alloc(), None)
                    &&& forall|k: int|
                        0 <= k < pi ==> {
                            let pg = #[trigger] dest_pages@[k];
                            &&& sp.has_table(3, pg / crate::page::LEVEL_3_SPAN)
                            &&& sp.has_table(2, pg / crate::page::LEVEL_2_SPAN)
                            &&& sp.has_table(1, pg / crate::page::ENTRIES_PER_TABLE)
                        }
                }),
            decreases n - pi,
        {
            let page_i = dest_pages[pi];
            let ghost prev = self.processes@[rpid as int].pages;
            let ghost aprev = self.the_alloc();
            let a = match &mut self.allocator {
                Some(a) => a,
                None => {
                    proof {
                        assert(false);
                    }
                    return Err(KernelError::AllocatorNotReady);
                },
            };
            let owner = &mut self.processes[rpid];
            match owner.pages.prepare_tables(a, page_i) {
                Ok(()) => (),
                Err(e) => {
                    proof {
                        ManagedPageTable::lemma_grow_trans(
                            s0,
                            a0,
                            prev,
                            aprev,
                            self.processes@[rpid as int].pages,
                            self.the_alloc(),
                        );
                        Self::lemma_wf_after_space_grow(*old(self), *self, rpid as int);
                    }
                    return Err(e);
                },
            }
            proof {
                ManagedPageTable::lemma_grow_trans(
                    s0,
                    a0,
                    prev,
                    aprev,
                    self.processes@[rpid as int].pages,
                    self.the_alloc(),
                );
            }
            pi = pi + 1;
        }
        // unfailing phase: dequeue, transition, move in flight, map, inherit
        let inherited = match &self.servers[sid].kind {
            ServerKind::User(u) => u.priority_sum,
            ServerKind::Kernel => 0,
        };
        let ghost k_pre = *self;
        let srv = &mut self.servers[sid];
        match &mut srv.kind {
            ServerKind::User(u) => {
                let _ = u.requests.remove(0);
                u.working.push(mid);
            },
            ServerKind::Kernel => {
                proof {
                    assert(false);
                }
            },
        }
        let msg = &mut self.messages[mid];
        msg.status = MessageStatus::Received;
        let th = &mut self.threads[receiver];
        th.inherited_priority = inherited;
        proof {
            let u0 = old(self).servers@[sid as int].kind->User_0;
            let u2 = self.servers@[sid as int].kind->User_0;
            assert(u2.requests@ =~= u0.requests@.subrange(1, u0.requests@.len() as int));
        }
        let ghost s1 = self.processes@[rpid as int].pages;
        let ghost a1 = self.the_alloc();
        let mut ui: usize = 0;
        while ui < n
            invariant
                old(self).wf(),
                receiver < old(self).threads@.len(),
                rpid == old(self).threads@[receiver as int].process,
                rpid < self.processes@.len(),
                old(self).processes@[rpid as int].alive,
                sid < old(self).servers@.len(),
                mid < old(self).messages@.len(),
                old(self).messages@[mid as int].status == MessageStatus::Sent,
                !old(self).messages@[mid as int].failed,
                self.alloc_ready(),
                self.the_alloc() == a1,
                self.the_alloc().inv(),
                self.processes@.len() == old(self).processes@.len(),
                self.stacks == old(self).stacks,
                self.processors@ == old(self).processors@,
                self.threads@ == k_pre.threads@.update(
                    receiver as int,
                    Thread { inherited_priority: inherited, ..k_pre.threads@[receiver as int] },
                ),
                k_pre.threads@ == old(self).threads@,
                self.servers@.len() == old(self).servers@.len(),
                forall|q: int|
                    0 <= q < old(self).servers@.len() && q != sid ==> self.servers@[q] == old(self).servers@[q],
                self.servers@[sid as int] == (Server {
                    kind: self.servers@[sid as int].kind,
                    ..old(self).servers@[sid as int]
                }),
                old(self).servers@[sid as int].kind is User,
                self.servers@[sid as int].kind is User,
                ({
                    let u0 = old(self).servers@[sid as int].kind->User_0;
                    let u2 = self.servers@[sid as int].kind->User_0;
                    &&& u0.requests@.len() > 0
                    &&& mid == u0.requests@[0]
                    &&& u2.requests@ == u0.requests@.subrange(1, u0.requests@.len() as int)
                    &&& u2.working@ == u0.working@.push(mid)
                    &&& u2.priority_sum == u0.priority_sum
                    &&& inherited == u0.priority_sum
                }),
                self.messages@ == old(self).messages@.update(
                    mid as int,
                    Message { status: MessageStatus::Received, ..old(self).messages@[mid as int] },
                ),
                forall|q: int|
                    0 <= q < old(self).processes@.len() && q != rpid ==> self.processes@[q] == old(self).processes@[q],
                self.processes@[rpid as int] == (Process {
                    pages: self.processes@[rpid as int].pages,
                    ..old(self).processes@[rpid as int]
                }),
                n == dest_pages@.len(),
                n == mframes@.len(),
                n == old(self).messages@[mid as int].frames@.len(),
                mframes@ == old(self).messages@[mid as int].frames@,
                forall|a: int, b: int| 0 <= a < b < n ==> dest_pages@[a] != dest_pages@[b],
                forall|k: int|
                    0 <= k < n ==> (#[trigger] dest_pages@[k]) < crate::page::USER_HALF_PAGES,
                forall|k: int| 0 <= k < n ==> !s1.maps_page(#[trigger] dest_pages@[k]),
                s0 == old(self).processes@[rpid as int].pages,
                a0 == old(self).the_alloc(),
                s1.wf(),
                s1.leaves@ == s0.leaves@,
                ManagedPageTable::grow_ok(s0, a0, s1, a1, None),
                ui <= n,
                ({
                    let sp = self.processes@[rpid as int].pages;
                    &&& sp.wf()
                    &&& sp.top_frame == s1.top_frame
                    &&& sp.tables@ == s1.tables@
                    &&& sp.owned_allocated(a1)
                    &&& sp.leaves@ == s1.leaves@ + Seq::new(
                        ui as nat,
                        |k: int|
                            crate::page::LeafEntry {
                                page: dest_pages@[k],
                                frame: mframes@[k],
                                profile: crate::page::PageProfile::User,
                            },
                    )
                    &&& forall|k: int|
                        0 <= k < n ==> {
                            let pg = #[trigger] dest_pages@[k];
                            &&& sp.has_table(3, pg / crate::page::LEVEL_3_SPAN)
                            &&& sp.has_table(2, pg / crate::page::LEVEL_2_SPAN)
                            &&& sp.has_table(1, pg / crate::page::ENTRIES_PER_TABLE)
                        }
                }),
            decreases n - ui,
        {
            let page_i = dest_pages[ui];
            let frame_i = mframes[ui];
            proof {
                let sp = self.processes@[rpid as int].pages;
                let k1 = *old(self);
                // the page is still unmapped: only earlier, distinct pages were added
                assert(!sp.maps_page(page_i)) by {
                    if sp.maps_page(page_i) {
                        let w = choose|w: int|
                            0 <= w < sp.leaves@.len() && #[trigger] sp.leaves@[w].page == page_i;
                        if w < s1.leaves@.len() {
                            assert(s1.leaves@[w].page == page_i);
                        } else {
                            assert(sp.leaves@[w].page == dest_pages@[w - s1.leaves@.len()]);
                        }
                    }
                }
                // the frame is not owned by the receiver's space: it is owned
                // by the in-flight message, which excludes every space owner
                assert(k1.message_owner(mid as int, frame_i as int)) by {
                    assert(k1.messages@[mid as int].frames@[ui as int] == frame_i);
                }
                assert(!(k1.space_owner(rpid as int, frame_i as int) && k1.message_owner(
                    mid as int,
                    frame_i as int,
                )));
                // the frame is allocated (a message in flight only holds
                // allocated frames, and the prepare phase only grew the ledger)
                assert(a0.allocated(frame_i as int) && frame_i < a0.spec_total_frames()) by {
                    assert(k1.messages@[mid as int].frames@[ui as int] < k1.the_alloc(
                    ).spec_total_frames());
                }
                assert(a1.allocated(frame_i as int) && frame_i < a1.spec_total_frames());
                assert(!sp.owns(frame_i as int)) by {
                    if sp.owns(frame_i as int) {
                        if exists|w: int|
                            0 <= w < sp.leaves@.len() && #[trigger] sp.leaves@[w].frame
                                == frame_i {
                            let w = choose|w: int|
                                0 <= w < sp.leaves@.len() && #[trigger] sp.leaves@[w].frame
                                    == frame_i;
                            if w < s1.leaves@.len() {
                                assert(s0.leaves@[w].frame == frame_i);
                                assert(s0.owns(frame_i as int));
                                assert(k1.space_owner(rpid as int, frame_i as int));
                            } else {
                                let k = w - s1.leaves@.len();
                                assert(sp.leaves@[w].frame == mframes@[k]);
                                assert(k1.messages@[mid as int].frames@[k] != k1.messages@[
                                    mid as int].frames@[ui as int]);
                            }
                        } else {
                            assert(s1.owns(frame_i as int)) by {
                                if sp.top_frame == frame_i as int {
                                } else {
                                    let w = choose|w: int|
                                        0 <= w < sp.tables@.len() && #[trigger] sp.tables@[w].frame
                                            == frame_i;
                                    assert(s1.tables@[w].frame == frame_i);
                                }
                            }
                            if s0.owns(frame_i as int) {
                                assert(k1.space_owner(rpid as int, frame_i as int));
                            } else {
                                assert(!a0.allocated(frame_i as int));
                            }
                        }
                    }
                }
            }
            let ghost prev = self.processes@[rpid as int].pages;
            let a = match &mut self.allocator {
                Some(a) => a,
                None => {
                    proof {
                        assert(false);
                    }
                    return Err(KernelError::AllocatorNotReady);
                },
            };
            let owner = &mut self.processes[rpid];
            let map_result = owner.pages.map(
                a,
                page_i,
                frame_i,
                crate::page::PageProfile::User,
            );
            proof {
                assert(map_result is Ok);
                let sp = self.processes@[rpid as int].pages;
                assert(sp.leaves@ == prev.leaves@.push(
                    crate::page::LeafEntry {
                        page: page_i,
                        frame: frame_i,
                        profile: crate::page::PageProfile::User,
                    },
                ));
                assert(sp.leaves@ =~= s1.leaves@ + Seq::new(
                    (ui + 1) as nat,
                    |k: int|
                        crate::page::LeafEntry {
                            page: dest_pages@[k],
                            frame: mframes@[k],
                            profile: crate::page::PageProfile::User,
                        },
                ));
                assert(sp.tables@ == prev.tables@);
            }
            ui = ui + 1;
        }
        proof {
            let k1 = *old(self);
            let k2 = *self;
            let a = k1.the_alloc();
            let sp = k2.processes@[rpid as int].pages;
            // mapped pages and frames line up
            assert forall|i: int| 0 <= i < n implies sp.maps(
                dest_pages@[i],
                #[trigger] mframes@[i] as usize,
            ) by {
                assert(sp.leaves@[s1.leaves@.len() + i].page == dest_pages@[i]);
                assert(sp.leaves@[s1.leaves@.len() + i].frame == mframes@[i]);
            }
            // every frame the receiver's space now owns was owned before,
            // came in with the message, or backs a freshly created table
            assert forall|f: int| #[trigger] k2.space_owner(rpid as int, f) implies (
            k1.space_owner(rpid as int, f) || (exists|k: int| 0 <= k < n && mframes@[k] == f) || (
            !a.allocated(f) && 0 <= f < a.spec_total_frames())) by {
                if sp.owns(f) {
                    if exists|w: int|
                        0 <= w < sp.leaves@.len() && #[trigger] sp.leaves@[w].frame == f {
                        let w = choose|w: int|
                            0 <= w < sp.leaves@.len() && #[trigger] sp.leaves@[w].frame == f;
                        if w < s1.leaves@.len() {
                            assert(s0.leaves@[w].frame == f);
                            assert(s0.owns(f));
                            assert(k1.space_owner(rpid as int, f));
                        } else {
                            assert(mframes@[w - s1.leaves@.len()] == f);
                        }
                    } else {
                        assert(s1.owns(f)) by {
                            if sp.top_frame == f {
                            } else {
                                let w = choose|w: int|
                                    0 <= w < sp.tables@.len() && #[trigger] sp.tables@[w].frame
                                        == f;
                                assert(s1.tables@[w].frame == f);
                            }
                        }
                        if s0.owns(f) {
                            assert(k1.space_owner(rpid as int, f));
                        } else {
                            assert(!a0.allocated(f) && 0 <= f < a0.spec_total_frames());
                        }
                    }
                }
            }
            assert forall|p: int, f: int| 0 <= p < k1.processes@.len() && p != rpid implies (
            #[trigger] k2.space_owner(p, f)) == k1.space_owner(p, f) by {
                assert(k2.processes@[p] == k1.processes@[p]);
            }
            assert forall|m: int, f: int| m != mid implies #[trigger] k2.message_owner(m, f)
                == k1.message_owner(m, f) by {
                if 0 <= m < k1.messages@.len() {
                    assert(k2.messages@[m] == k1.messages@[m]);
                }
            }
            assert forall|f: int| !(#[trigger] k2.message_owner(mid as int, f)) by {}
            assert forall|k: int| 0 <= k < n implies k1.message_owner(
                mid as int,
                #[trigger] mframes@[k] as int,
            ) by {
                assert(k1.messages@[mid as int].frames@[k] == mframes@[k]);
            }
            assert(k2.wf_frames()) by {
                assert forall|p: int|
                    0 <= p < k2.processes@.len() && (
                #[trigger] k2.processes@[p]).alive implies k2.processes@[p].pages.owned_allocated(
                    k2.the_alloc(),
                ) by {
                    if p != rpid {
                        assert(k1.processes@[p].alive);
                        assert(k1.processes@[p].pages.owned_allocated(a));
                        assert(k2.processes@[p].pages == k1.processes@[p].pages);
                        k1.processes@[p].pages.lemma_owned_allocated_monotone(a, k2.the_alloc());
                    }
                }
                assert forall|p1: int, p2: int, f: int| p1 != p2 implies !(
                #[trigger] k2.space_owner(p1, f) && #[trigger] k2.space_owner(p2, f)) by {
                    if k2.space_owner(p1, f) && k2.space_owner(p2, f) {
                        if p1 != rpid && p2 != rpid {
                            assert(k1.space_owner(p1, f) && k1.space_owner(p2, f));
                        } else {
                            let other: int = if p1 == rpid {
                                p2
                            } else {
                                p1
                            };
                            assert(k2.space_owner(other, f) == k1.space_owner(other, f));
                            if k1.space_owner(rpid as int, f) {
                                assert(!(k1.space_owner(rpid as int, f) && k1.space_owner(
                                    other,
                                    f,
                                )));
                            } else if exists|k: int| 0 <= k < n && mframes@[k] == f {
                                let k = choose|k: int| 0 <= k < n && mframes@[k] == f;
                                assert(k1.message_owner(mid as int, f));
                                assert(!(k1.space_owner(other, f) && k1.message_owner(
                                    mid as int,
                                    f,
                                )));
                            } else {
                                k1.lemma_free_frame_unowned(f);
                            }
                        }
                    }
                }
                assert forall|p: int, m: int, f: int| !(#[trigger] k2.space_owner(p, f)
                    && #[trigger] k2.message_owner(m, f)) by {
                    if k2.space_owner(p, f) && k2.message_owner(m, f) {
                        assert(m != mid);
                        assert(k1.message_owner(m, f));
                        if p != rpid {
                            assert(k1.space_owner(p, f));
                        } else {
                            if k1.space_owner(rpid as int, f) {
                                assert(!(k1.space_owner(rpid as int, f) && k1.message_owner(
                                    m,
                                    f,
                                )));
                            } else if exists|k: int| 0 <= k < n && mframes@[k] == f {
                                let k = choose|k: int| 0 <= k < n && mframes@[k] == f;
                                assert(k1.message_owner(mid as int, f));
                                assert(!(k1.message_owner(mid as int, f) && k1.message_owner(
                                    m,
                                    f,
                                )) || mid == m);
                            } else {
                                k1.lemma_free_frame_unowned(f);
                            }
                        }
                    }
                }
                assert forall|m1: int, m2: int, f: int| m1 != m2 implies !(
                #[trigger] k2.message_owner(m1, f) && #[trigger] k2.message_owner(m2, f)) by {
                    if k2.message_owner(m1, f) && k2.message_owner(m2, f) {
                        assert(m1 != mid && m2 != mid);
                        assert(k1.message_owner(m1, f));
                        assert(k1.message_owner(m2, f));
                    }
                }
                assert forall|m: int, i: int|
                    0 <= m < k2.messages@.len() && k2.messages@[m].status == MessageStatus::Sent
                        && !k2.messages@[m].failed && 0 <= i
                        < k2.messages@[m].frames@.len() implies (
                #[trigger] k2.messages@[m].frames@[i]) < k2.the_alloc().spec_total_frames()
                    && k2.the_alloc().allocated(k2.messages@[m].frames@[i] as int) by {
                    assert(m != mid);
                    assert(k2.messages@[m] == k1.messages@[m]);
                    assert(a.allocated(k1.messages@[m].frames@[i] as int));
                }
                assert forall|m: int, i: int, j: int|
                    0 <= m < k2.messages@.len() && 0 <= i < j
                        < k2.messages@[m].frames@.len() implies (
                #[trigger] k2.messages@[m].frames@[i]) != (#[trigger] k2.messages@[m].frames@[j]) by {
                    assert(k1.messages@[m].frames@[i] != k1.messages@[m].frames@[j]);
                }
            }
            assert forall|p: int| 0 <= p < k2.processes@.len() implies k2.wf_process(p) by {
                assert(k1.wf_process(p));
            }
            assert forall|t: int| 0 <= t < k2.threads@.len() implies k2.wf_thread(t) by {
                assert(k1.wf_thread(t));
            }
            assert forall|sx: int| 0 <= sx < k2.servers@.len() implies k2.wf_server(sx) by {
                assert(k1.wf_server(sx));
                if sx == sid {
                    let u0 = k1.servers@[sx].kind->User_0;
                    let u2 = k2.servers@[sx].kind->User_0;
                    assert(u2.requests@ == u0.requests@.subrange(1, u0.requests@.len() as int));
                    assert forall|i: int| 0 <= i < u2.requests@.len() implies {
                        let m = #[trigger] u2.requests@[i];
                        &&& m < k2.messages@.len()
                        &&& k2.messages@[m as int].server == sx
                        &&& k2.messages@[m as int].status == MessageStatus::Sent
                        &&& !k2.messages@[m as int].failed
                    } by {
                        assert(u2.requests@[i] == u0.requests@[i + 1]);
                        assert(u0.requests@[i + 1] != u0.requests@[0]);
                    }
                    assert forall|i: int, j: int|
                        0 <= i < j < u2.requests@.len() implies u2.requests@[i]
                        != u2.requests@[j] by {
                        assert(u2.requests@[i] == u0.requests@[i + 1]);
                        assert(u2.requests@[j] == u0.requests@[j + 1]);
                    }
                    assert forall|i: int| 0 <= i < u2.working@.len() implies {
                        let m = #[trigger] u2.working@[i];
                        &&& m < k2.messages@.len()
                        &&& k2.messages@[m as int].server == sx
                        &&& k2.messages@[m as int].status == MessageStatus::Received
                    } by {
                        if i < u0.working@.len() {
                            assert(u0.working@[i] != mid);
                        }
                    }
                    assert forall|i: int, j: int|
                        0 <= i < j < u2.working@.len() implies u2.working@[i] != u2.working@[j] by {
                        if j < u0.working@.len() {
                        } else {
                            if i < u0.working@.len() {
                                assert(u0.working@[i] != mid);
                            }
                        }
                    }
                }
            }
            assert forall|m: int| 0 <= m < k2.messages@.len() implies k2.wf_message(m) by {
                assert(k1.wf_message(m));
            }
        }
        Ok(mid)
    }

    /// Responds to a received message: the server thread returns `{tag,
    /// frames}` — exactly as many frames as the request carried — the
    /// message transitions `Received` to `Responded` and leaves the in-flight
    /// set, the frames transfer out of the responder's space back into the
    /// original sender's space at the request's origin pages, the server's
    /// accumulated client priority drops by the message's boost, and the
    /// sender wakes (`AwaitingResponse` to `Ready`). The transfer is atomic
    /// with the status transition: intermediate tables are prepared first,
    /// and nothing moves until every check has passed. A sender that has
    /// vanished, or a response from within the sender's own process, resolves
    /// to an explicit error instead of blocking anyone forever.
    #[verifier::rlimit(100)]
    pub fn respond(
        &mut self,
        responder: usize,
        sid: usize,
        mid: usize,
        response_pages: &Vec<u64>,
    ) -> (r: Result<(), KernelError>)
        requires
            old(self).wf(),
            responder < old(self).threads@.len(),
        ensures
            final(self).wf(),
            final(self).messages@.len() == old(self).messages@.len(),
            final(self).threads@.len() == old(self).threads@.len(),
            final(self).processes@.len() == old(self).processes@.len(),
            final(self).servers@.len() == old(self).servers@.len(),
            match r {
                Ok(()) => {
                    &&& old(self).spec_respond_ready(
                        responder as int,
                        sid as int,
                        mid as int,
                        response_pages@,
                    )
                    &&& mid < old(self).messages@.len()
                    &&& old(self).messages@[mid as int].status == MessageStatus::Received
                    &&& ({
                        let m2 = final(self).messages@[mid as int];
                        let m1 = old(self).messages@[mid as int];
                        &&& m2.status == MessageStatus::Responded
                        &&& m2.tag == m1.tag
                        &&& m2.sender == m1.sender
                        &&& m2.server == m1.server
                        &&& m2.origin_pages@ == m1.origin_pages@
                        &&& m2.frames@.len() == m1.frames@.len()
                    })
                    &&& forall|i: int|
                        0 <= i < old(self).messages@.len() && i != mid ==> final(self).messages@[i] == old(self).messages@[i]
                    &&& ({
                        let st = old(self).messages@[mid as int].sender as int;
                        &&& final(self).threads@[st].status == Status::Ready
                        &&& forall|i: int|
                            0 <= i < old(self).threads@.len() && i != st ==> final(self).threads@[i] == old(self).threads@[i]
                    })
                    &&& ({
                        let spid = old(self).threads@[old(self).messages@[mid as int].sender as int].process as int;
                        let sp = final(self).processes@[spid].pages;
                        let m1 = old(self).messages@[mid as int];
                        forall|i: int|
                            0 <= i < m1.origin_pages@.len() ==> sp.maps(
                                m1.origin_pages@[i],
                                #[trigger] final(self).messages@[mid as int].frames@[i],
                            )
                    })
                    &&& ({
                        let u = final(self).servers@[sid as int].kind->User_0;
                        let u0 = old(self).servers@[sid as int].kind->User_0;
                        &&& final(self).servers@[sid as int].kind is User
                        &&& u.requests@ == u0.requests@
                        &&& u.priority_sum == Self::spec_saturating_sub(
                            u0.priority_sum,
                            old(self).messages@[mid as int].boost,
                        )
                        &&& forall|i: int|
                            0 <= i < u.working@.len() ==> (#[trigger] u.working@[i]) != mid
                    })
                },
                Err(e) => {
                    &&& (e == KernelError::ProtocolMisuse || e == KernelError::PeerGone || e
                        == KernelError::PermissionDenied || e == KernelError::MappingFailure || e
                        == KernelError::ResourceExhaustion)
                    &&& final(self).messages@ == old(self).messages@
                    &&& final(self).threads@ == old(self).threads@
                    &&& final(self).servers@ == old(self).servers@
                    &&& (e != KernelError::ResourceExhaustion ==> *final(self) == *old(self))
                    &&& {
                        let rpid = old(self).threads@[responder as int].process as int;
                        let executing = old(self).threads@[responder as int].status
                            matches Status::Executing(c);
                        let proc_alive = old(self).processes@[rpid].alive;
                        let server_live = sid < old(self).servers@.len() && old(self).servers@[sid as int].alive;
                        let user_kind = server_live && (old(self).servers@[sid as int].kind
                            matches ServerKind::User(u));
                        let hosted = server_live && old(self).servers@[sid as int].host == old(self).threads@[responder as int].process;
                        let working = old(self).servers@[sid as int].kind->User_0.working@;
                        let in_working = user_kind && exists|i: int|
                            0 <= i < working.len() && working[i] == mid;
                        let msg = old(self).messages@[mid as int];
                        let spid = old(self).threads@[msg.sender as int].process as int;
                        let sender_waiting = old(self).threads@[msg.sender as int].status
                            == Status::AwaitingResponse(mid);
                        let sender_proc_alive = old(self).processes@[spid].alive;
                        let distinct_proc = spid != rpid;
                        let length_ok = response_pages@.len() == msg.frames@.len();
                        let origin_ok = pages_receivable(
                            old(self).processes@[spid].pages,
                            msg.origin_pages@,
                        );
                        let resp_ok = pages_transferable(
                            old(self).processes@[rpid].pages,
                            response_pages@,
                        );
                        &&& ((e == KernelError::PeerGone) <==> (executing && (!proc_alive
                            || !server_live || (user_kind && hosted && in_working && (
                        !sender_waiting || !sender_proc_alive)))))
                        &&& ((e == KernelError::PermissionDenied) <==> (executing && proc_alive
                            && user_kind && !hosted))
                        &&& ((e == KernelError::ProtocolMisuse) <==> (!executing || (proc_alive
                            && server_live && !user_kind) || (proc_alive && user_kind && hosted
                            && !in_working) || (proc_alive && user_kind && hosted && in_working
                            && sender_waiting && sender_proc_alive && (!distinct_proc || (
                        distinct_proc && !length_ok)))))
                        &&& ((e == KernelError::MappingFailure) <==> (executing && proc_alive
                            && user_kind && hosted && in_working && sender_waiting
                            && sender_proc_alive && distinct_proc && length_ok && !(origin_ok
                            && resp_ok)))
                        &&& ((e == KernelError::ResourceExhaustion) ==> final(self).the_alloc().spec_free_count() == 0)
                    }
                },
            },
    {
        let executing = match self.threads[responder].status {
            Status::Executing(_) => true,
            _ => false,
        };
        if !executing {
            return Err(KernelError::ProtocolMisuse);
        }
        let rpid = self.threads[responder].process;
        proof {
            assert(old(self).wf_thread(responder as int));
        }
        if !self.processes[rpid].alive {
            return Err(KernelError::PeerGone);
        }
        if sid >= self.servers.len() {
            return Err(KernelError::PeerGone);
        }
        if !self.servers[sid].alive {
            return Err(KernelError::PeerGone);
        }
        let user_kind = match &self.servers[sid].kind {
            ServerKind::User(_) => true,
            ServerKind::Kernel => false,
        };
        if !user_kind {
            return Err(KernelError::ProtocolMisuse);
        }
        if self.servers[sid].host != rpid {
            return Err(KernelError::PermissionDenied);
        }
        // the message must be in this server's in-flight set
        let mut widx: usize = 0;
        let mut found: bool = false;
        let working_len = match &self.servers[sid].kind {
            ServerKind::User(u) => u.working.len(),
            ServerKind::Kernel => 0,
        };
        while widx < working_len && !found
            invariant
                *self == *old(self),
                old(self).wf(),
                sid < self.servers@.len(),
                self.servers@[sid as int].kind is User,
                working_len == self.servers@[sid as int].kind->User_0.working@.len(),
                widx <= working_len,
                !found ==> forall|k: int|
                    0 <= k < widx ==> (
                    #[trigger] self.servers@[sid as int].kind->User_0.working@[k]) != mid,
                found ==> widx < working_len
                    && self.servers@[sid as int].kind->User_0.working@[widx as int] == mid,
            decreases working_len - widx + (if found { 0int } else { 1int }),
        {
            let entry = match &self.servers[sid].kind {
                ServerKind::User(u) => u.working[widx],
                ServerKind::Kernel => 0,
            };
            if entry == mid {
                found = true;
            } else {
                widx = widx + 1;
            }
        }
        if !found {
            return Err(KernelError::ProtocolMisuse);
        }
        proof {
            assert(old(self).wf_server(sid as int));
            assert(old(self).wf_message(mid as int));
            assert(old(self).messages@[mid as int].status == MessageStatus::Received);
        }
        let st = self.messages[mid].sender;
        proof {
            assert(old(self).wf_thread(st as int));
        }
        let awaiting = match self.threads[st].status {
            Status::AwaitingResponse(m) => m == mid,
            _ => false,
        };
        if !awaiting {
            return Err(KernelError::PeerGone);
        }
        let spid = self.threads[st].process;
        if !self.processes[spid].alive {
            return Err(KernelError::PeerGone);
        }
        if spid == rpid {
            return Err(KernelError::ProtocolMisuse);
        }
        let n = self.messages[mid].frames.len();
        if response_pages.len() != n {
            return Err(KernelError::ProtocolMisuse);
        }
        proof {
            assert(old(self).wf_process(rpid as int));
            assert(old(self).wf_process(spid as int));
            assert(old(self).processes@[rpid as int].pages.owned_allocated(old(self).the_alloc()));
            assert(old(self).processes@[spid as int].pages.owned_allocated(old(self).the_alloc()));
        }
        // copy the origin pages out of the message
        let mut origin: Vec<u64> = Vec::new();
        let mut oi: usize = 0;
        while oi < n
            invariant
                *self == *old(self),
                mid < self.messages@.len(),
                n == self.messages@[mid as int].frames@.len(),
                n == self.messages@[mid as int].origin_pages@.len(),
                oi <= n,
                origin@.len() == oi,
                forall|k: int|
                    0 <= k < oi ==> origin@[k] == self.messages@[mid as int].origin_pages@[k],
            decreases n - oi,
        {
            let v = self.messages[mid].origin_pages[oi];
            origin.push(v);
            oi = oi + 1;
        }
        proof {
            assert(origin@ =~= old(self).messages@[mid as int].origin_pages@);
        }
        // origin pages must be distinct, in the user half, and free in the
        // sender's space; response pages distinct and mapped by the responder
        let ghost r0 = self.processes@[rpid as int].pages;
        let ghost d0 = self.processes@[spid as int].pages;
        let mut ci: usize = 0;
        while ci < n
            invariant
                *self == *old(self),
                old(self).wf(),
                responder < old(self).threads@.len(),
                old(self).threads@[responder as int].status matches Status::Executing(c),
                rpid == old(self).threads@[responder as int].process,
                old(self).processes@[rpid as int].alive,
                sid < old(self).servers@.len(),
                old(self).servers@[sid as int].alive,
                old(self).servers@[sid as int].kind matches ServerKind::User(u),
                old(self).servers@[sid as int].host == rpid,
                widx < old(self).servers@[sid as int].kind->User_0.working@.len(),
                old(self).servers@[sid as int].kind->User_0.working@[widx as int] == mid,
                mid < old(self).messages@.len(),
                st == old(self).messages@[mid as int].sender,
                old(self).threads@[st as int].status == Status::AwaitingResponse(mid),
                spid == old(self).threads@[st as int].process,
                old(self).processes@[spid as int].alive,
                spid != rpid,
                n == old(self).messages@[mid as int].frames@.len(),
                origin@ == old(self).messages@[mid as int].origin_pages@,
                n == origin@.len(),
                n == response_pages@.len(),
                ci <= n,
                rpid < self.processes@.len(),
                spid < self.processes@.len(),
                d0 == self.processes@[spid as int].pages,
                forall|k: int| 0 <= k < ci ==> (#[trigger] origin@[k]) < crate::page::USER_HALF_PAGES,
                forall|a: int, b: int| 0 <= a < b < n && a < ci ==> origin@[a] != origin@[b],
                forall|a: int, b: int|
                    0 <= a < b < n && a < ci ==> response_pages@[a] != response_pages@[b],
                forall|k: int| 0 <= k < ci ==> !d0.maps_page(#[trigger] origin@[k]),
            decreases n - ci,
        {
            if origin[ci] >= crate::page::USER_HALF_PAGES {
                return Err(KernelError::MappingFailure);
            }
            if let Some(_) = self.processes[spid].pages.lookup(origin[ci]) {
                return Err(KernelError::MappingFailure);
            }
            let mut cj: usize = ci + 1;
            while cj < n
                invariant
                    *self == *old(self),
                    old(self).wf(),
                    responder < old(self).threads@.len(),
                    old(self).threads@[responder as int].status matches Status::Executing(c),
                    rpid == old(self).threads@[responder as int].process,
                    old(self).processes@[rpid as int].alive,
                    sid < old(self).servers@.len(),
                    old(self).servers@[sid as int].alive,
                    old(self).servers@[sid as int].kind matches ServerKind::User(u),
                    old(self).servers@[sid as int].host == rpid,
                    widx < old(self).servers@[sid as int].kind->User_0.working@.len(),
                    old(self).servers@[sid as int].kind->User_0.working@[widx as int] == mid,
                    mid < old(self).messages@.len(),
                    st == old(self).messages@[mid as int].sender,
                    old(self).threads@[st as int].status == Status::AwaitingResponse(mid),
                    spid == old(self).threads@[st as int].process,
                    old(self).processes@[spid as int].alive,
                    spid != rpid,
                    n == old(self).messages@[mid as int].frames@.len(),
                    origin@ == old(self).messages@[mid as int].origin_pages@,
                    n == origin@.len(),
                    n == response_pages@.len(),
                    ci < n,
                    ci < cj,
                    forall|a: int, b: int| 0 <= a < b < n && a < ci ==> origin@[a] != origin@[b],
                    forall|a: int, b: int|
                        0 <= a < b < n && a < ci ==> response_pages@[a] != response_pages@[b],
                    forall|b: int| ci < b < cj ==> origin@[ci as int] != origin@[b],
                    forall|b: int| ci < b < cj ==> response_pages@[ci as int] != response_pages@[b],
                decreases n - cj,
            {
                if origin[ci] == origin[cj] {
                    return Err(KernelError::MappingFailure);
                }
                if response_pages[ci] == response_pages[cj] {
                    return Err(KernelError::MappingFailure);
                }
                cj = cj + 1;
            }
            ci = ci + 1;
        }
        // collect the response frames from the responder's space
        let mut rframes: Vec<usize> = Vec::new();
        let mut li: usize = 0;
        while li < n
            invariant
                *self == *old(self),
                old(self).wf(),
                responder < old(self).threads@.len(),
                old(self).threads@[responder as int].status matches Status::Executing(c),
                rpid == old(self).threads@[responder as int].process,
                old(self).processes@[rpid as int].alive,
                sid < old(self).servers@.len(),
                old(self).servers@[sid as int].alive,
                old(self).servers@[sid as int].kind matches ServerKind::User(u),
                old(self).servers@[sid as int].host == rpid,
                widx < old(self).servers@[sid as int].kind->User_0.working@.len(),
                old(self).servers@[sid as int].kind->User_0.working@[widx as int] == mid,
                mid < old(self).messages@.len(),
                st == old(self).messages@[mid as int].sender,
                old(self).threads@[st as int].status == Status::AwaitingResponse(mid),
                spid == old(self).threads@[st as int].process,
                old(self).processes@[spid as int].alive,
                spid != rpid,
                n == old(self).messages@[mid as int].frames@.len(),
                origin@ == old(self).messages@[mid as int].origin_pages@,
                rpid < self.processes@.len(),
                r0 == self.processes@[rpid as int].pages,
                r0.wf(),
                n == response_pages@.len(),
                forall|a: int, b: int| 0 <= a < b < n ==> origin@[a] != origin@[b],
                forall|k: int|
                    0 <= k < n ==> (#[trigger] origin@[k]) < crate::page::USER_HALF_PAGES
                        && !old(self).processes@[spid as int].pages.maps_page(origin@[k]),
                li <= n,
                rframes@.len() == li,
                forall|k: int| 0 <= k < li ==> r0.maps(response_pages@[k], #[trigger] rframes@[k]),
                forall|a: int, b: int| 0 <= a < b < n ==> response_pages@[a] != response_pages@[b],
                forall|a: int, b: int| 0 <= a < b < li ==> rframes@[a] != rframes@[b],
            decreases n - li,
        {
            let leaf = match self.processes[rpid].pages.lookup(response_pages[li]) {
                Some(l) => l,
                None => {
                    return Err(KernelError::MappingFailure);
                },
            };
            proof {
                assert forall|a: int| 0 <= a < li implies rframes@[a] != leaf.frame by {
                    r0.lemma_maps_injective(
                        response_pages@[a],
                        rframes@[a],
                        response_pages@[li as int],
                        leaf.frame,
                    );
                }
            }
            rframes.push(leaf.frame);
            li = li + 1;
        }
        proof {
            assert forall|k: int| 0 <= k < n implies old(self).processes@[rpid as int].pages.maps_page(#[trigger] response_pages@[k]) by {
                assert(r0.maps(response_pages@[k], rframes@[k] as usize));
                let w = choose|w: int|
                    0 <= w < r0.leaves@.len() && #[trigger] r0.leaves@[w].page
                        == response_pages@[k] && r0.leaves@[w].frame == rframes@[k];
                assert(r0.leaves@[w].page == response_pages@[k]);
            }
        }
        // fallible phase: intermediate tables for the origin pages in the
        // sender's space
        let ghost a0 = self.the_alloc();
        let mut pi: usize = 0;
        while pi < n
            invariant
                old(self).wf(),
                responder < old(self).threads@.len(),
                old(self).threads@[responder as int].status matches Status::Executing(c),
                rpid == old(self).threads@[responder as int].process,
                old(self).processes@[rpid as int].alive,
                sid < old(self).servers@.len(),
                old(self).servers@[sid as int].alive,
                old(self).servers@[sid as int].kind matches ServerKind::User(u),
                old(self).servers@[sid as int].host == rpid,
                widx < old(self).servers@[sid as int].kind->User_0.working@.len(),
                old(self).servers@[sid as int].kind->User_0.working@[widx as int] == mid,
                mid < old(self).messages@.len(),
                st == old(self).messages@[mid as int].sender,
                old(self).threads@[st as int].status == Status::AwaitingResponse(mid),
                spid == old(self).threads@[st as int].process,
                old(self).processes@[spid as int].alive,
                spid != rpid,
                n == old(self).messages@[mid as int].frames@.len(),
                n == response_pages@.len(),
                origin@ == old(self).messages@[mid as int].origin_pages@,
                spid < self.processes@.len(),
                old(self).processes@[spid as int].alive,
                old(self).alloc_ready(),
                forall|a: int, b: int| 0 <= a < b < n ==> response_pages@[a] != response_pages@[b],
                forall|k: int|
                    0 <= k < n ==> old(self).processes@[rpid as int].pages.maps_page(
                        #[trigger] response_pages@[k],
                    ),
                self.alloc_ready(),
                self.the_alloc().inv(),
                self.processes@.len() == old(self).processes@.len(),
                self.threads@ == old(self).threads@,
                self.servers@ == old(self).servers@,
                self.messages@ == old(self).messages@,
                self.stacks == old(self).stacks,
                forall|q: int|
                    0 <= q < old(self).processes@.len() && q != spid ==> self.processes@[q] == old(self).processes@[q],
                self.processes@[spid as int] == (Process {
                    pages: self.processes@[spid as int].pages,
                    ..old(self).processes@[spid as int]
                }),
                d0 == old(self).processes@[spid as int].pages,
                a0 == old(self).the_alloc(),
                n == origin@.len(),
                rpid < old(self).processes@.len(),
                spid != rpid,
                old(self).processes@[rpid as int].alive,
                pi <= n,
                forall|k: int| 0 <= k < n ==> (#[trigger] origin@[k]) < crate::page::USER_HALF_PAGES,
                forall|k: int| 0 <= k < n ==> !d0.maps_page(#[trigger] origin@[k]),
                forall|a: int, b: int| 0 <= a < b < n ==> origin@[a] != origin@[b],
                ({
                    let sp = self.processes@[spid as int].pages;
                    &&& sp.wf()
                    &&& sp.leaves@ == d0.leaves@
                    &&& sp.top_frame == d0.top_frame
                    &&& sp.owned_allocated(self.the_alloc())
                    &&& ManagedPageTable::grow_ok(d0, a0, sp, self.the_alloc(), None)
                    &&& forall|k: int|
                        0 <= k < pi ==> {
                            let pg = #[trigger] origin@[k];
                            &&& sp.has_table(3, pg / crate::page::LEVEL_3_SPAN)
                            &&& sp.has_table(2, pg / crate::page::LEVEL_2_SPAN)
                            &&& sp.has_table(1, pg / crate::page::ENTRIES_PER_TABLE)
                        }
                }),
            decreases n - pi,
        {
            let page_i = origin[pi];
            let ghost prev = self.processes@[spid as int].pages;
            let ghost aprev = self.the_alloc();
            let a = match &mut self.allocator {
                Some(a) => a,
                None => {
                    proof {
                        assert(false);
                    }
                    return Err(KernelError::AllocatorNotReady);
                },
            };
            let owner = &mut self.processes[spid];
            match owner.pages.prepare_tables(a, page_i) {
                Ok(()) => (),
                Err(e) => {
                    proof {
                        ManagedPageTable::lemma_grow_trans(
                            d0,
                            a0,
                            prev,
                            aprev,
                            self.processes@[spid as int].pages,
                            self.the_alloc(),
                        );
                        Self::lemma_wf_after_space_grow(*old(self), *self, spid as int);
                    }
                    return Err(e);
                },
            }
            proof {
                ManagedPageTable::lemma_grow_trans(
                    d0,
                    a0,
                    prev,
                    aprev,
                    self.processes@[spid as int].pages,
                    self.the_alloc(),
                );
            }
            pi = pi + 1;
        }
        proof {
            Self::lemma_wf_after_space_grow(*old(self), *self, spid as int);
        }
        let ghost k_mid = *self;
        let ghost d1 = self.processes@[spid as int].pages;
        let ghost a1 = self.the_alloc();
        // unfailing phase: unmap the response frames from the responder,
        // retire the message, wake the sender, and map the frames back
        let boost = self.messages[mid].boost;
        let ghost fseq = rframes@;
        let mut ui: usize = 0;
        while ui < n
            invariant
                old(self).wf(),
                k_mid.wf(),
                rpid < self.processes@.len(),
                spid < self.processes@.len(),
                spid != rpid,
                old(self).processes@[rpid as int].alive,
                self.alloc_ready(),
                self.the_alloc() == a1,
                *self == (Kernel { processes: self.processes, ..k_mid }),
                self.processes@.len() == k_mid.processes@.len(),
                forall|q: int|
                    0 <= q < k_mid.processes@.len() && q != rpid ==> self.processes@[q]
                        == k_mid.processes@[q],
                self.processes@[rpid as int] == (Process {
                    pages: self.processes@[rpid as int].pages,
                    ..k_mid.processes@[rpid as int]
                }),
                r0 == old(self).processes@[rpid as int].pages,
                k_mid.processes@[rpid as int].pages == r0,
                r0.wf(),
                n == response_pages@.len(),
                n == fseq.len(),
                fseq == rframes@,
                forall|k: int| 0 <= k < n ==> r0.maps(response_pages@[k], #[trigger] fseq[k] as usize),
                forall|a: int, b: int| 0 <= a < b < n ==> response_pages@[a] != response_pages@[b],
                forall|a: int, b: int| 0 <= a < b < n ==> fseq[a] != fseq[b],
                ui <= n,
                ({
                    let sp = self.processes@[rpid as int].pages;
                    &&& sp.wf()
                    &&& sp.tables@ == r0.tables@
                    &&& sp.top_frame == r0.top_frame
                    &&& sp.owned_allocated(a1)
                    &&& forall|k: int|
                        0 <= k < ui ==> !sp.maps_page(#[trigger] response_pages@[k]) && !sp.owns(
                            fseq[k] as int,
                        )
                    &&& forall|f: int| #[trigger] sp.owns(f) ==> r0.owns(f)
                    &&& forall|p: u64, fr: usize|
                        (forall|k: int| 0 <= k < ui ==> response_pages@[k] != p) ==> (
                        #[trigger] sp.maps(p, fr) <==> r0.maps(p, fr))
                    &&& sp.owned_count() == r0.owned_count() - ui
                }),
            decreases n - ui,
        {
            let page_i = response_pages[ui];
            proof {
                let sp = self.processes@[rpid as int].pages;
                assert(r0.maps(response_pages@[ui as int], fseq[ui as int] as usize));
                assert forall|k: int| 0 <= k < ui implies response_pages@[k] != page_i by {}
                assert(sp.maps(page_i, rframes@[ui as int]));
            }
            let ghost prev = self.processes@[rpid as int].pages;
            let owner = &mut self.processes[rpid];
            let unmapped = match owner.pages.unmap(page_i) {
                Ok(l) => l,
                Err(_) => {
                    proof {
                        assert(false);
                    }
                    return Err(KernelError::MappingFailure);
                },
            };
            proof {
                let sp = self.processes@[rpid as int].pages;
                crate::page::ManagedPageTable::lemma_owned_allocated_shrink(prev, sp, a1);
                prev.lemma_maps_functional(page_i, unmapped.frame, rframes@[ui as int]);
            }
            ui = ui + 1;
        }
        let ghost r1 = self.processes@[rpid as int].pages;
        let srv = &mut self.servers[sid];
        match &mut srv.kind {
            ServerKind::User(u) => {
                let _ = u.working.remove(widx);
                u.priority_sum = saturating_sub(u.priority_sum, boost);
            },
            ServerKind::Kernel => {
                proof {
                    assert(false);
                }
            },
        }
        let msgref = &mut self.messages[mid];
        msgref.status = MessageStatus::Responded;
        msgref.frames = rframes;
        let th = &mut self.threads[st];
        th.status = Status::Ready;
        let pr = &mut self.processes[spid];
        pr.responses.push(mid);
        proof {
            k_mid.servers@[sid as int].kind->User_0.working@.remove_ensures(widx as int);
        }
        let mut mi: usize = 0;
        while mi < n
            invariant
                old(self).wf(),
                k_mid.wf(),
                rpid < self.processes@.len(),
                spid < self.processes@.len(),
                spid != rpid,
                st < old(self).threads@.len(),
                sid < old(self).servers@.len(),
                mid < old(self).messages@.len(),
                old(self).processes@[rpid as int].alive,
                old(self).processes@[spid as int].alive,
                old(self).messages@[mid as int].status == MessageStatus::Received,
                st == old(self).messages@[mid as int].sender,
                spid == old(self).threads@[st as int].process,
                self.alloc_ready(),
                self.the_alloc() == a1,
                self.the_alloc().inv(),
                a0 == old(self).the_alloc(),
                self.processes@.len() == old(self).processes@.len(),
                self.stacks == old(self).stacks,
                self.processors@ == k_mid.processors@,
                // threads: the sender woke
                self.threads@ == old(self).threads@.update(
                    st as int,
                    Thread { status: Status::Ready, ..old(self).threads@[st as int] },
                ),
                // servers: the message left the in-flight set, the boost came off
                self.servers@.len() == old(self).servers@.len(),
                forall|q: int|
                    0 <= q < old(self).servers@.len() && q != sid ==> self.servers@[q] == old(self).servers@[q],
                self.servers@[sid as int] == (Server {
                    kind: self.servers@[sid as int].kind,
                    ..old(self).servers@[sid as int]
                }),
                old(self).servers@[sid as int].kind is User,
                self.servers@[sid as int].kind is User,
                ({
                    let u0 = old(self).servers@[sid as int].kind->User_0;
                    let u2 = self.servers@[sid as int].kind->User_0;
                    &&& widx < u0.working@.len()
                    &&& u0.working@[widx as int] == mid
                    &&& u2.requests@ == u0.requests@
                    &&& u2.working@ == u0.working@.remove(widx as int)
                    &&& u2.priority_sum == Self::spec_saturating_sub(
                        u0.priority_sum,
                        old(self).messages@[mid as int].boost,
                    )
                }),
                // messages: the one message retired, its frames replaced
                self.messages@.len() == old(self).messages@.len(),
                forall|q: int|
                    0 <= q < old(self).messages@.len() && q != mid ==> self.messages@[q] == old(self).messages@[q],
                self.messages@[mid as int] == (Message {
                    status: MessageStatus::Responded,
                    frames: self.messages@[mid as int].frames,
                    ..old(self).messages@[mid as int]
                }),
                self.messages@[mid as int].frames@ == fseq,
                // processes: the responder's space shrank, the sender's grew
                forall|q: int|
                    0 <= q < old(self).processes@.len() && q != rpid && q != spid
                        ==> self.processes@[q] == old(self).processes@[q],
                self.processes@[rpid as int] == (Process {
                    pages: self.processes@[rpid as int].pages,
                    ..old(self).processes@[rpid as int]
                }),
                self.processes@[spid as int] == (Process {
                    pages: self.processes@[spid as int].pages,
                    responses: self.processes@[spid as int].responses,
                    ..old(self).processes@[spid as int]
                }),
                self.processes@[spid as int].responses@ == old(self).processes@[spid as int].responses@.push(mid),
                self.processes@[rpid as int].pages == r1,
                r0 == old(self).processes@[rpid as int].pages,
                d0 == old(self).processes@[spid as int].pages,
                r0.wf(),
                // what the unmap phase established for the responder's space
                ({
                    &&& r1.wf()
                    &&& r1.tables@ == r0.tables@
                    &&& r1.top_frame == r0.top_frame
                    &&& r1.owned_allocated(a1)
                    &&& forall|k: int|
                        0 <= k < n ==> !r1.maps_page(#[trigger] response_pages@[k]) && !r1.owns(
                            fseq[k] as int,
                        )
                    &&& forall|f: int| #[trigger] r1.owns(f) ==> r0.owns(f)
                }),
                // page and frame lists
                n == response_pages@.len(),
                n == origin@.len(),
                n == fseq.len(),
                origin@ == old(self).messages@[mid as int].origin_pages@,
                forall|k: int| 0 <= k < n ==> r0.maps(response_pages@[k], #[trigger] fseq[k] as usize),
                forall|a: int, b: int| 0 <= a < b < n ==> origin@[a] != origin@[b],
                forall|a: int, b: int| 0 <= a < b < n ==> fseq[a] != fseq[b],
                forall|k: int| 0 <= k < n ==> (#[trigger] origin@[k]) < crate::page::USER_HALF_PAGES,
                forall|k: int| 0 <= k < n ==> !d1.maps_page(#[trigger] origin@[k]),
                // the sender's space as the mapping proceeds
                d1.wf(),
                d1.leaves@ == d0.leaves@,
                ManagedPageTable::grow_ok(d0, a0, d1, a1, None),
                mi <= n,
                ({
                    let sp = self.processes@[spid as int].pages;
                    &&& sp.wf()
                    &&& sp.top_frame == d1.top_frame
                    &&& sp.tables@ == d1.tables@
                    &&& sp.owned_allocated(a1)
                    &&& sp.leaves@ == d1.leaves@ + Seq::new(
                        mi as nat,
                        |k: int|
                            crate::page::LeafEntry {
                                page: origin@[k],
                                frame: fseq[k] as usize,
                                profile: crate::page::PageProfile::User,
                            },
                    )
                    &&& forall|k: int|
                        0 <= k < n ==> {
                            let pg = #[trigger] origin@[k];
                            &&& sp.has_table(3, pg / crate::page::LEVEL_3_SPAN)
                            &&& sp.has_table(2, pg / crate::page::LEVEL_2_SPAN)
                            &&& sp.has_table(1, pg / crate::page::ENTRIES_PER_TABLE)
                        }
                }),
            decreases n - mi,
        {
            let page_i = origin[mi];
            let frame_i = self.messages[mid].frames[mi];
            proof {
                let sp = self.processes@[spid as int].pages;
                let k1 = *old(self);
                assert(!sp.maps_page(page_i)) by {
                    if sp.maps_page(page_i) {
                        let w = choose|w: int|
                            0 <= w < sp.leaves@.len() && #[trigger] sp.leaves@[w].page == page_i;
                        if w < d1.leaves@.len() {
                            assert(d1.leaves@[w].page == page_i);
                        } else {
                            assert(sp.leaves@[w].page == origin@[w - d1.leaves@.len()]);
                        }
                    }
                }
                // the response frame was owned by the responder in the old
                // state, so the sender's space cannot own it
                assert(r0.maps(response_pages@[mi as int], fseq[mi as int] as usize));
                r0.lemma_maps_implies_owns(
                    response_pages@[mi as int],
                    fseq[mi as int] as usize,
                );
                assert(k1.space_owner(rpid as int, frame_i as int));
                assert(a0.allocated(frame_i as int) && frame_i < a0.spec_total_frames()) by {
                    assert(k1.processes@[rpid as int].pages.owned_allocated(a0));
                    let w = choose|w: int|
                        0 <= w < r0.leaves@.len() && #[trigger] r0.leaves@[w].frame == frame_i;
                    assert(a0.allocated(r0.leaves@[w].frame as int));
                }
                assert(a1.allocated(frame_i as int) && frame_i < a1.spec_total_frames());
                assert(!sp.owns(frame_i as int)) by {
                    if sp.owns(frame_i as int) {
                        if exists|w: int|
                            0 <= w < sp.leaves@.len() && #[trigger] sp.leaves@[w].frame
                                == frame_i {
                            let w = choose|w: int|
                                0 <= w < sp.leaves@.len() && #[trigger] sp.leaves@[w].frame
                                    == frame_i;
                            if w < d1.leaves@.len() {
                                assert(d0.leaves@[w].frame == frame_i);
                                assert(d0.owns(frame_i as int));
                                assert(k1.space_owner(spid as int, frame_i as int));
                                assert(!(k1.space_owner(spid as int, frame_i as int)
                                    && k1.space_owner(rpid as int, frame_i as int)));
                            } else {
                                let k = w - d1.leaves@.len();
                                assert(sp.leaves@[w].frame == fseq[k]);
                            }
                        } else {
                            assert(d1.owns(frame_i as int)) by {
                                if sp.top_frame == frame_i as int {
                                } else {
                                    let w = choose|w: int|
                                        0 <= w < sp.tables@.len() && #[trigger] sp.tables@[w].frame
                                            == frame_i;
                                    assert(d1.tables@[w].frame == frame_i);
                                }
                            }
                            if d0.owns(frame_i as int) {
                                assert(k1.space_owner(spid as int, frame_i as int));
                                assert(!(k1.space_owner(spid as int, frame_i as int)
                                    && k1.space_owner(rpid as int, frame_i as int)));
                            } else {
                                assert(!a0.allocated(frame_i as int));
                            }
                        }
                    }
                }
            }
            let ghost prev = self.processes@[spid as int].pages;
            let a = match &mut self.allocator {
                Some(a) => a,
                None => {
                    proof {
                        assert(false);
                    }
                    return Err(KernelError::AllocatorNotReady);
                },
            };
            let owner = &mut self.processes[spid];
            let map_result = owner.pages.map(a, page_i, frame_i, crate::page::PageProfile::User);
            proof {
                assert(map_result is Ok);
                let sp = self.processes@[spid as int].pages;
                assert(sp.leaves@ =~= d1.leaves@ + Seq::new(
                    (mi + 1) as nat,
                    |k: int|
                        crate::page::LeafEntry {
                            page: origin@[k],
                            frame: fseq[k] as usize,
                            profile: crate::page::PageProfile::User,
                        },
                ));
                assert(sp.tables@ == prev.tables@);
            }
            mi = mi + 1;
        }
        proof {
            let k1 = *old(self);
            let k2 = *self;
            let a = k1.the_alloc();
            let sp = k2.processes@[spid as int].pages;
            assert forall|i: int| 0 <= i < n implies sp.maps(
                origin@[i],
                #[trigger] fseq[i] as usize,
            ) by {
                assert(sp.leaves@[d1.leaves@.len() + i].page == origin@[i]);
                assert(sp.leaves@[d1.leaves@.len() + i].frame == fseq[i]);
            }
            // the frames were the responder's
            assert forall|k: int| 0 <= k < n implies k1.space_owner(
                rpid as int,
                #[trigger] fseq[k] as int,
            ) by {
                r0.lemma_maps_implies_owns(response_pages@[k], fseq[k] as usize);
            }
            // ownership after: the responder's space only shrank
            assert forall|f: int| #[trigger] k2.space_owner(rpid as int, f) implies k1.space_owner(
                rpid as int,
                f,
            ) by {}
            // the sender's space grew by the response frames and fresh tables
            assert forall|f: int| #[trigger] k2.space_owner(spid as int, f) implies (
            k1.space_owner(spid as int, f) || (exists|k: int| 0 <= k < n && fseq[k] == f) || (
            !a.allocated(f) && 0 <= f < a.spec_total_frames())) by {
                if sp.owns(f) {
                    if exists|w: int|
                        0 <= w < sp.leaves@.len() && #[trigger] sp.leaves@[w].frame == f {
                        let w = choose|w: int|
                            0 <= w < sp.leaves@.len() && #[trigger] sp.leaves@[w].frame == f;
                        if w < d1.leaves@.len() {
                            assert(d0.leaves@[w].frame == f);
                            assert(d0.owns(f));
                            assert(k1.space_owner(spid as int, f));
                        } else {
                            assert(fseq[w - d1.leaves@.len()] == f);
                        }
                    } else {
                        assert(d1.owns(f)) by {
                            if sp.top_frame == f {
                            } else {
                                let w = choose|w: int|
                                    0 <= w < sp.tables@.len() && #[trigger] sp.tables@[w].frame
                                        == f;
                                assert(d1.tables@[w].frame == f);
                            }
                        }
                        if d0.owns(f) {
                            assert(k1.space_owner(spid as int, f));
                        } else {
                            assert(!a0.allocated(f) && 0 <= f < a0.spec_total_frames());
                        }
                    }
                }
            }
            assert forall|p: int, f: int|
                0 <= p < k1.processes@.len() && p != rpid && p != spid implies (
            #[trigger] k2.space_owner(p, f)) == k1.space_owner(p, f) by {
                assert(k2.processes@[p] == k1.processes@[p]);
            }
            assert forall|m: int, f: int| m != mid implies #[trigger] k2.message_owner(m, f)
                == k1.message_owner(m, f) by {
                if 0 <= m < k1.messages@.len() {
                    assert(k2.messages@[m] == k1.messages@[m]);
                }
            }
            assert forall|f: int| !(#[trigger] k2.message_owner(mid as int, f)) by {}
            assert forall|f: int| !(#[trigger] k1.message_owner(mid as int, f)) by {}
            assert(k2.wf_frames()) by {
                assert forall|p: int|
                    0 <= p < k2.processes@.len() && (
                #[trigger] k2.processes@[p]).alive implies k2.processes@[p].pages.owned_allocated(
                    k2.the_alloc(),
                ) by {
                    if p != rpid && p != spid {
                        assert(k1.processes@[p].alive);
                        assert(k1.processes@[p].pages.owned_allocated(a));
                        assert(k2.processes@[p].pages == k1.processes@[p].pages);
                        k1.processes@[p].pages.lemma_owned_allocated_monotone(a, k2.the_alloc());
                    }
                }
                assert forall|p1: int, p2: int, f: int| p1 != p2 implies !(
                #[trigger] k2.space_owner(p1, f) && #[trigger] k2.space_owner(p2, f)) by {
                    if k2.space_owner(p1, f) && k2.space_owner(p2, f) {
                        if p1 != spid && p2 != spid {
                            assert(k1.space_owner(p1, f));
                            assert(k1.space_owner(p2, f));
                        } else {
                            let other: int = if p1 == spid {
                                p2
                            } else {
                                p1
                            };
                            assert(k2.space_owner(other, f) ==> k1.space_owner(other, f));
                            if k1.space_owner(spid as int, f) {
                                assert(!(k1.space_owner(spid as int, f) && k1.space_owner(
                                    other,
                                    f,
                                )));
                            } else if exists|k: int| 0 <= k < n && fseq[k] == f {
                                // the frame came from the responder, whose
                                // space no longer owns it
                                let k = choose|k: int| 0 <= k < n && fseq[k] == f;
                                assert(k1.space_owner(rpid as int, f));
                                if other == rpid {
                                    assert(!k2.processes@[rpid as int].pages.owns(f));
                                } else {
                                    assert(!(k1.space_owner(other, f) && k1.space_owner(
                                        rpid as int,
                                        f,
                                    )));
                                }
                            } else {
                                k1.lemma_free_frame_unowned(f);
                            }
                        }
                    }
                }
                assert forall|p: int, m: int, f: int| !(#[trigger] k2.space_owner(p, f)
                    && #[trigger] k2.message_owner(m, f)) by {
                    if k2.space_owner(p, f) && k2.message_owner(m, f) {
                        assert(m != mid);
                        assert(k1.message_owner(m, f));
                        if p != spid {
                            assert(k1.space_owner(p, f));
                        } else {
                            if k1.space_owner(spid as int, f) {
                                assert(!(k1.space_owner(spid as int, f) && k1.message_owner(
                                    m,
                                    f,
                                )));
                            } else if exists|k: int| 0 <= k < n && fseq[k] == f {
                                let k = choose|k: int| 0 <= k < n && fseq[k] == f;
                                assert(k1.space_owner(rpid as int, f));
                                assert(!(k1.space_owner(rpid as int, f) && k1.message_owner(
                                    m,
                                    f,
                                )));
                            } else {
                                k1.lemma_free_frame_unowned(f);
                            }
                        }
                    }
                }
                assert forall|m1: int, m2: int, f: int| m1 != m2 implies !(
                #[trigger] k2.message_owner(m1, f) && #[trigger] k2.message_owner(m2, f)) by {
                    if k2.message_owner(m1, f) && k2.message_owner(m2, f) {
                        assert(m1 != mid && m2 != mid);
                        assert(k1.message_owner(m1, f));
                        assert(k1.message_owner(m2, f));
                    }
                }
                assert forall|m: int, i: int|
                    0 <= m < k2.messages@.len() && k2.messages@[m].status == MessageStatus::Sent
                        && !k2.messages@[m].failed && 0 <= i
                        < k2.messages@[m].frames@.len() implies (
                #[trigger] k2.messages@[m].frames@[i]) < k2.the_alloc().spec_total_frames()
                    && k2.the_alloc().allocated(k2.messages@[m].frames@[i] as int) by {
                    assert(m != mid);
                    assert(k2.messages@[m] == k1.messages@[m]);
                    assert(a.allocated(k1.messages@[m].frames@[i] as int));
                }
                assert forall|m: int, i: int, j: int|
                    0 <= m < k2.messages@.len() && 0 <= i < j
                        < k2.messages@[m].frames@.len() implies (
                #[trigger] k2.messages@[m].frames@[i]) != (#[trigger] k2.messages@[m].frames@[j]) by {
                    if m != mid {
                        assert(k1.messages@[m].frames@[i] != k1.messages@[m].frames@[j]);
                    } else {
                        assert(k2.messages@[m].frames@[i] == fseq[i]);
                        assert(k2.messages@[m].frames@[j] == fseq[j]);
                    }
                }
            }
            assert forall|p: int| 0 <= p < k2.processes@.len() implies k2.wf_process(p) by {
                assert(k1.wf_process(p));
            }
            assert forall|t: int| 0 <= t < k2.threads@.len() implies k2.wf_thread(t) by {
                assert(k1.wf_thread(t));
            }
            assert forall|sx: int| 0 <= sx < k2.servers@.len() implies k2.wf_server(sx) by {
                assert(k1.wf_server(sx));
                if sx == sid {
                    let u0 = k1.servers@[sx].kind->User_0;
                    let u2 = k2.servers@[sx].kind->User_0;
                    u0.working@.remove_ensures(widx as int);
                    assert forall|i: int| 0 <= i < u2.requests@.len() implies {
                        let m = #[trigger] u2.requests@[i];
                        &&& m < k2.messages@.len()
                        &&& k2.messages@[m as int].server == sx
                        &&& k2.messages@[m as int].status == MessageStatus::Sent
                        &&& !k2.messages@[m as int].failed
                    } by {
                        assert(u0.requests@[i] != mid) by {
                            assert(k1.messages@[u0.requests@[i] as int].status
                                == MessageStatus::Sent);
                        }
                    }
                    assert forall|i: int| 0 <= i < u2.working@.len() implies {
                        let m = #[trigger] u2.working@[i];
                        &&& m < k2.messages@.len()
                        &&& k2.messages@[m as int].server == sx
                        &&& k2.messages@[m as int].status == MessageStatus::Received
                    } by {
                        if i < widx {
                            assert(u2.working@[i] == u0.working@[i]);
                            assert(u0.working@[i] != u0.working@[widx as int]);
                        } else {
                            assert(u2.working@[i] == u0.working@[i + 1]);
                            assert(u0.working@[i + 1] != u0.working@[widx as int]);
                        }
                    }
                    assert forall|i: int, j: int|
                        0 <= i < j < u2.working@.len() implies u2.working@[i] != u2.working@[j] by {
                        let a_: int = if i < widx {
                            i
                        } else {
                            i + 1
                        };
                        let b_: int = if j < widx {
                            j
                        } else {
                            j + 1
                        };
                        assert(u2.working@[i] == u0.working@[a_]);
                        assert(u2.working@[j] == u0.working@[b_]);
                    }
                }
            }
            assert forall|m: int| 0 <= m < k2.messages@.len() implies k2.wf_message(m) by {
                assert(k1.wf_message(m));
            }
        }
        Ok(())
    }

    /// Subtraction with a floor at zero.
    pub open spec fn spec_saturating_sub(a: u64, b: u64) -> u64 {
        if a >= b {
            (a - b) as u64
        } else {
            0
        }
    }

    /// The ready threads of one process, oldest first, each carrying the
    /// fixed base weight.
    pub open spec fn spec_ready_threads(self, pid: int, i: nat) -> Seq<(usize, usize)>
        decreases i,
    {
        if i == 0 {
            Seq::empty()
        } else {
            let prefix = self.spec_ready_threads(pid, (i - 1) as nat);
            let tid = self.processes@[pid].threads@[i - 1];
            if self.threads@[tid as int].status == Status::Ready {
                prefix.push((tid, crate::sched::THREAD_BASE_WEIGHT))
            } else {
                prefix
            }
        }
    }

    /// The long-term scan of the subtree rooted at `pid`: this process's
    /// ready threads, then each child subtree in order.
    pub open spec fn spec_branches(self, pid: int) -> Seq<(usize, usize)>
        decreases self.processes@.len() - pid, 1int, 0int,
            when 0 <= pid < self.processes@.len() && self.wf()
    {
        self.spec_ready_threads(pid, self.processes@[pid].threads@.len())
            + self.spec_child_branches(pid, self.processes@[pid].children@.len())
    }

    /// The concatenated scans of the first `j` children of `pid`.
    pub open spec fn spec_child_branches(self, pid: int, j: nat) -> Seq<(usize, usize)>
        decreases self.processes@.len() - pid, 0int, j,
            when 0 <= pid < self.processes@.len() && j
                <= self.processes@[pid].children@.len() && self.wf()
            via Self::spec_child_branches_decreases
    {
        if j == 0 {
            Seq::empty()
        } else {
            self.spec_child_branches(pid, (j - 1) as nat) + self.spec_branches(
                self.processes@[pid].children@[j - 1] as int,
            )
        }
    }

    #[via_fn]
    proof fn spec_child_branches_decreases(self, pid: int, j: nat) {
        if j > 0 && 0 <= pid < self.processes@.len() && j
            <= self.processes@[pid].children@.len() && self.wf() {
            assert(self.wf_process(pid));
        }
    }

    /// Walks the subtree rooted at `pid`, collecting every thread whose
    /// status is `Ready`, each weighted by the fixed base weight. The scan
    /// reads and never writes, so — absent a concurrent status change — it is
    /// idempotent.
    pub fn branches(&self, pid: usize) -> (r: Vec<(usize, usize)>)
        requires
            self.wf(),
            pid < self.processes@.len(),
        ensures
            r@ == self.spec_branches(pid as int),
        decreases self.processes@.len() - pid,
    {
        let mut out: Vec<(usize, usize)> = Vec::new();
        let thread_count = self.processes[pid].threads.len();
        let mut i: usize = 0;
        while i < thread_count
            invariant
                self.wf(),
                pid < self.processes@.len(),
                thread_count == self.processes@[pid as int].threads@.len(),
                i <= thread_count,
                out@ == self.spec_ready_threads(pid as int, i as nat),
            decreases thread_count - i,
        {
            proof {
                assert(self.wf_process(pid as int));
            }
            let tid = self.processes[pid].threads[i];
            let ready = match self.threads[tid].status {
                Status::Ready => true,
                _ => false,
            };
            if ready {
                out.push((tid, crate::sched::THREAD_BASE_WEIGHT));
            }
            i = i + 1;
        }
        let child_count = self.processes[pid].children.len();
        let mut j: usize = 0;
        while j < child_count
            invariant
                self.wf(),
                pid < self.processes@.len(),
                child_count == self.processes@[pid as int].children@.len(),
                thread_count == self.processes@[pid as int].threads@.len(),
                j <= child_count,
                out@ == self.spec_ready_threads(pid as int, thread_count as nat)
                    + self.spec_child_branches(pid as int, j as nat),
            decreases child_count - j,
        {
            proof {
                assert(self.wf_process(pid as int));
            }
            let child = self.processes[pid].children[j];
            let mut sub = self.branches(child);
            out.append(&mut sub);
            proof {
                assert(out@ =~= self.spec_ready_threads(pid as int, thread_count as nat)
                    + self.spec_child_branches(pid as int, (j + 1) as nat));
            }
            j = j + 1;
        }
        out
    }

    /// The long-term scheduler's fresh pool: every ready thread in the whole
    /// tree, scanned from the boot process.
    pub fn new_queue(&self) -> (r: Vec<(usize, usize)>)
        requires
            self.wf(),
            self.processes@.len() > 0,
        ensures
            r@ == self.spec_branches(0),
    {
        self.branches(0)
    }

    /// Installs a long-term pool into one core's ready queue: each scanned
    /// thread handle joins the back of the queue in scan order. This is the
    /// replenish half of the two-level design; `branches` computes the pool.
    pub fn refill_queue(&mut self, core: usize, pool: &Vec<(usize, usize)>)
        requires
            old(self).wf(),
            core < old(self).processors@.len(),
        ensures
            final(self).wf(),
            final(self).processes@ == old(self).processes@,
            final(self).threads@ == old(self).threads@,
            final(self).servers@ == old(self).servers@,
            final(self).messages@ == old(self).messages@,
            final(self).allocator == old(self).allocator,
            final(self).processors@.len() == old(self).processors@.len(),
            forall|c: int|
                0 <= c < old(self).processors@.len() && c != core ==> final(self).processors@[c]
                    == old(self).processors@[c],
            final(self).processors@[core as int].ready_queue@ == old(
                self,
            ).processors@[core as int].ready_queue@ + pool@.map_values(|e: (usize, usize)| e.0),
            final(self).processors@[core as int].current_thread == old(
                self,
            ).processors@[core as int].current_thread,
            final(self).processors@[core as int].current_process == old(
                self,
            ).processors@[core as int].current_process,
    {
        let mut i: usize = 0;
        while i < pool.len()
            invariant
                old(self).wf(),
                core < self.processors@.len(),
                self.processors@.len() == old(self).processors@.len(),
                self.processes@ == old(self).processes@,
                self.threads@ == old(self).threads@,
                self.servers@ == old(self).servers@,
                self.messages@ == old(self).messages@,
                self.allocator == old(self).allocator,
                self.stacks == old(self).stacks,
                i <= pool@.len(),
                forall|c: int|
                    0 <= c < old(self).processors@.len() && c != core ==> self.processors@[c]
                        == old(self).processors@[c],
                self.processors@[core as int].ready_queue@ == old(
                    self,
                ).processors@[core as int].ready_queue@ + pool@.subrange(0, i as int).map_values(
                    |e: (usize, usize)| e.0,
                ),
                self.processors@[core as int].current_thread == old(
                    self,
                ).processors@[core as int].current_thread,
                self.processors@[core as int].current_process == old(
                    self,
                ).processors@[core as int].current_process,
            decreases pool@.len() - i,
        {
            let tid = pool[i].0;
            let sched = &mut self.processors[core];
            sched.ready_queue.push(tid);
            proof {
                assert(self.processors@[core as int].ready_queue@ =~= old(
                    self,
                ).processors@[core as int].ready_queue@ + pool@.subrange(0, i + 1).map_values(
                    |e: (usize, usize)| e.0,
                ));
            }
            i = i + 1;
        }
        proof {
            assert(pool@.subrange(0, pool@.len() as int) =~= pool@);
            assert(self.processors@[core as int].ready_queue@ =~= old(
                self,
            ).processors@[core as int].ready_queue@ + pool@.map_values(|e: (usize, usize)| e.0));
            Self::lemma_wf_same_core(*old(self), *self);
        }
    }

    /// Per-core dispatch: pops the ready queue's front thread and, when it is
    /// still a live `Ready` thread, marks it `Executing` on this core and
    /// installs its process as current. A stale handle (a thread aborted
    /// while queued) is discarded and nothing runs.
    pub fn dispatch(&mut self, core: usize) -> (r: Option<usize>)
        requires
            old(self).wf(),
            core < old(self).processors@.len(),
        ensures
            final(self).wf(),
            final(self).processes@ == old(self).processes@,
            final(self).servers@ == old(self).servers@,
            final(self).messages@ == old(self).messages@,
            final(self).allocator == old(self).allocator,
old(self).processors@[core as int].ready_queue@.len() == 0 ==> (r is None && *final(self) == *old(self)),
            ({
                let q = old(self).processors@[core as int].ready_queue@;
                q.len() > 0 && q[0] < old(self).threads@.len() && old(self).threads@[q[0] as int].status == Status::Ready ==> r is Some
            }),
            ({
                let q = old(self).processors@[core as int].ready_queue@;
                (q.len() > 0 && r is None) ==> {
                    &&& final(self).processors@[core as int].ready_queue@ == q.subrange(
                        1,
                        q.len() as int,
                    )
                    &&& (q[0] >= old(self).threads@.len() || old(self).threads@[q[0] as int].status
                        != Status::Ready)
                }
            }),
            match r {
                Some(tid) => {
                    &&& old(self).processors@[core as int].ready_queue@.len() > 0
                    &&& tid == old(self).processors@[core as int].ready_queue@[0]
                    &&& old(self).threads@[tid as int].status == Status::Ready
                    &&& final(self).threads@[tid as int] == (Thread {
                        status: Status::Executing(core),
                        ..old(self).threads@[tid as int]
                    })
                    &&& forall|i: int|
                        0 <= i < old(self).threads@.len() && i != tid ==> final(self).threads@[i] == old(self).threads@[i]
                    &&& final(self).processors@[core as int].current_thread == Some(tid)
                    &&& final(self).processors@[core as int].current_process == Some(
                        old(self).threads@[tid as int].process,
                    )
                    &&& final(self).processors@[core as int].ready_queue@ == old(self).processors@[core as int].ready_queue@.subrange(
                        1,
                        old(self).processors@[core as int].ready_queue@.len() as int,
                    )
                },
                None => final(self).threads@ == old(self).threads@,
            },
    {
        let queue_len = self.processors[core].ready_queue.len();
        if queue_len == 0 {
            return None;
        }
        let sched = &mut self.processors[core];
        let tid = sched.ready_queue.remove(0);
        if tid >= self.threads.len() {
            proof {
                Self::lemma_wf_same_core(*old(self), *self);
            }
            return None;
        }
        let ready = match self.threads[tid].status {
            Status::Ready => true,
            _ => false,
        };
        if !ready {
            proof {
                Self::lemma_wf_same_core(*old(self), *self);
            }
            return None;
        }
        let pid = self.threads[tid].process;
        let th = &mut self.threads[tid];
        th.status = Status::Executing(core);
        let sched2 = &mut self.processors[core];
        sched2.current_thread = Some(tid);
        sched2.current_process = Some(pid);
        proof {
            let k1 = *old(self);
            let k2 = *self;
            assert forall|p: int, f: int| #[trigger] k2.space_owner(p, f) == k1.space_owner(
                p,
                f,
            ) by {}
            assert forall|m: int, f: int| #[trigger] k2.message_owner(m, f) == k1.message_owner(
                m,
                f,
            ) by {}
            assert(k2.wf_frames()) by {
                assert forall|p: int|
                    0 <= p < k2.processes@.len() && (
                #[trigger] k2.processes@[p]).alive implies k2.processes@[p].pages.owned_allocated(
                    k2.the_alloc(),
                ) by {
                    assert(k1.processes@[p].alive);
                    assert(k1.processes@[p].pages.owned_allocated(k1.the_alloc()));
                }
                assert forall|p1: int, p2: int, f: int| p1 != p2 implies !(
                #[trigger] k2.space_owner(p1, f) && #[trigger] k2.space_owner(p2, f)) by {
                    assert(k2.space_owner(p1, f) == k1.space_owner(p1, f));
                    assert(k2.space_owner(p2, f) == k1.space_owner(p2, f));
                }
                assert forall|p: int, m: int, f: int| !(#[trigger] k2.space_owner(p, f)
                    && #[trigger] k2.message_owner(m, f)) by {
                    assert(k2.space_owner(p, f) == k1.space_owner(p, f));
                    assert(k2.message_owner(m, f) == k1.message_owner(m, f));
                }
                assert forall|m1: int, m2: int, f: int| m1 != m2 implies !(
                #[trigger] k2.message_owner(m1, f) && #[trigger] k2.message_owner(m2, f)) by {
                    assert(k2.message_owner(m1, f) == k1.message_owner(m1, f));
                    assert(k2.message_owner(m2, f) == k1.message_owner(m2, f));
                }
            }
            assert forall|p: int| 0 <= p < k2.processes@.len() implies k2.wf_process(p) by {
                assert(k1.wf_process(p));
            }
            assert forall|t: int| 0 <= t < k2.threads@.len() implies k2.wf_thread(t) by {
                assert(k1.wf_thread(t));
            }
            assert forall|sx: int| 0 <= sx < k2.servers@.len() implies k2.wf_server(sx) by {
                assert(k1.wf_server(sx));
            }
            assert forall|m: int| 0 <= m < k2.messages@.len() implies k2.wf_message(m) by {
                assert(k1.wf_message(m));
            }
        }
        Some(tid)
    }

    /// Preemption or yield: the thread executing on this core returns to
    /// `Ready` and rejoins the back of the queue, per the long-term
    /// scheduler's placement.
    pub fn preempt(&mut self, core: usize) -> (r: Option<usize>)
        requires
            old(self).wf(),
            core < old(self).processors@.len(),
        ensures
            final(self).wf(),
            final(self).processes@ == old(self).processes@,
            final(self).servers@ == old(self).servers@,
            final(self).messages@ == old(self).messages@,
            final(self).allocator == old(self).allocator,
            ({
                old(self).processors@[core as int].current_thread matches Some(t) && t < old(self).threads@.len() && (old(self).threads@[t as int].status matches Status::Executing(
                    c,
                )) ==> r is Some
            }),
            match r {
                Some(tid) => {
                    &&& old(self).processors@[core as int].current_thread == Some(tid)
                    &&& old(self).threads@[tid as int].status matches Status::Executing(c)
                    &&& final(self).threads@[tid as int] == (Thread {
                        status: Status::Ready,
                        ..old(self).threads@[tid as int]
                    })
                    &&& forall|i: int|
                        0 <= i < old(self).threads@.len() && i != tid ==> final(self).threads@[i] == old(self).threads@[i]
                    &&& final(self).processors@[core as int].current_thread is None
                    &&& final(self).processors@[core as int].ready_queue@ == old(self).processors@[core as int].ready_queue@.push(tid)
                },
                None => *final(self) == *old(self),
            },
    {
        let tid = match self.processors[core].current_thread {
            Some(t) => t,
            None => {
                return None;
            },
        };
        if tid >= self.threads.len() {
            return None;
        }
        let executing = match self.threads[tid].status {
            Status::Executing(_) => true,
            _ => false,
        };
        if !executing {
            return None;
        }
        let th = &mut self.threads[tid];
        th.status = Status::Ready;
        let sched = &mut self.processors[core];
        sched.current_thread = None;
        sched.ready_queue.push(tid);
        proof {
            let k1 = *old(self);
            let k2 = *self;
            assert forall|p: int, f: int| #[trigger] k2.space_owner(p, f) == k1.space_owner(
                p,
                f,
            ) by {}
            assert forall|m: int, f: int| #[trigger] k2.message_owner(m, f) == k1.message_owner(
                m,
                f,
            ) by {}
            assert(k2.wf_frames()) by {
                assert forall|p: int|
                    0 <= p < k2.processes@.len() && (
                #[trigger] k2.processes@[p]).alive implies k2.processes@[p].pages.owned_allocated(
                    k2.the_alloc(),
                ) by {
                    assert(k1.processes@[p].alive);
                    assert(k1.processes@[p].pages.owned_allocated(k1.the_alloc()));
                }
                assert forall|p1: int, p2: int, f: int| p1 != p2 implies !(
                #[trigger] k2.space_owner(p1, f) && #[trigger] k2.space_owner(p2, f)) by {
                    assert(k2.space_owner(p1, f) == k1.space_owner(p1, f));
                    assert(k2.space_owner(p2, f) == k1.space_owner(p2, f));
                }
                assert forall|p: int, m: int, f: int| !(#[trigger] k2.space_owner(p, f)
                    && #[trigger] k2.message_owner(m, f)) by {
                    assert(k2.space_owner(p, f) == k1.space_owner(p, f));
                    assert(k2.message_owner(m, f) == k1.message_owner(m, f));
                }
                assert forall|m1: int, m2: int, f: int| m1 != m2 implies !(
                #[trigger] k2.message_owner(m1, f) && #[trigger] k2.message_owner(m2, f)) by {
                    assert(k2.message_owner(m1, f) == k1.message_owner(m1, f));
                    assert(k2.message_owner(m2, f) == k1.message_owner(m2, f));
                }
            }
            assert forall|p: int| 0 <= p < k2.processes@.len() implies k2.wf_process(p) by {
                assert(k1.wf_process(p));
            }
            assert forall|t: int| 0 <= t < k2.threads@.len() implies k2.wf_thread(t) by {
                assert(k1.wf_thread(t));
            }
            assert forall|sx: int| 0 <= sx < k2.servers@.len() implies k2.wf_server(sx) by {
                assert(k1.wf_server(sx));
            }
            assert forall|m: int| 0 <= m < k2.messages@.len() implies k2.wf_message(m) by {
                assert(k1.wf_message(m));
            }
        }
        Some(tid)
    }

    /// Forcibly resolves one still-queued message: it leaves its server's
    /// queue, its boost comes off the server, its frames return to the
    /// ledger, and it is marked failed so the sender's wait resolves to an
    /// explicit error instead of blocking forever.
    #[verifier::rlimit(100)]
    fn cancel_sent_message(&mut self, mid: usize)
        requires
            old(self).wf(),
            mid < old(self).messages@.len(),
            old(self).messages@[mid as int].status == MessageStatus::Sent,
            !old(self).messages@[mid as int].failed,
        ensures
            final(self).wf(),
            final(self).threads@ == old(self).threads@,
            final(self).processes@ == old(self).processes@,
            final(self).stacks == old(self).stacks,
            final(self).processors@ == old(self).processors@,
            final(self).messages@.len() == old(self).messages@.len(),
            final(self).servers@.len() == old(self).servers@.len(),
            final(self).messages@[mid as int] == (Message {
                failed: true,
                ..old(self).messages@[mid as int]
            }),
            forall|i: int|
                0 <= i < old(self).messages@.len() && i != mid ==> final(self).messages@[i] == old(self).messages@[i],
            final(self).alloc_ready() == old(self).alloc_ready(),
    {
        proof {
            assert(old(self).wf_message(mid as int));
        }
        let sid = self.messages[mid].server;
        let boost = self.messages[mid].boost;
        proof {
            assert(old(self).wf_server(sid as int));
        }
        // take it out of the server's queue, when it is there
        let queue_len = match &self.servers[sid].kind {
            ServerKind::User(u) => u.requests.len(),
            ServerKind::Kernel => 0,
        };
        let mut qi: usize = 0;
        let mut qfound: bool = false;
        while qi < queue_len && !qfound
            invariant
                *self == *old(self),
                old(self).wf(),
                sid < self.servers@.len(),
                queue_len == (match self.servers@[sid as int].kind {
                    ServerKind::User(u) => u.requests@.len() as int,
                    ServerKind::Kernel => 0,
                }),
                qi <= queue_len,
                qfound ==> self.servers@[sid as int].kind is User && qi < queue_len
                    && self.servers@[sid as int].kind->User_0.requests@[qi as int] == mid,
                (!qfound && self.servers@[sid as int].kind is User) ==> forall|k: int|
                    0 <= k < qi ==> (#[trigger] self.servers@[sid as int].kind->User_0.requests@[k])
                        != mid,
            decreases queue_len - qi + (if qfound {
                0int
            } else {
                1int
            }),
        {
            let entry = match &self.servers[sid].kind {
                ServerKind::User(u) => u.requests[qi],
                ServerKind::Kernel => 0,
            };
            if entry == mid {
                qfound = true;
            } else {
                qi = qi + 1;
            }
        }
        if qfound {
            let srv = &mut self.servers[sid];
            match &mut srv.kind {
                ServerKind::User(u) => {
                    let _ = u.requests.remove(qi);
                    u.priority_sum = saturating_sub(u.priority_sum, boost);
                },
                ServerKind::Kernel => {
                    proof {
                        assert(false);
                    }
                },
            }
            proof {
                old(self).servers@[sid as int].kind->User_0.requests@.remove_ensures(qi as int);
            }
        }
        let ghost k_q = *self;
        // give the transferred frames back to the ledger
        let n = self.messages[mid].frames.len();
        let ghost fseq = self.messages@[mid as int].frames@;
        let ghost a0 = self.the_alloc();
        let mut di: usize = 0;
        while di < n
            invariant
                old(self).wf(),
                mid < old(self).messages@.len(),
                old(self).messages@[mid as int].status == MessageStatus::Sent,
                !old(self).messages@[mid as int].failed,
                old(self).alloc_ready(),
                self.alloc_ready(),
                fseq == old(self).messages@[mid as int].frames@,
                n == fseq.len(),
                di <= n,
                *self == (Kernel { allocator: self.allocator, ..k_q }),
                k_q.allocator == old(self).allocator,
                self.messages@ == old(self).messages@,
                a0 == old(self).the_alloc(),
                self.the_alloc().inv(),
                self.the_alloc().spec_total_frames() == a0.spec_total_frames(),
                forall|k: int|
                    0 <= k < a0.spec_total_frames() ==> self.the_alloc().allocated(k) == (
                    a0.allocated(k) && !(exists|j: int| 0 <= j < di && fseq[j] == k)),
            decreases n - di,
        {
            let f = self.messages[mid].frames[di];
            proof {
                assert(old(self).message_owner(mid as int, f as int)) by {
                    assert(old(self).messages@[mid as int].frames@[di as int] == f);
                }
                assert(f < a0.spec_total_frames());
            }
            let a = match &mut self.allocator {
                Some(a) => a,
                None => {
                    proof {
                        assert(false);
                    }
                    return ;
                },
            };
            a.deallocate_frame(f);
            di = di + 1;
        }
        let msg = &mut self.messages[mid];
        msg.failed = true;
        proof {
            let k1 = *old(self);
            let k2 = *self;
            let a1 = k1.the_alloc();
            let a2 = k2.the_alloc();
            assert forall|p: int, f: int| #[trigger] k2.space_owner(p, f) == k1.space_owner(
                p,
                f,
            ) by {
                if 0 <= p < k1.processes@.len() {
                    assert(k2.processes@[p] == k1.processes@[p]);
                }
            }
            assert forall|m: int, f: int| m != mid implies #[trigger] k2.message_owner(m, f)
                == k1.message_owner(m, f) by {
                if 0 <= m < k1.messages@.len() {
                    assert(k2.messages@[m] == k1.messages@[m]);
                }
            }
            assert forall|f: int| !(#[trigger] k2.message_owner(mid as int, f)) by {}
            // the freed frames belonged to this message alone, so every other
            // owner's frames are still allocated
            assert forall|k: int|
                0 <= k < a1.spec_total_frames() && #[trigger] a1.allocated(k) && !(exists|j: int|
                    0 <= j < n && fseq[j] == k) implies a2.allocated(k) by {}
            assert(k2.wf_frames()) by {
                assert forall|p: int|
                    0 <= p < k2.processes@.len() && (
                #[trigger] k2.processes@[p]).alive implies k2.processes@[p].pages.owned_allocated(
                    a2,
                ) by {
                    assert(k1.processes@[p].alive);
                    let pages = k1.processes@[p].pages;
                    assert(pages.owned_allocated(a1));
                    assert(k2.processes@[p].pages == pages);
                    assert forall|i: int|
                        0 <= i < pages.tables@.len() implies (#[trigger] pages.tables@[i].frame)
                        < a2.spec_total_frames() && a2.allocated(pages.tables@[i].frame as int) by {
                        let fr = pages.tables@[i].frame as int;
                        assert(k1.space_owner(p, fr));
                        assert(!(k1.space_owner(p, fr) && k1.message_owner(mid as int, fr)));
                        if exists|j: int| 0 <= j < n && fseq[j] == fr {
                            let j = choose|j: int| 0 <= j < n && fseq[j] == fr;
                            assert(k1.messages@[mid as int].frames@[j] == fr);
                            assert(k1.message_owner(mid as int, fr));
                        }
                    }
                    assert forall|i: int|
                        0 <= i < pages.leaves@.len() implies (#[trigger] pages.leaves@[i].frame)
                        < a2.spec_total_frames() && a2.allocated(pages.leaves@[i].frame as int) by {
                        let fr = pages.leaves@[i].frame as int;
                        assert(k1.space_owner(p, fr));
                        if exists|j: int| 0 <= j < n && fseq[j] == fr {
                            let j = choose|j: int| 0 <= j < n && fseq[j] == fr;
                            assert(k1.messages@[mid as int].frames@[j] == fr);
                            assert(k1.message_owner(mid as int, fr));
                        }
                    }
                    assert(a2.allocated(pages.top_frame as int)) by {
                        let fr = pages.top_frame as int;
                        assert(k1.space_owner(p, fr));
                        if exists|j: int| 0 <= j < n && fseq[j] == fr {
                            let j = choose|j: int| 0 <= j < n && fseq[j] == fr;
                            assert(k1.messages@[mid as int].frames@[j] == fr);
                            assert(k1.message_owner(mid as int, fr));
                        }
                    }
                }
                assert forall|p1: int, p2: int, f: int| p1 != p2 implies !(
                #[trigger] k2.space_owner(p1, f) && #[trigger] k2.space_owner(p2, f)) by {
                    assert(k2.space_owner(p1, f) == k1.space_owner(p1, f));
                    assert(k2.space_owner(p2, f) == k1.space_owner(p2, f));
                }
                assert forall|p: int, m: int, f: int| !(#[trigger] k2.space_owner(p, f)
                    && #[trigger] k2.message_owner(m, f)) by {
                    assert(k2.space_owner(p, f) == k1.space_owner(p, f));
                    if k2.message_owner(m, f) {
                        assert(m != mid);
                        assert(k1.message_owner(m, f));
                    }
                }
                assert forall|m1: int, m2: int, f: int| m1 != m2 implies !(
                #[trigger] k2.message_owner(m1, f) && #[trigger] k2.message_owner(m2, f)) by {
                    if k2.message_owner(m1, f) && k2.message_owner(m2, f) {
                        assert(m1 != mid && m2 != mid);
                        assert(k1.message_owner(m1, f));
                        assert(k1.message_owner(m2, f));
                    }
                }
                assert forall|m: int, i: int|
                    0 <= m < k2.messages@.len() && k2.messages@[m].status == MessageStatus::Sent
                        && !k2.messages@[m].failed && 0 <= i
                        < k2.messages@[m].frames@.len() implies (
                #[trigger] k2.messages@[m].frames@[i]) < a2.spec_total_frames() && a2.allocated(
                    k2.messages@[m].frames@[i] as int,
                ) by {
                    assert(m != mid);
                    assert(k2.messages@[m] == k1.messages@[m]);
                    let fr = k1.messages@[m].frames@[i] as int;
                    assert(a1.allocated(fr));
                    assert(k1.message_owner(m, fr)) by {
                        assert(k1.messages@[m].frames@[i] == fr);
                    }
                    if exists|j: int| 0 <= j < n && fseq[j] == fr {
                        let j = choose|j: int| 0 <= j < n && fseq[j] == fr;
                        assert(k1.messages@[mid as int].frames@[j] == fr);
                        assert(k1.message_owner(mid as int, fr));
                    }
                }
                assert forall|m: int, i: int, j: int|
                    0 <= m < k2.messages@.len() && 0 <= i < j
                        < k2.messages@[m].frames@.len() implies (
                #[trigger] k2.messages@[m].frames@[i]) != (#[trigger] k2.messages@[m].frames@[j]) by {
                    assert(k1.messages@[m].frames@[i] != k1.messages@[m].frames@[j]);
                }
            }
            assert forall|p: int| 0 <= p < k2.processes@.len() implies k2.wf_process(p) by {
                assert(k1.wf_process(p));
            }
            assert forall|t: int| 0 <= t < k2.threads@.len() implies k2.wf_thread(t) by {
                assert(k1.wf_thread(t));
            }
            assert forall|sx: int| 0 <= sx < k2.servers@.len() implies k2.wf_server(sx) by {
                assert(k1.wf_server(sx));
                if qfound && sx == sid {
                    let u0 = k1.servers@[sx].kind->User_0;
                    let u2 = k2.servers@[sx].kind->User_0;
                    assert(u2.requests@ == u0.requests@.remove(qi as int));
                    u0.requests@.remove_ensures(qi as int);
                    assert forall|i: int| 0 <= i < u2.requests@.len() implies {
                        let m = #[trigger] u2.requests@[i];
                        &&& m < k2.messages@.len()
                        &&& k2.messages@[m as int].server == sx
                        &&& k2.messages@[m as int].status == MessageStatus::Sent
                        &&& !k2.messages@[m as int].failed
                    } by {
                        if i < qi {
                            assert(u2.requests@[i] == u0.requests@[i]);
                            assert(u0.requests@[i] != u0.requests@[qi as int]);
                        } else {
                            assert(u2.requests@[i] == u0.requests@[i + 1]);
                            assert(u0.requests@[i + 1] != u0.requests@[qi as int]);
                        }
                    }
                    assert forall|i: int, j: int|
                        0 <= i < j < u2.requests@.len() implies u2.requests@[i]
                        != u2.requests@[j] by {
                        let a_: int = if i < qi {
                            i
                        } else {
                            i + 1
                        };
                        let b_: int = if j < qi {
                            j
                        } else {
                            j + 1
                        };
                        assert(u2.requests@[i] == u0.requests@[a_]);
                        assert(u2.requests@[j] == u0.requests@[b_]);
                    }
                    assert forall|i: int| 0 <= i < u2.working@.len() implies {
                        let m = #[trigger] u2.working@[i];
                        &&& m < k2.messages@.len()
                        &&& k2.messages@[m as int].server == sx
                        &&& k2.messages@[m as int].status == MessageStatus::Received
                    } by {
                        assert(u0.working@[i] != mid);
                    }
                }
                if !qfound && sx == sid && k1.servers@[sx].kind is User {
                    let u0 = k1.servers@[sx].kind->User_0;
                    assert forall|i: int| 0 <= i < u0.requests@.len() implies {
                        let m = #[trigger] u0.requests@[i];
                        &&& m < k2.messages@.len()
                        &&& k2.messages@[m as int].server == sx
                        &&& k2.messages@[m as int].status == MessageStatus::Sent
                        &&& !k2.messages@[m as int].failed
                    } by {
                        assert(u0.requests@[i] != mid);
                    }
                }
            }
            assert forall|m: int| 0 <= m < k2.messages@.len() implies k2.wf_message(m) by {
                assert(k1.wf_message(m));
            }
        }
    }

    /// Aborts a thread: any non-terminal state becomes `Aborted`, the thread
    /// leaves its process's thread list, its kernel stack slot returns to the
    /// pool, and its queued message is released. Synchronous IPC means a
    /// thread has at most one outstanding request; if that message is still
    /// queued, cancelling it is the explicit path that resolves teardown
    /// under flight. A request already received stays with the server, whose
    /// response attempt resolves to an explicit error instead.
    #[verifier::rlimit(100)]
    pub fn abort_thread(&mut self, tid: usize) -> (r: Result<(), KernelError>)
        requires
            old(self).wf(),
            tid < old(self).threads@.len(),
        ensures
            final(self).wf(),
            final(self).processes@.len() == old(self).processes@.len(),
            final(self).threads@.len() == old(self).threads@.len(),
            final(self).servers@.len() == old(self).servers@.len(),
            final(self).messages@.len() == old(self).messages@.len(),
            match r {
                Ok(()) => {
                    &&& old(self).threads@[tid as int].status != Status::Aborted
                    &&& final(self).threads@[tid as int].status == Status::Aborted
                    &&& forall|i: int|
                        0 <= i < old(self).threads@.len() && i != tid ==> final(self).threads@[i] == old(self).threads@[i]
                    &&& ({
                        let pid = old(self).threads@[tid as int].process as int;
                        forall|i: int|
                            0 <= i < final(self).processes@[pid].threads@.len() ==> (
                            #[trigger] final(self).processes@[pid].threads@[i]) != tid
                    })
                    &&& ((old(self).threads@[tid as int].status matches Status::AwaitingResponse(m)
                        && old(self).messages@[m as int].status == MessageStatus::Sent && !old(self).messages@[m as int].failed) ==> final(self).messages@[old(self).threads@[
                    tid as int].status->AwaitingResponse_0 as int].failed)
                    &&& (old(self).threads@[tid as int].kernel_stack.0
                        < old(self).stacks.slots@.len() ==> !final(self).stacks.taken(
                        old(self).threads@[tid as int].kernel_stack.0 as int,
                    ))
                },
                Err(e) => {
                    &&& e == KernelError::ProtocolMisuse
                    &&& old(self).threads@[tid as int].status == Status::Aborted
                    &&& *final(self) == *old(self)
                },
            },
    {
        let aborted = match self.threads[tid].status {
            Status::Aborted => true,
            _ => false,
        };
        if aborted {
            return Err(KernelError::ProtocolMisuse);
        }
        let pid = self.threads[tid].process;
        proof {
            assert(old(self).wf_thread(tid as int));
            assert(old(self).wf_process(pid as int));
        }
        // release the one message this thread may still have queued
        let pending = match self.threads[tid].status {
            Status::AwaitingResponse(m) => Some(m),
            _ => None,
        };
        if let Some(mid) = pending {
            let cancellable = match self.messages[mid].status {
                MessageStatus::Sent => !self.messages[mid].failed,
                _ => false,
            };
            if cancellable {
                self.cancel_sent_message(mid);
            }
        }
        let ghost k_c = *self;
        // terminal state, list removal, stack release
        let th = &mut self.threads[tid];
        th.status = Status::Aborted;
        let ghost k_t = *self;
        proof {
            assert forall|i: int|
                0 <= i < self.processes@[pid as int].threads@.len() implies (
            #[trigger] self.processes@[pid as int].threads@[i]) < k_t.threads@.len()
                && k_t.threads@[self.processes@[pid as int].threads@[i] as int].process
                == pid by {
                assert(k_c.wf_process(pid as int));
            }
        }
        let mut li: usize = 0;
        while li < self.processes[pid].threads.len()
            invariant
                pid < self.processes@.len(),
                *self == (Kernel { processes: self.processes, ..k_t }),
                self.processes@.len() == k_t.processes@.len(),
                forall|q: int|
                    0 <= q < k_t.processes@.len() && q != pid ==> self.processes@[q]
                        == k_t.processes@[q],
                ({
                    let p2 = self.processes@[pid as int];
                    let p1 = k_t.processes@[pid as int];
                    &&& p2.pages == p1.pages
                    &&& p2.alive == p1.alive
                    &&& p2.children@ == p1.children@
                    &&& p2.servers@ == p1.servers@
                    &&& p2.descriptors@ == p1.descriptors@
                    &&& p2.requests@ == p1.requests@
                    &&& p2.responses@ == p1.responses@
                    &&& p2.set_priority == p1.set_priority
                    &&& p2.propagated_priority == p1.propagated_priority
                    &&& p2.parent == p1.parent
                }),
                forall|i: int|
                    0 <= i < self.processes@[pid as int].threads@.len() ==> (
                    #[trigger] self.processes@[pid as int].threads@[i]) < k_t.threads@.len()
                        && k_t.threads@[self.processes@[pid as int].threads@[i] as int].process
                        == pid,
                forall|i: int|
                    0 <= i < li ==> (#[trigger] self.processes@[pid as int].threads@[i]) != tid,
                li <= self.processes@[pid as int].threads@.len(),
            decreases self.processes@[pid as int].threads@.len() - li,
        {
            let entry = self.processes[pid].threads[li];
            if entry == tid {
                let ghost before = self.processes@[pid as int].threads@;
                let owner = &mut self.processes[pid];
                let _ = owner.threads.remove(li);
                proof {
                    before.remove_ensures(li as int);
                    assert forall|i: int|
                        0 <= i < self.processes@[pid as int].threads@.len() implies (
                    #[trigger] self.processes@[pid as int].threads@[i]) < k_t.threads@.len()
                        && k_t.threads@[self.processes@[pid as int].threads@[i] as int].process
                        == pid by {
                        if i < li {
                            assert(self.processes@[pid as int].threads@[i] == before[i]);
                        } else {
                            assert(self.processes@[pid as int].threads@[i] == before[i + 1]);
                        }
                    }
                }
            } else {
                li = li + 1;
            }
        }
        let slot = self.threads[tid].kernel_stack.0;
        if slot < self.stacks.slots.len() {
            self.stacks.release(slot);
        }
        proof {
            let k1 = k_c;
            let k2 = *self;
            assert forall|p: int, f: int| #[trigger] k2.space_owner(p, f) == k1.space_owner(
                p,
                f,
            ) by {
                if 0 <= p < k1.processes@.len() {
                    if p == pid {
                        assert(k2.processes@[p].pages == k1.processes@[p].pages);
                        assert(k2.processes@[p].alive == k1.processes@[p].alive);
                    } else {
                        assert(k2.processes@[p] == k1.processes@[p]);
                    }
                }
            }
            assert forall|m: int, f: int| #[trigger] k2.message_owner(m, f) == k1.message_owner(
                m,
                f,
            ) by {}
            assert(k2.wf_frames()) by {
                assert forall|p: int|
                    0 <= p < k2.processes@.len() && (
                #[trigger] k2.processes@[p]).alive implies k2.processes@[p].pages.owned_allocated(
                    k2.the_alloc(),
                ) by {
                    assert(k1.processes@[p].alive);
                    assert(k1.processes@[p].pages.owned_allocated(k1.the_alloc()));
                    assert(k2.processes@[p].pages == k1.processes@[p].pages);
                }
                assert forall|p1: int, p2: int, f: int| p1 != p2 implies !(
                #[trigger] k2.space_owner(p1, f) && #[trigger] k2.space_owner(p2, f)) by {
                    assert(k2.space_owner(p1, f) == k1.space_owner(p1, f));
                    assert(k2.space_owner(p2, f) == k1.space_owner(p2, f));
                }
                assert forall|p: int, m: int, f: int| !(#[trigger] k2.space_owner(p, f)
                    && #[trigger] k2.message_owner(m, f)) by {
                    assert(k2.space_owner(p, f) == k1.space_owner(p, f));
                    assert(k2.message_owner(m, f) == k1.message_owner(m, f));
                }
                assert forall|m1: int, m2: int, f: int| m1 != m2 implies !(
                #[trigger] k2.message_owner(m1, f) && #[trigger] k2.message_owner(m2, f)) by {
                    assert(k2.message_owner(m1, f) == k1.message_owner(m1, f));
                    assert(k2.message_owner(m2, f) == k1.message_owner(m2, f));
                }
            }
            assert forall|p: int| 0 <= p < k2.processes@.len() implies k2.wf_process(p) by {
                assert(k1.wf_process(p));
            }
            assert forall|t: int| 0 <= t < k2.threads@.len() implies k2.wf_thread(t) by {
                assert(k1.wf_thread(t));
            }
            assert forall|sx: int| 0 <= sx < k2.servers@.len() implies k2.wf_server(sx) by {
                assert(k1.wf_server(sx));
            }
            assert forall|m: int| 0 <= m < k2.messages@.len() implies k2.wf_message(m) by {
                assert(k1.wf_message(m));
            }
        }
        Ok(())
    }

    /// A server-hosting thread blocks awaiting the next request:
    /// `Executing` becomes `AwaitingRequest`, and the server's accumulated
    /// client priority is sampled as the thread's inherited priority — the
    /// priority-ceiling rule that lets blocked clients boost their servers.
    pub fn block_on_server(&mut self, tid: usize, sid: usize) -> (r: Result<(), KernelError>)
        requires
            old(self).wf(),
            tid < old(self).threads@.len(),
        ensures
            final(self).wf(),
            final(self).processes@ == old(self).processes@,
            final(self).servers@ == old(self).servers@,
            final(self).messages@ == old(self).messages@,
            final(self).allocator == old(self).allocator,
            match r {
                Ok(()) => {
                    &&& old(self).threads@[tid as int].status matches Status::Executing(c)
                    &&& sid < old(self).servers@.len()
                    &&& old(self).servers@[sid as int].kind is User
                    &&& final(self).threads@[tid as int] == (Thread {
                        status: Status::AwaitingRequest(sid),
                        inherited_priority: old(self).servers@[sid as int].kind->User_0.priority_sum,
                        ..old(self).threads@[tid as int]
                    })
                    &&& forall|i: int|
                        0 <= i < old(self).threads@.len() && i != tid ==> final(self).threads@[i] == old(self).threads@[i]
                },
                Err(e) => {
                    &&& *final(self) == *old(self)
                    &&& {
                        let executing = old(self).threads@[tid as int].status
                            matches Status::Executing(c);
                        let server_live = sid < old(self).servers@.len() && old(self).servers@[sid as int].alive;
                        let hosted = server_live && old(self).servers@[sid as int].host == old(self).threads@[tid as int].process;
                        let user_kind = server_live && (old(self).servers@[sid as int].kind
                            matches ServerKind::User(u));
                        &&& ((e == KernelError::PeerGone) <==> (executing && !server_live))
                        &&& ((e == KernelError::PermissionDenied) <==> (executing && server_live
                            && !hosted))
                        &&& ((e == KernelError::ProtocolMisuse) <==> (!executing || (server_live
                            && hosted && !user_kind)))
                    }
                },
            },
            (r is Ok) <==> ((old(self).threads@[tid as int].status matches Status::Executing(c))
                && sid < old(self).servers@.len() && old(self).servers@[sid as int].alive && old(self).servers@[sid as int].host == old(self).threads@[tid as int].process && (old(self).servers@[sid as int].kind matches ServerKind::User(u))),
    {
        let executing = match self.threads[tid].status {
            Status::Executing(_) => true,
            _ => false,
        };
        if !executing {
            return Err(KernelError::ProtocolMisuse);
        }
        let pid = self.threads[tid].process;
        if sid >= self.servers.len() {
            return Err(KernelError::PeerGone);
        }
        if !self.servers[sid].alive {
            return Err(KernelError::PeerGone);
        }
        if self.servers[sid].host != pid {
            return Err(KernelError::PermissionDenied);
        }
        let inherited = match &self.servers[sid].kind {
            ServerKind::User(u) => u.priority_sum,
            ServerKind::Kernel => {
                return Err(KernelError::ProtocolMisuse);
            },
        };
        let th = &mut self.threads[tid];
        th.status = Status::AwaitingRequest(sid);
        th.inherited_priority = inherited;
        proof {
            let k1 = *old(self);
            let k2 = *self;
            assert forall|p: int, f: int| #[trigger] k2.space_owner(p, f) == k1.space_owner(
                p,
                f,
            ) by {}
            assert forall|m: int, f: int| #[trigger] k2.message_owner(m, f) == k1.message_owner(
                m,
                f,
            ) by {}
            assert(k2.wf_frames()) by {
                assert forall|p: int|
                    0 <= p < k2.processes@.len() && (
                #[trigger] k2.processes@[p]).alive implies k2.processes@[p].pages.owned_allocated(
                    k2.the_alloc(),
                ) by {
                    assert(k1.processes@[p].alive);
                    assert(k1.processes@[p].pages.owned_allocated(k1.the_alloc()));
                }
                assert forall|p1: int, p2: int, f: int| p1 != p2 implies !(
                #[trigger] k2.space_owner(p1, f) && #[trigger] k2.space_owner(p2, f)) by {
                    assert(k2.space_owner(p1, f) == k1.space_owner(p1, f));
                    assert(k2.space_owner(p2, f) == k1.space_owner(p2, f));
                }
                assert forall|p: int, m: int, f: int| !(#[trigger] k2.space_owner(p, f)
                    && #[trigger] k2.message_owner(m, f)) by {
                    assert(k2.space_owner(p, f) == k1.space_owner(p, f));
                    assert(k2.message_owner(m, f) == k1.message_owner(m, f));
                }
                assert forall|m1: int, m2: int, f: int| m1 != m2 implies !(
                #[trigger] k2.message_owner(m1, f) && #[trigger] k2.message_owner(m2, f)) by {
                    assert(k2.message_owner(m1, f) == k1.message_owner(m1, f));
                    assert(k2.message_owner(m2, f) == k1.message_owner(m2, f));
                }
            }
            assert forall|p: int| 0 <= p < k2.processes@.len() implies k2.wf_process(p) by {
                assert(k1.wf_process(p));
            }
            assert forall|t: int| 0 <= t < k2.threads@.len() implies k2.wf_thread(t) by {
                assert(k1.wf_thread(t));
            }
            assert forall|sx: int| 0 <= sx < k2.servers@.len() implies k2.wf_server(sx) by {
                assert(k1.wf_server(sx));
            }
            assert forall|m: int| 0 <= m < k2.messages@.len() implies k2.wf_message(m) by {
                assert(k1.wf_message(m));
            }
        }
        Ok(())
    }

    /// Wakes every thread of the hosting process that awaits a request on
    /// this server: request accepted, `AwaitingRequest` becomes `Ready`. The
    /// syscall layer runs this right after a message is enqueued.
    pub fn wake_request_waiters(&mut self, sid: usize) -> (r: usize)
        requires
            old(self).wf(),
            sid < old(self).servers@.len(),
        ensures
            final(self).wf(),
            final(self).processes@ == old(self).processes@,
            final(self).servers@ == old(self).servers@,
            final(self).messages@ == old(self).messages@,
            final(self).allocator == old(self).allocator,
            final(self).threads@.len() == old(self).threads@.len(),
            forall|i: int|
                0 <= i < old(self).threads@.len() ==> (#[trigger] final(self).threads@[i])
                    == final_wake(old(self).threads@[i], sid),
            r == spec_waiting_count(old(self).threads@, sid, old(self).threads@.len()),
    {
        let host = self.servers[sid].host;
        proof {
            assert(old(self).wf_server(sid as int));
        }
        let mut woken: usize = 0;
        let mut i: usize = 0;
        let total = self.threads.len();
        while i < total
            invariant
                old(self).wf(),
                sid < old(self).servers@.len(),
                total == old(self).threads@.len(),
                i <= total,
                woken == spec_waiting_count(old(self).threads@, sid, i as nat),
                woken <= i,
                self.processes@ == old(self).processes@,
                self.servers@ == old(self).servers@,
                self.messages@ == old(self).messages@,
                self.allocator == old(self).allocator,
                self.stacks == old(self).stacks,
                self.processors@ == old(self).processors@,
                self.threads@.len() == old(self).threads@.len(),
                forall|k: int|
                    0 <= k < i ==> final_wake(old(self).threads@[k], sid) == (
                    #[trigger] self.threads@[k]),
                forall|k: int| i <= k < total ==> self.threads@[k] == old(self).threads@[k],
            decreases total - i,
        {
            let is_waiting = match self.threads[i].status {
                Status::AwaitingRequest(s) => s == sid,
                _ => false,
            };
            if is_waiting {
                let th = &mut self.threads[i];
                th.status = Status::Ready;
                woken = woken + 1;
            }
            i = i + 1;
        }
        proof {
            let k1 = *old(self);
            let k2 = *self;
            assert forall|p: int, f: int| #[trigger] k2.space_owner(p, f) == k1.space_owner(
                p,
                f,
            ) by {}
            assert forall|m: int, f: int| #[trigger] k2.message_owner(m, f) == k1.message_owner(
                m,
                f,
            ) by {}
            assert(k2.wf_frames()) by {
                assert forall|p: int|
                    0 <= p < k2.processes@.len() && (
                #[trigger] k2.processes@[p]).alive implies k2.processes@[p].pages.owned_allocated(
                    k2.the_alloc(),
                ) by {
                    assert(k1.processes@[p].alive);
                    assert(k1.processes@[p].pages.owned_allocated(k1.the_alloc()));
                }
                assert forall|p1: int, p2: int, f: int| p1 != p2 implies !(
                #[trigger] k2.space_owner(p1, f) && #[trigger] k2.space_owner(p2, f)) by {
                    assert(k2.space_owner(p1, f) == k1.space_owner(p1, f));
                    assert(k2.space_owner(p2, f) == k1.space_owner(p2, f));
                }
                assert forall|p: int, m: int, f: int| !(#[trigger] k2.space_owner(p, f)
                    && #[trigger] k2.message_owner(m, f)) by {
                    assert(k2.space_owner(p, f) == k1.space_owner(p, f));
                    assert(k2.message_owner(m, f) == k1.message_owner(m, f));
                }
                assert forall|m1: int, m2: int, f: int| m1 != m2 implies !(
                #[trigger] k2.message_owner(m1, f) && #[trigger] k2.message_owner(m2, f)) by {
                    assert(k2.message_owner(m1, f) == k1.message_owner(m1, f));
                    assert(k2.message_owner(m2, f) == k1.message_owner(m2, f));
                }
            }
            assert forall|p: int| 0 <= p < k2.processes@.len() implies k2.wf_process(p) by {
                assert(k1.wf_process(p));
                assert forall|ix: int|
                    0 <= ix < k2.processes@[p].threads@.len() implies (
                #[trigger] k2.processes@[p].threads@[ix]) < k2.threads@.len() && k2.threads@[
                k2.processes@[p].threads@[ix] as int].process == p by {
                    let t = k2.processes@[p].threads@[ix];
                    assert(k1.threads@[t as int].process == p);
                    assert(k2.threads@[t as int] == final_wake(k1.threads@[t as int], sid));
                }
            }
            assert forall|t: int| 0 <= t < k2.threads@.len() implies k2.wf_thread(t) by {
                assert(k1.wf_thread(t));
                assert(k2.threads@[t] == final_wake(k1.threads@[t], sid));
            }
            assert forall|sx: int| 0 <= sx < k2.servers@.len() implies k2.wf_server(sx) by {
                assert(k1.wf_server(sx));
            }
            assert forall|m: int| 0 <= m < k2.messages@.len() implies k2.wf_message(m) by {
                assert(k1.wf_message(m));
                assert(k2.messages@[m].sender < k2.threads@.len());
            }
        }
        woken
    }

    /// Retires a server. Teardown runs leaves-first: the endpoint must be
    /// drained first — no queued request and nothing in flight — which the
    /// cancellation and response paths provide. The server is then marked
    /// dead, so later sends resolve to `PeerGone`, and it leaves its host's
    /// server list, which is what lets the hosting process itself be
    /// destroyed afterwards.
    #[verifier::rlimit(100)]
    pub fn retire_server(&mut self, sid: usize) -> (r: Result<(), KernelError>)
        requires
            old(self).wf(),
            sid < old(self).servers@.len(),
        ensures
            final(self).wf(),
            final(self).threads@ == old(self).threads@,
            final(self).messages@ == old(self).messages@,
            final(self).allocator == old(self).allocator,
            final(self).servers@.len() == old(self).servers@.len(),
            final(self).processes@.len() == old(self).processes@.len(),
            match r {
                Ok(()) => {
                    &&& old(self).servers@[sid as int].alive
                    &&& !final(self).servers@[sid as int].alive
                    &&& final(self).servers@[sid as int] == (Server {
                        alive: false,
                        ..old(self).servers@[sid as int]
                    })
                    &&& forall|i: int|
                        0 <= i < old(self).servers@.len() && i != sid ==> final(self).servers@[i]
                            == old(self).servers@[i]
                    &&& ({
                        let host = old(self).servers@[sid as int].host as int;
                        &&& forall|i: int|
                            0 <= i < final(self).processes@[host].servers@.len() ==> (
                            #[trigger] final(self).processes@[host].servers@[i]) != sid
                        &&& forall|q: int|
                            0 <= q < old(self).processes@.len() && q != host ==> final(self).processes@[q] == old(self).processes@[q]
                    })
                },
                Err(e) => {
                    &&& e == KernelError::ProtocolMisuse
                    &&& *final(self) == *old(self)
                    &&& (!old(self).servers@[sid as int].alive || (old(self).servers@[sid as int].kind matches ServerKind::User(u) && (u.requests@.len()
                        > 0 || u.working@.len() > 0)))
                },
            },
            (r is Ok) <==> (old(self).servers@[sid as int].alive && (old(self).servers@[sid as int].kind matches ServerKind::User(u) ==> (u.requests@.len() == 0
                && u.working@.len() == 0))),
    {
        if !self.servers[sid].alive {
            return Err(KernelError::ProtocolMisuse);
        }
        let drained = match &self.servers[sid].kind {
            ServerKind::User(u) => u.requests.len() == 0 && u.working.len() == 0,
            ServerKind::Kernel => true,
        };
        if !drained {
            return Err(KernelError::ProtocolMisuse);
        }
        let host = self.servers[sid].host;
        proof {
            assert(old(self).wf_server(sid as int));
            assert(old(self).wf_process(host as int));
        }
        let srv = &mut self.servers[sid];
        srv.alive = false;
        let ghost k_t = *self;
        let mut li: usize = 0;
        while li < self.processes[host].servers.len()
            invariant
                host < self.processes@.len(),
                *self == (Kernel { processes: self.processes, ..k_t }),
                self.processes@.len() == k_t.processes@.len(),
                forall|q: int|
                    0 <= q < k_t.processes@.len() && q != host ==> self.processes@[q]
                        == k_t.processes@[q],
                ({
                    let p2 = self.processes@[host as int];
                    let p1 = k_t.processes@[host as int];
                    &&& p2.pages == p1.pages
                    &&& p2.alive == p1.alive
                    &&& p2.threads@ == p1.threads@
                    &&& p2.children@ == p1.children@
                    &&& p2.descriptors@ == p1.descriptors@
                    &&& p2.requests@ == p1.requests@
                    &&& p2.responses@ == p1.responses@
                    &&& p2.set_priority == p1.set_priority
                    &&& p2.propagated_priority == p1.propagated_priority
                    &&& p2.parent == p1.parent
                }),
                forall|i: int|
                    0 <= i < self.processes@[host as int].servers@.len() ==> (
                    #[trigger] self.processes@[host as int].servers@[i]) < k_t.servers@.len()
                        && k_t.servers@[self.processes@[host as int].servers@[i] as int].host
                        == host,
                forall|i: int|
                    0 <= i < li ==> (#[trigger] self.processes@[host as int].servers@[i]) != sid,
                li <= self.processes@[host as int].servers@.len(),
            decreases self.processes@[host as int].servers@.len() - li,
        {
            let entry = self.processes[host].servers[li];
            if entry == sid {
                let ghost before = self.processes@[host as int].servers@;
                let owner = &mut self.processes[host];
                let _ = owner.servers.remove(li);
                proof {
                    before.remove_ensures(li as int);
                    assert forall|i: int|
                        0 <= i < self.processes@[host as int].servers@.len() implies (
                    #[trigger] self.processes@[host as int].servers@[i]) < k_t.servers@.len()
                        && k_t.servers@[self.processes@[host as int].servers@[i] as int].host
                        == host by {
                        if i < li {
                            assert(self.processes@[host as int].servers@[i] == before[i]);
                        } else {
                            assert(self.processes@[host as int].servers@[i] == before[i + 1]);
                        }
                    }
                }
            } else {
                li = li + 1;
            }
        }
        proof {
            let k1 = *old(self);
            let k2 = *self;
            assert forall|i: int|
                0 <= i < self.processes@[host as int].servers@.len() implies (
            #[trigger] self.processes@[host as int].servers@[i]) < k_t.servers@.len() by {}
            assert forall|p: int, f: int| #[trigger] k2.space_owner(p, f) == k1.space_owner(
                p,
                f,
            ) by {
                if 0 <= p < k1.processes@.len() {
                    if p == host {
                        assert(k2.processes@[p].pages == k1.processes@[p].pages);
                        assert(k2.processes@[p].alive == k1.processes@[p].alive);
                    } else {
                        assert(k2.processes@[p] == k1.processes@[p]);
                    }
                }
            }
            assert forall|m: int, f: int| #[trigger] k2.message_owner(m, f) == k1.message_owner(
                m,
                f,
            ) by {}
            assert(k2.wf_frames()) by {
                assert forall|p: int|
                    0 <= p < k2.processes@.len() && (
                #[trigger] k2.processes@[p]).alive implies k2.processes@[p].pages.owned_allocated(
                    k2.the_alloc(),
                ) by {
                    assert(k1.processes@[p].alive);
                    assert(k1.processes@[p].pages.owned_allocated(k1.the_alloc()));
                    assert(k2.processes@[p].pages == k1.processes@[p].pages);
                }
                assert forall|p1: int, p2: int, f: int| p1 != p2 implies !(
                #[trigger] k2.space_owner(p1, f) && #[trigger] k2.space_owner(p2, f)) by {
                    assert(k2.space_owner(p1, f) == k1.space_owner(p1, f));
                    assert(k2.space_owner(p2, f) == k1.space_owner(p2, f));
                }
                assert forall|p: int, m: int, f: int| !(#[trigger] k2.space_owner(p, f)
                    && #[trigger] k2.message_owner(m, f)) by {
                    assert(k2.space_owner(p, f) == k1.space_owner(p, f));
                    assert(k2.message_owner(m, f) == k1.message_owner(m, f));
                }
                assert forall|m1: int, m2: int, f: int| m1 != m2 implies !(
                #[trigger] k2.message_owner(m1, f) && #[trigger] k2.message_owner(m2, f)) by {
                    assert(k2.message_owner(m1, f) == k1.message_owner(m1, f));
                    assert(k2.message_owner(m2, f) == k1.message_owner(m2, f));
                }
            }
            assert forall|p: int| 0 <= p < k2.processes@.len() implies k2.wf_process(p) by {
                assert(k1.wf_process(p));
                if p != host {
                    assert(k2.processes@[p] == k1.processes@[p]);
                }
            }
            assert forall|t: int| 0 <= t < k2.threads@.len() implies k2.wf_thread(t) by {
                assert(k1.wf_thread(t));
            }
            assert forall|sx: int| 0 <= sx < k2.servers@.len() implies k2.wf_server(sx) by {
                assert(k1.wf_server(sx));
            }
            assert forall|m: int| 0 <= m < k2.messages@.len() implies k2.wf_message(m) by {
                assert(k1.wf_message(m));
            }
        }
        Ok(())
    }

    /// Destroys a process. Ownership flows strictly downward, so teardown
    /// runs leaves-first: a process is destroyed only after its thread list
    /// is empty, its children are gone, and its servers are retired. Its
    /// address space's frames all return to the ledger, the node leaves its
    /// parent's child list, and the slot stays behind as a dead entry that
    /// weak handles resolve to `PeerGone`.
    #[verifier::rlimit(100)]
    pub fn destroy_process(&mut self, pid: usize) -> (r: Result<(), KernelError>)
        requires
            old(self).wf(),
            pid < old(self).processes@.len(),
        ensures
            final(self).wf(),
            final(self).processes@.len() == old(self).processes@.len(),
            final(self).threads@ == old(self).threads@,
            final(self).servers@ == old(self).servers@,
            final(self).messages@ == old(self).messages@,
            match r {
                Ok(()) => {
                    &&& old(self).processes@[pid as int].alive
                    &&& old(self).processes@[pid as int].threads@.len() == 0
                    &&& old(self).processes@[pid as int].children@.len() == 0
                    &&& old(self).processes@[pid as int].servers@.len() == 0
                    &&& !final(self).processes@[pid as int].alive
                    &&& final(self).the_alloc().spec_free_count() == old(self).the_alloc().spec_free_count() + old(self).processes@[pid as int].pages.owned_count()
                    &&& (old(self).processes@[pid as int].parent matches Some(pp) ==> forall|i: int|
                        0 <= i < final(self).processes@[pp as int].children@.len() ==> (
                        #[trigger] final(self).processes@[pp as int].children@[i]) != pid)
                },
                Err(e) => {
                    &&& e == KernelError::ProtocolMisuse
                    &&& *final(self) == *old(self)
                    &&& (!old(self).processes@[pid as int].alive || old(self).processes@[pid as int].threads@.len() > 0 || old(self).processes@[pid as int].children@.len() > 0 || old(self).processes@[pid as int].servers@.len() > 0)
                },
            },
    {
        if !self.processes[pid].alive {
            return Err(KernelError::ProtocolMisuse);
        }
        if self.processes[pid].threads.len() > 0 {
            return Err(KernelError::ProtocolMisuse);
        }
        if self.processes[pid].children.len() > 0 {
            return Err(KernelError::ProtocolMisuse);
        }
        if self.processes[pid].servers.len() > 0 {
            return Err(KernelError::ProtocolMisuse);
        }
        proof {
            assert(old(self).wf_process(pid as int));
            assert(old(self).processes@[pid as int].pages.owned_allocated(old(self).the_alloc()));
        }
        let parent = self.processes[pid].parent;
        let a = match &mut self.allocator {
            Some(a) => a,
            None => {
                proof {
                    assert(false);
                }
                return Err(KernelError::ProtocolMisuse);
            },
        };
        let owner = &mut self.processes[pid];
        owner.pages.destroy_in_place(a);
        owner.alive = false;
        let ghost k_d = *self;
        if let Some(pp) = parent {
            proof {
                assert(old(self).wf_process(pp as int));
            }
            let mut li: usize = 0;
            while li < self.processes[pp].children.len()
                invariant
                    pp < self.processes@.len(),
                    *self == (Kernel { processes: self.processes, ..k_d }),
                    self.processes@.len() == k_d.processes@.len(),
                    forall|q: int|
                        0 <= q < k_d.processes@.len() && q != pp ==> self.processes@[q]
                            == k_d.processes@[q],
                    ({
                        let p2 = self.processes@[pp as int];
                        let p1 = k_d.processes@[pp as int];
                        &&& p2.pages == p1.pages
                        &&& p2.alive == p1.alive
                        &&& p2.threads@ == p1.threads@
                        &&& p2.servers@ == p1.servers@
                        &&& p2.descriptors@ == p1.descriptors@
                        &&& p2.requests@ == p1.requests@
                        &&& p2.responses@ == p1.responses@
                        &&& p2.set_priority == p1.set_priority
                        &&& p2.propagated_priority == p1.propagated_priority
                        &&& p2.parent == p1.parent
                    }),
                    forall|i: int|
                        0 <= i < self.processes@[pp as int].children@.len() ==> pp < (
                        #[trigger] self.processes@[pp as int].children@[i])
                            < self.processes@.len(),
                    forall|i: int|
                        0 <= i < li ==> (#[trigger] self.processes@[pp as int].children@[i])
                            != pid,
                    li <= self.processes@[pp as int].children@.len(),
                decreases self.processes@[pp as int].children@.len() - li,
            {
                let entry = self.processes[pp].children[li];
                if entry == pid {
                    let ghost before = self.processes@[pp as int].children@;
                    let parent_ref = &mut self.processes[pp];
                    let _ = parent_ref.children.remove(li);
                    proof {
                        before.remove_ensures(li as int);
                        assert forall|i: int|
                            0 <= i < self.processes@[pp as int].children@.len() implies pp < (
                        #[trigger] self.processes@[pp as int].children@[i])
                            < self.processes@.len() by {
                            if i < li {
                                assert(self.processes@[pp as int].children@[i] == before[i]);
                            } else {
                                assert(self.processes@[pp as int].children@[i] == before[i + 1]);
                            }
                        }
                    }
                } else {
                    li = li + 1;
                }
            }
        }
        proof {
            let k1 = *old(self);
            let k2 = *self;
            let a1 = k1.the_alloc();
            let a2 = k2.the_alloc();
            let s0 = k1.processes@[pid as int].pages;
            assert forall|p: int, f: int| p != pid implies #[trigger] k2.space_owner(p, f)
                == k1.space_owner(p, f) by {
                if 0 <= p < k1.processes@.len() {
                    assert(k_d.processes@[p] == k1.processes@[p]);
                    if parent matches Some(pp) && p == pp {
                        assert(k2.processes@[p].pages == k_d.processes@[p].pages);
                        assert(k2.processes@[p].alive == k_d.processes@[p].alive);
                    } else {
                        assert(k2.processes@[p] == k_d.processes@[p]);
                    }
                    assert(k2.processes@[p].pages == k1.processes@[p].pages);
                    assert(k2.processes@[p].alive == k1.processes@[p].alive);
                }
            }
            assert forall|f: int| !(#[trigger] k2.space_owner(pid as int, f)) by {}
            assert forall|m: int, f: int| #[trigger] k2.message_owner(m, f) == k1.message_owner(
                m,
                f,
            ) by {}
            assert(k2.wf_frames()) by {
                assert forall|p: int|
                    0 <= p < k2.processes@.len() && (
                #[trigger] k2.processes@[p]).alive implies k2.processes@[p].pages.owned_allocated(
                    a2,
                ) by {
                    assert(p != pid);
                    assert(k_d.processes@[p] == k1.processes@[p]);
                    if parent matches Some(pp) && p == pp {
                        assert(k2.processes@[p].pages == k_d.processes@[p].pages);
                        assert(k2.processes@[p].alive == k_d.processes@[p].alive);
                    } else {
                        assert(k2.processes@[p] == k_d.processes@[p]);
                    }
                    assert(k1.processes@[p].alive);
                    let pages = k1.processes@[p].pages;
                    assert(pages.owned_allocated(a1));
                    assert(k2.processes@[p].pages == pages);
                    assert forall|i: int|
                        0 <= i < pages.tables@.len() implies (#[trigger] pages.tables@[i].frame)
                        < a2.spec_total_frames() && a2.allocated(pages.tables@[i].frame as int) by {
                        let fr = pages.tables@[i].frame as int;
                        assert(k1.space_owner(p, fr));
                        assert(!(k1.space_owner(p, fr) && k1.space_owner(pid as int, fr)));
                        assert(!s0.owns(fr));
                    }
                    assert forall|i: int|
                        0 <= i < pages.leaves@.len() implies (#[trigger] pages.leaves@[i].frame)
                        < a2.spec_total_frames() && a2.allocated(pages.leaves@[i].frame as int) by {
                        let fr = pages.leaves@[i].frame as int;
                        assert(k1.space_owner(p, fr));
                        assert(!(k1.space_owner(p, fr) && k1.space_owner(pid as int, fr)));
                        assert(!s0.owns(fr));
                    }
                    assert(a2.allocated(pages.top_frame as int)) by {
                        let fr = pages.top_frame as int;
                        assert(k1.space_owner(p, fr));
                        assert(!(k1.space_owner(p, fr) && k1.space_owner(pid as int, fr)));
                        assert(!s0.owns(fr));
                    }
                }
                assert forall|p1: int, p2: int, f: int| p1 != p2 implies !(
                #[trigger] k2.space_owner(p1, f) && #[trigger] k2.space_owner(p2, f)) by {
                    if k2.space_owner(p1, f) && k2.space_owner(p2, f) {
                        assert(k1.space_owner(p1, f));
                        assert(k1.space_owner(p2, f));
                    }
                }
                assert forall|p: int, m: int, f: int| !(#[trigger] k2.space_owner(p, f)
                    && #[trigger] k2.message_owner(m, f)) by {
                    if k2.space_owner(p, f) && k2.message_owner(m, f) {
                        assert(k1.space_owner(p, f));
                        assert(k1.message_owner(m, f));
                    }
                }
                assert forall|m1: int, m2: int, f: int| m1 != m2 implies !(
                #[trigger] k2.message_owner(m1, f) && #[trigger] k2.message_owner(m2, f)) by {
                    assert(k2.message_owner(m1, f) == k1.message_owner(m1, f));
                    assert(k2.message_owner(m2, f) == k1.message_owner(m2, f));
                }
                assert forall|m: int, i: int|
                    0 <= m < k2.messages@.len() && k2.messages@[m].status == MessageStatus::Sent
                        && !k2.messages@[m].failed && 0 <= i
                        < k2.messages@[m].frames@.len() implies (
                #[trigger] k2.messages@[m].frames@[i]) < a2.spec_total_frames() && a2.allocated(
                    k2.messages@[m].frames@[i] as int,
                ) by {
                    let fr = k1.messages@[m].frames@[i] as int;
                    assert(a1.allocated(fr));
                    assert(k1.message_owner(m, fr)) by {
                        assert(k1.messages@[m].frames@[i] == fr);
                    }
                    assert(!(k1.space_owner(pid as int, fr) && k1.message_owner(m, fr)));
                    assert(!s0.owns(fr));
                }
                assert forall|m: int, i: int, j: int|
                    0 <= m < k2.messages@.len() && 0 <= i < j
                        < k2.messages@[m].frames@.len() implies (
                #[trigger] k2.messages@[m].frames@[i]) != (#[trigger] k2.messages@[m].frames@[j]) by {
                    assert(k1.messages@[m].frames@[i] != k1.messages@[m].frames@[j]);
                }
            }
            assert forall|p: int| 0 <= p < k2.processes@.len() implies k2.wf_process(p) by {
                assert(k1.wf_process(p));
                if p == pid {
                    assert(k2.processes@[p] == k_d.processes@[p]);
                } else {
                    assert(k_d.processes@[p] == k1.processes@[p]);
                    if parent matches Some(pp) && p == pp {
                        assert(k2.processes@[p].threads@ == k1.processes@[p].threads@);
                        assert(k2.processes@[p].servers@ == k1.processes@[p].servers@);
                        assert(k2.processes@[p].descriptors@ == k1.processes@[p].descriptors@);
                        assert(k2.processes@[p].requests@ == k1.processes@[p].requests@);
                        assert(k2.processes@[p].responses@ == k1.processes@[p].responses@);
                        assert(k2.processes@[p].pages == k1.processes@[p].pages);
                        assert(k2.processes@[p].parent == k1.processes@[p].parent);
                    } else {
                        assert(k2.processes@[p] == k1.processes@[p]);
                    }
                }
            }
            assert forall|t: int| 0 <= t < k2.threads@.len() implies k2.wf_thread(t) by {
                assert(k1.wf_thread(t));
            }
            assert forall|sx: int| 0 <= sx < k2.servers@.len() implies k2.wf_server(sx) by {
                assert(k1.wf_server(sx));
            }
            assert forall|m: int| 0 <= m < k2.messages@.len() implies k2.wf_message(m) by {
                assert(k1.wf_message(m));
            }
        }
        Ok(())
    }

    /// One descriptor operation from user code: permission-gated by the
    /// descriptor's state mask — rejected with `PermissionDenied` before any
    /// message is built — and otherwise mapped to exactly one outbound
    /// message to the owning server, tagged with the operation's tag.
    pub fn descriptor_request(
        &mut self,
        tid: usize,
        descriptor_index: usize,
        op: crate::ipc::DescriptorOp,
        pages: &Vec<u64>,
    ) -> (r: Result<usize, KernelError>)
        requires
            old(self).wf(),
            tid < old(self).threads@.len(),
        ensures
            final(self).wf(),
            match r {
                Ok(mid) => {
                    &&& descriptor_index < old(self).processes@[old(self).threads@[tid as int].process as int].descriptors@.len()
                    &&& old(self).processes@[old(self).threads@[tid as int].process as int].descriptors@[
                    descriptor_index as int].state_mask.spec_permits(op)
                    &&& mid == old(self).messages@.len()
                    &&& final(self).messages@.len() == old(self).messages@.len() + 1
                    &&& final(self).messages@[mid as int].tag == crate::ipc::spec_operation_tag(op)
                    &&& final(self).messages@[mid as int].status
                        == crate::ipc::MessageStatus::Sent
                    &&& final(self).messages@[mid as int].sender == tid
                },
                Err(e) => {
                    &&& final(self).messages@ == old(self).messages@
                },
            },
            ({
                let pid = old(self).threads@[tid as int].process as int;
                let descriptors = old(self).processes@[pid].descriptors@;
                &&& (descriptor_index >= descriptors.len() ==> (r is Err && r->Err_0
                    == KernelError::ProtocolMisuse && *final(self) == *old(self)))
                &&& ((descriptor_index < descriptors.len()
                    && !descriptors[descriptor_index as int].state_mask.spec_permits(op)) <==> (
                r is Err && r->Err_0 == KernelError::PermissionDenied))
                &&& ((descriptor_index < descriptors.len()
                    && !descriptors[descriptor_index as int].state_mask.spec_permits(op)) ==> *final(self) == *old(self))
                &&& ({
                    let sid = descriptors[descriptor_index as int].server as int;
                    (descriptor_index < descriptors.len()
                        && descriptors[descriptor_index as int].state_mask.spec_permits(op) && (
                    old(self).threads@[tid as int].status matches Status::Executing(c)) && old(self).processes@[pid].alive && sid < old(self).servers@.len() && old(self).servers@[sid].alive && (old(self).servers@[sid].kind
                        matches ServerKind::User(u)) && pages_transferable(
                        old(self).processes@[pid].pages,
                        pages@,
                    )) ==> r is Ok
                })
            }),
    {
        let pid = self.threads[tid].process;
        proof {
            assert(old(self).wf_thread(tid as int));
            assert(old(self).wf_process(pid as int));
        }
        if descriptor_index >= self.processes[pid].descriptors.len() {
            return Err(KernelError::ProtocolMisuse);
        }
        let permitted = self.processes[pid].descriptors[descriptor_index].state_mask.permits(op);
        if !permitted {
            return Err(KernelError::PermissionDenied);
        }
        let sid = self.processes[pid].descriptors[descriptor_index].server;
        let tag = crate::ipc::operation_tag(op);
        match self.send(tid, sid, tag, pages) {
            Ok(mid) => Ok(mid),
            Err(e) => Err(e),
        }
    }

    /// Creates the boot process, the root of the process tree, at the highest
    /// priority. Runs once, after memory initialisation.
    pub fn create_boot_process(&mut self) -> (r: Result<usize, KernelError>)
        requires
            old(self).wf(),
            old(self).processes@.len() == 0,
        ensures
            final(self).wf(),
            final(self).threads@ == old(self).threads@,
            final(self).servers@ == old(self).servers@,
            final(self).messages@ == old(self).messages@,
            match r {
                Ok(pid) => {
                    &&& pid == 0
                    &&& final(self).processes@.len() == 1
                    &&& final(self).processes@[0].set_priority == u64::MAX
                    &&& final(self).processes@[0].alive
                    &&& final(self).processes@[0].parent is None
                    &&& final(self).processes@[0].threads@.len() == 0
                    &&& final(self).processes@[0].children@.len() == 0
                },
                Err(e) => {
                    &&& *final(self) == *old(self)
                    &&& (e == KernelError::AllocatorNotReady || e
                        == KernelError::ResourceExhaustion)
                    &&& ((e == KernelError::AllocatorNotReady) <==> !old(self).alloc_ready())
                    &&& (e == KernelError::ResourceExhaustion ==> old(self).the_alloc().spec_free_count() == 0)
                },
            },
    {
        self.create_process(None, u64::MAX)
    }
}

} // verus!
