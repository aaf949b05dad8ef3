//! Per-process address spaces: a multi-level page table owned as data.
//!
//! A space owns its top-level table frame and, transitively, every frame
//! reachable through present entries in the lower (user) half; the shared
//! higher (kernel) half is never owned or freed by an address space, so
//! mapping is confined to user-half pages. Mapping walks and creates
//! intermediate-level tables on demand, each backed by a freshly allocated
//! frame; destruction visits every owned child frame exactly once — the
//! aliasing ban below is what guarantees that — and frees the space's own
//! top-level frame last.

use vstd::prelude::*;

use crate::error::KernelError;
use crate::frame::BitmapPageFrameAllocator;

verus! {

/// Entries per page table; nine bits of the page number per level.
pub const ENTRIES_PER_TABLE: u64 = 512;

/// Pages spanned by one second-level table.
pub const LEVEL_2_SPAN: u64 = 512 * 512;

/// Pages spanned by one third-level table.
pub const LEVEL_3_SPAN: u64 = 512 * 512 * 512;

/// First page of the kernel half: top-level entries 256 and above are shared
/// between all address spaces and never walked or freed per-space.
pub const USER_HALF_PAGES: u64 = 256 * 512 * 512 * 512;

/// The two fixed flag profiles a leaf entry can carry: privileged mappings
/// are global and write-through but not user-accessible; user mappings are
/// user-accessible and not global.
#[derive(Clone, Copy, Debug, PartialEq, Eq, Structural)]
pub enum PageProfile {
    Privileged,
    User,
}

/// One intermediate table: its level (3 down to 1), the page-number prefix it
/// decodes (the page number divided by the level's span), and the frame that
/// backs it.
#[derive(Clone, Copy, Debug, PartialEq, Eq, Structural)]
pub struct TableNode {
    pub level: u8,
    pub key: u64,
    pub frame: usize,
}

/// One present leaf entry: a user-half page mapped to a frame under one of
/// the two flag profiles.
#[derive(Clone, Copy, Debug, PartialEq, Eq, Structural)]
pub struct LeafEntry {
    pub page: u64,
    pub frame: usize,
    pub profile: PageProfile,
}

/// An address space: the top-level table frame it owns, the intermediate
/// tables created on demand, and the present leaf entries of its user half.
pub struct ManagedPageTable {
    pub top_frame: usize,
    pub tables: Vec<TableNode>,
    pub leaves: Vec<LeafEntry>,
}

impl ManagedPageTable {
    /// Whether an intermediate table with this level and prefix exists.
    pub open spec fn has_table(self, level: u8, key: u64) -> bool {
        exists|i: int|
            0 <= i < self.tables@.len() && #[trigger] self.tables@[i].level == level
                && self.tables@[i].key == key
    }

    /// Whether this space maps `page` to `frame`.
    pub open spec fn maps(self, page: u64, frame: usize) -> bool {
        exists|i: int|
            0 <= i < self.leaves@.len() && #[trigger] self.leaves@[i].page == page
                && self.leaves@[i].frame == frame
    }

    /// Whether some leaf entry is present for `page`.
    pub open spec fn maps_page(self, page: u64) -> bool {
        exists|i: int| 0 <= i < self.leaves@.len() && #[trigger] self.leaves@[i].page == page
    }

    /// Whether this space owns frame `f`: its top-level frame, a table frame,
    /// or a mapped leaf frame.
    pub open spec fn owns(self, f: int) -> bool {
        ||| self.top_frame == f
        ||| exists|i: int| 0 <= i < self.tables@.len() && #[trigger] self.tables@[i].frame == f
        ||| exists|i: int| 0 <= i < self.leaves@.len() && #[trigger] self.leaves@[i].frame == f
    }

    /// How many frames the space owns: one per leaf, one per intermediate
    /// table, and its own top-level frame.
    pub open spec fn owned_count(self) -> int {
        1 + self.tables@.len() as int + self.leaves@.len() as int
    }

    /// Structural well-formedness. No frame is referenced from two present
    /// entries within the space's user half (the anti-aliasing invariant that
    /// makes destruction visit each frame once), pages are distinct and below
    /// the kernel half, and every table or leaf hangs under a table of the
    /// next level up.
    pub open spec fn wf(self) -> bool {
        &&& forall|i: int|
            0 <= i < self.leaves@.len() ==> (#[trigger] self.leaves@[i].page) < USER_HALF_PAGES
        &&& forall|i: int, j: int|
            0 <= i < j < self.leaves@.len() ==> #[trigger] self.leaves@[i].page
                != #[trigger] self.leaves@[j].page
        &&& forall|i: int, j: int|
            0 <= i < j < self.leaves@.len() ==> #[trigger] self.leaves@[i].frame
                != #[trigger] self.leaves@[j].frame
        &&& forall|i: int, j: int|
            0 <= i < j < self.tables@.len() ==> #[trigger] self.tables@[i].frame
                != #[trigger] self.tables@[j].frame
        &&& forall|i: int, j: int|
            0 <= i < j < self.tables@.len() ==> !((#[trigger] self.tables@[i].level)
                == (#[trigger] self.tables@[j].level) && self.tables@[i].key
                == self.tables@[j].key)
        &&& forall|i: int, j: int|
            0 <= i < self.leaves@.len() && 0 <= j < self.tables@.len()
                ==> #[trigger] self.leaves@[i].frame != #[trigger] self.tables@[j].frame
        &&& forall|i: int|
            0 <= i < self.leaves@.len() ==> (#[trigger] self.leaves@[i].frame) != self.top_frame
        &&& forall|i: int|
            0 <= i < self.tables@.len() ==> (#[trigger] self.tables@[i].frame) != self.top_frame
        &&& forall|i: int|
            0 <= i < self.tables@.len() ==> 1 <= (#[trigger] self.tables@[i].level) <= 3
        &&& forall|i: int|
            0 <= i < self.leaves@.len() ==> self.has_table(
                1,
                (#[trigger] self.leaves@[i].page) / ENTRIES_PER_TABLE,
            )
        &&& forall|i: int|
            0 <= i < self.tables@.len() && (#[trigger] self.tables@[i].level) == 1
                ==> self.has_table(2, self.tables@[i].key / ENTRIES_PER_TABLE)
        &&& forall|i: int|
            0 <= i < self.tables@.len() && (#[trigger] self.tables@[i].level) == 2
                ==> self.has_table(3, self.tables@[i].key / ENTRIES_PER_TABLE)
    }

    /// Every frame the space owns stands allocated in this ledger.
    pub open spec fn owned_allocated(self, a: BitmapPageFrameAllocator) -> bool {
        &&& self.top_frame < a.spec_total_frames() && a.allocated(self.top_frame as int)
        &&& forall|i: int|
            0 <= i < self.tables@.len() ==> (#[trigger] self.tables@[i].frame)
                < a.spec_total_frames() && a.allocated(self.tables@[i].frame as int)
        &&& forall|i: int|
            0 <= i < self.leaves@.len() ==> (#[trigger] self.leaves@[i].frame)
                < a.spec_total_frames() && a.allocated(self.leaves@[i].frame as int)
    }

    /// How the space and the ledger relate after the space grew: ownership
    /// only extends, every newly owned frame other than `extra` was free
    /// before and is allocated now, and every fresh allocation went into this
    /// space. `extra` names a caller-provided frame (already allocated) that
    /// the growth may also have absorbed.
    pub open spec fn grow_ok(
        pre: Self,
        pre_alloc: BitmapPageFrameAllocator,
        post: Self,
        post_alloc: BitmapPageFrameAllocator,
        extra: Option<usize>,
    ) -> bool {
        &&& post_alloc.inv()
        &&& post_alloc.spec_total_frames() == pre_alloc.spec_total_frames()
        &&& post.top_frame == pre.top_frame
        &&& forall|f: int| pre.owns(f) ==> post.owns(f)
        &&& forall|f: int|
            #[trigger] post.owns(f) && !pre.owns(f) && (extra matches Some(e) ==> f != e)
                ==> !pre_alloc.allocated(f) && post_alloc.allocated(f) && 0 <= f
                < pre_alloc.spec_total_frames()
        &&& forall|k: int|
            0 <= k < pre_alloc.spec_total_frames() && #[trigger] pre_alloc.allocated(k)
                ==> post_alloc.allocated(k)
        &&& forall|k: int|
            0 <= k < pre_alloc.spec_total_frames() && #[trigger] post_alloc.allocated(k)
                && !pre_alloc.allocated(k) ==> post.owns(k) && !pre.owns(k)
        &&& pre_alloc.spec_free_count() == post_alloc.spec_free_count() + (post.owned_count()
            - pre.owned_count()) - (if extra is Some {
            1int
        } else {
            0int
        })
    }

    /// Appending one intermediate table with a fresh frame and a missing key
    /// keeps the space well-formed, and extends ownership by that frame only.
    proof fn lemma_push_table(pre: Self, post: Self, node: TableNode)
        requires
            pre.wf(),
            1 <= node.level <= 3,
            !pre.has_table(node.level, node.key),
            !pre.owns(node.frame as int),
            node.level == 1 ==> pre.has_table(2, node.key / ENTRIES_PER_TABLE),
            node.level == 2 ==> pre.has_table(3, node.key / ENTRIES_PER_TABLE),
            post.top_frame == pre.top_frame,
            post.leaves@ == pre.leaves@,
            post.tables@ == pre.tables@.push(node),
        ensures
            post.wf(),
            forall|f: int| #[trigger] post.owns(f) == (pre.owns(f) || f == node.frame),
            forall|l: u8, k: u64|
                #[trigger] post.has_table(l, k) == (pre.has_table(l, k) || (l == node.level && k
                    == node.key)),
            post.owned_count() == pre.owned_count() + 1,
    {
        let n = pre.tables@.len() as int;
        assert forall|l: u8, k: u64| #[trigger] post.has_table(l, k) == (pre.has_table(l, k) || (l
            == node.level && k == node.key)) by {
            if pre.has_table(l, k) {
                let w = choose|w: int|
                    0 <= w < pre.tables@.len() && #[trigger] pre.tables@[w].level == l
                        && pre.tables@[w].key == k;
                assert(post.tables@[w].level == l && post.tables@[w].key == k);
            }
            if l == node.level && k == node.key {
                assert(post.tables@[n].level == l && post.tables@[n].key == k);
            }
            if post.has_table(l, k) {
                let w = choose|w: int|
                    0 <= w < post.tables@.len() && #[trigger] post.tables@[w].level == l
                        && post.tables@[w].key == k;
                if w < n {
                    assert(pre.tables@[w].level == l && pre.tables@[w].key == k);
                }
            }
        }
        assert forall|f: int| #[trigger] post.owns(f) == (pre.owns(f) || f == node.frame) by {
            if pre.owns(f) {
                if exists|w: int|
                    0 <= w < pre.tables@.len() && #[trigger] pre.tables@[w].frame == f {
                    let w = choose|w: int|
                        0 <= w < pre.tables@.len() && #[trigger] pre.tables@[w].frame == f;
                    assert(post.tables@[w].frame == f);
                }
            }
            if f == node.frame {
                assert(post.tables@[n].frame == f);
            }
            if post.owns(f) && f != node.frame {
                if exists|w: int|
                    0 <= w < post.tables@.len() && #[trigger] post.tables@[w].frame == f {
                    let w = choose|w: int|
                        0 <= w < post.tables@.len() && #[trigger] post.tables@[w].frame == f;
                    assert(w < n);
                    assert(pre.tables@[w].frame == f);
                }
            }
        }
    }

    /// Appending one leaf with a fresh frame and an unmapped user-half page
    /// keeps the space well-formed, and extends ownership by that frame only.
    proof fn lemma_push_leaf(pre: Self, post: Self, leaf: LeafEntry)
        requires
            pre.wf(),
            leaf.page < USER_HALF_PAGES,
            !pre.maps_page(leaf.page),
            !pre.owns(leaf.frame as int),
            pre.has_table(1, leaf.page / ENTRIES_PER_TABLE),
            post.top_frame == pre.top_frame,
            post.tables@ == pre.tables@,
            post.leaves@ == pre.leaves@.push(leaf),
        ensures
            post.wf(),
            forall|f: int| #[trigger] post.owns(f) == (pre.owns(f) || f == leaf.frame),
            post.maps(leaf.page, leaf.frame),
            post.owned_count() == pre.owned_count() + 1,
    {
        let n = pre.leaves@.len() as int;
        assert(post.leaves@[n] == leaf);
        assert forall|f: int| #[trigger] post.owns(f) == (pre.owns(f) || f == leaf.frame) by {
            if pre.owns(f) {
                if exists|w: int|
                    0 <= w < pre.leaves@.len() && #[trigger] pre.leaves@[w].frame == f {
                    let w = choose|w: int|
                        0 <= w < pre.leaves@.len() && #[trigger] pre.leaves@[w].frame == f;
                    assert(post.leaves@[w].frame == f);
                }
            }
            if f == leaf.frame {
                assert(post.leaves@[n].frame == f);
            }
            if post.owns(f) && f != leaf.frame {
                if exists|w: int|
                    0 <= w < post.leaves@.len() && #[trigger] post.leaves@[w].frame == f {
                    let w = choose|w: int|
                        0 <= w < post.leaves@.len() && #[trigger] post.leaves@[w].frame == f;
                    assert(w < n);
                    assert(pre.leaves@[w].frame == f);
                }
            }
        }
    }

    /// Removing one leaf keeps the space well-formed; ownership shrinks by
    /// exactly the removed leaf's frame, and the mapping loses only its page.
    proof fn lemma_remove_leaf(pre: Self, post: Self, i: int)
        requires
            pre.wf(),
            0 <= i < pre.leaves@.len(),
            post.top_frame == pre.top_frame,
            post.tables@ == pre.tables@,
            post.leaves@ == pre.leaves@.remove(i),
        ensures
            post.wf(),
            !post.maps_page(pre.leaves@[i].page),
            !post.owns(pre.leaves@[i].frame as int),
            forall|f: int| #[trigger] post.owns(f) ==> pre.owns(f),
            forall|f: int|
                #[trigger] pre.owns(f) && f != pre.leaves@[i].frame ==> post.owns(f),
            forall|p: u64, fr: usize|
                p != pre.leaves@[i].page ==> (#[trigger] post.maps(p, fr) <==> pre.maps(p, fr)),
            post.owned_count() == pre.owned_count() - 1,
            forall|a: int|
                0 <= a < post.leaves@.len() ==> exists|b: int|
                    0 <= b < pre.leaves@.len() && (#[trigger] post.leaves@[a])
                        == #[trigger] pre.leaves@[b],
    {
        pre.leaves@.remove_ensures(i);
        let page = pre.leaves@[i].page;
        let frame = pre.leaves@[i].frame;
        assert forall|j: int| 0 <= j < post.leaves@.len() implies #[trigger] post.leaves@[j] == (
        if j < i {
            pre.leaves@[j]
        } else {
            pre.leaves@[j + 1]
        }) by {
            if j < i {
                assert(pre.leaves@.remove(i)[j] == pre.leaves@[j]);
            } else {
                assert(pre.leaves@.remove(i)[j] == pre.leaves@[j + 1]);
            }
        }
        assert(!post.maps_page(page)) by {
            if post.maps_page(page) {
                let w = choose|w: int|
                    0 <= w < post.leaves@.len() && #[trigger] post.leaves@[w].page == page;
                if w < i {
                    assert(pre.leaves@[w].page == page);
                } else {
                    assert(pre.leaves@[w + 1].page == page);
                }
            }
        }
        assert(!post.owns(frame as int)) by {
            if exists|w: int|
                0 <= w < post.leaves@.len() && #[trigger] post.leaves@[w].frame == frame {
                let w = choose|w: int|
                    0 <= w < post.leaves@.len() && #[trigger] post.leaves@[w].frame == frame;
                if w < i {
                    assert(pre.leaves@[w].frame == frame);
                } else {
                    assert(pre.leaves@[w + 1].frame == frame);
                }
            }
        }
        assert forall|f: int| #[trigger] post.owns(f) implies pre.owns(f) by {
            if exists|w: int| 0 <= w < post.leaves@.len() && #[trigger] post.leaves@[w].frame
                == f {
                let w = choose|w: int|
                    0 <= w < post.leaves@.len() && #[trigger] post.leaves@[w].frame == f;
                if w < i {
                    assert(pre.leaves@[w].frame == f);
                } else {
                    assert(pre.leaves@[w + 1].frame == f);
                }
            }
        }
        assert forall|f: int| #[trigger] pre.owns(f) && f != frame implies post.owns(f) by {
            if exists|w: int| 0 <= w < pre.leaves@.len() && #[trigger] pre.leaves@[w].frame == f {
                let w = choose|w: int|
                    0 <= w < pre.leaves@.len() && #[trigger] pre.leaves@[w].frame == f;
                if w < i {
                    assert(post.leaves@[w].frame == f);
                } else if w > i {
                    assert(post.leaves@[w - 1].frame == f);
                }
            }
        }
        assert forall|p: u64, fr: usize| p != page implies (#[trigger] post.maps(p, fr)
            <==> pre.maps(p, fr)) by {
            if pre.maps(p, fr) {
                let w = choose|w: int|
                    0 <= w < pre.leaves@.len() && #[trigger] pre.leaves@[w].page == p
                        && pre.leaves@[w].frame == fr;
                if w < i {
                    assert(post.leaves@[w].page == p && post.leaves@[w].frame == fr);
                } else if w > i {
                    assert(post.leaves@[w - 1].page == p && post.leaves@[w - 1].frame == fr);
                }
            }
            if post.maps(p, fr) {
                let w = choose|w: int|
                    0 <= w < post.leaves@.len() && #[trigger] post.leaves@[w].page == p
                        && post.leaves@[w].frame == fr;
                if w < i {
                    assert(pre.leaves@[w].page == p && pre.leaves@[w].frame == fr);
                } else {
                    assert(pre.leaves@[w + 1].page == p && pre.leaves@[w + 1].frame == fr);
                }
            }
        }
        assert forall|a: int| 0 <= a < post.leaves@.len() implies exists|b: int|
            0 <= b < pre.leaves@.len() && (#[trigger] post.leaves@[a])
                == #[trigger] pre.leaves@[b] by {
            if a < i {
                assert(post.leaves@[a] == pre.leaves@[a]);
            } else {
                assert(post.leaves@[a] == pre.leaves@[a + 1]);
            }
        }
        assert forall|a: int, b: int| 0 <= a < b < post.leaves@.len() implies (post.leaves@[a].page
            != post.leaves@[b].page && post.leaves@[a].frame != post.leaves@[b].frame) by {
            let ma: int = if a < i {
                a
            } else {
                a + 1
            };
            let mb: int = if b < i {
                b
            } else {
                b + 1
            };
            assert(post.leaves@[a] == pre.leaves@[ma]);
            assert(post.leaves@[b] == pre.leaves@[mb]);
        }
    }

    /// A space whose frames stand allocated keeps that standing when a frame
    /// it does not own is freed.
    pub proof fn lemma_owned_allocated_after_free(
        self,
        a0: BitmapPageFrameAllocator,
        a1: BitmapPageFrameAllocator,
        frame: usize,
    )
        requires
            self.owned_allocated(a0),
            !self.owns(frame as int),
            a1.spec_total_frames() == a0.spec_total_frames(),
            forall|k: int|
                0 <= k < a0.spec_total_frames() && k != frame ==> a1.allocated(k) == a0.allocated(
                    k,
                ),
        ensures
            self.owned_allocated(a1),
    {
        assert forall|i: int| 0 <= i < self.tables@.len() implies (#[trigger] self.tables@[i].frame)
            < a1.spec_total_frames() && a1.allocated(self.tables@[i].frame as int) by {
            assert(a0.allocated(self.tables@[i].frame as int));
            assert(self.tables@[i].frame != frame);
        }
        assert forall|i: int| 0 <= i < self.leaves@.len() implies (#[trigger] self.leaves@[i].frame)
            < a1.spec_total_frames() && a1.allocated(self.leaves@[i].frame as int) by {
            assert(a0.allocated(self.leaves@[i].frame as int));
            assert(self.leaves@[i].frame != frame);
        }
    }

    /// Each mapped page names one frame.
    pub proof fn lemma_maps_functional(self, page: u64, f1: usize, f2: usize)
        requires
            self.wf(),
            self.maps(page, f1),
            self.maps(page, f2),
        ensures
            f1 == f2,
    {
        let w1 = choose|w: int|
            0 <= w < self.leaves@.len() && #[trigger] self.leaves@[w].page == page
                && self.leaves@[w].frame == f1;
        let w2 = choose|w: int|
            0 <= w < self.leaves@.len() && #[trigger] self.leaves@[w].page == page
                && self.leaves@[w].frame == f2;
        if w1 != w2 {
            assert(self.leaves@[w1].page != self.leaves@[w2].page);
        }
    }

    /// Distinct mapped pages name distinct frames.
    pub proof fn lemma_maps_injective(self, p1: u64, f1: usize, p2: u64, f2: usize)
        requires
            self.wf(),
            self.maps(p1, f1),
            self.maps(p2, f2),
            p1 != p2,
        ensures
            f1 != f2,
    {
        let w1 = choose|w: int|
            0 <= w < self.leaves@.len() && #[trigger] self.leaves@[w].page == p1
                && self.leaves@[w].frame == f1;
        let w2 = choose|w: int|
            0 <= w < self.leaves@.len() && #[trigger] self.leaves@[w].page == p2
                && self.leaves@[w].frame == f2;
        if w1 < w2 {
            assert(self.leaves@[w1].frame != self.leaves@[w2].frame);
        } else if w2 < w1 {
            assert(self.leaves@[w2].frame != self.leaves@[w1].frame);
        }
    }

    /// Shrinking the leaf list while keeping the rest leaves a space's frames
    /// allocated.
    pub proof fn lemma_owned_allocated_shrink(
        pre: Self,
        post: Self,
        a: BitmapPageFrameAllocator,
    )
        requires
            pre.owned_allocated(a),
            post.top_frame == pre.top_frame,
            post.tables@ == pre.tables@,
            forall|i: int|
                0 <= i < post.leaves@.len() ==> exists|j: int|
                    0 <= j < pre.leaves@.len() && (#[trigger] post.leaves@[i])
                        == #[trigger] pre.leaves@[j],
        ensures
            post.owned_allocated(a),
    {
        assert forall|i: int| 0 <= i < post.leaves@.len() implies (#[trigger] post.leaves@[i].frame)
            < a.spec_total_frames() && a.allocated(post.leaves@[i].frame as int) by {
            let j = choose|j: int|
                0 <= j < pre.leaves@.len() && post.leaves@[i] == #[trigger] pre.leaves@[j];
            assert(a.allocated(pre.leaves@[j].frame as int));
        }
    }

    /// A mapped frame is an owned frame.
    pub proof fn lemma_maps_implies_owns(self, page: u64, f: usize)
        requires
            self.maps(page, f),
        ensures
            self.owns(f as int),
    {
        let w = choose|w: int|
            0 <= w < self.leaves@.len() && #[trigger] self.leaves@[w].page == page
                && self.leaves@[w].frame == f;
        assert(self.leaves@[w].frame == f);
    }

    /// A space whose frames stand allocated in one ledger stays that way in
    /// any ledger that allocates at least as much.
    pub proof fn lemma_owned_allocated_monotone(
        self,
        a0: BitmapPageFrameAllocator,
        a1: BitmapPageFrameAllocator,
    )
        requires
            self.owned_allocated(a0),
            a1.spec_total_frames() == a0.spec_total_frames(),
            forall|k: int|
                0 <= k < a0.spec_total_frames() && #[trigger] a0.allocated(k) ==> a1.allocated(k),
        ensures
            self.owned_allocated(a1),
    {
        assert forall|i: int| 0 <= i < self.tables@.len() implies (#[trigger] self.tables@[i].frame)
            < a1.spec_total_frames() && a1.allocated(self.tables@[i].frame as int) by {
            assert(a0.allocated(self.tables@[i].frame as int));
        }
        assert forall|i: int| 0 <= i < self.leaves@.len() implies (#[trigger] self.leaves@[i].frame)
            < a1.spec_total_frames() && a1.allocated(self.leaves@[i].frame as int) by {
            assert(a0.allocated(self.leaves@[i].frame as int));
        }
    }

    /// Two growth steps compose.
    pub proof fn lemma_grow_trans(
        s0: Self,
        a0: BitmapPageFrameAllocator,
        s1: Self,
        a1: BitmapPageFrameAllocator,
        s2: Self,
        a2: BitmapPageFrameAllocator,
    )
        requires
            Self::grow_ok(s0, a0, s1, a1, None),
            Self::grow_ok(s1, a1, s2, a2, None),
        ensures
            Self::grow_ok(s0, a0, s2, a2, None),
    {
        assert forall|f: int|
            #[trigger] s2.owns(f) && !s0.owns(f) implies !a0.allocated(f) && a2.allocated(f) && 0
            <= f < a0.spec_total_frames() by {
            if s1.owns(f) {
                assert(!a0.allocated(f) && a1.allocated(f));
                assert(a2.allocated(f));
            } else {
                assert(!a1.allocated(f) && a2.allocated(f));
            }
        }
        assert forall|k: int|
            0 <= k < a0.spec_total_frames() && #[trigger] a2.allocated(k) && !a0.allocated(
            k,
        ) implies s2.owns(k) && !s0.owns(k) by {
            if a1.allocated(k) {
                assert(s1.owns(k) && !s0.owns(k));
            } else {
                assert(s2.owns(k) && !s1.owns(k));
            }
        }
    }

    /// Construction allocates one frame for the top-level table (zeroed at
    /// the memory edge, like every allocated frame).
    pub fn new(alloc: &mut BitmapPageFrameAllocator) -> (r: Result<Self, KernelError>)
        requires
            old(alloc).inv(),
        ensures
            final(alloc).inv(),
            final(alloc).spec_total_frames() == old(alloc).spec_total_frames(),
            match r {
                Ok(s) => {
                    &&& s.wf()
                    &&& s.owned_allocated(*final(alloc))
                    &&& s.tables@.len() == 0
                    &&& s.leaves@.len() == 0
                    &&& s.owned_count() == 1
                    &&& BitmapPageFrameAllocator::allocate_ok(
                        *old(alloc),
                        *final(alloc),
                        s.top_frame as int,
                    )
                    &&& forall|f: int| s.owns(f) <==> f == s.top_frame
                },
                Err(e) => {
                    &&& e == KernelError::ResourceExhaustion
                    &&& *final(alloc) == *old(alloc)
                    &&& old(alloc).spec_free_count() == 0
                },
            },
    {
        let top = alloc.allocate_frame()?;
        Ok(ManagedPageTable { top_frame: top, tables: Vec::new(), leaves: Vec::new() })
    }

    /// Whether an intermediate table with this level and prefix is present.
    pub fn has_table_node(&self, level: u8, key: u64) -> (r: bool)
        ensures
            r == self.has_table(level, key),
    {
        let mut i: usize = 0;
        while i < self.tables.len()
            invariant
                i <= self.tables@.len(),
                forall|j: int|
                    0 <= j < i ==> !(#[trigger] self.tables@[j].level == level && self.tables@[j].key
                        == key),
            decreases self.tables@.len() - i,
        {
            let node = self.tables[i];
            if node.level == level && node.key == key {
                return true;
            }
            i = i + 1;
        }
        false
    }

    /// The leaf entry for `page`, when one is present.
    pub fn lookup(&self, page: u64) -> (r: Option<LeafEntry>)
        ensures
            match r {
                Some(leaf) => {
                    &&& leaf.page == page
                    &&& self.maps(page, leaf.frame)
                    &&& self.maps_page(page)
                    &&& exists|i: int|
                        0 <= i < self.leaves@.len() && #[trigger] self.leaves@[i] == leaf
                },
                None => !self.maps_page(page),
            },
    {
        let mut i: usize = 0;
        while i < self.leaves.len()
            invariant
                i <= self.leaves@.len(),
                forall|j: int| 0 <= j < i ==> (#[trigger] self.leaves@[j].page) != page,
            decreases self.leaves@.len() - i,
        {
            let leaf = self.leaves[i];
            if leaf.page == page {
                return Some(leaf);
            }
            i = i + 1;
        }
        None
    }

    /// Whether the space already owns frame `f`.
    pub fn contains_frame(&self, f: usize) -> (r: bool)
        ensures
            r == self.owns(f as int),
    {
        if self.top_frame == f {
            return true;
        }
        let mut i: usize = 0;
        while i < self.tables.len()
            invariant
                i <= self.tables@.len(),
                forall|j: int| 0 <= j < i ==> (#[trigger] self.tables@[j].frame) != f,
            decreases self.tables@.len() - i,
        {
            if self.tables[i].frame == f {
                return true;
            }
            i = i + 1;
        }
        let mut k: usize = 0;
        while k < self.leaves.len()
            invariant
                k <= self.leaves@.len(),
                forall|j: int| 0 <= j < k ==> (#[trigger] self.leaves@[j].frame) != f,
            decreases self.leaves@.len() - k,
        {
            if self.leaves[k].frame == f {
                return true;
            }
            k = k + 1;
        }
        false
    }

    /// Allocates a fresh frame and appends one intermediate table under it.
    fn add_table_node(
        &mut self,
        alloc: &mut BitmapPageFrameAllocator,
        level: u8,
        key: u64,
    ) -> (r: Result<(), KernelError>)
        requires
            old(self).wf(),
            old(alloc).inv(),
            old(self).owned_allocated(*old(alloc)),
            1 <= level <= 3,
            !old(self).has_table(level, key),
            level == 1 ==> old(self).has_table(2, key / ENTRIES_PER_TABLE),
            level == 2 ==> old(self).has_table(3, key / ENTRIES_PER_TABLE),
        ensures
            final(self).wf(),
            final(self).owned_allocated(*final(alloc)),
            final(self).leaves@ == old(self).leaves@,
            Self::grow_ok(*old(self), *old(alloc), *final(self), *final(alloc), None),
            forall|l: u8, k: u64|
                #[trigger] old(self).has_table(l, k) ==> final(self).has_table(l, k),
            match r {
                Ok(()) => final(self).has_table(level, key) && final(self).owned_count() == old(
                    self,
                ).owned_count() + 1,
                Err(e) => {
                    &&& e == KernelError::ResourceExhaustion
                    &&& *final(self) == *old(self)
                    &&& *final(alloc) == *old(alloc)
                    &&& old(alloc).spec_free_count() == 0
                },
            },
    {
        let f = match alloc.allocate_frame() {
            Ok(f) => f,
            Err(e) => {
                return Err(e);
            },
        };
        let node = TableNode { level, key, frame: f };
        proof {
            assert(!old(self).owns(f as int)) by {
                if exists|w: int|
                    0 <= w < old(self).tables@.len() && #[trigger] old(self).tables@[w].frame
                        == f {
                    let w = choose|w: int|
                        0 <= w < old(self).tables@.len() && #[trigger] old(self).tables@[w].frame
                            == f;
                    assert(old(alloc).allocated(f as int));
                }
                if exists|w: int|
                    0 <= w < old(self).leaves@.len() && #[trigger] old(self).leaves@[w].frame
                        == f {
                    let w = choose|w: int|
                        0 <= w < old(self).leaves@.len() && #[trigger] old(self).leaves@[w].frame
                            == f;
                    assert(old(alloc).allocated(f as int));
                }
            }
        }
        self.tables.push(node);
        proof {
            Self::lemma_push_table(*old(self), *self, node);
        }
        Ok(())
    }

    /// Creates the missing intermediate tables on the walk to `page`, top
    /// level down, each backed by a freshly allocated frame. On exhaustion
    /// the tables already created stay owned by the space, so nothing leaks.
    /// When every table is already present nothing changes and success is
    /// guaranteed, which lets a caller split a transfer into a fallible
    /// preparation phase and an unfailing mapping phase.
    pub fn prepare_tables(
        &mut self,
        alloc: &mut BitmapPageFrameAllocator,
        page: u64,
    ) -> (r: Result<(), KernelError>)
        requires
            old(self).wf(),
            old(alloc).inv(),
            page < USER_HALF_PAGES,
            old(self).owned_allocated(*old(alloc)),
        ensures
            final(self).wf(),
            final(self).owned_allocated(*final(alloc)),
            final(self).leaves@ == old(self).leaves@,
            final(self).top_frame == old(self).top_frame,
            Self::grow_ok(*old(self), *old(alloc), *final(self), *final(alloc), None),
            forall|l: u8, k: u64|
                #[trigger] old(self).has_table(l, k) ==> final(self).has_table(l, k),
            final(self).owned_count() <= old(self).owned_count() + 3,
            match r {
                Ok(()) => {
                    &&& final(self).has_table(3, page / LEVEL_3_SPAN)
                    &&& final(self).has_table(2, page / LEVEL_2_SPAN)
                    &&& final(self).has_table(1, page / ENTRIES_PER_TABLE)
                },
                Err(e) => {
                    &&& e == KernelError::ResourceExhaustion
                    &&& final(alloc).spec_free_count() == 0
                    &&& final(self).owned_count() <= old(self).owned_count() + 2
                },
            },
            (old(self).has_table(3, page / LEVEL_3_SPAN) && old(self).has_table(
                2,
                page / LEVEL_2_SPAN,
            ) && old(self).has_table(1, page / ENTRIES_PER_TABLE)) ==> (r is Ok && *final(self)
                == *old(self) && *final(alloc) == *old(alloc)),
    {
        let key3 = page / LEVEL_3_SPAN;
        let key2 = page / LEVEL_2_SPAN;
        let key1 = page / ENTRIES_PER_TABLE;
        proof {
            vstd::arithmetic::div_mod::lemma_div_denominator(
                page as int,
                ENTRIES_PER_TABLE as int,
                ENTRIES_PER_TABLE as int,
            );
            vstd::arithmetic::div_mod::lemma_div_denominator(
                page as int,
                LEVEL_2_SPAN as int,
                ENTRIES_PER_TABLE as int,
            );
            assert(key1 / ENTRIES_PER_TABLE == key2);
            assert(key2 / ENTRIES_PER_TABLE == key3);
        }
        if !self.has_table_node(3, key3) {
            self.add_table_node(alloc, 3, key3)?;
        }
        let ghost s1 = *self;
        let ghost a1 = *alloc;
        if !self.has_table_node(2, key2) {
            match self.add_table_node(alloc, 2, key2) {
                Ok(()) => (),
                Err(e) => {
                    proof {
                        Self::lemma_grow_trans(
                            *old(self),
                            *old(alloc),
                            s1,
                            a1,
                            *self,
                            *alloc,
                        );
                    }
                    return Err(e);
                },
            }
        }
        proof {
            Self::lemma_grow_trans(*old(self), *old(alloc), s1, a1, *self, *alloc);
        }
        let ghost s2 = *self;
        let ghost a2 = *alloc;
        if !self.has_table_node(1, key1) {
            match self.add_table_node(alloc, 1, key1) {
                Ok(()) => (),
                Err(e) => {
                    proof {
                        Self::lemma_grow_trans(
                            *old(self),
                            *old(alloc),
                            s2,
                            a2,
                            *self,
                            *alloc,
                        );
                    }
                    return Err(e);
                },
            }
        }
        proof {
            Self::lemma_grow_trans(*old(self), *old(alloc), s2, a2, *self, *alloc);
        }
        Ok(())
    }

    /// Inserts a leaf entry mapping `page` to `frame` under the given
    /// profile, creating intermediate tables on demand. Rejected when the
    /// page lies in the shared kernel half, when the page is already mapped,
    /// or when the frame is already referenced within this space — the model
    /// forbids aliasing inside one space's user half. The caller must have
    /// allocated `frame` already. (At the memory edge, every mutation here is
    /// followed by invalidating the translation on any core that might
    /// observe it.)
    pub fn map(
        &mut self,
        alloc: &mut BitmapPageFrameAllocator,
        page: u64,
        frame: usize,
        profile: PageProfile,
    ) -> (r: Result<(), KernelError>)
        requires
            old(self).wf(),
            old(alloc).inv(),
            old(self).owned_allocated(*old(alloc)),
            frame < old(alloc).spec_total_frames(),
            old(alloc).allocated(frame as int),
        ensures
            final(self).wf(),
            final(self).owned_allocated(*final(alloc)),
            match r {
                Ok(()) => {
                    &&& page < USER_HALF_PAGES
                    &&& !old(self).maps_page(page)
                    &&& !old(self).owns(frame as int)
                    &&& final(self).leaves@ == old(self).leaves@.push(
                        LeafEntry { page, frame, profile },
                    )
                    &&& final(self).maps(page, frame)
                    &&& Self::grow_ok(
                        *old(self),
                        *old(alloc),
                        *final(self),
                        *final(alloc),
                        Some(frame),
                    )
                },
                Err(e) => {
                    &&& final(self).leaves@ == old(self).leaves@
                    &&& Self::grow_ok(*old(self), *old(alloc), *final(self), *final(alloc), None)
                    &&& (e == KernelError::MappingFailure || e == KernelError::ResourceExhaustion)
                    &&& ((e == KernelError::MappingFailure) <==> (page >= USER_HALF_PAGES
                        || old(self).maps_page(page) || old(self).owns(frame as int)))
                    &&& (e == KernelError::MappingFailure ==> *final(self) == *old(self)
                        && *final(alloc) == *old(alloc))
                    &&& (e == KernelError::ResourceExhaustion ==> final(alloc).spec_free_count() == 0 && final(self).owned_count() <= old(self).owned_count() + 2)
                },
            },
            (page < USER_HALF_PAGES && !old(self).maps_page(page) && !old(self).owns(frame as int)
                && old(self).has_table(3, page / LEVEL_3_SPAN) && old(self).has_table(
                2,
                page / LEVEL_2_SPAN,
            ) && old(self).has_table(1, page / ENTRIES_PER_TABLE)) ==> (r is Ok && *final(alloc)
                == *old(alloc) && final(self).tables@ == old(self).tables@),
    {
        if page >= USER_HALF_PAGES {
            return Err(KernelError::MappingFailure);
        }
        if let Some(_) = self.lookup(page) {
            return Err(KernelError::MappingFailure);
        }
        if self.contains_frame(frame) {
            return Err(KernelError::MappingFailure);
        }
        self.prepare_tables(alloc, page)?;
        let ghost s1 = *self;
        let ghost a1 = *alloc;
        let leaf = LeafEntry { page, frame, profile };
        proof {
            assert(!s1.owns(frame as int));
            assert(!s1.maps_page(page)) by {
                if s1.maps_page(page) {
                    let w = choose|w: int|
                        0 <= w < s1.leaves@.len() && #[trigger] s1.leaves@[w].page == page;
                    assert(old(self).leaves@[w].page == page);
                }
            }
        }
        self.leaves.push(leaf);
        proof {
            Self::lemma_push_leaf(s1, *self, leaf);
            Self::lemma_grow_leaf(*old(self), *old(alloc), s1, *self, a1, frame);
        }
        Ok(())
    }

    /// A growth step followed by one appended leaf under a frame the caller
    /// had already allocated is itself a growth step that absorbed that
    /// frame.
    proof fn lemma_grow_leaf(
        s0: Self,
        a0: BitmapPageFrameAllocator,
        s1: Self,
        s2: Self,
        a1: BitmapPageFrameAllocator,
        frame: usize,
    )
        requires
            Self::grow_ok(s0, a0, s1, a1, None),
            a0.allocated(frame as int),
            frame < a0.spec_total_frames(),
            s2.top_frame == s1.top_frame,
            s2.owned_count() == s1.owned_count() + 1,
            forall|f: int| #[trigger] s2.owns(f) == (s1.owns(f) || f == frame),
        ensures
            Self::grow_ok(s0, a0, s2, a1, Some(frame)),
    {
        assert forall|f: int|
            #[trigger] s2.owns(f) && !s0.owns(f) && f != frame implies !a0.allocated(f)
            && a1.allocated(f) && 0 <= f < a0.spec_total_frames() by {
            assert(s1.owns(f));
        }
        assert forall|k: int|
            0 <= k < a0.spec_total_frames() && #[trigger] a1.allocated(k) && !a0.allocated(
            k,
        ) implies s2.owns(k) && !s0.owns(k) by {
            assert(s1.owns(k));
        }
    }

    /// Removes the leaf entry for `page` and returns it; the frame leaves the
    /// space's ownership but stays allocated, ready to be transferred.
    pub fn unmap(&mut self, page: u64) -> (r: Result<LeafEntry, KernelError>)
        requires
            old(self).wf(),
        ensures
            final(self).wf(),
            final(self).top_frame == old(self).top_frame,
            final(self).tables@ == old(self).tables@,
            match r {
                Ok(leaf) => {
                    &&& leaf.page == page
                    &&& old(self).maps(page, leaf.frame)
                    &&& old(self).owns(leaf.frame as int)
                    &&& !final(self).maps_page(page)
                    &&& !final(self).owns(leaf.frame as int)
                    &&& forall|f: int| final(self).owns(f) ==> old(self).owns(f)
                    &&& forall|f: int|
                        #[trigger] old(self).owns(f) && f != leaf.frame ==> final(self).owns(f)
                    &&& forall|p: u64, fr: usize|
                        p != page ==> (#[trigger] final(self).maps(p, fr) <==> old(self).maps(
                            p,
                            fr,
                        ))
                    &&& final(self).owned_count() == old(self).owned_count() - 1
                    &&& forall|a: int|
                        0 <= a < final(self).leaves@.len() ==> exists|b: int|
                            0 <= b < old(self).leaves@.len() && (
                            #[trigger] final(self).leaves@[a]) == #[trigger] old(self).leaves@[b]
                },
                Err(e) => {
                    &&& e == KernelError::MappingFailure
                    &&& !old(self).maps_page(page)
                    &&& *final(self) == *old(self)
                },
            },
    {
        let mut i: usize = 0;
        while i < self.leaves.len()
            invariant
                *self == *old(self),
                old(self).wf(),
                i <= self.leaves@.len(),
                forall|j: int| 0 <= j < i ==> (#[trigger] self.leaves@[j].page) != page,
            decreases self.leaves@.len() - i,
        {
            let leaf = self.leaves[i];
            if leaf.page == page {
                let removed = self.leaves.remove(i);
                proof {
                    Self::lemma_remove_leaf(*old(self), *self, i as int);
                }
                return Ok(removed);
            }
            i = i + 1;
        }
        Err(KernelError::MappingFailure)
    }

    /// Frees every owned frame back to the allocator: each leaf frame of the
    /// user half, then each intermediate table frame, then the space's own
    /// top-level frame last. Every owned frame is visited exactly once, so
    /// the free count rises by exactly the owned count.
    pub fn destroy(self, alloc: &mut BitmapPageFrameAllocator)
        requires
            self.wf(),
            old(alloc).inv(),
            self.owned_allocated(*old(alloc)),
        ensures
            final(alloc).inv(),
            final(alloc).spec_total_frames() == old(alloc).spec_total_frames(),
            forall|k: int|
                0 <= k < old(alloc).spec_total_frames() ==> final(alloc).allocated(k) == (old(
                    alloc,
                ).allocated(k) && !self.owns(k)),
            final(alloc).spec_free_count() == old(alloc).spec_free_count() + self.owned_count(),
    {
        let ManagedPageTable { top_frame, tables, leaves } = self;
        let ghost whole = self;
        let mut i: usize = 0;
        while i < leaves.len()
            invariant
                alloc.inv(),
                alloc.spec_total_frames() == old(alloc).spec_total_frames(),
                i <= leaves@.len(),
                whole.wf(),
                whole.owned_allocated(*old(alloc)),
                whole.leaves@ == leaves@,
                whole.tables@ == tables@,
                whole.top_frame == top_frame,
                forall|k: int|
                    0 <= k < old(alloc).spec_total_frames() ==> alloc.allocated(k) == (old(
                        alloc,
                    ).allocated(k) && !(exists|j: int|
                        0 <= j < i && (#[trigger] leaves@[j].frame) == k)),
                alloc.spec_free_count() == old(alloc).spec_free_count() + i,
            decreases leaves@.len() - i,
        {
            let f = leaves[i].frame;
            assert(alloc.allocated(f as int));
            alloc.deallocate_frame(f);
            i = i + 1;
        }
        let mut t: usize = 0;
        while t < tables.len()
            invariant
                alloc.inv(),
                alloc.spec_total_frames() == old(alloc).spec_total_frames(),
                t <= tables@.len(),
                whole.wf(),
                whole.owned_allocated(*old(alloc)),
                whole.leaves@ == leaves@,
                whole.tables@ == tables@,
                whole.top_frame == top_frame,
                forall|k: int|
                    0 <= k < old(alloc).spec_total_frames() ==> alloc.allocated(k) == (old(
                        alloc,
                    ).allocated(k) && !(exists|j: int|
                        0 <= j < leaves@.len() && (#[trigger] leaves@[j].frame) == k) && !(exists|
                        j: int,
                    |
                        0 <= j < t && (#[trigger] tables@[j].frame) == k)),
                alloc.spec_free_count() == old(alloc).spec_free_count() + leaves@.len() + t,
            decreases tables@.len() - t,
        {
            let f = tables[t].frame;
            assert(alloc.allocated(f as int));
            alloc.deallocate_frame(f);
            t = t + 1;
        }
        assert(alloc.allocated(top_frame as int));
        alloc.deallocate_frame(top_frame);
    }

    /// Frees every owned frame back to the allocator and leaves the space
    /// empty, for teardown of a process that still holds its space in place.
    /// The accounting matches `destroy`: every owned frame is returned
    /// exactly once, the top-level frame last.
    pub fn destroy_in_place(&mut self, alloc: &mut BitmapPageFrameAllocator)
        requires
            old(self).wf(),
            old(alloc).inv(),
            old(self).owned_allocated(*old(alloc)),
        ensures
            final(alloc).inv(),
            final(alloc).spec_total_frames() == old(alloc).spec_total_frames(),
            forall|k: int|
                0 <= k < old(alloc).spec_total_frames() ==> final(alloc).allocated(k) == (old(
                    alloc,
                ).allocated(k) && !old(self).owns(k)),
            final(alloc).spec_free_count() == old(alloc).spec_free_count() + old(self).owned_count(),
            final(self).leaves@.len() == 0,
            final(self).tables@.len() == 0,
            final(self).top_frame == 0,
            final(self).wf(),
    {
        let ghost s0 = *self;
        while self.leaves.len() > 0
            invariant
                s0.wf(),
                s0.owned_allocated(*old(alloc)),
                alloc.inv(),
                alloc.spec_total_frames() == old(alloc).spec_total_frames(),
                self.tables@ == s0.tables@,
                self.top_frame == s0.top_frame,
                self.leaves@ == s0.leaves@.subrange(0, self.leaves@.len() as int),
                self.leaves@.len() <= s0.leaves@.len(),
                forall|k: int|
                    0 <= k < old(alloc).spec_total_frames() ==> alloc.allocated(k) == (old(
                        alloc,
                    ).allocated(k) && !(exists|j: int|
                        self.leaves@.len() <= j < s0.leaves@.len() && (
                        #[trigger] s0.leaves@[j].frame) == k)),
                alloc.spec_free_count() == old(alloc).spec_free_count() + (s0.leaves@.len()
                    - self.leaves@.len()),
            decreases self.leaves@.len(),
        {
            let ghost before = self.leaves@;
            let leaf = match self.leaves.pop() {
                Some(l) => l,
                None => {
                    proof {
                        assert(false);
                    }
                    return ;
                },
            };
            proof {
                assert(leaf == s0.leaves@[self.leaves@.len() as int]);
                assert(alloc.allocated(leaf.frame as int)) by {
                    assert(old(alloc).allocated(leaf.frame as int));
                    assert forall|j: int|
                        self.leaves@.len() < j < s0.leaves@.len() implies (
                    #[trigger] s0.leaves@[j].frame) != leaf.frame by {}
                }
            }
            alloc.deallocate_frame(leaf.frame);
        }
        let ghost mid_alloc = *alloc;
        while self.tables.len() > 0
            invariant
                s0.wf(),
                s0.owned_allocated(*old(alloc)),
                alloc.inv(),
                alloc.spec_total_frames() == old(alloc).spec_total_frames(),
                self.tables@ == s0.tables@.subrange(0, self.tables@.len() as int),
                self.tables@.len() <= s0.tables@.len(),
                self.top_frame == s0.top_frame,
                self.leaves@.len() == 0,
                forall|k: int|
                    0 <= k < old(alloc).spec_total_frames() ==> alloc.allocated(k) == (old(
                        alloc,
                    ).allocated(k) && !(exists|j: int|
                        0 <= j < s0.leaves@.len() && (#[trigger] s0.leaves@[j].frame) == k) && !(
                    exists|j: int|
                        self.tables@.len() <= j < s0.tables@.len() && (
                        #[trigger] s0.tables@[j].frame) == k)),
                alloc.spec_free_count() == old(alloc).spec_free_count() + s0.leaves@.len() + (
                s0.tables@.len() - self.tables@.len()),
            decreases self.tables@.len(),
        {
            let node = match self.tables.pop() {
                Some(n) => n,
                None => {
                    proof {
                        assert(false);
                    }
                    return ;
                },
            };
            proof {
                assert(node == s0.tables@[self.tables@.len() as int]);
                assert(alloc.allocated(node.frame as int)) by {
                    assert(old(alloc).allocated(node.frame as int));
                    assert forall|j: int|
                        0 <= j < s0.leaves@.len() implies (#[trigger] s0.leaves@[j].frame)
                        != node.frame by {}
                    assert forall|j: int|
                        self.tables@.len() < j < s0.tables@.len() implies (
                    #[trigger] s0.tables@[j].frame) != node.frame by {}
                }
            }
            alloc.deallocate_frame(node.frame);
        }
        proof {
            assert(alloc.allocated(s0.top_frame as int)) by {
                assert(old(alloc).allocated(s0.top_frame as int));
            }
        }
        alloc.deallocate_frame(self.top_frame);
        self.top_frame = 0;
        proof {
            assert forall|k: int|
                0 <= k < old(alloc).spec_total_frames() implies alloc.allocated(k) == (old(
                alloc,
            ).allocated(k) && !s0.owns(k)) by {
                if s0.owns(k) {
                    if exists|j: int| 0 <= j < s0.leaves@.len() && #[trigger] s0.leaves@[j].frame
                        == k {
                    } else if exists|j: int|
                        0 <= j < s0.tables@.len() && #[trigger] s0.tables@[j].frame == k {
                    } else {
                        assert(s0.top_frame == k);
                    }
                }
            }
        }
    }

    /// How many frames the space owns, as executable arithmetic.
    pub fn owned_frame_count(&self) -> (r: usize)
        requires
            self.tables@.len() + self.leaves@.len() < usize::MAX,
        ensures
            r == self.owned_count(),
    {
        1 + self.tables.len() + self.leaves.len()
    }

    /// How many leaf pages are mapped.
    pub fn mapped_page_count(&self) -> (r: usize)
        ensures
            r == self.leaves@.len(),
    {
        self.leaves.len()
    }

    /// How many intermediate tables were created on demand.
    pub fn table_count(&self) -> (r: usize)
        ensures
            r == self.tables@.len(),
    {
        self.tables.len()
    }
}

} // verus!
