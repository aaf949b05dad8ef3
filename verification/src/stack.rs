//! Kernel-mode stack pools: slot ledgers over the fixed stack windows.
//!
//! A pool is a boolean map of slots, true meaning free. Acquiring a stack
//! takes the first free slot or extends the map; releasing marks the slot
//! free again. The backing pages of each window are mapped at boot, before
//! the first dispatch on any core.

use vstd::prelude::*;

use crate::error::KernelError;
use crate::mapping::{
    syscall_stack_address, SYSCALL_STACKS, SYSCALL_STACK_SIZE, SYSCALL_STACK_SLOTS,
};

verus! {

/// One syscall stack, held by slot index into its window.
#[derive(Debug)]
pub struct SyscallStack(pub usize);

impl SyscallStack {
    /// Lowest address of this stack.
    pub fn bottom(&self) -> (r: u64)
        requires
            self.0 < SYSCALL_STACK_SLOTS,
        ensures
            r == SYSCALL_STACKS + SYSCALL_STACK_SIZE * self.0,
    {
        syscall_stack_address(self.0)
    }

    /// Highest word-aligned address of this stack.
    pub fn top(&self) -> (r: u64)
        requires
            self.0 < SYSCALL_STACK_SLOTS,
        ensures
            r == SYSCALL_STACKS + SYSCALL_STACK_SIZE * self.0 + SYSCALL_STACK_SIZE - 8,
    {
        self.bottom() + SYSCALL_STACK_SIZE - 8
    }
}

/// The slot ledger of the syscall stack window: true marks a free slot.
pub struct SyscallStackPool {
    pub slots: Vec<bool>,
}

impl SyscallStackPool {
    /// The ledger never outgrows its address window.
    pub open spec fn inv(self) -> bool {
        self.slots@.len() <= SYSCALL_STACK_SLOTS
    }

    /// Whether slot `i` is handed out.
    pub open spec fn taken(self, i: int) -> bool {
        0 <= i < self.slots@.len() && !self.slots@[i]
    }

    pub fn new() -> (r: Self)
        ensures
            r.inv(),
            r.slots@.len() == 0,
    {
        SyscallStackPool { slots: Vec::new() }
    }

    /// Takes the first free slot, or extends the ledger by one; fails only
    /// when the whole window is in use.
    pub fn acquire(&mut self) -> (r: Result<SyscallStack, KernelError>)
        requires
            old(self).inv(),
        ensures
            final(self).inv(),
            match r {
                Ok(s) => {
                    &&& s.0 < final(self).slots@.len()
                    &&& s.0 < SYSCALL_STACK_SLOTS
                    &&& !old(self).taken(s.0 as int)
                    &&& final(self).taken(s.0 as int)
                    &&& forall|i: int|
                        0 <= i < old(self).slots@.len() && i != s.0
                            ==> final(self).slots@[i] == old(self).slots@[i]
                    &&& final(self).slots@.len() == if s.0 < old(self).slots@.len() {
                        old(self).slots@.len()
                    } else {
                        old(self).slots@.len() + 1
                    }
                },
                Err(e) => {
                    &&& e == KernelError::ResourceExhaustion
                    &&& *final(self) == *old(self)
                    &&& forall|i: int| 0 <= i < old(self).slots@.len() ==> old(self).taken(i)
                    &&& old(self).slots@.len() == SYSCALL_STACK_SLOTS
                },
            },
    {
        let mut i: usize = 0;
        while i < self.slots.len()
            invariant
                *self == *old(self),
                self.inv(),
                i <= self.slots@.len(),
                forall|j: int| 0 <= j < i ==> !self.slots@[j],
            decreases self.slots@.len() - i,
        {
            if self.slots[i] {
                self.slots.set(i, false);
                return Ok(SyscallStack(i));
            }
            i = i + 1;
        }
        if self.slots.len() < SYSCALL_STACK_SLOTS as usize {
            let slot = self.slots.len();
            self.slots.push(false);
            Ok(SyscallStack(slot))
        } else {
            Err(KernelError::ResourceExhaustion)
        }
    }

    /// Marks one slot free again.
    pub fn release(&mut self, slot: usize)
        requires
            old(self).inv(),
            slot < old(self).slots@.len(),
        ensures
            final(self).inv(),
            final(self).slots@.len() == old(self).slots@.len(),
            !final(self).taken(slot as int),
            forall|i: int|
                0 <= i < old(self).slots@.len() && i != slot ==> final(self).slots@[i] == old(
                    self,
                ).slots@[i],
    {
        self.slots.set(slot, true);
    }
}

/// One general kernel stack, held by slot index into its own ledger.
#[derive(Debug)]
pub struct KernelStack(pub usize);

/// The slot ledger of the kernel stack window: true marks a free slot.
pub struct KernelStackPool {
    pub slots: Vec<bool>,
}

impl KernelStackPool {
    pub fn new() -> (r: Self)
        ensures
            r.slots@.len() == 0,
    {
        KernelStackPool { slots: Vec::new() }
    }
}

impl KernelStack {
    /// Takes the first free slot of the pool, or extends it by one.
    pub fn new(pool: &mut KernelStackPool) -> (r: Option<KernelStack>)
        ensures
            match r {
                Some(s) => {
                    &&& s.0 < final(pool).slots@.len()
                    &&& !final(pool).slots@[s.0 as int]
                    &&& (s.0 < old(pool).slots@.len() ==> old(pool).slots@[s.0 as int])
                    &&& forall|i: int|
                        0 <= i < old(pool).slots@.len() && i != s.0
                            ==> final(pool).slots@[i] == old(pool).slots@[i]
                },
                None => false,
            },
    {
        let mut i: usize = 0;
        while i < pool.slots.len()
            invariant
                *pool == *old(pool),
                i <= pool.slots@.len(),
            decreases pool.slots@.len() - i,
        {
            if pool.slots[i] {
                pool.slots.set(i, false);
                return Some(KernelStack(i));
            }
            i = i + 1;
        }
        let slot = pool.slots.len();
        pool.slots.push(false);
        Some(KernelStack(slot))
    }
}

} // verus!
