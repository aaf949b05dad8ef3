//! The fixed higher-half virtual address layout, and the arithmetic from a
//! stack or frame index to its virtual address.
//!
//! The kernel occupies the higher half; below the direct physical mapping sit
//! fixed-size windows for per-core syscall, interrupt, double-fault and
//! critical stacks. Each window bounds how many stacks fit, which is the only
//! precondition the address functions carry.

use vstd::prelude::*;

verus! {

pub const ONE_MEGABYTE: u64 = 0x0000_0000_0010_0000;
pub const SIXTEEN_MEGABYTES: u64 = 0x0000_0000_0100_0000;
pub const ONE_TERABYTE: u64 = 0x0000_0100_0000_0000;
pub const TWELVE_TERABYTES: u64 = 0x0000_0c00_0000_0000;
pub const SIXTEEN_TERABYTES: u64 = 0x0000_1000_0000_0000;

pub const PAGE_SIZE: u64 = 4096;
pub const HIGHER_HALF: u64 = 0xffff_8000_0000_0000;
pub const KERNEL_CODE: u64 = HIGHER_HALF;
pub const KERNEL_HEAP: u64 = KERNEL_CODE + SIXTEEN_TERABYTES;
pub const BOOTSTRAP_STACK: u64 = KERNEL_HEAP + SIXTEEN_TERABYTES;
pub const FRAMEBUFFER: u64 = BOOTSTRAP_STACK + SIXTEEN_TERABYTES;
pub const SYSCALL_STACKS: u64 = FRAMEBUFFER + SIXTEEN_TERABYTES;
pub const INTERRUPT_STACKS: u64 = SYSCALL_STACKS + TWELVE_TERABYTES;
pub const DOUBLE_FAULT_STACKS: u64 = INTERRUPT_STACKS + ONE_TERABYTE;
pub const CRITICAL_STACKS: u64 = DOUBLE_FAULT_STACKS + ONE_TERABYTE;
pub const DIRECT_PHYSICAL: u64 = CRITICAL_STACKS + ONE_TERABYTE;

pub const SYSCALL_STACK_SIZE: u64 = SIXTEEN_MEGABYTES;
pub const INTERRUPT_STACK_SIZE: u64 = ONE_MEGABYTE;

/// How many syscall stacks fit in their window.
pub const SYSCALL_STACK_SLOTS: u64 = TWELVE_TERABYTES / SYSCALL_STACK_SIZE;

/// How many interrupt-class stacks fit in a one-terabyte window.
pub const INTERRUPT_STACK_SLOTS: u64 = ONE_TERABYTE / INTERRUPT_STACK_SIZE;

/// Base virtual address of the syscall stack with the given slot index.
pub fn syscall_stack_address(index: usize) -> (r: u64)
    requires
        index < SYSCALL_STACK_SLOTS,
    ensures
        r == SYSCALL_STACKS + SYSCALL_STACK_SIZE * index,
{
    SYSCALL_STACKS + SYSCALL_STACK_SIZE * index as u64
}

/// Base virtual address of the interrupt stack for the given core.
pub fn interrupt_stack_address(index: usize) -> (r: u64)
    requires
        index < INTERRUPT_STACK_SLOTS,
    ensures
        r == INTERRUPT_STACKS + INTERRUPT_STACK_SIZE * index,
{
    INTERRUPT_STACKS + INTERRUPT_STACK_SIZE * index as u64
}

/// Base virtual address of the double-fault stack for the given core.
pub fn double_fault_stack_address(index: usize) -> (r: u64)
    requires
        index < INTERRUPT_STACK_SLOTS,
    ensures
        r == DOUBLE_FAULT_STACKS + INTERRUPT_STACK_SIZE * index,
{
    DOUBLE_FAULT_STACKS + INTERRUPT_STACK_SIZE * index as u64
}

/// Base virtual address of the critical stack for the given core.
pub fn critical_stack_address(index: usize) -> (r: u64)
    requires
        index < INTERRUPT_STACK_SLOTS,
    ensures
        r == CRITICAL_STACKS + INTERRUPT_STACK_SIZE * index,
{
    CRITICAL_STACKS + INTERRUPT_STACK_SIZE * index as u64
}

/// Where a physical address appears inside the higher-half direct mapping
/// that the bootloader establishes.
pub fn physical_to_virtual_address(physical: u64) -> (r: u64)
    requires
        physical <= u64::MAX - DIRECT_PHYSICAL,
    ensures
        r == DIRECT_PHYSICAL + physical,
{
    DIRECT_PHYSICAL + physical
}

} // verus!
