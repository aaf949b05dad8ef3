use saltwater::error::KernelError;
use saltwater::frame::MemoryRegion;
use saltwater::ipc::{operation_tag, DescriptorOp, MessageHeader, State};
use saltwater::kernel::Kernel;
use saltwater::mapping::{
    critical_stack_address, double_fault_stack_address, interrupt_stack_address,
    physical_to_virtual_address, syscall_stack_address,
};
use saltwater::stack::{KernelStack, KernelStackPool, SyscallStack, SyscallStackPool};
use saltwater::syscall::{handle_syscall, Selector};
use saltwater::userspace::{Buffer, BufferAction, ExitCode};

#[test]
fn stack_addresses_follow_the_fixed_layout() {
    assert_eq!(syscall_stack_address(0), 0xffff_c000_0000_0000);
    assert_eq!(syscall_stack_address(2), 0xffff_c000_0000_0000 + 2 * 0x0100_0000);
    assert_eq!(interrupt_stack_address(0), 0xffff_cc00_0000_0000);
    assert_eq!(interrupt_stack_address(3), 0xffff_cc00_0000_0000 + 3 * 0x0010_0000);
    assert_eq!(double_fault_stack_address(1), 0xffff_cd00_0000_0000 + 0x0010_0000);
    assert_eq!(critical_stack_address(1), 0xffff_ce00_0000_0000 + 0x0010_0000);
    assert_eq!(physical_to_virtual_address(0x1000), 0xffff_cf00_0000_1000);
}

#[test]
fn syscall_stack_slots_are_reused_after_release() {
    let mut pool = SyscallStackPool::new();
    let a = pool.acquire().unwrap();
    let b = pool.acquire().unwrap();
    assert_eq!(a.0, 0);
    assert_eq!(b.0, 1);
    assert_eq!(a.bottom(), syscall_stack_address(0));
    assert_eq!(a.top(), syscall_stack_address(0) + 0x0100_0000 - 8);
    pool.release(a.0);
    let c = pool.acquire().unwrap();
    assert_eq!(c.0, 0);
}

#[test]
fn kernel_stack_pool_hands_out_fresh_slots() {
    let mut pool = KernelStackPool::new();
    let a = KernelStack::new(&mut pool).unwrap();
    let b = KernelStack::new(&mut pool).unwrap();
    assert_ne!(a.0, b.0);
}

#[test]
fn selector_words_round_trip() {
    let all = [
        Selector::Abort,
        Selector::MapPages,
        Selector::Length,
        Selector::Send,
        Selector::Query,
        Selector::Receive,
        Selector::Respond,
        Selector::Block,
        Selector::Check,
    ];
    for s in all {
        assert_eq!(Selector::decode(s.to_word()), Some(s));
    }
    assert_eq!(Selector::decode(9), None);
    assert_eq!(Selector::decode(42), None);
    assert_eq!(Selector::decode(3), Some(Selector::Send));
}

#[test]
fn error_codes_are_nonzero_and_distinct() {
    let all = [
        KernelError::ResourceExhaustion,
        KernelError::AllocatorNotReady,
        KernelError::MappingFailure,
        KernelError::PermissionDenied,
        KernelError::PeerGone,
        KernelError::ProtocolMisuse,
    ];
    for (i, a) in all.iter().enumerate() {
        assert_ne!(a.code(), 0);
        for b in all.iter().skip(i + 1) {
            assert_ne!(a.code(), b.code());
        }
    }
    assert_eq!(KernelError::PermissionDenied.describe(), "permission denied");
}

#[test]
fn unknown_selector_is_protocol_misuse() {
    let mut k = Kernel::new();
    let regions = vec![MemoryRegion { start: 0, end: 64 * 4096, usable: true }];
    k.init_memory(&regions).unwrap();
    k.create_boot_process().unwrap();
    k.init_processors(1);
    let (error, value) = handle_syscall(&mut k, 0, 42, [0; 5]);
    assert_eq!(error, KernelError::ProtocolMisuse.code());
    assert_eq!(value, 0);
    // no current thread on the core: also misuse, and zero means success only
    let (error2, _) = handle_syscall(&mut k, 0, Selector::Check.to_word(), [0; 5]);
    assert_eq!(error2, KernelError::ProtocolMisuse.code());
}

#[test]
fn check_syscall_reports_queue_state() {
    let mut k = Kernel::new();
    let regions = vec![MemoryRegion { start: 0, end: 64 * 4096, usable: true }];
    k.init_memory(&regions).unwrap();
    k.create_boot_process().unwrap();
    k.init_processors(1);
    let p = k.add_child(0).unwrap();
    let t = k.add_thread(p).unwrap();
    let sid = k.create_server(p, true).unwrap();
    k.processors[0].ready_queue.push(t);
    k.dispatch(0).unwrap();
    let (error, value) = handle_syscall(&mut k, 0, Selector::Check.to_word(), [sid as u64, 0, 0, 0, 0]);
    assert_eq!(error, 0);
    assert_eq!(value, 0);
    let (error2, mid) = handle_syscall(
        &mut k,
        0,
        Selector::Send.to_word(),
        [sid as u64, 5, 0, 0, 0],
    );
    assert_eq!(error2, 0);
    assert_eq!(mid, 0);
    // the queue now holds one request; a fresh executing thread can see it
    let t2 = k.add_thread(p).unwrap();
    k.processors[0].current_thread = None;
    k.processors[0].ready_queue.push(t2);
    k.dispatch(0).unwrap();
    let (error3, value3) = handle_syscall(&mut k, 0, Selector::Check.to_word(), [sid as u64, 0, 0, 0, 0]);
    assert_eq!(error3, 0);
    assert_eq!(value3, 1);
}

#[test]
fn state_mask_starts_all_denying_and_chains() {
    let s = State::new();
    assert!(!s.permits(DescriptorOp::Read));
    assert!(!s.permits(DescriptorOp::Walk));
    assert!(!s.permits(DescriptorOp::Lock));
    let s = s.read(true).insert(true).seek_start(true);
    assert!(s.permits(DescriptorOp::Read));
    assert!(s.permits(DescriptorOp::Insert));
    assert!(s.permits(DescriptorOp::SeekStart));
    assert!(!s.permits(DescriptorOp::Overwrite));
    let s = s.read(false);
    assert!(!s.permits(DescriptorOp::Read));
}

#[test]
fn operation_tags_are_distinct() {
    let all = [
        DescriptorOp::Walk,
        DescriptorOp::Rename,
        DescriptorOp::Make,
        DescriptorOp::Remove,
        DescriptorOp::Read,
        DescriptorOp::Insert,
        DescriptorOp::Overwrite,
        DescriptorOp::Truncate,
        DescriptorOp::SeekForward,
        DescriptorOp::SeekBackward,
        DescriptorOp::SeekStart,
        DescriptorOp::SeekEnd,
        DescriptorOp::Tell,
        DescriptorOp::Lock,
    ];
    for (i, a) in all.iter().enumerate() {
        for b in all.iter().skip(i + 1) {
            assert_ne!(operation_tag(*a), operation_tag(*b));
        }
    }
}

#[test]
fn buffer_length_and_reconfiguration() {
    let b = Buffer::new(0x8000, 10);
    assert_eq!(b.len(), 10 * 4096);
    let (first, second, action) = b.reconfigure(4, 2);
    assert_eq!(first, Buffer { page_index: 0x8000, page_length: 4 });
    assert_eq!(second, Buffer { page_index: 0x8004, page_length: 2 });
    assert_eq!(action, BufferAction::UnmapRange { page_index: 0x8006, page_count: 4 });
    let (_, _, keep) = Buffer::new(0x8000, 10).reconfigure(6, 4);
    assert_eq!(keep, BufferAction::Keep);
    let (_, _, grow) = Buffer::new(0x8000, 10).reconfigure(8, 6);
    assert_eq!(grow, BufferAction::MapRange { page_index: 0x800a, page_count: 4 });
}

#[test]
fn message_header_is_plain_data() {
    let h = MessageHeader { length: 24, tag: 7, offset: 16 };
    assert_eq!(h.length, 24);
    assert_eq!(h.tag, 7);
    assert_eq!(h.offset, 16);
}

#[test]
fn exit_codes_match_the_port_protocol() {
    assert_eq!(ExitCode::Success.code(), 0x10);
    assert_eq!(ExitCode::Failure.code(), 0x11);
}
