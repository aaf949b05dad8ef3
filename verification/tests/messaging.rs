use saltwater::error::KernelError;
use saltwater::frame::MemoryRegion;
use saltwater::ipc::{Descriptor, DescriptorOp, MessageStatus, ServerKind, State};
use saltwater::kernel::Kernel;
use saltwater::page::PageProfile;
use saltwater::proc::Status;

fn booted_kernel() -> Kernel {
    let mut k = Kernel::new();
    let regions = vec![MemoryRegion { start: 0, end: 64 * 4096, usable: true }];
    k.init_memory(&regions).unwrap();
    k.create_boot_process().unwrap();
    k.init_processors(2);
    k
}

struct Stage {
    k: Kernel,
    sender: usize,
    receiver: usize,
    client: usize,
    host: usize,
    sid: usize,
}

fn staged() -> Stage {
    let mut k = booted_kernel();
    let client = k.add_child(0).unwrap();
    let host = k.add_child(0).unwrap();
    let sender = k.add_thread(client).unwrap();
    let receiver = k.add_thread(host).unwrap();
    let sid = k.create_server(host, true).unwrap();
    k.processors[0].ready_queue.push(sender);
    k.processors[1].ready_queue.push(receiver);
    assert_eq!(k.dispatch(0), Some(sender));
    assert_eq!(k.dispatch(1), Some(receiver));
    Stage { k, sender, receiver, client, host, sid }
}

#[test]
fn one_frame_message_completes_the_full_cycle() {
    // thread A sends a one-frame message to server S; thread B, hosting S,
    // receives it, the frame lands in B's space; B responds; A's wait
    // resolves, A regains the frame, and the message is Responded
    let Stage { mut k, sender, receiver, client, host, sid } = staged();
    let frame = k.map_page(client, 100, PageProfile::User).unwrap();
    let mid = k.send(sender, sid, 7, &vec![100]).unwrap();
    assert_eq!(k.messages[mid].status, MessageStatus::Sent);
    assert_eq!(k.messages[mid].frames, vec![frame]);
    assert_eq!(k.threads[sender].status, Status::AwaitingResponse(mid));
    assert!(k.processes[client].pages.lookup(100).is_none());
    match &k.servers[sid].kind {
        ServerKind::User(u) => assert_eq!(u.requests, vec![mid]),
        ServerKind::Kernel => panic!("expected a user server"),
    }

    let got = k.receive(receiver, sid, &vec![200]).unwrap();
    assert_eq!(got, mid);
    assert_eq!(k.messages[mid].status, MessageStatus::Received);
    assert_eq!(k.messages[mid].frames.len(), 1);
    let in_host = k.processes[host].pages.lookup(200).unwrap();
    assert_eq!(in_host.frame, frame);

    k.respond(receiver, sid, mid, &vec![200]).unwrap();
    assert_eq!(k.messages[mid].status, MessageStatus::Responded);
    assert_eq!(k.messages[mid].frames.len(), 1);
    assert_eq!(k.threads[sender].status, Status::Ready);
    let back = k.processes[client].pages.lookup(100).unwrap();
    assert_eq!(back.frame, frame);
    assert!(k.processes[host].pages.lookup(200).is_none());
}

#[test]
fn send_rejects_an_unmapped_page_before_any_transfer() {
    let Stage { mut k, sender, sid, client, .. } = staged();
    let _ = k.map_page(client, 100, PageProfile::User).unwrap();
    let r = k.send(sender, sid, 7, &vec![100, 101]);
    assert!(matches!(r, Err(KernelError::MappingFailure)));
    // nothing moved: the mapped page is still there, no message exists
    assert!(k.processes[client].pages.lookup(100).is_some());
    assert_eq!(k.messages.len(), 0);
}

#[test]
fn send_to_a_dead_or_unknown_server_is_peer_gone() {
    let Stage { mut k, sender, sid, .. } = staged();
    assert!(matches!(k.send(sender, 77, 1, &vec![]), Err(KernelError::PeerGone)));
    k.servers[sid].alive = false;
    assert!(matches!(k.send(sender, sid, 1, &vec![]), Err(KernelError::PeerGone)));
}

#[test]
fn receive_is_gated_on_the_hosting_process() {
    let Stage { mut k, sender, receiver, sid, .. } = staged();
    // the sender's own thread does not host the server
    let r = k.receive(sender, sid, &vec![]);
    assert!(matches!(r, Err(KernelError::PermissionDenied)));
    let mid = k.send(sender, sid, 3, &vec![]).unwrap();
    assert_eq!(k.receive(receiver, sid, &vec![]).unwrap(), mid);
}

#[test]
fn receive_on_an_empty_queue_is_misuse() {
    let Stage { mut k, receiver, sid, .. } = staged();
    assert!(matches!(k.receive(receiver, sid, &vec![]), Err(KernelError::ProtocolMisuse)));
}

#[test]
fn respond_length_must_match_the_request() {
    let Stage { mut k, sender, receiver, client, sid, .. } = staged();
    let _ = k.map_page(client, 100, PageProfile::User).unwrap();
    let mid = k.send(sender, sid, 9, &vec![100]).unwrap();
    k.receive(receiver, sid, &vec![200]).unwrap();
    let r = k.respond(receiver, sid, mid, &vec![]);
    assert!(matches!(r, Err(KernelError::ProtocolMisuse)));
}

#[test]
fn priority_boost_follows_the_message() {
    let Stage { mut k, sender, receiver, sid, .. } = staged();
    k.threads[sender].set_priority = 25;
    let mid = k.send(sender, sid, 1, &vec![]).unwrap();
    match &k.servers[sid].kind {
        ServerKind::User(u) => assert_eq!(u.priority_sum, 25),
        ServerKind::Kernel => panic!("expected a user server"),
    }
    k.receive(receiver, sid, &vec![]).unwrap();
    // the serving thread samples the accumulated client priority
    assert_eq!(k.threads[receiver].inherited_priority, 25);
    k.respond(receiver, sid, mid, &vec![]).unwrap();
    match &k.servers[sid].kind {
        ServerKind::User(u) => assert_eq!(u.priority_sum, 0),
        ServerKind::Kernel => panic!("expected a user server"),
    }
}

#[test]
fn aborting_a_blocked_sender_cancels_its_queued_message() {
    let Stage { mut k, sender, client, sid, .. } = staged();
    let _ = k.map_page(client, 100, PageProfile::User).unwrap();
    let free_before = match &k.allocator {
        Some(a) => a.free_frame_count(),
        None => panic!("allocator must be ready"),
    };
    let mid = k.send(sender, sid, 4, &vec![100]).unwrap();
    k.abort_thread(sender).unwrap();
    assert!(k.messages[mid].failed);
    assert_eq!(k.threads[sender].status, Status::Aborted);
    match &k.servers[sid].kind {
        ServerKind::User(u) => assert!(u.requests.is_empty()),
        ServerKind::Kernel => panic!("expected a user server"),
    }
    // the transferred frame went back to the ledger
    let free_after = match &k.allocator {
        Some(a) => a.free_frame_count(),
        None => panic!("allocator must be ready"),
    };
    assert_eq!(free_after, free_before + 1);
}

#[test]
fn descriptor_mask_gates_before_any_message() {
    // a descriptor whose mask lacks read rejects a read call with
    // PermissionDenied before any message is sent
    let Stage { mut k, client, sid, .. } = staged();
    let mask = State::new().walk(true).tell(true);
    let di = k.grant_descriptor(client, sid, vec![b'l', b'o', b'g'], mask).unwrap();
    let descriptor = &k.processes[client].descriptors[di];
    let r = descriptor.check_operation(DescriptorOp::Read);
    assert!(matches!(r, Err(KernelError::PermissionDenied)));
    assert_eq!(k.messages.len(), 0);
    assert!(descriptor.check_operation(DescriptorOp::Walk).is_ok());
    assert!(descriptor.check_operation(DescriptorOp::Tell).is_ok());
}

#[test]
fn cloning_a_descriptor_grants_no_extra_ownership() {
    let mask = State::new().read(true);
    let d = Descriptor { server: 0, path: vec![b'a'], state_mask: mask };
    let copy = d.clone();
    assert_eq!(copy.server, d.server);
    assert_eq!(copy.path, d.path);
    assert!(copy.check_operation(DescriptorOp::Read).is_ok());
    assert!(copy.check_operation(DescriptorOp::Insert).is_err());
}

#[test]
fn blocking_and_waking_on_a_server() {
    let Stage { mut k, sender, receiver, sid, .. } = staged();
    k.block_on_server(receiver, sid).unwrap();
    assert_eq!(k.threads[receiver].status, Status::AwaitingRequest(sid));
    let _ = k.send(sender, sid, 2, &vec![]).unwrap();
    let woken = k.wake_request_waiters(sid);
    assert_eq!(woken, 1);
    assert_eq!(k.threads[receiver].status, Status::Ready);
}

#[test]
fn responding_to_a_vanished_sender_is_peer_gone() {
    let Stage { mut k, sender, receiver, client, sid, .. } = staged();
    let _ = k.map_page(client, 100, PageProfile::User).unwrap();
    let mid = k.send(sender, sid, 4, &vec![100]).unwrap();
    k.receive(receiver, sid, &vec![200]).unwrap();
    // a request already received is not cancellable; the abort succeeds and
    // the later response resolves to an explicit error
    k.abort_thread(sender).unwrap();
    let r = k.respond(receiver, sid, mid, &vec![200]);
    assert!(matches!(r, Err(KernelError::PeerGone)));
    assert_eq!(k.messages[mid].status, MessageStatus::Received);
}

#[test]
fn responding_within_one_process_is_misuse() {
    // frame ownership cannot transfer within a single space, so a server
    // answering a client of its own process is rejected outright
    let mut k = booted_kernel();
    let p = k.add_child(0).unwrap();
    let a = k.add_thread(p).unwrap();
    let b = k.add_thread(p).unwrap();
    let sid = k.create_server(p, true).unwrap();
    k.processors[0].ready_queue.push(a);
    k.processors[1].ready_queue.push(b);
    k.dispatch(0);
    k.dispatch(1);
    let mid = k.send(a, sid, 1, &vec![]).unwrap();
    k.receive(b, sid, &vec![]).unwrap();
    let r = k.respond(b, sid, mid, &vec![]);
    assert!(matches!(r, Err(KernelError::ProtocolMisuse)));
}

#[test]
fn descriptor_request_sends_exactly_one_tagged_message() {
    let Stage { mut k, sender, client, sid, .. } = staged();
    let mask = State::new().read(true);
    let di = k.grant_descriptor(client, sid, vec![b'd'], mask).unwrap();
    // a denied operation builds no message at all
    let denied = k.descriptor_request(sender, di, DescriptorOp::Insert, &vec![]);
    assert!(matches!(denied, Err(KernelError::PermissionDenied)));
    assert_eq!(k.messages.len(), 0);
    // a permitted one maps to exactly one outbound message with its tag
    let mid = k.descriptor_request(sender, di, DescriptorOp::Read, &vec![]).unwrap();
    assert_eq!(k.messages.len(), 1);
    assert_eq!(k.messages[mid].tag, saltwater::ipc::operation_tag(DescriptorOp::Read));
    assert_eq!(k.messages[mid].status, MessageStatus::Sent);
}

#[test]
fn a_drained_server_retires_and_its_host_can_be_destroyed() {
    let Stage { mut k, sender, receiver, host, sid, .. } = staged();
    // an endpoint with work outstanding cannot retire yet
    let mid = k.send(sender, sid, 2, &vec![]).unwrap();
    assert!(matches!(k.retire_server(sid), Err(KernelError::ProtocolMisuse)));
    k.receive(receiver, sid, &vec![]).unwrap();
    assert!(matches!(k.retire_server(sid), Err(KernelError::ProtocolMisuse)));
    k.respond(receiver, sid, mid, &vec![]).unwrap();
    // drained: the server goes away and later sends resolve explicitly
    k.retire_server(sid).unwrap();
    assert!(!k.servers[sid].alive);
    assert!(k.processes[host].servers.is_empty());
    k.processors[0].current_thread = None;
    k.processors[0].ready_queue.push(sender);
    assert_eq!(k.dispatch(0), Some(sender));
    assert!(matches!(k.send(sender, sid, 3, &vec![]), Err(KernelError::PeerGone)));
    // retiring twice is misuse
    assert!(matches!(k.retire_server(sid), Err(KernelError::ProtocolMisuse)));
    // with its server gone and its thread aborted, the host can be destroyed
    k.abort_thread(receiver).unwrap();
    k.destroy_process(host).unwrap();
    assert!(!k.processes[host].alive);
}
