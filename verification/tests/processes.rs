use saltwater::error::KernelError;
use saltwater::frame::MemoryRegion;
use saltwater::kernel::Kernel;
use saltwater::proc::Status;
use saltwater::sched::THREAD_BASE_WEIGHT;

fn booted_kernel() -> Kernel {
    let mut k = Kernel::new();
    let regions = vec![MemoryRegion { start: 0, end: 64 * 4096, usable: true }];
    k.init_memory(&regions).unwrap();
    k.create_boot_process().unwrap();
    k
}

#[test]
fn boot_order_is_enforced() {
    let mut k = Kernel::new();
    let r = k.create_boot_process();
    assert!(matches!(r, Err(KernelError::AllocatorNotReady)));
}

#[test]
fn add_child_appends_to_the_parent_only() {
    let mut k = booted_kernel();
    let c1 = k.add_child(0).unwrap();
    let c2 = k.add_child(0).unwrap();
    assert_eq!(c1, 1);
    assert_eq!(c2, 2);
    assert_eq!(k.processes[0].children, vec![1, 2]);
    // never to the child's own list, which starts empty
    assert!(k.processes[1].children.is_empty());
    assert!(k.processes[2].children.is_empty());
    // capabilities are not inherited
    assert!(k.processes[1].descriptors.is_empty());
    assert_eq!(k.processes[1].parent, Some(0));
    assert_eq!(k.processes[1].set_priority, 0);
}

#[test]
fn add_thread_seeds_priorities_and_starts_ready() {
    let mut k = booted_kernel();
    let p = k.add_child(0).unwrap();
    k.processes[p].set_priority = 9;
    let t = k.add_thread(p).unwrap();
    assert_eq!(k.threads[t].status, Status::Ready);
    assert_eq!(k.threads[t].set_priority, 9);
    assert_eq!(k.threads[t].propagated_priority, 9);
    assert_eq!(k.threads[t].inherited_priority, 0);
    assert_eq!(k.threads[t].process, p);
    assert_eq!(k.processes[p].threads, vec![t]);
}

#[test]
fn long_term_scan_collects_both_ready_threads() {
    // create process P with two ready threads; a long-term scan rooted at
    // the boot process yields both, each weighted by the fixed base weight
    let mut k = booted_kernel();
    let p = k.add_child(0).unwrap();
    let t1 = k.add_thread(p).unwrap();
    let t2 = k.add_thread(p).unwrap();
    let pool = k.new_queue();
    assert_eq!(pool, vec![(t1, THREAD_BASE_WEIGHT), (t2, THREAD_BASE_WEIGHT)]);
    // the scan reads and never writes: running it twice gives the same pool
    assert_eq!(k.new_queue(), pool);
}

#[test]
fn scan_skips_threads_that_are_not_ready() {
    let mut k = booted_kernel();
    k.init_processors(1);
    let p = k.add_child(0).unwrap();
    let t1 = k.add_thread(p).unwrap();
    let t2 = k.add_thread(p).unwrap();
    k.processors[0].ready_queue.push(t1);
    let running = k.dispatch(0).unwrap();
    assert_eq!(running, t1);
    assert_eq!(k.new_queue(), vec![(t2, THREAD_BASE_WEIGHT)]);
}

#[test]
fn dispatch_and_preempt_cycle_the_thread() {
    let mut k = booted_kernel();
    k.init_processors(2);
    let p = k.add_child(0).unwrap();
    let t = k.add_thread(p).unwrap();
    k.processors[0].ready_queue.push(t);
    assert_eq!(k.dispatch(0), Some(t));
    assert_eq!(k.threads[t].status, Status::Executing(0));
    assert_eq!(k.processors[0].current_thread, Some(t));
    assert_eq!(k.processors[0].current_process, Some(p));
    assert_eq!(k.preempt(0), Some(t));
    assert_eq!(k.threads[t].status, Status::Ready);
    assert_eq!(k.processors[0].current_thread, None);
    assert_eq!(k.processors[0].ready_queue, vec![t]);
    // an empty queue dispatches nothing
    assert_eq!(k.dispatch(1), None);
}

#[test]
fn abort_removes_the_thread_and_frees_its_stack_slot() {
    let mut k = booted_kernel();
    let p = k.add_child(0).unwrap();
    let t1 = k.add_thread(p).unwrap();
    let t2 = k.add_thread(p).unwrap();
    k.abort_thread(t1).unwrap();
    assert_eq!(k.threads[t1].status, Status::Aborted);
    assert_eq!(k.processes[p].threads, vec![t2]);
    // the slot returns to the pool: the next thread reuses it
    let t3 = k.add_thread(p).unwrap();
    assert_eq!(k.threads[t3].kernel_stack.0, k.threads[t1].kernel_stack.0);
    // aborting twice is misuse
    assert!(matches!(k.abort_thread(t1), Err(KernelError::ProtocolMisuse)));
}

#[test]
fn destroy_runs_leaves_first_and_returns_every_frame() {
    let mut k = booted_kernel();
    let p = k.add_child(0).unwrap();
    let t = k.add_thread(p).unwrap();
    k.map_page(p, 5, saltwater::page::PageProfile::User).unwrap();
    k.map_page(p, 6, saltwater::page::PageProfile::User).unwrap();
    // a process with threads cannot be destroyed yet
    assert!(matches!(k.destroy_process(p), Err(KernelError::ProtocolMisuse)));
    k.abort_thread(t).unwrap();
    let owned = k.processes[p].pages.owned_frame_count();
    let free_before = match &k.allocator {
        Some(a) => a.free_frame_count(),
        None => panic!("allocator must be ready"),
    };
    k.destroy_process(p).unwrap();
    let free_after = match &k.allocator {
        Some(a) => a.free_frame_count(),
        None => panic!("allocator must be ready"),
    };
    assert_eq!(free_after, free_before + owned);
    assert!(!k.processes[p].alive);
    assert!(!k.processes[0].children.contains(&p));
    // destroying twice is misuse
    assert!(matches!(k.destroy_process(p), Err(KernelError::ProtocolMisuse)));
}

#[test]
fn the_long_term_pool_refills_a_core_queue() {
    let mut k = booted_kernel();
    k.init_processors(1);
    let p = k.add_child(0).unwrap();
    let t1 = k.add_thread(p).unwrap();
    let t2 = k.add_thread(p).unwrap();
    let pool = k.new_queue();
    k.refill_queue(0, &pool);
    assert_eq!(k.processors[0].ready_queue, vec![t1, t2]);
    assert_eq!(k.dispatch(0), Some(t1));
    assert_eq!(k.processors[0].ready_queue, vec![t2]);
}
