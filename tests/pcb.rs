use veos::address_space::AddressSpace;
use veos::paging::PageTable;
use veos::pcb::{ProcessList, IDLE_PID, PCB};

#[test]
fn new_pcb_has_one_thread() {
    let p = PCB::new(AddressSpace::new(PageTable::new(vec![])));
    assert_eq!(p.thread_count, 1);
    assert!(!p.is_dead());
    assert!(!p.is_droppable());
}

#[test]
fn idle_pcb_has_a_thread_per_cpu() {
    let mut procs = ProcessList::new();
    PCB::idle_pcb(PageTable::new(vec![0x1000]), 4, &mut procs);
    assert_eq!(procs.thread_count(IDLE_PID), Some(4));
    assert!(procs.is_alive(IDLE_PID));
    assert_eq!(procs.get(IDLE_PID).unwrap().address_space.get_free_memory_size(), 0x1000);
}

#[test]
fn kill_marks_dead() {
    let mut p = PCB::new(AddressSpace::new(PageTable::new(vec![])));
    p.kill();
    assert!(p.is_dead());
    p.thread_count = 0;
    assert!(p.is_droppable());
}

#[test]
fn last_thread_of_dead_process_drops_it_once() {
    let mut procs = ProcessList::new();
    let mut p = PCB::new(AddressSpace::new(PageTable::new(vec![])));
    p.thread_count = 2;
    procs.insert(5, p);
    assert!(!procs.release_thread(5));
    assert_eq!(procs.thread_count(5), Some(1));
    assert!(procs.kill(5));
    assert!(!procs.is_alive(5));
    assert!(procs.release_thread(5));
    assert!(!procs.contains(5));
    assert!(!procs.release_thread(5));
    assert!(!procs.kill(5));
}

#[test]
fn live_process_is_not_dropped_at_zero_threads() {
    let mut procs = ProcessList::new();
    procs.insert(1, PCB::new(AddressSpace::new(PageTable::new(vec![]))));
    assert!(!procs.release_thread(1));
    assert_eq!(procs.thread_count(1), Some(0));
    assert!(procs.is_alive(1));
}
