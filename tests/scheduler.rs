use veos::address_space::AddressSpace;
use veos::paging::PageTable;
use veos::pcb::{ProcessList, PCB};
use veos::scheduler::{get_current_process, Scheduler, ThreadState, TCB};

fn pcb() -> PCB {
    PCB::new(AddressSpace::new(PageTable::new(vec![])))
}

fn running(t: TCB) -> TCB {
    TCB { state: ThreadState::Running, ..t }
}

#[test]
fn higher_priority_thread_takes_over() {
    let mut procs = ProcessList::new();
    procs.insert(1, pcb());
    let ta = TCB::new(1, 1, 5);
    let tb = TCB::new(2, 1, 7);
    let tc = running(TCB::new(3, 1, 3));
    let mut s = Scheduler::new(tc);
    s.add_thread(ta);
    s.add_thread(tb);
    assert!(s.schedule(&mut procs));
    assert_eq!(s.current(), running(tb));
    assert_eq!(s.old_thread(), None);
    let ready = s.ready_threads();
    assert!(ready.contains(&TCB::new(3, 1, 3)));
    assert!(ready.contains(&ta));
    assert_eq!(ready.len(), 2);
}

#[test]
fn lower_priority_thread_waits() {
    let mut procs = ProcessList::new();
    procs.insert(1, pcb());
    let cur = running(TCB::new(1, 1, 9));
    let mut s = Scheduler::new(cur);
    s.add_thread(TCB::new(2, 1, 4));
    assert!(!s.schedule(&mut procs));
    assert_eq!(s.current(), cur);
    assert_eq!(s.ready_threads(), vec![TCB::new(2, 1, 4)]);
}

#[test]
fn equal_priority_threads_alternate() {
    let mut procs = ProcessList::new();
    procs.insert(1, pcb());
    let a = TCB::new(1, 1, 5);
    let b = TCB::new(2, 1, 5);
    let mut s = Scheduler::new(running(a));
    s.add_thread(b);
    let mut ran = vec![];
    for _ in 0..6 {
        s.schedule(&mut procs);
        ran.push(s.current().id);
    }
    assert_eq!(ran, vec![2, 1, 2, 1, 2, 1]);
    for w in ran.windows(2) {
        assert_ne!(w[0], w[1]);
    }
}

#[test]
fn killed_process_is_switched_away_and_dropped() {
    let mut procs = ProcessList::new();
    procs.insert(0, pcb());
    procs.insert(7, pcb());
    let idle = TCB::new(0, 0, 0);
    let victim = running(TCB::new(10, 7, 5));
    let mut s = Scheduler::new(victim);
    s.add_thread(idle);
    assert!(procs.kill(7));
    assert!(procs.contains(7));
    assert!(s.schedule(&mut procs));
    assert_eq!(s.current(), running(idle));
    assert!(!procs.contains(7));
    assert!(s.ready_threads().is_empty());
    assert_eq!(s.old_thread(), None);
}

#[test]
fn dead_ready_threads_are_purged_and_never_run() {
    let mut procs = ProcessList::new();
    procs.insert(1, pcb());
    let mut second = pcb();
    second.thread_count = 2;
    procs.insert(2, second);
    let cur = running(TCB::new(1, 1, 1));
    let mut s = Scheduler::new(cur);
    s.add_thread(TCB::new(2, 2, 9));
    s.add_thread(TCB::new(3, 2, 8));
    s.add_thread(TCB::new(4, 1, 3));
    assert!(procs.kill(2));
    assert!(s.schedule(&mut procs));
    assert_eq!(s.current(), running(TCB::new(4, 1, 3)));
    assert!(!procs.contains(2));
    assert_eq!(s.ready_threads(), vec![TCB::new(1, 1, 1)]);
}

#[test]
fn dead_thread_with_nothing_ready_stays() {
    let mut procs = ProcessList::new();
    procs.insert(1, pcb());
    let mut s = Scheduler::new(running(TCB::new(1, 1, 1)));
    s.kill_current();
    assert!(!s.schedule(&mut procs));
    assert!(s.current().is_dead());
}

#[test]
fn tie_goes_to_lower_id() {
    let mut procs = ProcessList::new();
    procs.insert(1, pcb());
    let mut s = Scheduler::new(running(TCB::new(9, 1, 1)));
    s.add_thread(TCB::new(5, 1, 4));
    s.add_thread(TCB::new(3, 1, 4));
    s.schedule(&mut procs);
    assert_eq!(s.current().id, 3);
}

#[test]
fn thread_state_changes() {
    let mut t = TCB::new(1, 1, 1);
    assert_eq!(t.state, ThreadState::Ready);
    t.set_running();
    assert_eq!(t.state, ThreadState::Running);
    t.set_ready();
    assert_eq!(t.state, ThreadState::Ready);
    assert!(!t.is_dead());
    t.set_dead();
    assert!(t.is_dead());
    let idle = TCB::idle_tcb(3, 0);
    assert_eq!((idle.id, idle.pid, idle.priority, idle.state), (3, 0, 0, ThreadState::Running));
}

#[test]
fn current_process_is_found() {
    let mut procs = ProcessList::new();
    let mut p = pcb();
    p.thread_count = 3;
    procs.insert(4, p);
    let s = Scheduler::new(running(TCB::new(1, 4, 1)));
    assert_eq!(get_current_process(&s, &procs).map(|p| p.thread_count), Some(3));
    let other = Scheduler::new(running(TCB::new(1, 9, 1)));
    assert!(get_current_process(&other, &procs).is_none());
}
