//! Process control blocks and the list of processes.

use std::collections::HashMap;
use vstd::prelude::*;
use crate::address_space::AddressSpace;
use crate::paging::PageTable;

verus! {

/// The states a process can be in.
#[derive(Clone, Copy, Debug, PartialEq, Eq, Structural)]
pub enum ProcessState {
    /// The process runs.
    Active,
    /// The process was killed; its threads are no longer scheduled.
    Dead,
}

/// The id of the process of the idle threads.
pub const IDLE_PID: u64 = 0;

/// A process control block: the address space of a process, the number of
/// its threads that still exist, and its state.
pub struct PCB {
    pub address_space: AddressSpace,
    pub thread_count: u16,
    pub state: ProcessState,
}

impl PCB {
    pub closed spec fn state_of(&self) -> ProcessState {
        self.state
    }

    pub open spec fn dead(&self) -> bool {
        self.state_of() == ProcessState::Dead
    }

    /// A live process with one thread.
    pub fn new(address_space: AddressSpace) -> (r: PCB)
        ensures
            r.address_space == address_space,
            r.thread_count == 1,
            r.state_of() == ProcessState::Active,
    {
        PCB { address_space, thread_count: 1, state: ProcessState::Active }
    }

    /// Creates the process of the idle threads, with the kernel's address
    /// space and one thread for each CPU, and enters it in `procs` under
    /// `IDLE_PID`. There is one idle process: it must not be there yet.
    pub fn idle_pcb(kernel_table: PageTable, cpu_num: u16, procs: &mut ProcessList)
        requires
            kernel_table.wf(),
            !old(procs).procs().contains_key(IDLE_PID),
        ensures
            final(procs).procs() == old(procs).procs().insert(IDLE_PID, (cpu_num, false)),
            final(procs).view_map()[IDLE_PID].address_space.wf(),
            final(procs).view_map()[IDLE_PID].address_space.table() == kernel_table,
            final(procs).view_map()[IDLE_PID].address_space.segments().len() == 0,
    {
        let pcb = PCB {
            address_space: AddressSpace::idle_address_space(kernel_table),
            thread_count: cpu_num,
            state: ProcessState::Active,
        };
        procs.insert(IDLE_PID, pcb);
    }

    pub fn is_dead(&self) -> (r: bool)
        ensures
            r == self.dead(),
    {
        match self.state {
            ProcessState::Dead => true,
            ProcessState::Active => false,
        }
    }

    /// Marks the process dead: none of its threads is scheduled any more.
    pub fn kill(&mut self)
        ensures
            final(self).state_of() == ProcessState::Dead,
            final(self).address_space == old(self).address_space,
            final(self).thread_count == old(self).thread_count,
    {
        self.state = ProcessState::Dead;
    }

    /// True when no thread of the process is left, so that it may go.
    pub fn is_droppable(&self) -> (r: bool)
        ensures
            r == (self.thread_count == 0),
    {
        self.thread_count == 0
    }
}

/// The processes, by process id.
pub struct ProcessList {
    processes: HashMap<u64, PCB>,
}

/// The thread counts and states of the processes in `m`.
pub open spec fn summary(m: Map<u64, PCB>) -> Map<u64, (u16, bool)> {
    Map::new(|pid: u64| m.contains_key(pid), |pid: u64| (m[pid].thread_count, m[pid].dead()))
}

impl ProcessList {
    pub closed spec fn view_map(&self) -> Map<u64, PCB> {
        self.processes@
    }

    /// Each process by id: its thread count and whether it is dead.
    pub open spec fn procs(&self) -> Map<u64, (u16, bool)> {
        summary(self.view_map())
    }

    /// The process `pid` is there and alive.
    pub open spec fn alive(&self, pid: u64) -> bool {
        self.procs().contains_key(pid) && !self.procs()[pid].1
    }

    pub fn new() -> (r: ProcessList)
        ensures
            r.procs() == Map::<u64, (u16, bool)>::empty(),
    {
        let r = ProcessList { processes: HashMap::new() };
        proof {
            assert(r.procs() =~= Map::<u64, (u16, bool)>::empty());
        }
        r
    }

    /// Adds `pcb` under `pid`, which no process may hold yet.
    pub fn insert(&mut self, pid: u64, pcb: PCB)
        requires
            !old(self).procs().contains_key(pid),
        ensures
            final(self).procs() == old(self).procs().insert(pid, (pcb.thread_count, pcb.dead())),
            final(self).view_map() == old(self).view_map().insert(pid, pcb),
    {
        self.processes.insert(pid, pcb);
        proof {
            assert(self.procs() =~= old(self).procs().insert(pid, (pcb.thread_count, pcb.dead())));
        }
    }

    /// The process `pid`, if it is there.
    pub fn get(&self, pid: u64) -> (r: Option<&PCB>)
        ensures
            self.view_map().contains_key(pid) ==> r == Some(&self.view_map()[pid]),
            !self.view_map().contains_key(pid) ==> r.is_none(),
    {
        self.processes.get(&pid)
    }

    pub fn contains(&self, pid: u64) -> (r: bool)
        ensures
            r == self.procs().contains_key(pid),
    {
        self.processes.contains_key(&pid)
    }

    /// True when `pid` is there and alive.
    pub fn is_alive(&self, pid: u64) -> (r: bool)
        ensures
            r == self.alive(pid),
    {
        match self.processes.get(&pid) {
            Some(p) => !p.is_dead(),
            None => false,
        }
    }

    /// The thread count of process `pid`, if it is there.
    pub fn thread_count(&self, pid: u64) -> (r: Option<u16>)
        ensures
            self.procs().contains_key(pid) ==> r == Some(self.procs()[pid].0),
            !self.procs().contains_key(pid) ==> r.is_none(),
    {
        match self.processes.get(&pid) {
            Some(p) => Some(p.thread_count),
            None => None,
        }
    }

    /// Marks process `pid` dead; returns whether it was there.
    pub fn kill(&mut self, pid: u64) -> (r: bool)
        ensures
            r == old(self).procs().contains_key(pid),
            r ==> final(self).procs() == old(self).procs().insert(pid, (old(self).procs()[pid].0, true)),
            !r ==> final(self).procs() == old(self).procs(),
    {
        match self.processes.remove(&pid) {
            None => false,
            Some(mut p) => {
                p.kill();
                self.processes.insert(pid, p);
                proof {
                    assert(self.procs() =~= old(self).procs().insert(pid, (old(self).procs()[pid].0, true)));
                }
                true
            },
        }
    }

    /// Accounts for the end of one thread of process `pid`. Where that was
    /// its last thread and the process is dead, the process is dropped; the
    /// result says whether it was.
    pub fn release_thread(&mut self, pid: u64) -> (r: bool)
        ensures
            final(self).procs() == released(old(self).procs(), pid),
            r == (old(self).procs().contains_key(pid) && old(self).procs()[pid].0 <= 1 && old(self).procs()[pid].1),
    {
        match self.processes.remove(&pid) {
            None => {
                proof {
                    assert(self.procs() =~= old(self).procs());
                }
                false
            },
            Some(mut p) => {
                if p.thread_count > 0 {
                    p.thread_count = p.thread_count - 1;
                }
                if p.thread_count == 0 && p.is_dead() {
                    proof {
                        assert(self.procs() =~= old(self).procs().remove(pid));
                    }
                    true
                } else {
                    let ghost c = p.thread_count;
                    self.processes.insert(pid, p);
                    proof {
                        assert(self.procs() =~= old(self).procs().insert(pid, (c, old(self).procs()[pid].1)));
                    }
                    false
                }
            },
        }
    }
}

/// The processes after one thread of `pid` ended: its count drops by one,
/// and a dead process whose last thread that was is gone.
pub open spec fn released(procs: Map<u64, (u16, bool)>, pid: u64) -> Map<u64, (u16, bool)> {
    if !procs.contains_key(pid) {
        procs
    } else if procs[pid].0 <= 1 && procs[pid].1 {
        procs.remove(pid)
    } else {
        procs.insert(pid, (if procs[pid].0 > 0 { (procs[pid].0 - 1) as u16 } else { 0u16 }, procs[pid].1))
    }
}

/// Releasing a thread drops its process exactly when that was the last
/// thread of a dead process; a process that is gone stays gone, so none is
/// dropped twice; every other process is left as it was.
pub proof fn lemma_dropped_after_last_thread(procs: Map<u64, (u16, bool)>, pid: u64, other: u64)
    ensures
        procs.contains_key(pid) ==> (!released(procs, pid).contains_key(pid) <==> procs[pid].0 <= 1 && procs[pid].1),
        !procs.contains_key(pid) ==> released(procs, pid) == procs,
        other != pid ==> (released(procs, pid).contains_key(other) == procs.contains_key(other)),
        other != pid && procs.contains_key(other) ==> released(procs, pid)[other] == procs[other],
{
}

} // verus!
