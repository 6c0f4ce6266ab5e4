//! Threads and the per-CPU scheduler: a ready list, the current thread and
//! the slot that holds the previous one during a switch.

use vstd::prelude::*;
use crate::pcb::{released, ProcessList, PCB};

verus! {

/// The states a thread can be in.
#[derive(Clone, Copy, Debug, PartialEq, Eq, Structural)]
pub enum ThreadState {
    /// The thread waits in a ready list.
    Ready,
    /// The thread runs on a CPU.
    Running,
    /// The thread has ended.
    Dead,
    /// The thread waits for an event.
    Blocked,
}

/// A thread control block.
#[derive(Clone, Copy, Debug, PartialEq, Eq, Structural)]
pub struct TCB {
    pub id: u64,
    pub pid: u64,
    pub priority: u32,
    pub state: ThreadState,
}

impl TCB {
    /// A ready thread of process `pid`.
    pub fn new(id: u64, pid: u64, priority: u32) -> (r: TCB)
        ensures
            r == (TCB { id, pid, priority, state: ThreadState::Ready }),
    {
        TCB { id, pid, priority, state: ThreadState::Ready }
    }

    /// The idle thread of CPU `cpu_id`: lowest priority, running, in the idle
    /// process `idle_pid`.
    pub fn idle_tcb(cpu_id: u64, idle_pid: u64) -> (r: TCB)
        ensures
            r == (TCB { id: cpu_id, pid: idle_pid, priority: 0, state: ThreadState::Running }),
    {
        TCB { id: cpu_id, pid: idle_pid, priority: 0, state: ThreadState::Running }
    }

    pub fn is_dead(&self) -> (r: bool)
        ensures
            r == (self.state == ThreadState::Dead),
    {
        match self.state {
            ThreadState::Dead => true,
            _ => false,
        }
    }

    pub fn set_ready(&mut self)
        ensures
            *final(self) == (TCB { state: ThreadState::Ready, ..*old(self) }),
    {
        self.state = ThreadState::Ready;
    }

    pub fn set_running(&mut self)
        ensures
            *final(self) == (TCB { state: ThreadState::Running, ..*old(self) }),
    {
        self.state = ThreadState::Running;
    }

    pub fn set_dead(&mut self)
        ensures
            *final(self) == (TCB { state: ThreadState::Dead, ..*old(self) }),
    {
        self.state = ThreadState::Dead;
    }
}

/// `a` is taken before `b`: a higher priority, or the same priority and a
/// lower id.
pub open spec fn ranks_above(a: TCB, b: TCB) -> bool {
    a.priority > b.priority || (a.priority == b.priority && a.id < b.id)
}

/// Thread `s[i]` is the top of `s`: no thread of `s` ranks above it.
pub open spec fn is_top(s: Seq<TCB>, i: int) -> bool {
    &&& 0 <= i < s.len()
    &&& forall|j: int| 0 <= j < s.len() ==> !ranks_above(#[trigger] s[j], s[i])
}

/// The thread may run: it has not ended and its process is there and alive.
pub open spec fn thread_alive(t: TCB, procs: Map<u64, (u16, bool)>) -> bool {
    t.state != ThreadState::Dead && procs.contains_key(t.pid) && !procs[t.pid].1
}

/// The threads of `s` that may run, in their order.
pub open spec fn live_threads(s: Seq<TCB>, procs: Map<u64, (u16, bool)>) -> Seq<TCB> {
    s.filter(|t: TCB| thread_alive(t, procs))
}

/// The processes after each thread of `s` that may not run was released.
pub open spec fn purged(procs: Map<u64, (u16, bool)>, s: Seq<TCB>) -> Map<u64, (u16, bool)>
    decreases s.len(),
{
    if s.len() == 0 {
        procs
    } else {
        let p = purged(procs, s.drop_last());
        if thread_alive(s.last(), procs) {
            p
        } else {
            released(p, s.last().pid)
        }
    }
}

/// No two threads of `s` share an id.
pub open spec fn distinct_ids(s: Seq<TCB>) -> bool {
    forall|i: int, j: int| 0 <= i < s.len() && 0 <= j < s.len() && i != j ==> (#[trigger] s[i]).id != (#[trigger] s[j]).id
}

/// Releasing a thread leaves every process as alive or not as it was.
proof fn lemma_release_keeps_alive(procs: Map<u64, (u16, bool)>, pid: u64, t: TCB)
    ensures
        thread_alive(t, released(procs, pid)) == thread_alive(t, procs),
{
}

/// Purging keeps every thread as alive or not as it was.
proof fn lemma_purged_keeps_alive(procs: Map<u64, (u16, bool)>, s: Seq<TCB>, t: TCB)
    ensures
        thread_alive(t, purged(procs, s)) == thread_alive(t, procs),
    decreases s.len(),
{
    if s.len() > 0 {
        lemma_purged_keeps_alive(procs, s.drop_last(), t);
        if !thread_alive(s.last(), procs) {
            lemma_release_keeps_alive(purged(procs, s.drop_last()), s.last().pid, t);
        }
    }
}

/// Keeping some threads of a list with distinct ids keeps the ids distinct,
/// and every thread kept was in the list.
proof fn lemma_filter_distinct(s: Seq<TCB>, procs: Map<u64, (u16, bool)>)
    requires
        distinct_ids(s),
    ensures
        distinct_ids(live_threads(s, procs)),
        forall|k: int| 0 <= k < live_threads(s, procs).len() ==> s.contains(#[trigger] live_threads(s, procs)[k]),
        forall|k: int| 0 <= k < live_threads(s, procs).len() ==> thread_alive(#[trigger] live_threads(s, procs)[k], procs),
    decreases s.len(),
{
    let f = |t: TCB| thread_alive(t, procs);
    s.filter_lemma(f);
    if s.len() > 0 {
        let d = s.drop_last();
        assert(distinct_ids(d)) by {
            assert forall|i: int, j: int| 0 <= i < d.len() && 0 <= j < d.len() && i != j implies (#[trigger] d[i]).id != (#[trigger] d[j]).id by {
                assert(d[i] == s[i] && d[j] == s[j]);
            }
        }
        lemma_filter_distinct(d, procs);
        d.filter_lemma(f);
        assert(s =~= d.push(s.last()));
        d.lemma_filter_push(s.last(), f);
        let fd = live_threads(d, procs);
        if f(s.last()) {
            let fs = fd.push(s.last());
            assert(live_threads(s, procs) == fs);
            assert forall|i: int, j: int| 0 <= i < fs.len() && 0 <= j < fs.len() && i != j implies (#[trigger] fs[i]).id != (#[trigger] fs[j]).id by {
                if i < fd.len() && j < fd.len() {
                    assert(fs[i] == fd[i] && fs[j] == fd[j]);
                } else if i < fd.len() {
                    assert(d.contains(fd[i]));
                    let a = choose|a: int| 0 <= a < d.len() && d[a] == fd[i];
                    assert(s[a] == d[a]);
                    assert(s[s.len() - 1] == s.last());
                } else {
                    assert(d.contains(fd[j]));
                    let a = choose|a: int| 0 <= a < d.len() && d[a] == fd[j];
                    assert(s[a] == d[a]);
                    assert(s[s.len() - 1] == s.last());
                }
            }
        } else {
            assert(live_threads(s, procs) == fd);
        }
    }
}

/// The state of the scheduler of one CPU.
pub struct Scheduler {
    ready: Vec<TCB>,
    current: TCB,
    old_thread: Option<TCB>,
}

impl Scheduler {
    pub closed spec fn ready_list(&self) -> Seq<TCB> {
        self.ready@
    }

    pub closed spec fn current_thread(&self) -> TCB {
        self.current
    }

    pub closed spec fn old_slot(&self) -> Option<TCB> {
        self.old_thread
    }

    /// Outside a switch: the old slot is empty and no two threads share an id.
    pub open spec fn wf(&self) -> bool {
        &&& self.old_slot().is_none()
        &&& distinct_ids(self.ready_list())
        &&& forall|i: int| 0 <= i < self.ready_list().len() ==> (#[trigger] self.ready_list()[i]).id != self.current_thread().id
    }

    /// A scheduler whose CPU runs `idle` and has nothing else ready.
    pub fn new(idle: TCB) -> (r: Scheduler)
        ensures
            r.wf(),
            r.current_thread() == idle,
            r.ready_list() == Seq::<TCB>::empty(),
    {
        Scheduler { ready: Vec::new(), current: idle, old_thread: None }
    }

    /// Puts `t` in the ready list.
    pub fn add_thread(&mut self, t: TCB)
        requires
            old(self).wf(),
            t.id != old(self).current_thread().id,
            forall|i: int| 0 <= i < old(self).ready_list().len() ==> (#[trigger] old(self).ready_list()[i]).id != t.id,
        ensures
            final(self).wf(),
            final(self).ready_list() == old(self).ready_list().push(t),
            final(self).current_thread() == old(self).current_thread(),
    {
        self.ready.push(t);
    }

    pub fn current(&self) -> (r: TCB)
        ensures
            r == self.current_thread(),
    {
        self.current
    }

    /// The threads in the ready list, in its order.
    pub fn ready_threads(&self) -> (r: Vec<TCB>)
        ensures
            r@ == self.ready_list(),
    {
        self.ready.clone()
    }

    pub fn old_thread(&self) -> (r: Option<TCB>)
        ensures
            r == self.old_slot(),
    {
        self.old_thread
    }

    /// Marks the current thread dead.
    pub fn kill_current(&mut self)
        requires
            old(self).wf(),
        ensures
            final(self).wf(),
            final(self).current_thread() == (TCB { state: ThreadState::Dead, ..old(self).current_thread() }),
            final(self).ready_list() == old(self).ready_list(),
    {
        self.current.set_dead();
    }

    /// The index of the top of the ready list, if it is not empty.
    fn top_index(&self) -> (r: Option<usize>)
        ensures
            r matches Some(i) ==> is_top(self.ready@, i as int),
            r.is_none() <==> self.ready@.len() == 0,
    {
        if self.ready.len() == 0 {
            return None;
        }
        let mut best: usize = 0;
        let mut i: usize = 1;
        while i < self.ready.len()
            invariant
                1 <= i <= self.ready@.len(),
                best < i,
                forall|j: int| 0 <= j < i ==> !ranks_above(#[trigger] self.ready@[j], self.ready@[best as int]),
            decreases self.ready@.len() - i,
        {
            let a = self.ready[i];
            let b = self.ready[best];
            if a.priority > b.priority || (a.priority == b.priority && a.id < b.id) {
                best = i;
            }
            i = i + 1;
        }
        Some(best)
    }

    /// Drops every thread of the ready list that may not run, releasing it
    /// from its process.
    fn purge(&mut self, procs: &mut ProcessList)
        requires
            distinct_ids(old(self).ready@),
        ensures
            final(self).ready@ == live_threads(old(self).ready@, old(procs).procs()),
            final(self).current == old(self).current,
            final(self).old_thread == old(self).old_thread,
            final(procs).procs() == purged(old(procs).procs(), old(self).ready@),
    {
        let ghost procs0 = procs.procs();
        let ghost ready0 = self.ready@;
        let ghost f = |t: TCB| thread_alive(t, procs0);
        let mut kept: Vec<TCB> = Vec::new();
        let mut i: usize = 0;
        while i < self.ready.len()
            invariant
                self.ready@ == ready0,
                ready0 == old(self).ready@,
                procs0 == old(procs).procs(),
                f == (|t: TCB| thread_alive(t, procs0)),
                0 <= i <= ready0.len(),
                kept@ == ready0.take(i as int).filter(f),
                procs.procs() == purged(procs0, ready0.take(i as int)),
            decreases ready0.len() - i,
        {
            let t = self.ready[i];
            proof {
                assert(ready0.take(i + 1) =~= ready0.take(i as int).push(t));
                ready0.take(i as int).lemma_filter_push(t, f);
                assert(ready0.take(i + 1).drop_last() =~= ready0.take(i as int));
                lemma_purged_keeps_alive(procs0, ready0.take(i as int), t);
            }
            let alive = t.state != ThreadState::Dead && procs.is_alive(t.pid);
            if alive {
                kept.push(t);
            } else {
                procs.release_thread(t.pid);
            }
            i = i + 1;
        }
        proof {
            assert(ready0.take(ready0.len() as int) =~= ready0);
        }
        self.ready = kept;
    }

    /// Decides whether to switch and, where it does, moves the top live ready
    /// thread into the current slot and the thread that ran into the old
    /// slot. A switch is made when a live thread is ready and either it has
    /// at least the current thread's priority or the current thread may not
    /// run. Dead threads are first dropped from the ready list.
    pub fn schedule_next_thread(&mut self, procs: &mut ProcessList) -> (r: bool)
        requires
            old(self).wf(),
        ensures
            final(procs).procs() == purged(old(procs).procs(), old(self).ready_list()),
            r == switch_needed(
                live_threads(old(self).ready_list(), old(procs).procs()),
                old(self).current_thread(),
                old(procs).procs(),
            ),
            live_threads(old(self).ready_list(), old(procs).procs()).len() > 0 ==> exists|i: int|
                is_top(live_threads(old(self).ready_list(), old(procs).procs()), i),
            !r ==> final(self).current_thread() == old(self).current_thread() && final(self).ready_list()
                == live_threads(old(self).ready_list(), old(procs).procs()) && final(self).old_slot().is_none(),
            r ==> exists|i: int|
                is_top(live_threads(old(self).ready_list(), old(procs).procs()), i)
                && switched(*old(self), *final(self), live_threads(old(self).ready_list(), old(procs).procs()), i, old(procs).procs()),
    {
        let ghost procs0 = procs.procs();
        let ghost live = live_threads(self.ready@, procs0);
        proof {
            lemma_filter_distinct(self.ready@, procs0);
        }
        self.purge(procs);
        proof {
            lemma_purged_keeps_alive(procs0, old(self).ready@, self.current);
        }
        let top = self.top_index();
        proof {
            if let Some(i) = top {
                assert(is_top(live, i as int));
            }
        }
        match top {
            None => false,
            Some(i) => {
                let cur = self.current;
                let cur_alive = cur.state != ThreadState::Dead && procs.is_alive(cur.pid);
                if self.ready[i].priority >= cur.priority || !cur_alive {
                    let mut next = self.ready.remove(i);
                    next.set_running();
                    let mut prev = cur;
                    if cur_alive {
                        prev.set_ready();
                    }
                    self.current = next;
                    self.old_thread = Some(prev);
                    proof {
                        assert(is_top(live, i as int));
                    }
                    true
                } else {
                    proof {
                        assert forall|k: int| is_top(live, k) implies !(live[k].priority >= cur.priority) by {
                            assert(!ranks_above(live[k], live[i as int]));
                            assert(!ranks_above(live[i as int], live[k]));
                        }
                    }
                    false
                }
            },
        }
    }

    /// Runs after a switch: the thread in the old slot goes back to the
    /// ready list where it may still run, and is released from its process
    /// where it may not.
    pub fn after_context_switch(&mut self, procs: &mut ProcessList)
        ensures
            final(self).current_thread() == old(self).current_thread(),
            final(self).old_slot().is_none(),
            old(self).old_slot() matches Some(t) ==> {
                if thread_alive(t, old(procs).procs()) {
                    &&& final(self).ready_list() == old(self).ready_list().push(t)
                    &&& final(procs).procs() == old(procs).procs()
                } else {
                    &&& final(self).ready_list() == old(self).ready_list()
                    &&& final(procs).procs() == released(old(procs).procs(), t.pid)
                }
            },
            old(self).old_slot().is_none() ==> final(self).ready_list() == old(self).ready_list()
                && final(procs).procs() == old(procs).procs(),
    {
        match self.old_thread {
            None => {},
            Some(t) => {
                if t.state != ThreadState::Dead && procs.is_alive(t.pid) {
                    self.ready.push(t);
                } else {
                    procs.release_thread(t.pid);
                }
                self.old_thread = None;
            },
        }
    }
}

impl Scheduler {
    /// One scheduling event: decides, switches where needed, and settles the
    /// thread that ran. Where the top live ready thread has at least the
    /// current thread's priority, the thread that runs next has at least that
    /// priority too; where the current thread may not run and a live thread
    /// is ready, another thread runs next. Whatever runs afterwards may run,
    /// and so may every thread left in the ready list.
    pub fn schedule(&mut self, procs: &mut ProcessList) -> (r: bool)
        requires
            old(self).wf(),
        ensures
            final(self).wf(),
            r == switch_needed(
                live_threads(old(self).ready_list(), old(procs).procs()),
                old(self).current_thread(),
                old(procs).procs(),
            ),
            (exists|i: int|
                is_top(live_threads(old(self).ready_list(), old(procs).procs()), i) && live_threads(
                    old(self).ready_list(),
                    old(procs).procs(),
                )[i].priority >= old(self).current_thread().priority) ==> final(self).current_thread().priority
                >= old(self).current_thread().priority,
            live_threads(old(self).ready_list(), old(procs).procs()).len() > 0 && !thread_alive(
                old(self).current_thread(),
                old(procs).procs(),
            ) ==> final(self).current_thread().id != old(self).current_thread().id,
            live_threads(old(self).ready_list(), old(procs).procs()).len() > 0 || thread_alive(
                old(self).current_thread(),
                old(procs).procs(),
            ) ==> thread_alive(final(self).current_thread(), final(procs).procs()),
            r ==> final(self).current_thread().state == ThreadState::Running,
            !r ==> final(self).current_thread() == old(self).current_thread(),
            forall|k: int|
                0 <= k < final(self).ready_list().len() ==> thread_alive(
                    #[trigger] final(self).ready_list()[k],
                    final(procs).procs(),
                ),
            final(procs).procs() == if r && !thread_alive(old(self).current_thread(), old(procs).procs()) {
                released(purged(old(procs).procs(), old(self).ready_list()), old(self).current_thread().pid)
            } else {
                purged(old(procs).procs(), old(self).ready_list())
            },
    {
        let ghost procs0 = procs.procs();
        let ghost ready0 = self.ready@;
        let ghost cur = self.current;
        let ghost live = live_threads(ready0, procs0);
        proof {
            lemma_filter_distinct(ready0, procs0);
            lemma_purged_keeps_alive(procs0, ready0, cur);
        }
        let switched_now = self.schedule_next_thread(procs);
        let ghost procs1 = procs.procs();
        let ghost mid = *self;
        self.after_context_switch(procs);
        proof {
            let procs2 = procs.procs();
            assert forall|k: int| 0 <= k < live.len() implies (#[trigger] live[k]).id != cur.id by {
                assert(ready0.contains(live[k]));
            }
            assert forall|k: int| 0 <= k < live.len() implies thread_alive(#[trigger] live[k], procs1) by {
                lemma_purged_keeps_alive(procs0, ready0, live[k]);
            }
            if switched_now {
                let i = choose|i: int| is_top(live, i) && switched(*old(self), mid, live, i, procs0);
                let nr = live.remove(i);
                let nc = mid.current_thread();
                assert(nc.id == live[i].id);
                assert forall|k: int| 0 <= k < nr.len() implies (#[trigger] nr[k]).id != nc.id && thread_alive(nr[k], procs1) by {
                    if k < i {
                        assert(nr[k] == live[k]);
                    } else {
                        assert(nr[k] == live[k + 1]);
                    }
                }
                assert(distinct_ids(nr)) by {
                    assert forall|a: int, b: int| 0 <= a < nr.len() && 0 <= b < nr.len() && a != b implies (#[trigger] nr[a]).id != (#[trigger] nr[b]).id by {
                        let a2 = if a < i { a } else { a + 1 };
                        let b2 = if b < i { b } else { b + 1 };
                        assert(nr[a] == live[a2] && nr[b] == live[b2]);
                    }
                }
                if thread_alive(cur, procs0) {
                    assert(procs2 == procs1);
                    let fr = nr.push(TCB { state: ThreadState::Ready, ..cur });
                    assert(self.ready_list() == fr);
                    assert forall|k: int| 0 <= k < fr.len() implies thread_alive(#[trigger] fr[k], procs2) && fr[k].id != nc.id by {
                        if k < nr.len() {
                            assert(fr[k] == nr[k]);
                        }
                    }
                    assert(distinct_ids(fr)) by {
                        assert forall|a: int, b: int| 0 <= a < fr.len() && 0 <= b < fr.len() && a != b implies (#[trigger] fr[a]).id != (#[trigger] fr[b]).id by {
                            if a < nr.len() && b < nr.len() {
                                assert(fr[a] == nr[a] && fr[b] == nr[b]);
                            } else if a < nr.len() {
                                assert(fr[a] == nr[a]);
                                assert(nr[a] == live[if a < i { a } else { a + 1 }]);
                            } else {
                                assert(fr[b] == nr[b]);
                                assert(nr[b] == live[if b < i { b } else { b + 1 }]);
                            }
                        }
                    }
                } else {
                    assert forall|k: int| 0 <= k < nr.len() implies thread_alive(#[trigger] nr[k], procs2) by {
                        lemma_release_keeps_alive(procs1, cur.pid, nr[k]);
                    }
                    lemma_release_keeps_alive(procs1, cur.pid, live[i]);
                    assert(thread_alive(live[i], procs1));
                }
                assert forall|j: int| is_top(live, j) implies live[j].priority == live[i].priority by {
                    assert(!ranks_above(live[j], live[i]));
                    assert(!ranks_above(live[i], live[j]));
                }
            } else {
                assert forall|k: int| 0 <= k < live.len() implies thread_alive(#[trigger] live[k], procs2) by {}
            }
        }
        switched_now
    }
}

/// The process of the thread that runs on this CPU, if it is in the list.
pub fn get_current_process<'a>(s: &Scheduler, procs: &'a ProcessList) -> (r: Option<&'a PCB>)
    ensures
        procs.view_map().contains_key(s.current_thread().pid) ==> r == Some(&procs.view_map()[s.current_thread().pid]),
        !procs.view_map().contains_key(s.current_thread().pid) ==> r.is_none(),
{
    procs.get(s.current.pid)
}

/// A switch is needed: a live thread is ready, and the top of them has at
/// least the priority of the current thread or the current thread may not run.
pub open spec fn switch_needed(live: Seq<TCB>, cur: TCB, procs: Map<u64, (u16, bool)>) -> bool {
    exists|i: int| is_top(live, i) && (live[i].priority >= cur.priority || !thread_alive(cur, procs))
}

/// `after` is `before` with the top live thread `live[i]` running in the
/// current slot and the thread that ran in the old slot, marked ready where
/// it may still run.
pub open spec fn switched(before: Scheduler, after: Scheduler, live: Seq<TCB>, i: int, procs: Map<u64, (u16, bool)>) -> bool {
    let cur = before.current_thread();
    &&& after.current_thread() == (TCB { state: ThreadState::Running, ..live[i] })
    &&& after.ready_list() == live.remove(i)
    &&& after.old_slot() == Some(
        if thread_alive(cur, procs) {
            TCB { state: ThreadState::Ready, ..cur }
        } else {
            cur
        },
    )
}

} // verus!
