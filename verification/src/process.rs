//! The process table: every process, by id, with its threads; creating a
//! process or a thread hands the new task to the scheduler, and ending one
//! takes it back out.
use vstd::prelude::*;
use crate::pm::{first_index, remove_thread, swap_removed, ProcessResources};
use crate::round_robin::{RoundRobinScheduler, RunState, State};
use crate::task::TaskId;

verus! {

/// The identifier of a process.
#[derive(Clone, Copy, PartialEq, Eq, Structural, Debug)]
pub struct ProcId(pub usize);

/// A process: its id, its threads and lock handles, and whether it is
/// still alive (waiters watch this).
pub struct Process {
    pub id: ProcId,
    pub res: ProcessResources,
    pub live: bool,
}

/// The position of the process with id `pid`, if there is one.
pub open spec fn find_proc(procs: Seq<Process>, pid: ProcId) -> Option<int> {
    if exists|i: int| 0 <= i < procs.len() && procs[i].id == pid {
        Some(choose|i: int| 0 <= i < procs.len() && procs[i].id == pid)
    } else {
        None
    }
}

/// The position of the first process that has thread `t`, if there is one.
pub open spec fn owner_of(procs: Seq<Process>, t: TaskId) -> Option<int> {
    if exists|i: int| 0 <= i < procs.len() && procs[i].res.threads@.contains(t) {
        Some(
            choose|i: int|
                0 <= i < procs.len() && procs[i].res.threads@.contains(t) && forall|j: int|
                    0 <= j < i ==> !(#[trigger] procs[j].res.threads@).contains(t),
        )
    } else {
        None
    }
}

/// `after` is `before` with the first `t` replaced by the last thread and
/// the last dropped.
pub open spec fn thread_removed(before: Seq<TaskId>, after: Seq<TaskId>, t: TaskId) -> bool {
    exists|k: int|
        0 <= k < before.len() && before[k] == t && (forall|j: int| 0 <= j < k ==> before[j] != t)
            && after == before.update(k, before.last()).drop_last()
}

/// A process that was just made: alive, with thread `t` and no locks.
pub open spec fn fresh_process(p: Process, pid: ProcId, t: TaskId) -> bool {
    &&& p.id == pid
    &&& p.live
    &&& p.res.threads@ == seq![t]
    &&& p.res.locks@.len() == 0
    &&& p.res.cvars@.len() == 0
}

/// What the scheduler does for a new task: the task's state is added, and
/// the task is queued as ready.
pub open spec fn task_added(before: RoundRobinScheduler, after: RoundRobinScheduler, t: TaskId) -> bool {
    &&& t.0 == before.states@.len()
    &&& after.states@ == before.states@.push(State { run_state: RunState::Ready, time_slice_units: 0 })
    &&& after.ready() == before.ready().push(t.0)
    &&& after.current_task == before.current_task
}

/// The processes, and the id the next one gets.
pub struct ProcessTable {
    pub procs: Vec<Process>,
    pub next_proc: usize,
}

/// The first process with thread `t` is at `i` when `i` has it and none
/// before does.
proof fn lemma_first_owner(procs: Seq<Process>, t: TaskId, i: int)
    requires
        0 <= i < procs.len(),
        procs[i].res.threads@.contains(t),
        forall|j: int| 0 <= j < i ==> !(#[trigger] procs[j].res.threads@).contains(t),
    ensures
        owner_of(procs, t) == Some(i),
{
    let c = choose|c: int|
        0 <= c < procs.len() && procs[c].res.threads@.contains(t) && forall|j: int|
            0 <= j < c ==> !(#[trigger] procs[j].res.threads@).contains(t);
    assert(0 <= c < procs.len() && procs[c].res.threads@.contains(t) && forall|j: int|
        0 <= j < c ==> !(#[trigger] procs[j].res.threads@).contains(t));
    if c < i {
        assert(!procs[c].res.threads@.contains(t));
    }
    if c > i {
        assert(!procs[i].res.threads@.contains(t));
    }
}

impl ProcessTable {
    /// Process ids are unique and below the next one, which is positive.
    pub open spec fn wf(&self) -> bool {
        &&& self.next_proc >= 1
        &&& forall|i: int| 0 <= i < self.procs@.len() ==> (#[trigger] self.procs@[i]).id.0 < self.next_proc
        &&& forall|i: int, j: int|
            0 <= i < self.procs@.len() && 0 <= j < self.procs@.len() && i != j ==> (#[trigger] self.procs@[i]).id
                != (#[trigger] self.procs@[j]).id
    }

    /// No processes yet; the first gets id 1.
    pub fn new() -> (r: Self)
        ensures
            r.wf(),
            r.procs@.len() == 0,
            r.next_proc == 1,
    {
        ProcessTable { procs: Vec::new(), next_proc: 1 }
    }

    /// The position of process `pid`.
    fn find(&self, pid: ProcId) -> (r: Option<usize>)
        requires
            self.wf(),
        ensures
            match r {
                Some(i) => i < self.procs@.len() && find_proc(self.procs@, pid) == Some(i as int),
                None => find_proc(self.procs@, pid) is None,
            },
    {
        let mut i: usize = 0;
        while i < self.procs.len()
            invariant
                self.wf(),
                i <= self.procs@.len(),
                forall|j: int| 0 <= j < i ==> (#[trigger] self.procs@[j]).id != pid,
            decreases self.procs@.len() - i,
        {
            if self.procs[i].id == pid {
                proof {
                    let k = choose|k: int| 0 <= k < self.procs@.len() && self.procs@[k].id == pid;
                    if k != i {
                        assert(self.procs@[k].id != self.procs@[i as int].id);
                    }
                }
                return Some(i);
            }
            i = i + 1;
        }
        None
    }

    /// The process with id `pid`.
    pub fn by_id(&self, pid: ProcId) -> (r: Option<&Process>)
        requires
            self.wf(),
        ensures
            match find_proc(self.procs@, pid) {
                Some(i) => r == Some(&self.procs@[i]),
                None => r is None,
            },
    {
        match self.find(pid) {
            Some(i) => Some(&self.procs[i]),
            None => None,
        }
    }

    /// Makes a process with a main thread, which the scheduler queues as
    /// ready; its id.
    pub fn create(&mut self, sched: &mut RoundRobinScheduler) -> (r: ProcId)
        requires
            old(self).wf(),
            old(sched).wf(),
            old(self).next_proc < usize::MAX,
        ensures
            final(self).wf(),
            final(sched).wf(),
            r.0 == old(self).next_proc,
            final(self).next_proc == old(self).next_proc + 1,
            final(self).procs@.len() == old(self).procs@.len() + 1,
            forall|i: int| 0 <= i < old(self).procs@.len() ==> #[trigger] final(self).procs@[i] == old(self).procs@[i],
            fresh_process(final(self).procs@.last(), r, TaskId(old(sched).states.len())),
            task_added(*old(sched), *final(sched), TaskId(old(sched).states.len())),
    {
        let pid = ProcId(self.next_proc);
        self.next_proc = self.next_proc + 1;
        let t = sched.insert_task(sched.new_state());
        sched.register_new_task(t);
        let mut res = ProcessResources::new();
        res.threads.push(t);
        self.procs.push(Process { id: pid, res, live: true });
        proof {
            assert(self.procs@.last().res.threads@ =~= seq![t]);
            assert forall|i: int, j: int|
                0 <= i < self.procs@.len() && 0 <= j < self.procs@.len() && i != j implies (#[trigger] self.procs@[i]).id
                    != (#[trigger] self.procs@[j]).id by {
                if i < old(self).procs@.len() && j < old(self).procs@.len() {
                    assert(self.procs@[i] == old(self).procs@[i]);
                    assert(self.procs@[j] == old(self).procs@[j]);
                } else if i < old(self).procs@.len() {
                    assert(self.procs@[i] == old(self).procs@[i]);
                } else {
                    assert(self.procs@[j] == old(self).procs@[j]);
                }
            }
            assert forall|i: int| 0 <= i < self.procs@.len() implies (#[trigger] self.procs@[i]).id.0 < self.next_proc by {
                if i < old(self).procs@.len() {
                    assert(self.procs@[i] == old(self).procs@[i]);
                }
            }
        }
        pid
    }
    /// The position of the first process with thread `t`.
    fn owner(&self, t: TaskId) -> (r: Option<usize>)
        ensures
            match r {
                Some(i) => i < self.procs@.len() && owner_of(self.procs@, t) == Some(i as int)
                    && self.procs@[i as int].res.threads@.contains(t),
                None => owner_of(self.procs@, t) is None,
            },
    {
        let mut i: usize = 0;
        while i < self.procs.len()
            invariant
                i <= self.procs@.len(),
                forall|j: int| 0 <= j < i ==> !(#[trigger] self.procs@[j].res.threads@).contains(t),
            decreases self.procs@.len() - i,
        {
            let threads = &self.procs[i].res.threads;
            let mut k: usize = 0;
            while k < threads.len()
                invariant
                    k <= threads@.len(),
                    i < self.procs@.len(),
                    forall|j: int| 0 <= j < i ==> !(#[trigger] self.procs@[j].res.threads@).contains(t),
                    threads == self.procs@[i as int].res.threads,
                    forall|m: int| 0 <= m < k ==> threads@[m] != t,
                decreases threads@.len() - k,
            {
                if threads[k] == t {
                    proof {
                        assert(threads@[k as int] == t);
                        assert(self.procs@[i as int].res.threads@.contains(t));
                        lemma_first_owner(self.procs@, t, i as int);
                    }
                    return Some(i);
                }
                k = k + 1;
            }
            proof {
                assert(!self.procs@[i as int].res.threads@.contains(t)) by {
                    if self.procs@[i as int].res.threads@.contains(t) {
                        let m = choose|m: int| 0 <= m < threads@.len() && threads@[m] == t;
                        assert(threads@[m] != t);
                    }
                }
            }
            i = i + 1;
        }
        None
    }

    /// Adds a thread to process `pid`; the scheduler queues it as ready.
    /// Its id.
    pub fn spawn_task(&mut self, pid: ProcId, sched: &mut RoundRobinScheduler) -> (r: TaskId)
        requires
            old(self).wf(),
            old(sched).wf(),
            find_proc(old(self).procs@, pid) is Some,
        ensures
            final(self).wf(),
            final(sched).wf(),
            final(self).next_proc == old(self).next_proc,
            r == TaskId(old(sched).states.len()),
            task_added(*old(sched), *final(sched), r),
            ({
                let i = find_proc(old(self).procs@, pid)->0;
                let p = old(self).procs@[i];
                &&& final(self).procs@.len() == old(self).procs@.len()
                &&& forall|j: int| 0 <= j < old(self).procs@.len() && j != i ==> #[trigger] final(self).procs@[j] == old(self).procs@[j]
                &&& final(self).procs@[i].id == p.id
                &&& final(self).procs@[i].live == p.live
                &&& final(self).procs@[i].res.locks == p.res.locks
                &&& final(self).procs@[i].res.cvars == p.res.cvars
                &&& final(self).procs@[i].res.threads@ == p.res.threads@.push(r)
            }),
    {
        let i = self.find(pid).unwrap();
        let t = sched.insert_task(sched.new_state());
        sched.register_new_task(t);
        let mut p = Process { id: ProcId(0), res: ProcessResources::new(), live: false };
        self.procs.set_and_swap(i, &mut p);
        p.res.threads.push(t);
        self.procs.set_and_swap(i, &mut p);
        proof {
            assert forall|a: int, b: int|
                0 <= a < self.procs@.len() && 0 <= b < self.procs@.len() && a != b implies (#[trigger] self.procs@[a]).id
                    != (#[trigger] self.procs@[b]).id by {
                assert(self.procs@[a].id == old(self).procs@[a].id);
                assert(self.procs@[b].id == old(self).procs@[b].id);
            }
            assert forall|a: int| 0 <= a < self.procs@.len() implies (#[trigger] self.procs@[a]).id.0 < self.next_proc by {
                assert(self.procs@[a].id == old(self).procs@[a].id);
            }
        }
        t
    }

    /// Ends process `pid`: it leaves the table, none of its threads stays
    /// the task of core `core`, and it is marked dead. The process.
    pub fn exit(&mut self, pid: ProcId, core: usize, sched: &mut RoundRobinScheduler) -> (r: Process)
        requires
            old(self).wf(),
            old(sched).wf(),
            find_proc(old(self).procs@, pid) is Some,
            core < old(sched).current_task@.len(),
        ensures
            final(self).wf(),
            final(sched).wf(),
            final(self).next_proc == old(self).next_proc,
            ({
                let i = find_proc(old(self).procs@, pid)->0;
                let p = old(self).procs@[i];
                &&& final(self).procs@ == old(self).procs@.remove(i)
                &&& r.id == pid
                &&& !r.live
                &&& r.res == p.res
                &&& final(sched).current_task@ == match old(sched).current_task@[core as int] {
                    Some(c) => if p.res.threads@.contains(c) {
                        old(sched).current_task@.update(core as int, None)
                    } else {
                        old(sched).current_task@
                    },
                    None => old(sched).current_task@,
                }
            }),
            final(sched).states == old(sched).states,
            final(sched).ready() == old(sched).ready(),
            find_proc(final(self).procs@, pid) is None,
    {
        let i = self.find(pid).unwrap();
        let mut p = self.procs.remove(i);
        p.live = false;
        let ghost cur0 = sched.current_task@;
        let mut k: usize = 0;
        while k < p.res.threads.len()
            invariant
                k <= p.res.threads@.len(),
                sched.wf(),
                core < sched.current_task@.len(),
                cur0 == old(sched).current_task@,
                core < cur0.len(),
                sched.states == old(sched).states,
                sched.ready() == old(sched).ready(),
                sched.current_task@ == match cur0[core as int] {
                    Some(c) => if p.res.threads@.take(k as int).contains(c) {
                        cur0.update(core as int, None)
                    } else {
                        cur0
                    },
                    None => cur0,
                },
            decreases p.res.threads@.len() - k,
        {
            let t = p.res.threads[k];
            let ghost before = sched.current_task@;
            sched.remove_task(core, t);
            proof {
                let th = p.res.threads@;
                let tk = th.take(k as int);
                let tk1 = th.take(k + 1);
                assert(tk1 =~= tk.push(t));
                match cur0[core as int] {
                    Some(c) => {
                        if tk.contains(c) {
                            assert(tk1.contains(c)) by {
                                let m = choose|m: int| 0 <= m < tk.len() && tk[m] == c;
                                assert(tk1[m] == c);
                            }
                            assert(before == cur0.update(core as int, None));
                            assert(before[core as int] is None);
                            assert(sched.current_task@ == before);
                        } else if c == t {
                            assert(tk1[k as int] == c);
                            assert(before == cur0);
                            assert(sched.current_task@ == cur0.update(core as int, None));
                        } else {
                            assert(before == cur0);
                            assert(sched.current_task@ == cur0);
                            assert(!tk1.contains(c)) by {
                                if tk1.contains(c) {
                                    let m = choose|m: int| 0 <= m < tk1.len() && tk1[m] == c;
                                    assert(tk[m] == c);
                                }
                            }
                        }
                    },
                    None => {},
                }
            }
            k = k + 1;
        }
        proof {
            assert(p.res.threads@.take(k as int) =~= p.res.threads@);
            let ps = old(self).procs@;
            assert forall|a: int, b: int|
                0 <= a < self.procs@.len() && 0 <= b < self.procs@.len() && a != b implies (#[trigger] self.procs@[a]).id
                    != (#[trigger] self.procs@[b]).id by {
                let a0 = if a < i { a } else { a + 1 };
                let b0 = if b < i { b } else { b + 1 };
                assert(self.procs@[a] == ps[a0]);
                assert(self.procs@[b] == ps[b0]);
            }
            assert forall|a: int| 0 <= a < self.procs@.len() implies (#[trigger] self.procs@[a]).id.0 < self.next_proc by {
                let a0 = if a < i { a } else { a + 1 };
                assert(self.procs@[a] == ps[a0]);
            }
            if exists|a: int| 0 <= a < self.procs@.len() && self.procs@[a].id == pid {
                let a = choose|a: int| 0 <= a < self.procs@.len() && self.procs@[a].id == pid;
                let a0 = if a < i { a } else { a + 1 };
                assert(self.procs@[a] == ps[a0]);
                assert(ps[a0].id != ps[i as int].id);
            }
        }
        p
    }

    /// The task running on core `core` finishes: it leaves its process's
    /// threads and stops being the core's task.
    pub fn end_current_task(&mut self, core: usize, sched: &mut RoundRobinScheduler)
        requires
            old(self).wf(),
            old(sched).wf(),
            core < old(sched).current_task@.len(),
            old(sched).current_task@[core as int] is Some,
            owner_of(old(self).procs@, old(sched).current_task@[core as int]->0) is Some,
        ensures
            final(self).wf(),
            final(sched).wf(),
            final(self).next_proc == old(self).next_proc,
            ({
                let t = old(sched).current_task@[core as int]->0;
                let i = owner_of(old(self).procs@, t)->0;
                let p = old(self).procs@[i];
                &&& final(self).procs@.len() == old(self).procs@.len()
                &&& forall|j: int| 0 <= j < old(self).procs@.len() && j != i ==> #[trigger] final(self).procs@[j] == old(self).procs@[j]
                &&& final(self).procs@[i].id == p.id
                &&& final(self).procs@[i].live == p.live
                &&& final(self).procs@[i].res.locks == p.res.locks
                &&& final(self).procs@[i].res.cvars == p.res.cvars
                &&& thread_removed(p.res.threads@, final(self).procs@[i].res.threads@, t)
            }),
            final(sched).current_task@ == old(sched).current_task@.update(core as int, None),
            final(sched).states == old(sched).states,
            final(sched).ready() == old(sched).ready(),
    {
        let t = sched.get_current_task_id(core).unwrap();
        let i = self.owner(t).unwrap();
        self.drop_thread(i, t);
        sched.remove_task(core, t);
    }

    /// Takes thread `t` out of the process at `i`, which has it.
    fn drop_thread(&mut self, i: usize, t: TaskId)
        requires
            old(self).wf(),
            i < old(self).procs@.len(),
            old(self).procs@[i as int].res.threads@.contains(t),
        ensures
            final(self).wf(),
            final(self).next_proc == old(self).next_proc,
            final(self).procs@.len() == old(self).procs@.len(),
            forall|j: int| 0 <= j < old(self).procs@.len() && j != i ==> #[trigger] final(self).procs@[j] == old(self).procs@[j],
            final(self).procs@[i as int].id == old(self).procs@[i as int].id,
            final(self).procs@[i as int].live == old(self).procs@[i as int].live,
            final(self).procs@[i as int].res.locks == old(self).procs@[i as int].res.locks,
            final(self).procs@[i as int].res.cvars == old(self).procs@[i as int].res.cvars,
            thread_removed(old(self).procs@[i as int].res.threads@, final(self).procs@[i as int].res.threads@, t),
    {
        let mut p = Process { id: ProcId(0), res: ProcessResources::new(), live: false };
        self.procs.set_and_swap(i, &mut p);
        remove_thread(&mut p.res.threads, t);
        self.procs.set_and_swap(i, &mut p);
        proof {
            assert forall|a: int, b: int|
                0 <= a < self.procs@.len() && 0 <= b < self.procs@.len() && a != b implies (#[trigger] self.procs@[a]).id
                    != (#[trigger] self.procs@[b]).id by {
                assert(self.procs@[a].id == old(self).procs@[a].id);
                assert(self.procs@[b].id == old(self).procs@[b].id);
            }
            assert forall|a: int| 0 <= a < self.procs@.len() implies (#[trigger] self.procs@[a]).id.0 < self.next_proc by {
                assert(self.procs@[a].id == old(self).procs@[a].id);
            }
        }
    }

    /// The process of the task core `core` runs, if it runs one.
    pub fn current(&self, core: usize, sched: &RoundRobinScheduler) -> (r: Option<ProcId>)
        requires
            core < sched.current_task@.len(),
            sched.current_task@[core as int] matches Some(t) ==> owner_of(self.procs@, t) is Some,
        ensures
            r == match sched.current_task@[core as int] {
                Some(t) => Some(self.procs@[owner_of(self.procs@, t)->0].id),
                None => None,
            },
    {
        match sched.get_current_task_id(core) {
            Some(t) => {
                let i = self.owner(t).unwrap();
                Some(self.procs[i].id)
            },
            None => None,
        }
    }
}

} // verus!
