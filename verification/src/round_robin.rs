//! The round-robin scheduler: ready tasks wait in a first-in first-out
//! queue, and a running task gets one time slice before it goes to the back.
use vstd::prelude::*;
use crossbeam::queue::SegQueue;
use crate::task::TaskId;

verus! {

/// The time slices a task runs for once scheduled.
pub const UNIT_TIME_SLICE: usize = 1;

/// crossbeam's unbounded first-in first-out queue, seen from here only
/// through `queue_items`.
#[verifier::external_type_specification]
#[verifier::external_body]
#[verifier::reject_recursive_types(T)]
pub struct ExSegQueue<T>(SegQueue<T>);

/// The items of a queue, from head to tail.
pub uninterp spec fn queue_items(q: SegQueue<usize>) -> Seq<usize>;

/// `SegQueue::new`: a new queue is empty.
#[verifier::external_body]
fn queue_new() -> (r: SegQueue<usize>)
    ensures
        queue_items(r) == Seq::<usize>::empty(),
{
    SegQueue::new()
}

/// `SegQueue::push`: the value goes to the tail.
#[verifier::external_body]
fn queue_push(q: &mut SegQueue<usize>, v: usize)
    ensures
        queue_items(*final(q)) == queue_items(*old(q)).push(v),
{
    q.push(v)
}

/// `SegQueue::pop`: the head comes out, or `None` from an empty queue.
#[verifier::external_body]
fn queue_pop(q: &mut SegQueue<usize>) -> (r: Option<usize>)
    ensures
        queue_items(*old(q)).len() == 0 ==> r is None && queue_items(*final(q)) == queue_items(*old(q)),
        queue_items(*old(q)).len() > 0 ==> r == Some(queue_items(*old(q))[0])
            && queue_items(*final(q)) == queue_items(*old(q)).drop_first(),
{
    q.pop()
}

/// Where a task is in its life.
#[derive(Clone, Copy, PartialEq, Eq, Structural, Debug)]
pub enum RunState {
    Ready,
    Running,
    Sleeping,
}

/// What the scheduler keeps for each task.
#[derive(Clone, Copy, PartialEq, Eq, Structural)]
pub struct State {
    pub run_state: RunState,
    pub time_slice_units: usize,
}

impl State {
    /// A task that is ready, with no time slice.
    pub fn new() -> (r: Self)
        ensures
            r.run_state == RunState::Ready,
            r.time_slice_units == 0,
    {
        State { run_state: RunState::Ready, time_slice_units: 0 }
    }
}

/// The scheduler: the task each core runs, the queue of ready tasks, and
/// the state of every task, by task id.
pub struct RoundRobinScheduler {
    pub current_task: Vec<Option<TaskId>>,
    pub queue: SegQueue<usize>,
    pub states: Vec<State>,
}

impl RoundRobinScheduler {
    /// The ready tasks, next to run first.
    pub open spec fn ready(&self) -> Seq<usize> {
        queue_items(self.queue)
    }

    /// Every queued and every current task is known.
    pub open spec fn wf(&self) -> bool {
        &&& forall|i: int| 0 <= i < self.ready().len() ==> #[trigger] self.ready()[i] < self.states@.len()
        &&& forall|c: int|
            0 <= c < self.current_task@.len() && self.current_task@[c] is Some ==> #[trigger] (self.current_task@[c]->0).0
                < self.states@.len()
    }

    /// A scheduler for `num_cores` cores, none running a task, with no
    /// tasks.
    pub fn new(num_cores: usize) -> (r: Self)
        ensures
            r.wf(),
            r.current_task@.len() == num_cores,
            forall|c: int| 0 <= c < num_cores ==> #[trigger] r.current_task@[c] is None,
            r.ready() == Seq::<usize>::empty(),
            r.states@ == Seq::<State>::empty(),
    {
        let mut current_task: Vec<Option<TaskId>> = Vec::new();
        let mut i: usize = 0;
        while i < num_cores
            invariant
                i <= num_cores,
                current_task@.len() == i,
                forall|c: int| 0 <= c < i ==> #[trigger] current_task@[c] is None,
            decreases num_cores - i,
        {
            current_task.push(None);
            i = i + 1;
        }
        RoundRobinScheduler { current_task, queue: queue_new(), states: Vec::new() }
    }

    /// The state of a new task.
    pub fn new_state(&self) -> (r: State)
        ensures
            r.run_state == RunState::Ready,
            r.time_slice_units == 0,
    {
        State::new()
    }

    /// Records a new task with state `state`; its id.
    pub fn insert_task(&mut self, state: State) -> (r: TaskId)
        requires
            old(self).wf(),
        ensures
            final(self).wf(),
            r.0 == old(self).states@.len(),
            final(self).states@ == old(self).states@.push(state),
            final(self).ready() == old(self).ready(),
            final(self).current_task == old(self).current_task,
    {
        let id = self.states.len();
        self.states.push(state);
        proof {
            lemma_wf_keeps(*old(self), *self);
        }
        TaskId(id)
    }

    /// The task core `core` runs.
    pub fn get_current_task_id(&self, core: usize) -> (r: Option<TaskId>)
        requires
            core < self.current_task@.len(),
        ensures
            r == self.current_task@[core as int],
    {
        self.current_task[core]
    }

    fn set_current_task_id(&mut self, core: usize, id: TaskId)
        requires
            old(self).wf(),
            core < old(self).current_task@.len(),
            id.0 < old(self).states@.len(),
        ensures
            final(self).wf(),
            final(self).current_task@ == old(self).current_task@.update(core as int, Some(id)),
            final(self).states == old(self).states,
            final(self).ready() == old(self).ready(),
    {
        self.current_task.set(core, Some(id));
        proof {
            assert forall|c: int|
                0 <= c < self.current_task@.len() && self.current_task@[c] is Some implies #[trigger] (self.current_task@[c]->0).0
                    < self.states@.len() by {
                if c != core {
                    assert(old(self).current_task@[c] == self.current_task@[c]);
                }
            }
            assert forall|i: int| 0 <= i < self.ready().len() implies #[trigger] self.ready()[i] < self.states@.len() by {
                assert(old(self).ready()[i] < old(self).states@.len());
            }
        }
    }

    fn set_state(&mut self, id: usize, st: State)
        requires
            old(self).wf(),
            id < old(self).states@.len(),
        ensures
            final(self).wf(),
            final(self).states@ == old(self).states@.update(id as int, st),
            final(self).current_task == old(self).current_task,
            final(self).ready() == old(self).ready(),
    {
        self.states.set(id, st);
        proof {
            lemma_wf_keeps(*old(self), *self);
        }
    }

    fn enqueue(&mut self, id: usize)
        requires
            old(self).wf(),
            id < old(self).states@.len(),
        ensures
            final(self).wf(),
            final(self).ready() == old(self).ready().push(id),
            final(self).states == old(self).states,
            final(self).current_task == old(self).current_task,
    {
        queue_push(&mut self.queue, id);
        proof {
            assert forall|i: int| 0 <= i < self.ready().len() implies #[trigger] self.ready()[i] < self.states@.len() by {
                if i < old(self).ready().len() {
                    assert(self.ready()[i] == old(self).ready()[i]);
                }
            }
            assert(forall|c: int|
                0 <= c < self.current_task@.len() && self.current_task@[c] is Some ==> #[trigger] (self.current_task@[c]->0).0
                    < self.states@.len());
        }
    }

    /// Queues a new task if it is ready.
    pub fn register_new_task(&mut self, task: TaskId)
        requires
            old(self).wf(),
            task.0 < old(self).states@.len(),
        ensures
            final(self).wf(),
            final(self).states == old(self).states,
            final(self).current_task == old(self).current_task,
            final(self).ready() == if old(self).states@[task.0 as int].run_state == RunState::Ready {
                old(self).ready().push(task.0)
            } else {
                old(self).ready()
            },
    {
        if self.states[task.0].run_state == RunState::Ready {
            self.enqueue(task.0);
        }
    }

    /// Forgets `task` as the task of core `core`, if it is.
    pub fn remove_task(&mut self, core: usize, task: TaskId)
        requires
            old(self).wf(),
            core < old(self).current_task@.len(),
        ensures
            final(self).wf(),
            final(self).states == old(self).states,
            final(self).ready() == old(self).ready(),
            final(self).current_task@ == if old(self).current_task@[core as int] == Some(task) {
                old(self).current_task@.update(core as int, None)
            } else {
                old(self).current_task@
            },
    {
        if self.current_task[core] == Some(task) {
            self.current_task.set(core, None);
            proof {
                assert forall|c: int|
                    0 <= c < self.current_task@.len() && self.current_task@[c] is Some implies #[trigger] (self.current_task@[c]->0).0
                        < self.states@.len() by {
                    assert(old(self).current_task@[c] == self.current_task@[c]);
                }
                assert forall|i: int| 0 <= i < self.ready().len() implies #[trigger] self.ready()[i] < self.states@.len() by {
                assert(old(self).ready()[i] < old(self).states@.len());
            }
            }
        }
    }

    /// Puts the task of core `core` back at the end of the ready queue.
    pub fn enqueue_current_task_as_ready(&mut self, core: usize)
        requires
            old(self).wf(),
            core < old(self).current_task@.len(),
            old(self).current_task@[core as int] is Some,
        ensures
            final(self).wf(),
            ({
                let t = (old(self).current_task@[core as int]->0).0;
                &&& final(self).ready() == old(self).ready().push(t)
                &&& final(self).states@ == old(self).states@.update(
                    t as int,
                    (State { run_state: RunState::Ready, ..old(self).states@[t as int] }),
                )
            }),
            final(self).current_task == old(self).current_task,
    {
        let t = self.current_task[core].unwrap().0;
        let st = State { run_state: RunState::Ready, time_slice_units: self.states[t].time_slice_units };
        self.set_state(t, st);
        self.enqueue(t);
    }

    /// Picks what core `core` runs next: its task again if that is still
    /// running, else the task at the head of the ready queue, which starts
    /// running with a fresh time slice. There is always a task to run (the
    /// idle task at least).
    pub fn schedule(&mut self, core: usize) -> (r: TaskId)
        requires
            old(self).wf(),
            core < old(self).current_task@.len(),
            !still_running(*old(self), core) ==> old(self).ready().len() > 0,
        ensures
            final(self).wf(),
            still_running(*old(self), core) ==> r == old(self).current_task@[core as int]->0
                && *final(self) == *old(self),
            !still_running(*old(self), core) ==> ({
                let next = old(self).ready()[0];
                &&& r.0 == next
                &&& final(self).ready() == old(self).ready().drop_first()
                &&& final(self).states@ == old(self).states@.update(
                    next as int,
                    (State { run_state: RunState::Running, time_slice_units: UNIT_TIME_SLICE }),
                )
                &&& final(self).current_task@ == old(self).current_task@.update(core as int, Some(r))
            }),
    {
        match self.current_task[core] {
            Some(t) => {
                if self.states[t.0].run_state == RunState::Running {
                    return t;
                }
            },
            None => {},
        }
        let next = queue_pop(&mut self.queue).unwrap();
        proof {
            assert(old(self).ready()[0] < self.states@.len());
            assert forall|i: int| 0 <= i < self.ready().len() implies #[trigger] self.ready()[i]
                < self.states@.len() by {
                assert(self.ready()[i] == old(self).ready()[i + 1]);
            }
        }
        self.set_state(next, State { run_state: RunState::Running, time_slice_units: UNIT_TIME_SLICE });
        self.set_current_task_id(core, TaskId(next));
        TaskId(next)
    }

    /// The task of core `core` goes to sleep, and the core runs the next
    /// ready task.
    pub fn sleep(&mut self, core: usize) -> (r: TaskId)
        requires
            old(self).wf(),
            core < old(self).current_task@.len(),
            old(self).current_task@[core as int] is Some,
            old(self).states@[(old(self).current_task@[core as int]->0).0 as int].run_state
                == RunState::Running,
            old(self).ready().len() > 0,
        ensures
            final(self).wf(),
            ({
                let t = (old(self).current_task@[core as int]->0).0;
                let next = old(self).ready()[0];
                let slept = old(self).states@.update(
                    t as int,
                    (State { run_state: RunState::Sleeping, ..old(self).states@[t as int] }),
                );
                &&& r.0 == next
                &&& final(self).ready() == old(self).ready().drop_first()
                &&& final(self).states@ == slept.update(
                    next as int,
                    (State { run_state: RunState::Running, time_slice_units: UNIT_TIME_SLICE }),
                )
                &&& final(self).current_task@ == old(self).current_task@.update(core as int, Some(r))
            }),
    {
        let t = self.current_task[core].unwrap().0;
        let st = State { run_state: RunState::Sleeping, time_slice_units: self.states[t].time_slice_units };
        self.set_state(t, st);
        self.schedule(core)
    }

    /// Makes a sleeping task ready again, at the end of the queue; a task
    /// that is not sleeping is left alone.
    pub fn wake_up(&mut self, task: TaskId)
        requires
            old(self).wf(),
            task.0 < old(self).states@.len(),
        ensures
            final(self).wf(),
            final(self).current_task == old(self).current_task,
            old(self).states@[task.0 as int].run_state == RunState::Sleeping ==> final(self).ready()
                == old(self).ready().push(task.0) && final(self).states@ == old(self).states@.update(
                task.0 as int,
                (State { run_state: RunState::Ready, ..old(self).states@[task.0 as int] }),
            ),
            old(self).states@[task.0 as int].run_state != RunState::Sleeping ==> final(self).ready()
                == old(self).ready() && final(self).states == old(self).states,
    {
        let st = self.states[task.0];
        if st.run_state == RunState::Sleeping {
            self.set_state(task.0, State { run_state: RunState::Ready, time_slice_units: st.time_slice_units });
            self.enqueue(task.0);
        }
    }

    /// A timer interrupt on core `core`: the running task uses up one
    /// slice; when its last slice is gone it goes to the back of the queue
    /// and the core runs the next ready task, else it carries on.
    pub fn timer_tick(&mut self, core: usize) -> (r: TaskId)
        requires
            old(self).wf(),
            core < old(self).current_task@.len(),
            old(self).current_task@[core as int] is Some,
            old(self).states@[(old(self).current_task@[core as int]->0).0 as int].time_slice_units > 0,
        ensures
            final(self).wf(),
            ({
                let t = (old(self).current_task@[core as int]->0).0;
                let units = old(self).states@[t as int].time_slice_units;
                let queued = old(self).ready().push(t);
                &&& units > 1 ==> r.0 == t && final(self).ready() == old(self).ready()
                    && final(self).current_task == old(self).current_task
                    && final(self).states@ == old(self).states@.update(
                        t as int,
                        (State { time_slice_units: (units - 1) as usize, ..old(self).states@[t as int] }),
                    )
                &&& units == 1 ==> r.0 == queued[0] && final(self).ready() == queued.drop_first()
                    && final(self).states@[queued[0] as int] == (State {
                        run_state: RunState::Running,
                        time_slice_units: UNIT_TIME_SLICE,
                    })
                    && final(self).current_task@ == old(self).current_task@.update(core as int, Some(r))
            }),
    {
        let t = self.current_task[core].unwrap();
        let st = self.states[t.0];
        let old_units = st.time_slice_units;
        self.set_state(t.0, State { run_state: st.run_state, time_slice_units: old_units - 1 });
        if old_units == 1 {
            self.enqueue_current_task_as_ready(core);
            proof {
                assert(self.states@[t.0 as int].run_state == RunState::Ready);
                assert(!still_running(*self, core));
            }
            self.schedule(core)
        } else {
            t
        }
    }
}

/// A scheduler whose queue and cores are unchanged and whose task table
/// did not shrink stays well formed.
proof fn lemma_wf_keeps(a: RoundRobinScheduler, b: RoundRobinScheduler)
    requires
        a.wf(),
        b.ready() == a.ready(),
        b.current_task@ == a.current_task@,
        b.states@.len() >= a.states@.len(),
    ensures
        b.wf(),
{
    assert forall|i: int| 0 <= i < b.ready().len() implies #[trigger] b.ready()[i] < b.states@.len() by {
        assert(a.ready()[i] < a.states@.len());
    }
    assert forall|c: int|
        0 <= c < b.current_task@.len() && b.current_task@[c] is Some implies #[trigger] (b.current_task@[c]->0).0
            < b.states@.len() by {
        assert((a.current_task@[c]->0).0 < a.states@.len());
    }
}

/// The task of core `core` is still running.
pub open spec fn still_running(s: RoundRobinScheduler, core: usize) -> bool {
    s.current_task@[core as int] matches Some(t) && s.states@[t.0 as int].run_state == RunState::Running
}

} // verus!
