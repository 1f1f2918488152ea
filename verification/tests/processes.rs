use proton::process::{ProcId, ProcessTable};
use proton::round_robin::RoundRobinScheduler;
use proton::task::TaskId;

#[test]
fn processes_get_ids_and_main_threads() {
    let mut sched = RoundRobinScheduler::new(1);
    let mut procs = ProcessTable::new();
    let a = procs.create(&mut sched);
    let b = procs.create(&mut sched);
    assert_eq!(a, ProcId(1));
    assert_eq!(b, ProcId(2));
    assert_eq!(procs.by_id(a).unwrap().res.threads, vec![TaskId(0)]);
    assert_eq!(procs.by_id(b).unwrap().res.threads, vec![TaskId(1)]);
    assert!(procs.by_id(ProcId(3)).is_none());
    // Both main threads wait in the ready queue, in order.
    assert_eq!(sched.schedule(0), TaskId(0));
    assert_eq!(procs.current(0, &sched), Some(a));
}

#[test]
fn threads_join_and_leave_their_process() {
    let mut sched = RoundRobinScheduler::new(1);
    let mut procs = ProcessTable::new();
    let a = procs.create(&mut sched);
    let t = procs.spawn_task(a, &mut sched);
    assert_eq!(t, TaskId(1));
    assert_eq!(procs.by_id(a).unwrap().res.threads, vec![TaskId(0), TaskId(1)]);
    assert_eq!(sched.schedule(0), TaskId(0));
    procs.end_current_task(0, &mut sched);
    assert_eq!(sched.get_current_task_id(0), None);
    assert_eq!(procs.by_id(a).unwrap().res.threads, vec![TaskId(1)]);
    assert_eq!(procs.current(0, &sched), None);
}

#[test]
fn exited_processes_are_gone() {
    let mut sched = RoundRobinScheduler::new(1);
    let mut procs = ProcessTable::new();
    let a = procs.create(&mut sched);
    let b = procs.create(&mut sched);
    assert_eq!(sched.schedule(0), TaskId(0));
    let gone = procs.exit(a, 0, &mut sched);
    assert_eq!(gone.id, a);
    assert!(!gone.live);
    assert!(procs.by_id(a).is_none());
    assert!(procs.by_id(b).unwrap().live);
    // Its thread no longer runs on the core.
    assert_eq!(sched.get_current_task_id(0), None);
}
