use proton::round_robin::{RoundRobinScheduler, RunState, State, UNIT_TIME_SLICE};
use proton::task::TaskId;

fn scheduler_with(n: usize) -> RoundRobinScheduler {
    let mut s = RoundRobinScheduler::new(1);
    for _ in 0..n {
        let st = s.new_state();
        let id = s.insert_task(st);
        s.register_new_task(id);
    }
    s
}

#[test]
fn new_tasks_are_ready_and_queued() {
    let s = scheduler_with(2);
    assert_eq!(s.get_current_task_id(0), None);
    assert_eq!(s.states[0].run_state, RunState::Ready);
    assert_eq!(State::new().time_slice_units, 0);
}

#[test]
fn round_robin_order() {
    let mut s = scheduler_with(3);
    assert_eq!(s.schedule(0), TaskId(0));
    assert_eq!(s.states[0].run_state, RunState::Running);
    assert_eq!(s.states[0].time_slice_units, UNIT_TIME_SLICE);
    assert_eq!(s.timer_tick(0), TaskId(1));
    assert_eq!(s.states[0].run_state, RunState::Ready);
    assert_eq!(s.timer_tick(0), TaskId(2));
    assert_eq!(s.timer_tick(0), TaskId(0));
    assert_eq!(s.get_current_task_id(0), Some(TaskId(0)));
}

#[test]
fn running_task_keeps_running() {
    let mut s = scheduler_with(2);
    assert_eq!(s.schedule(0), TaskId(0));
    assert_eq!(s.schedule(0), TaskId(0));
}

#[test]
fn sleep_and_wake_up() {
    let mut s = scheduler_with(2);
    s.schedule(0);
    assert_eq!(s.sleep(0), TaskId(1));
    assert_eq!(s.states[0].run_state, RunState::Sleeping);
    s.wake_up(TaskId(0));
    assert_eq!(s.states[0].run_state, RunState::Ready);
    s.wake_up(TaskId(0));
    assert_eq!(s.timer_tick(0), TaskId(0));
    assert_eq!(s.timer_tick(0), TaskId(1));
}

#[test]
fn removing_the_current_task() {
    let mut s = scheduler_with(2);
    s.schedule(0);
    s.remove_task(0, TaskId(1));
    assert_eq!(s.get_current_task_id(0), Some(TaskId(0)));
    s.remove_task(0, TaskId(0));
    assert_eq!(s.get_current_task_id(0), None);
    assert_eq!(s.schedule(0), TaskId(1));
}
