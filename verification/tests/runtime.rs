use rucoon::runtime::tasklist::TaskGuard;
use rucoon::runtime::task::Task;
use rucoon::runtime::waker::RWaker;
use rucoon::runtime::{AddTaskError, RunError, Runtime, Step, TaskID};

fn expect_poll<F>(step: Step<Task<F>>) -> TaskGuard<Task<F>> {
    match step {
        Step::Poll(g) => g,
        _ => panic!("expected a task to poll"),
    }
}

#[test]
fn add_task_schedules_with_own_waker() {
    let mut rt = Runtime::<&'static str, 3>::new();
    assert_eq!(Ok(TaskID(0)), rt.add_task("first"));
    assert_eq!(Ok(TaskID(1)), rt.add_task("second"));
    assert!(rt.start().is_ok());

    let mut g = expect_poll(rt.next_task());
    assert_eq!(TaskID(0), g.task_id());
    assert_eq!("first", *g.task_mut().future_mut());
    assert_eq!(RWaker::new(0, TaskID(0)), *g.task().waker_ptr());
    assert!(!rt.complete_poll(g, false));

    let g = expect_poll(rt.next_task());
    assert_eq!(TaskID(1), g.task_id());
    assert_eq!(RWaker::new(0, TaskID(1)), *g.task().waker_ptr());
    assert!(!rt.complete_poll(g, true));

    assert!(matches!(rt.next_task(), Step::Idle));
}

#[test]
fn runtime_finishes_after_last_task() {
    let mut rt = Runtime::<u32, 2>::new();
    rt.add_task(1).unwrap();
    rt.add_task(2).unwrap();
    rt.start().unwrap();

    let g = expect_poll(rt.next_task());
    let waker = *g.task().waker_ptr();
    assert!(!rt.complete_poll(g, false));
    // The task wakes itself, as a yield point does.
    assert!(rt.wake(&waker).is_ok());

    let g = expect_poll(rt.next_task());
    assert_eq!(TaskID(1), g.task_id());
    assert!(!rt.complete_poll(g, true));

    let g = expect_poll(rt.next_task());
    assert_eq!(TaskID(0), g.task_id());
    assert!(rt.complete_poll(g, true));
}

#[test]
fn start_only_once() {
    let mut rt = Runtime::<u32, 2>::new();
    assert_eq!(Ok(()), rt.start());
    assert_eq!(Err(RunError::AlreadyRunning), rt.start());
}

#[test]
fn too_many_tasks_when_list_full() {
    let mut rt = Runtime::<u32, 2>::new();
    assert!(rt.add_task(1).is_ok());
    assert!(rt.add_task(2).is_ok());
    assert_eq!(Err(AddTaskError::TooManyTasks), rt.add_task(3));
}

#[test]
fn too_many_tasks_when_queue_full() {
    let mut rt = Runtime::<u32, 2>::new();
    rt.add_task(1).unwrap();
    // Wake the first task twice more so the ready queue fills up.
    assert!(rt.wake(&RWaker::new(0, TaskID(0))).is_ok());
    assert_eq!(Err(TaskID(0)), rt.wake(&RWaker::new(0, TaskID(0))));
    assert_eq!(Err(AddTaskError::TooManyTasks), rt.add_task(2));
}

#[test]
fn unavailable_when_task_already_out() {
    let mut rt = Runtime::<u32, 2>::new();
    rt.add_task(1).unwrap();
    assert!(rt.wake(&RWaker::new(0, TaskID(0))).is_ok());
    let g = expect_poll(rt.next_task());
    match rt.next_task() {
        Step::Unavailable(id) => assert_eq!(TaskID(0), id),
        _ => panic!("expected the second entry to be unavailable"),
    }
    assert!(!rt.complete_poll(g, false));
}

#[test]
fn runtime_without_tasks_finishes_at_once() {
    let mut rt = Runtime::<u32, 2>::new();
    assert!(rt.within_position_limit());
    assert!(rt.enqueue_admitted());
    assert!(rt.start().is_ok());
    assert!(matches!(rt.next_task(), Step::Finished));
    let mut empty = Runtime::<u32, 0>::new();
    assert!(!empty.has_free_slot());
    assert_eq!(Err(AddTaskError::TooManyTasks), empty.add_task(1));
    assert!(matches!(empty.next_task(), Step::Finished));
}

#[test]
fn idle_while_a_task_waits() {
    let mut rt = Runtime::<u32, 2>::new();
    rt.add_task(1).unwrap();
    let g = expect_poll(rt.next_task());
    assert!(!rt.complete_poll(g, false));
    assert!(matches!(rt.next_task(), Step::Idle));
}

#[test]
fn full_single_slot_runtime_refuses_task() {
    let mut rt = Runtime::<u32, 1>::new();
    assert_eq!(Ok(TaskID(0)), rt.add_task(1));
    assert!(!rt.has_free_slot());
    assert!(!rt.enqueue_admitted());
    assert_eq!(Err(AddTaskError::TooManyTasks), rt.add_task(2));
}
