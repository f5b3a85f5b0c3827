use rucoon::runtime::multithreaded::MultithreadedRuntime;
use rucoon::runtime::task::Task;
use rucoon::runtime::tasklist::TaskGuard;
use rucoon::runtime::waker::RWaker;
use rucoon::runtime::{AddTaskError, RunError, Step, TaskID};
use rucoon::runtime::executor::Executor;

fn expect_poll<F>(step: Step<Task<F>>) -> TaskGuard<Task<F>> {
    match step {
        Step::Poll(g) => g,
        _ => panic!("expected a task to poll"),
    }
}

#[test]
fn new_instance() {
    let _cruntime = MultithreadedRuntime::<u32, 10, 2>::new();
}

#[test]
fn run_iter_length() {
    let runtime2 = MultithreadedRuntime::<u32, 10, 2>::new();
    assert_eq!(2, runtime2.run_iter().into_iter().fold(0, |c, _| c + 1));
}

#[test]
fn tasks_are_handed_to_executors_in_turn() {
    let mut rt = MultithreadedRuntime::<u32, 4, 2>::new();
    assert_eq!(0, rt.next_executor());
    assert_eq!(Ok(TaskID(0)), rt.add_task(10));
    assert_eq!(1, rt.next_executor());
    assert_eq!(Ok(TaskID(1)), rt.add_task(11));
    assert_eq!(0, rt.next_executor());

    let (step, cursor) = rt.next_task(0, 0);
    let g = expect_poll(step);
    assert_eq!(0, cursor);
    assert_eq!(TaskID(0), g.task_id());
    assert_eq!(RWaker::new(0, TaskID(0)), *g.task().waker_ptr());
    assert!(!rt.complete_poll(g, true));

    let (step, _) = rt.next_task(1, 0);
    let g = expect_poll(step);
    assert_eq!(TaskID(1), g.task_id());
    assert_eq!(RWaker::new(1, TaskID(1)), *g.task().waker_ptr());
    assert!(rt.complete_poll(g, true));
}

#[test]
fn idle_executor_steals() {
    let mut rt = MultithreadedRuntime::<u32, 4, 3>::new();
    rt.add_task(10).unwrap();
    rt.add_task(11).unwrap();
    rt.add_task(12).unwrap();
    // Executor 1 drains its own task, then steals from executor 2 first when
    // scanning from cursor 2.
    let (step, cursor) = rt.next_task(1, 2);
    let g = expect_poll(step);
    assert_eq!(TaskID(1), g.task_id());
    assert_eq!(2, cursor);
    assert!(!rt.complete_poll(g, true));
    let (step, cursor) = rt.next_task(1, 2);
    let g = expect_poll(step);
    assert_eq!(TaskID(2), g.task_id());
    assert_eq!(0, cursor);
    assert!(!rt.complete_poll(g, true));
    let (step, cursor) = rt.next_task(1, 0);
    let g = expect_poll(step);
    assert_eq!(TaskID(0), g.task_id());
    assert_eq!(1, cursor);
    assert!(rt.complete_poll(g, true));
    let (step, _) = rt.next_task(1, 1);
    assert!(matches!(step, Step::Finished));
}

#[test]
fn idle_when_nothing_to_steal() {
    let mut rt = MultithreadedRuntime::<u32, 4, 2>::new();
    rt.add_task(10).unwrap();
    let (step, _) = rt.next_task(0, 0);
    let g = expect_poll(step);
    let (step, cursor) = rt.next_task(1, 1);
    assert!(matches!(step, Step::Idle));
    assert_eq!(1, cursor);
    assert!(!rt.complete_poll(g, false));
    let waker = RWaker::new(0, TaskID(0));
    assert!(rt.wake(&waker).is_ok());
}

#[test]
fn executor_starts_once() {
    let mut rt = MultithreadedRuntime::<u32, 4, 2>::new();
    assert_eq!(Ok(()), rt.start_executor(1));
    assert_eq!(Err(RunError::AlreadyRunning), rt.start_executor(1));
    assert_eq!(Ok(()), rt.start_executor(0));
}

#[test]
fn multithreaded_too_many_tasks() {
    let mut rt = MultithreadedRuntime::<u32, 2, 2>::new();
    assert!(rt.add_task(1).is_ok());
    assert!(rt.add_task(2).is_ok());
    assert_eq!(Err(AddTaskError::TooManyTasks), rt.add_task(3));
}

#[test]
fn executor_ids_and_start() {
    let mut e = Executor::<4>::new(3);
    assert_eq!(3, e.get_id());
    e.set_id(5);
    assert_eq!(5, e.get_id());
    assert_eq!(Ok(()), e.start());
    assert_eq!(Err(RunError::AlreadyRunning), e.start());
    assert_eq!(None, e.dequeue());
    assert!(e.enqueue(TaskID(1)).is_ok());
    assert_eq!(Some(TaskID(1)), e.dequeue());
}

#[test]
fn full_single_slot_multithreaded_refuses_task() {
    let mut rt = MultithreadedRuntime::<u32, 1, 1>::new();
    assert_eq!(Ok(TaskID(0)), rt.add_task(1));
    assert!(!rt.has_free_slot());
    assert!(!rt.executor_accepts(rt.next_executor()));
    assert_eq!(Err(AddTaskError::TooManyTasks), rt.add_task(2));
}
