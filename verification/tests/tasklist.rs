use rucoon::runtime::task::Task;
use rucoon::runtime::tasklist::status::{AtomicStatus, SlotStatus};
use rucoon::runtime::tasklist::TaskList;
use rucoon::runtime::waker::RWaker;
use rucoon::runtime::TaskID;

async fn example_func() {}

#[test]
fn create_list() {
    let _ = TaskList::<Task<()>, 10>::new();
}

#[test]
fn add_get_task() {
    let mut list = TaskList::<Task<_>, 1>::new();

    let id_res = list.add_task(Task::new(example_func(), RWaker::new(0, TaskID(0))));

    assert!(id_res.is_ok());
    let id = id_res.unwrap();
    assert_eq!(0, id.0);

    let guard_res = list.get_task(id.clone());
    assert!(guard_res.is_some());
}

#[test]
fn add_multiple_tasks() {
    let mut list = TaskList::<Task<_>, 3>::new();

    assert!(list
        .add_task(Task::new(example_func(), RWaker::new(0, TaskID(0))))
        .is_ok());
    assert!(list
        .add_task(Task::new(example_func(), RWaker::new(0, TaskID(0))))
        .is_ok());
    assert!(list
        .add_task(Task::new(example_func(), RWaker::new(0, TaskID(0))))
        .is_ok());
}

#[test]
fn add_to_many_tasks() {
    let mut list = TaskList::<Task<_>, 1>::new();

    assert!(list
        .add_task(Task::new(example_func(), RWaker::new(0, TaskID(0))))
        .is_ok());
    assert!(list
        .add_task(Task::new(example_func(), RWaker::new(0, TaskID(0))))
        .is_err());
}

#[test]
fn get_multiple_guards() {
    let mut list = TaskList::<Task<_>, 1>::new();

    let id_res = list.add_task(Task::new(example_func(), RWaker::new(0, TaskID(0))));

    assert!(id_res.is_ok());
    let id = id_res.unwrap();
    assert_eq!(0, id.0);

    let first_guard_res = list.get_task(id.clone());
    assert!(first_guard_res.is_some());

    let second_guard_res = list.get_task(id.clone());
    assert!(second_guard_res.is_none());

    list.release(first_guard_res.unwrap());

    let third_guard_res = list.get_task(id.clone());
    assert!(third_guard_res.is_some());
}

#[test]
fn add_fills_first_empty_slot() {
    let mut list = TaskList::<u32, 3>::new();
    assert_eq!(Ok(TaskID(0)), list.add_task(10));
    assert_eq!(Ok(TaskID(1)), list.add_task(11));
    assert_eq!(Ok(TaskID(2)), list.add_task(12));
    assert_eq!(Err(()), list.add_task(13));
}

#[test]
fn guard_gives_stored_task_and_release_keeps_changes() {
    let mut list = TaskList::<u32, 2>::new();
    let id = list.add_task(40).unwrap();
    let mut guard = list.get_task(id).unwrap();
    assert_eq!(40, *guard.task());
    assert_eq!(id, guard.task_id());
    *guard.task_mut() = 41;
    list.release(guard);
    let guard = list.get_task(id).unwrap();
    assert_eq!(41, *guard.task());
}

#[test]
fn get_task_out_of_range_or_empty() {
    let mut list = TaskList::<u32, 2>::new();
    assert!(list.get_task(TaskID(0)).is_none());
    assert!(list.get_task(TaskID(5)).is_none());
}

#[test]
fn status_codes() {
    assert_eq!(0, SlotStatus::Empty.to_u8());
    assert_eq!(1, SlotStatus::Locked.to_u8());
    assert_eq!(2, SlotStatus::Stored.to_u8());
    assert_eq!(3, SlotStatus::Accessed.to_u8());
    for raw in 0..4u8 {
        assert_eq!(raw, SlotStatus::from_u8(raw).to_u8());
    }
}

#[test]
fn atomic_status_compare_exchange() {
    let mut status = AtomicStatus::new(SlotStatus::Empty);
    assert_eq!(Ok(SlotStatus::Empty), status.compare_exchange(SlotStatus::Empty, SlotStatus::Locked));
    assert_eq!(Err(SlotStatus::Locked), status.compare_exchange(SlotStatus::Empty, SlotStatus::Stored));
    assert_eq!(SlotStatus::Locked, status.load());
    status.store(SlotStatus::Accessed);
    assert_eq!(SlotStatus::Accessed, status.load());
}
