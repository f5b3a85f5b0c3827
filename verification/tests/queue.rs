use rucoon::runtime::taskqueue::mpmc::Queue;
use rucoon::runtime::taskqueue::TaskQueue;
use rucoon::runtime::TaskID;

#[test]
fn create_queue() {
    let _queue = Queue::<usize, 10>::new();
    let _cqueue: Queue<usize, 10> = Queue::new();
}

#[test]
fn enqueue_more_than_space() {
    let mut queue = Queue::<usize, 3>::new();

    assert!(queue.sender().enqueue(0).is_ok());
    assert!(queue.sender().enqueue(1).is_ok());
    assert!(queue.sender().enqueue(2).is_ok());
    assert!(queue.sender().enqueue(3).is_err());
}

#[test]
fn dequeue_empty() {
    let mut queue = Queue::<usize, 3>::new();

    assert_eq!(Err(()), queue.dequeue());
}

#[test]
fn working_dequeue() {
    let mut queue = Queue::<usize, 3>::new();

    assert!(queue.sender().enqueue(0).is_ok());
    assert_eq!(Ok(0), queue.dequeue());
}

#[test]
fn mixed_enqueue_dequeue() {
    let mut queue = Queue::<usize, 2>::new();

    assert!(queue.sender().enqueue(0).is_ok());
    assert!(queue.sender().enqueue(1).is_ok());
    assert!(queue.sender().enqueue(2).is_err());

    assert_eq!(Ok(0), queue.dequeue());

    assert!(queue.sender().enqueue(3).is_ok());

    assert_eq!(Ok(1), queue.dequeue());
    assert_eq!(Ok(3), queue.dequeue());

    assert_eq!(Err(()), queue.dequeue());
}

#[test]
fn full_queue_hands_item_back() {
    let mut queue = Queue::<usize, 2>::new();
    assert_eq!(Ok(()), queue.sender().enqueue(7));
    assert_eq!(Ok(()), queue.sender().enqueue(8));
    assert_eq!(Err(9), queue.sender().enqueue(9));
    assert!(!queue.is_empty());
}

#[test]
fn queue_wraps_around_many_laps() {
    let mut queue = Queue::<usize, 3>::new();
    for lap in 0..10 {
        assert!(queue.sender().enqueue(lap * 2).is_ok());
        assert!(queue.sender().enqueue(lap * 2 + 1).is_ok());
        assert_eq!(Ok(lap * 2), queue.dequeue());
        assert_eq!(Ok(lap * 2 + 1), queue.dequeue());
        assert!(queue.is_empty());
    }
    assert!(queue.within_position_limit());
}

#[test]
fn single_cell_queue_round_trip() {
    let mut queue = Queue::<usize, 1>::new();
    assert!(queue.sender().enqueue(5).is_ok());
    assert_eq!(Ok(5), queue.dequeue());
    assert_eq!(Err(()), queue.dequeue());
}

#[test]
fn task_queue_fifo() {
    let mut queue = TaskQueue::<4>::new();
    assert!(queue.is_empty());
    assert!(queue.sender().enqueue(TaskID(2)).is_ok());
    assert!(queue.enqueue(TaskID(0)).is_ok());
    assert_eq!(Some(TaskID(2)), queue.dequeue());
    assert_eq!(Some(TaskID(0)), queue.dequeue());
    assert_eq!(None, queue.dequeue());
}

#[test]
fn two_senders_keep_order() {
    let mut queue = TaskQueue::<4>::new();
    let first = queue.sender();
    assert!(first.enqueue(TaskID(3)).is_ok());
    let second = queue.sender();
    assert!(second.enqueue(TaskID(1)).is_ok());
    assert!(queue.sender().enqueue(TaskID(2)).is_ok());
    assert_eq!(Some(TaskID(3)), queue.dequeue());
    assert_eq!(Some(TaskID(1)), queue.dequeue());
    assert_eq!(Some(TaskID(2)), queue.dequeue());
}
