use std::sync::atomic::{AtomicUsize, Ordering};
use std::sync::Arc;
use std::time::Duration;

use rucoon::extensions::testing::TestWaker;
use rucoon::extensions::time::{sleep, EntryID, Sleep, Timer};

fn wake_fired(timer: &Timer<TestWaker, 10, 128>, fired: Vec<EntryID>) {
    for id in fired {
        timer.waker(id).unwrap().wake_by_ref();
    }
}

#[test]
fn new_timer() {
    let _ = Timer::<TestWaker, 10, 128>::new(10);
}

#[test]
fn timer_register() {
    let counter = Arc::new(AtomicUsize::new(0));

    let waker = TestWaker::new(counter.clone());

    let mut timer = Timer::<TestWaker, 10, 128>::new(10);

    let id = timer.register_timer(30, waker);
    assert_eq!(EntryID { slot: 2, task: 0 }, id);
}

#[test]
fn timer_register_and_fire() {
    let counter = Arc::new(AtomicUsize::new(0));

    let waker = TestWaker::new(counter.clone());

    let mut timer = Timer::<TestWaker, 10, 128>::new(10);

    let id = timer.register_timer(30, waker);

    let fired = timer.update();
    wake_fired(&timer, fired);
    let fired = timer.update();
    wake_fired(&timer, fired);
    let fired = timer.update();
    wake_fired(&timer, fired);

    assert_eq!(1, counter.load(Ordering::SeqCst));
    assert_eq!(true, id.has_fired(&timer));
}

#[test]
fn create_sleep() {
    let _timer = Timer::<TestWaker, 10, 128>::new(10);

    let _ = Sleep::new(Duration::from_millis(100).as_millis());
}

#[test]
fn timer_fires_on_exact_update_only() {
    let counter = Arc::new(AtomicUsize::new(0));
    let mut timer = Timer::<TestWaker, 10, 128>::new(10);
    let id = timer.register_timer(50, TestWaker::new(counter.clone()));
    for _ in 0..4 {
        let fired = timer.update();
        assert!(fired.is_empty());
        assert!(!id.has_fired(&timer));
    }
    let fired = timer.update();
    assert_eq!(vec![id], fired);
    wake_fired(&timer, fired);
    assert!(id.has_fired(&timer));
    for _ in 0..300 {
        let fired = timer.update();
        assert!(fired.is_empty());
    }
    assert_eq!(1, counter.load(Ordering::SeqCst));
}

#[test]
fn timers_round_down_to_interval() {
    let counter = Arc::new(AtomicUsize::new(0));
    let mut timer = Timer::<TestWaker, 10, 128>::new(10);
    let a = timer.register_timer(10, TestWaker::new(counter.clone()));
    let b = timer.register_timer(12, TestWaker::new(counter.clone()));
    let c = timer.register_timer(15, TestWaker::new(counter.clone()));
    let d = timer.register_timer(19, TestWaker::new(counter.clone()));
    assert_eq!(EntryID { slot: 0, task: 0 }, a);
    assert_eq!(EntryID { slot: 0, task: 3 }, d);
    let fired = timer.update();
    assert_eq!(vec![a, b, c, d], fired);
    wake_fired(&timer, fired);
    assert_eq!(4, counter.load(Ordering::SeqCst));
}

#[test]
fn long_timer_waits_laps() {
    let counter = Arc::new(AtomicUsize::new(0));
    let mut timer = Timer::<TestWaker, 2, 4>::new(1);
    let id = timer.register_timer(10, TestWaker::new(counter.clone()));
    assert_eq!(EntryID { slot: 1, task: 0 }, id);
    for _ in 0..9 {
        assert!(timer.update().is_empty());
    }
    assert_eq!(vec![id], timer.update());
    assert!(id.has_fired(&timer));
}

#[test]
fn slot_full_cannot_register() {
    let counter = Arc::new(AtomicUsize::new(0));
    let mut timer = Timer::<TestWaker, 1, 4>::new(10);
    assert!(timer.can_register(20));
    timer.register_timer(20, TestWaker::new(counter.clone()));
    assert!(!timer.can_register(20));
    assert!(!timer.can_register(5));
    assert!(timer.can_register(30));
}

#[test]
fn clear_frees_entry() {
    let counter = Arc::new(AtomicUsize::new(0));
    let mut timer = Timer::<TestWaker, 1, 4>::new(10);
    let mut id = timer.register_timer(20, TestWaker::new(counter.clone()));
    assert!(!timer.can_register(20));
    id.clear(&mut timer);
    assert!(timer.can_register(20));
    assert!(timer.waker(id).is_none());
    timer.update();
    assert!(timer.update().is_empty());
}

#[test]
fn sleep_polls_pending_then_ready() {
    let counter = Arc::new(AtomicUsize::new(0));
    let mut timer = Timer::<TestWaker, 10, 128>::new(10);
    let mut s = sleep(Duration::from_millis(20).as_millis());
    assert!(s.entry_id().is_none());
    assert!(!s.poll(&mut timer, TestWaker::new(counter.clone())));
    let id = s.entry_id().unwrap();
    assert_eq!(EntryID { slot: 1, task: 0 }, id);
    assert!(timer.update().is_empty());
    let fired = timer.update();
    wake_fired(&timer, fired);
    assert_eq!(1, counter.load(Ordering::SeqCst));
    assert!(s.poll(&mut timer, TestWaker::new(counter.clone())));
    s.cancel(&mut timer);
    assert!(timer.waker(id).is_none());
}

#[test]
fn spurious_sleep_poll_is_pending_and_changes_nothing() {
    let counter = Arc::new(AtomicUsize::new(0));
    let mut timer = Timer::<TestWaker, 10, 128>::new(10);
    let mut s = Sleep::new(30);
    assert!(!s.poll(&mut timer, TestWaker::new(counter.clone())));
    let id = s.entry_id().unwrap();
    assert!(!s.poll(&mut timer, TestWaker::new(counter.clone())));
    assert_eq!(Some(id), s.entry_id());
    timer.update();
    timer.update();
    assert!(!s.poll(&mut timer, TestWaker::new(counter.clone())));
    let fired = timer.update();
    assert_eq!(vec![id], fired);
    assert!(s.poll(&mut timer, TestWaker::new(counter.clone())));
}

#[test]
fn cleared_timer_never_fires() {
    let counter = Arc::new(AtomicUsize::new(0));
    let mut timer = Timer::<TestWaker, 2, 4>::new(10);
    let mut id = timer.register_timer(20, TestWaker::new(counter.clone()));
    id.clear(&mut timer);
    assert!(!id.has_fired(&timer));
    for _ in 0..20 {
        assert!(timer.update().is_empty());
    }
    id.clear(&mut timer);
    assert!(!id.has_fired(&timer));
}
