use rucoon::futures::{yield_now, Yielder};

#[test]
fn yielder_pending_once_then_ready() {
    let mut y = yield_now();
    assert!(!y.poll());
    assert!(y.poll());
    assert!(y.poll());
}

#[test]
fn yielder_default_is_fresh() {
    let mut y = Yielder::default();
    assert!(!y.poll());
    let mut z = Yielder::new();
    assert!(!z.poll());
}
