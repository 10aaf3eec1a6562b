use file_server::admission::{Admission, MAX_ACTIVE, POLL_INTERVAL_MS};

#[test]
fn cap_refuses_one_past_the_limit_until_one_finishes() {
    let n = 3;
    let mut slots = Admission::new(n);
    for id in 0..n as u64 {
        assert!(slots.has_room());
        assert!(slots.enter(id));
    }
    assert_eq!(slots.active_count(), n);
    assert!(!slots.has_room());
    assert!(!slots.enter(99));
    assert_eq!(slots.active_count(), n);
    slots.prune(&vec![1]);
    assert_eq!(slots.active_count(), n - 1);
    assert!(slots.enter(99));
    assert_eq!(slots.active_count(), n);
}

#[test]
fn cap_refuses_an_active_id() {
    let mut slots = Admission::new(5);
    assert!(slots.enter(7));
    assert!(!slots.enter(7));
    assert_eq!(slots.active_count(), 1);
}

#[test]
fn prune_ignores_unknown_ids() {
    let mut slots = Admission::new(4);
    slots.enter(1);
    slots.enter(2);
    slots.prune(&vec![5, 2, 9]);
    assert_eq!(slots.active_count(), 1);
    assert!(!slots.enter(1));
    assert!(slots.enter(2));
}

#[test]
fn default_limits() {
    assert_eq!(MAX_ACTIVE, 10);
    assert_eq!(POLL_INTERVAL_MS, 100);
    let slots = Admission::new(MAX_ACTIVE);
    assert_eq!(slots.limit(), 10);
    assert_eq!(slots.active_count(), 0);
}
