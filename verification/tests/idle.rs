use polite_crawler::idle::IdleCounter;

#[test]
fn new_counter_is_idle() {
    let counter = IdleCounter::new();
    assert_eq!(counter.active(), 0);
    assert!(counter.is_idle());
}

#[test]
fn wait_on_an_idle_counter_is_ready_at_once() {
    let mut counter = IdleCounter::new();
    assert!(counter.wait());
    counter.increment();
    // Nobody was registered by the ready poll, so nobody is woken.
    assert!(!counter.decrement());
}

#[test]
fn increments_and_decrements_are_counted() {
    let mut counter = IdleCounter::new();
    counter.increment();
    counter.increment();
    counter.increment();
    assert_eq!(counter.active(), 3);
    assert!(!counter.is_idle());
    counter.decrement();
    assert_eq!(counter.active(), 2);
}

#[test]
fn waiter_is_woken_by_the_last_decrement_only() {
    let mut counter = IdleCounter::new();
    counter.increment();
    counter.increment();
    assert!(!counter.wait());
    assert!(!counter.decrement());
    assert!(counter.decrement());
    assert!(counter.is_idle());
    assert!(counter.wait());
}

#[test]
fn decrement_without_waiter_wakes_nobody() {
    let mut counter = IdleCounter::new();
    counter.increment();
    assert!(!counter.decrement());
    assert!(counter.is_idle());
}

#[test]
fn force_wake_resets_the_count_and_wakes_the_waiter() {
    let mut counter = IdleCounter::new();
    counter.increment();
    counter.increment();
    assert!(!counter.wait());
    assert!(counter.force_wake());
    assert_eq!(counter.active(), 0);
    assert!(counter.wait());
}

#[test]
fn force_wake_without_waiter_wakes_nobody() {
    let mut counter = IdleCounter::new();
    counter.increment();
    assert!(!counter.force_wake());
    assert!(counter.is_idle());
}

#[test]
fn a_second_poll_keeps_the_one_waiter() {
    let mut counter = IdleCounter::new();
    counter.increment();
    assert!(!counter.wait());
    assert!(!counter.wait());
    assert!(counter.decrement());
}
