use codemode::events::{millis_of, pause, Pause, Timers};

#[test]
fn timers_run_in_order_once_due() {
    let mut timers = Timers::new();
    timers.insert(3_000_000, "c");
    timers.insert(1_000_000, "a");
    timers.insert(2_000_000, "b");
    assert_eq!(timers.len(), 3);
    assert_eq!(timers.next_due_ms(), Some(1));
    assert!(timers.take_due(1_000_000).is_empty());
    let due = timers.take_due(2_000_001);
    assert_eq!(due, [(1_000_000, "a"), (2_000_000, "b")]);
    assert_eq!(timers.next_due_ms(), Some(3));
    assert_eq!(timers.take_due(u128::MAX), [(3_000_000, "c")]);
    assert_eq!(timers.next_due_ms(), None);
    assert!(timers.take_due(u128::MAX).is_empty());
}

#[test]
fn same_instant_holds_one_job() {
    let mut timers = Timers::new();
    timers.insert(5, "first");
    timers.insert(4, "other");
    timers.insert(5, "second");
    assert_eq!(timers.take_due(10), [(4, "other"), (5, "second")]);
}

#[test]
fn cancelled_jobs_are_dropped() {
    let mut timers = Timers::new();
    for i in 0..4u32 {
        timers.insert(i as u128, i);
    }
    assert_eq!(timers.job(2), Some(&2));
    assert_eq!(timers.job(4), None);
    timers.retain(&vec![true, false, false, true]);
    // A job without a flag is kept.
    timers.retain(&vec![true]);
    assert_eq!(timers.take_due(10), [(0, 0), (3, 3)]);
}

#[test]
fn instants_are_shown_in_milliseconds() {
    assert_eq!(millis_of(1_999_999), 1);
    assert_eq!(millis_of(0), 0);
    assert_eq!(
        millis_of(u128::MAX),
        ((u128::MAX / 1_000_000) % (1u128 << 64)) as u64
    );
}

#[test]
fn the_loop_waits_for_what_is_left() {
    assert_eq!(pause(false, false, None, 5), Pause::Done);
    assert_eq!(pause(true, false, None, 5), Pause::Yield);
    assert_eq!(pause(true, true, Some(9), 5), Pause::Yield);
    assert_eq!(pause(false, true, None, 5), Pause::Job);
    assert_eq!(pause(false, true, Some(9), 5), Pause::JobOrSleep(4));
    assert_eq!(pause(false, false, Some(9), 5), Pause::Sleep(4));
    assert_eq!(pause(false, false, Some(3), 5), Pause::Sleep(0));
    assert_eq!(pause(false, true, Some(5), 5), Pause::JobOrSleep(0));
}
