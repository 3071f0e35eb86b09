use tracing_bridge::timing::TimerTable;

#[test]
fn timer_start_and_end_yield_elapsed() {
    let mut timers = TimerTable::new();
    timers.start("load", 1000);
    assert!(timers.is_running("load"));
    assert_eq!(timers.end("load", 3500), Some(2500));
    assert!(!timers.is_running("load"));
    assert_eq!(timers.end("load", 4000), None);
}

#[test]
fn timer_labels_are_independent_and_restartable() {
    let mut timers = TimerTable::new();
    timers.start("a", 10);
    timers.start("b", 20);
    timers.start("a", 30);
    assert_eq!(timers.end("a", 35), Some(5));
    assert_eq!(timers.end("b", 45), Some(25));
    assert!(!timers.is_running("a"));
    assert!(!timers.is_running("b"));
}

#[test]
fn timer_end_clamps_a_backward_clock() {
    let mut timers = TimerTable::new();
    timers.start("t", 100);
    assert_eq!(timers.end("t", 50), Some(0));
}

#[test]
fn timer_unknown_label_is_not_running() {
    let timers = TimerTable::new();
    assert!(!timers.is_running("nothing"));
}
