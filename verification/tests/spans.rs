use tracing_bridge::folded::simplify_thread_names;
use tracing_bridge::span_timing::{
    analyze_span_events, truncate_span_name, SpanEvent, SpanEventType, SpanTimingCapture,
};

fn ev(name: &str, ty: SpanEventType, ts: u64) -> SpanEvent {
    SpanEvent {
        name: name.to_string(),
        span_id: 1,
        parent_id: 0,
        event_type: ty,
        timestamp_us: ts,
        thread_id: 7,
    }
}

#[test]
fn capture_records_only_while_active() {
    let mut capture = SpanTimingCapture::new();
    assert!(!capture.is_capturing());
    capture.record_event("a".to_string(), 1, 0, SpanEventType::Enter, 10, 1);
    assert!(capture.stop_capture().is_empty());

    capture.start_capture(100);
    assert!(capture.is_capturing());
    capture.record_event("a".to_string(), 1, 0, SpanEventType::Enter, 110, 1);
    capture.record_event("a".to_string(), 1, 0, SpanEventType::Exit, 125, 1);
    let events = capture.stop_capture();
    assert_eq!(events.len(), 2);
    assert_eq!(events[0].name, "a");
    // Timestamps are measured from the capture-start origin.
    assert_eq!(events[0].timestamp_us, 10);
    assert_eq!(events[1].timestamp_us, 25);
    assert!(matches!(events[1].event_type, SpanEventType::Exit));
    assert!(!capture.is_capturing());
    assert!(capture.stop_capture().is_empty());
}

#[test]
fn capture_restart_resets_the_clock() {
    let mut capture = SpanTimingCapture::new();
    capture.start_capture(50);
    capture.record_event("x".to_string(), 1, 0, SpanEventType::Enter, 60, 1);
    capture.start_capture(200);
    capture.record_event("x".to_string(), 1, 0, SpanEventType::Enter, 230, 1);
    let events = capture.stop_capture();
    assert_eq!(events.len(), 1);
    assert_eq!(events[0].timestamp_us, 30);
}

#[test]
fn capture_ids_count_up() {
    let mut capture = SpanTimingCapture::new();
    assert_eq!(capture.next_id(), 1);
    assert_eq!(capture.next_id(), 2);
    assert_eq!(capture.next_id(), 3);
}

#[test]
fn analyze_aggregates_per_span_totals() {
    let events = vec![
        ev("a", SpanEventType::Enter, 0),
        ev("b", SpanEventType::Enter, 50),
        ev("a", SpanEventType::Exit, 100),
    ];
    let spans = analyze_span_events(&events, 200);
    assert_eq!(spans.len(), 2);
    // "b" stays open to the end of the profile and accumulates more time.
    assert_eq!(spans[0].name, "b");
    assert_eq!(spans[0].total_time_us, 150);
    assert_eq!(spans[0].enter_count, 1);
    assert_eq!(spans[1].name, "a");
    assert_eq!(spans[1].total_time_us, 100);
    assert_eq!(spans[1].enter_count, 1);
}

#[test]
fn analyze_counts_reentries_and_ignores_unmatched_exits() {
    let events = vec![
        ev("x", SpanEventType::Exit, 5),
        ev("x", SpanEventType::Enter, 10),
        ev("x", SpanEventType::Close, 30),
        ev("x", SpanEventType::Enter, 40),
        ev("x", SpanEventType::Exit, 45),
    ];
    let spans = analyze_span_events(&events, 1000);
    assert_eq!(spans.len(), 1);
    assert_eq!(spans[0].total_time_us, 25);
    assert_eq!(spans[0].enter_count, 2);
}

#[test]
fn analyze_empty_events_yield_nothing() {
    let spans = analyze_span_events(&Vec::new(), 500);
    assert!(spans.is_empty());
}

#[test]
fn truncate_keeps_short_names() {
    assert_eq!(truncate_span_name("short", 50), "short");
    assert_eq!(truncate_span_name("abc", 3), "abc");
}

#[test]
fn truncate_keeps_tail_of_long_names() {
    assert_eq!(truncate_span_name("abcdefgh", 5), "...gh");
    assert_eq!(
        truncate_span_name("app::module::function", 12),
        "...:function"
    );
}

#[test]
fn simplify_consolidates_tokio_workers() {
    assert_eq!(
        simplify_thread_names("ThreadId(22)-tokio-runtime-worker;span1;span2 123"),
        "tokio-worker;span1;span2 123"
    );
    assert_eq!(
        simplify_thread_names("ThreadId(3)-tokio-runtime-worker 7"),
        "tokio-worker 7"
    );
}

#[test]
fn simplify_drops_thread_id_of_named_threads() {
    assert_eq!(simplify_thread_names("ThreadId(4)-main;work 9"), "main;work 9");
}

#[test]
fn simplify_leaves_plain_lines_alone() {
    assert_eq!(simplify_thread_names("main;span 42"), "main;span 42");
    assert_eq!(simplify_thread_names("no-count-here"), "no-count-here");
    assert_eq!(simplify_thread_names("ThreadId(9)broken 1"), "ThreadId(9)broken 1");
}
