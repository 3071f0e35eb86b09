use tracing_bridge::config::{Builder, FormatOptions, LogFormat, Target, TimezoneStrategy};
use tracing_bridge::rotation::MaxFileSize;
use tracing_bridge::filter::TargetFilter;
use tracing_bridge::message::{LogMessage, RecordPayload};
use tracing_bridge::LogLevel;

#[test]
fn level_default_is_info() {
    assert!(matches!(LogLevel::default(), LogLevel::Info));
}

#[test]
fn level_numbers_ascend_from_one() {
    assert_eq!(LogLevel::Trace.to_number(), 1);
    assert_eq!(LogLevel::Debug.to_number(), 2);
    assert_eq!(LogLevel::Info.to_number(), 3);
    assert_eq!(LogLevel::Warn.to_number(), 4);
    assert_eq!(LogLevel::Error.to_number(), 5);
}

#[test]
fn level_number_round_trips() {
    for level in [
        LogLevel::Trace,
        LogLevel::Debug,
        LogLevel::Info,
        LogLevel::Warn,
        LogLevel::Error,
    ] {
        assert_eq!(LogLevel::from_number(level.to_number()), Some(level));
    }
    assert_eq!(LogLevel::from_number(0), None);
    assert_eq!(LogLevel::from_number(6), None);
}

#[test]
fn severity_ordering_matches_numbers() {
    assert!(LogLevel::Error.at_least(LogLevel::Warn));
    assert!(LogLevel::Warn.at_least(LogLevel::Warn));
    assert!(!LogLevel::Info.at_least(LogLevel::Warn));
}

#[test]
fn filter_default_applies_to_unmatched_targets() {
    let filter = TargetFilter::new(LogLevel::Warn);
    assert!(matches!(filter.effective_level("anything"), LogLevel::Warn));
    assert!(filter.enabled("anything", LogLevel::Error));
    assert!(filter.enabled("anything", LogLevel::Warn));
    assert!(!filter.enabled("anything", LogLevel::Info));
}

#[test]
fn filter_most_specific_prefix_wins() {
    let filter = TargetFilter::new(LogLevel::Warn)
        .with_target("app", LogLevel::Info)
        .with_target("app::db", LogLevel::Trace);
    assert!(matches!(filter.effective_level("app::ui"), LogLevel::Info));
    assert!(matches!(
        filter.effective_level("app::db::pool"),
        LogLevel::Trace
    ));
    assert!(matches!(filter.effective_level("hyper"), LogLevel::Warn));
    assert!(filter.enabled("app::db::pool", LogLevel::Trace));
    assert!(filter.enabled("app::ui", LogLevel::Info));
    assert!(!filter.enabled("app::ui", LogLevel::Debug));
}

#[test]
fn filter_repeated_rule_replaces_earlier_one() {
    let filter = TargetFilter::new(LogLevel::Error)
        .with_target("abc", LogLevel::Info)
        .with_target("abc", LogLevel::Trace);
    assert!(matches!(filter.effective_level("abcdef"), LogLevel::Trace));
    assert!(matches!(filter.effective_level("abc"), LogLevel::Trace));
}

#[test]
fn filter_clear_targets_drops_rules() {
    let filter = TargetFilter::new(LogLevel::Warn)
        .with_target("app", LogLevel::Trace)
        .clear_targets();
    assert!(matches!(filter.effective_level("app"), LogLevel::Warn));
}

#[test]
fn builder_defaults() {
    let b = Builder::new();
    assert_eq!(b.targets.len(), 2);
    assert!(matches!(b.targets[0], Target::Stdout));
    assert!(matches!(b.targets[1], Target::Webview));
    assert!(!b.colors);
    assert!(b.strip_ansi_files);
    assert!(!b.install_default);
    assert!(matches!(b.timezone, TimezoneStrategy::Utc));
    let opts = FormatOptions::default();
    assert!(matches!(opts.format, LogFormat::Full));
    assert!(opts.target && opts.level);
    assert!(!opts.file && !opts.line_number && !opts.thread_ids && !opts.thread_names);
}

#[test]
fn builder_console_color_granted_without_file_sink() {
    let config = Builder::new().with_colors().build();
    assert!(config.console_ansi);
}

#[test]
fn builder_console_color_granted_with_stripped_file_sink() {
    let config = Builder::new().with_colors().with_file_logging().build();
    assert!(config.console_ansi);
}

#[test]
fn builder_console_color_denied_with_raw_file_sink() {
    let config = Builder::new()
        .with_colors()
        .with_file_logging()
        .with_ansi_stripper(false)
        .build();
    assert!(!config.console_ansi);
}

#[test]
fn builder_filter_reaches_config() {
    let config = Builder::new()
        .with_max_level(LogLevel::Debug)
        .with_target("noisy", LogLevel::Error)
        .build();
    assert!(config.event_enabled("app", LogLevel::Debug));
    assert!(!config.event_enabled("noisy::module", LogLevel::Warn));
    assert!(config.event_enabled("noisy::module", LogLevel::Error));
}

#[test]
fn builder_sweep_skipped_under_size_rotation() {
    let with_size = Builder::new()
        .with_max_file_size(MaxFileSize::mb(10))
        .build();
    assert!(!with_size.sweep_enabled());
    let without = Builder::new().build();
    assert!(without.sweep_enabled());
}

#[test]
fn builder_target_list_edits() {
    let b = Builder::new()
        .clear_targets()
        .target(Target::Stderr)
        .target(Target::Webview);
    assert_eq!(b.targets.len(), 2);
    assert!(matches!(b.targets[0], Target::Stderr));
}

#[test]
fn message_joins_parts_with_comma() {
    let msg = LogMessage::new(vec!["a".to_string(), "b".to_string(), "c".to_string()]);
    assert_eq!(msg.joined(), "a, b, c");
    let one = LogMessage::new(vec!["only".to_string()]);
    assert_eq!(one.joined(), "only");
    let none = LogMessage::new(Vec::new());
    assert_eq!(none.joined(), "");
}

#[test]
fn record_payload_carries_joined_message_and_level() {
    let msg = LogMessage::new(vec!["x".to_string(), "y".to_string()]);
    let payload = RecordPayload::new(&msg, LogLevel::Warn);
    assert_eq!(payload.message, "x, y");
    assert_eq!(payload.level_number(), 4);
}
