use tracing_bridge::rotation::{
    is_rotated_name, retention_plan, should_rotate, MaxFileSize, Rotation, RotationStrategy,
};

fn names(v: &[&str]) -> Vec<String> {
    v.iter().map(|s| s.to_string()).collect()
}

#[test]
fn rotation_period_seconds() {
    assert_eq!(Rotation::Daily.period_secs(), Some(86400));
    assert_eq!(Rotation::Hourly.period_secs(), Some(3600));
    assert_eq!(Rotation::Minutely.period_secs(), Some(60));
    assert_eq!(Rotation::Never.period_secs(), None);
    assert!(matches!(Rotation::default(), Rotation::Daily));
}

#[test]
fn time_trigger_rolls_after_a_period() {
    assert!(should_rotate(Rotation::Daily, 86400, 0, None));
    assert!(!should_rotate(Rotation::Daily, 86399, 0, None));
    assert!(should_rotate(Rotation::Minutely, 60, 0, None));
    assert!(!should_rotate(Rotation::Never, u64::MAX, 0, None));
}

#[test]
fn size_trigger_rolls_past_threshold() {
    assert!(should_rotate(Rotation::Never, 0, 1025, Some(1024)));
    assert!(!should_rotate(Rotation::Never, 0, 1024, Some(1024)));
    assert!(!should_rotate(Rotation::Never, 0, 0, None));
}

#[test]
fn either_trigger_alone_suffices() {
    assert!(should_rotate(Rotation::Hourly, 3600, 0, Some(1024)));
    assert!(should_rotate(Rotation::Hourly, 0, 2048, Some(1024)));
    assert!(!should_rotate(Rotation::Hourly, 0, 0, Some(1024)));
}

#[test]
fn max_file_size_from_raw_bytes() {
    assert_eq!(MaxFileSize::from(2048).as_bytes(), 2048);
}

#[test]
fn max_file_size_units() {
    assert_eq!(MaxFileSize::bytes(123).as_bytes(), 123);
    assert_eq!(MaxFileSize::kb(10).as_bytes(), 10 * 1024);
    assert_eq!(MaxFileSize::mb(10).as_bytes(), 10 * 1024 * 1024);
    assert_eq!(MaxFileSize::gb(2).as_bytes(), 2 * 1024 * 1024 * 1024);
}

#[test]
fn rotated_name_pattern() {
    let prefix: Vec<char> = "app".chars().collect();
    let good: Vec<char> = "app.2024-01-15.log".chars().collect();
    let wrong_prefix: Vec<char> = "web.2024-01-15.log".chars().collect();
    let no_dot: Vec<char> = "app2024-01-15.log".chars().collect();
    let wrong_suffix: Vec<char> = "app.2024-01-15.txt".chars().collect();
    assert!(is_rotated_name(&good, &prefix));
    assert!(!is_rotated_name(&wrong_prefix, &prefix));
    assert!(!is_rotated_name(&no_dot, &prefix));
    assert!(!is_rotated_name(&wrong_suffix, &prefix));
}

#[test]
fn retention_keep_some_keeps_greatest_names() {
    let files = names(&[
        "app.2024-01-01.log",
        "app.2024-01-03.log",
        "notes.txt",
        "app.2024-01-02.log",
        "app.2024-01-04.log",
    ]);
    let plan = retention_plan(&files, "app", RotationStrategy::KeepSome(2));
    assert_eq!(plan.kept, names(&["app.2024-01-04.log", "app.2024-01-03.log"]));
    assert_eq!(plan.deleted, names(&["app.2024-01-02.log", "app.2024-01-01.log"]));
}

#[test]
fn retention_keep_one_keeps_newest() {
    let files = names(&["app.2024-01-01.log", "app.2024-01-02.log", "app.2024-01-03.log"]);
    let plan = retention_plan(&files, "app", RotationStrategy::KeepOne);
    assert_eq!(plan.kept, names(&["app.2024-01-03.log"]));
    assert_eq!(plan.deleted, names(&["app.2024-01-02.log", "app.2024-01-01.log"]));
}

#[test]
fn retention_keep_all_deletes_nothing() {
    let files = names(&["app.2024-01-01.log", "app.2024-01-02.log"]);
    let plan = retention_plan(&files, "app", RotationStrategy::KeepAll);
    assert_eq!(plan.kept, names(&["app.2024-01-02.log", "app.2024-01-01.log"]));
    assert!(plan.deleted.is_empty());
}

#[test]
fn retention_never_touches_unmatched_files() {
    let files = names(&["app.2024-01-01.log", "other.log", "app.old", "readme.md"]);
    let plan = retention_plan(&files, "app", RotationStrategy::KeepSome(0));
    assert!(plan.kept.is_empty());
    assert_eq!(plan.deleted, names(&["app.2024-01-01.log"]));
}

#[test]
fn retention_keeps_all_when_fewer_than_requested() {
    let files = names(&["app.2024-01-01.log", "app.2024-01-02.log"]);
    let plan = retention_plan(&files, "app", RotationStrategy::KeepSome(7));
    assert_eq!(plan.kept.len(), 2);
    assert!(plan.deleted.is_empty());
}

#[test]
fn default_retention_keeps_all() {
    assert!(matches!(
        RotationStrategy::default(),
        RotationStrategy::KeepAll
    ));
}
