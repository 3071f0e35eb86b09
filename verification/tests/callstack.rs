use tracing_bridge::callstack::{resolve_caller, CallStack, CallStackLine};
use tracing_bridge::LogLevel;

#[test]
fn absent_stack_yields_empty_projections() {
    let stack = CallStack::new(None);
    assert_eq!(stack.location().as_str(), "");
    assert_eq!(stack.path().as_str(), "");
    assert_eq!(stack.file_name().as_str(), "");
}

#[test]
fn empty_stack_yields_empty_projections() {
    let stack = CallStack::new(Some(""));
    assert_eq!(stack.location().as_str(), "");
    assert_eq!(stack.path().as_str(), "");
    assert_eq!(stack.file_name().as_str(), "");
}

#[test]
fn line_default_is_unknown() {
    assert_eq!(CallStackLine::default().as_str(), "unknown");
    assert_eq!(CallStackLine::from_option(None).as_str(), "unknown");
}

#[test]
fn line_from_text_keeps_it() {
    assert_eq!(CallStackLine::from_option(Some("at foo")).as_str(), "at foo");
    assert_eq!(CallStackLine::new("at bar").as_str(), "at bar");
}

#[test]
fn two_frame_stack_projections() {
    let stack = CallStack::new(Some(
        "Error\n    at foo (src/app.ts:10:5)\n    at bar (src/lib.ts:20:3)",
    ));
    assert_eq!(
        stack.location().as_str(),
        "Error#    at foo (src/app.ts:10:5)#    at bar (src/lib.ts:20:3)"
    );
    assert_eq!(stack.path().as_str(), "    at bar (src/lib.ts:20:3)");
    assert_eq!(stack.file_name().as_str(), "lib.ts:20:3)");
}

#[test]
fn vendored_dependency_frames_are_excluded() {
    let stack = CallStack::new(Some(
        "at a (src/a.ts:1:1)\nat b (node_modules/lib/x.js:2:2)\nat c (src/c.ts:3:3)",
    ));
    assert_eq!(
        stack.location().as_str(),
        "at a (src/a.ts:1:1)#at c (src/c.ts:3:3)"
    );
}

#[test]
fn native_code_frames_are_excluded() {
    let stack = CallStack::new(Some("at a (src/a.ts:1:1)\nforEach@[native code]"));
    assert_eq!(stack.location().as_str(), "at a (src/a.ts:1:1)");
}

#[test]
fn localhost_prefix_is_stripped() {
    let stack = CallStack::new(Some(
        "info@http://localhost:1420/src/utils/logger.ts:42:5",
    ));
    assert_eq!(stack.location().as_str(), "src/utils/logger.ts:42:5");
}

#[test]
fn localhost_prefix_only_first_slash_counts() {
    let stack = CallStack::new(Some("x localhost:80/a/b/c"));
    assert_eq!(stack.location().as_str(), "a/b/c");
}

#[test]
fn line_without_localhost_is_kept_whole() {
    let stack = CallStack::new(Some("at main (app.ts:1:1)"));
    assert_eq!(stack.location().as_str(), "at main (app.ts:1:1)");
}

#[test]
fn resolve_caller_picks_projection_by_severity() {
    let raw = "Error\n    at foo (http://localhost:1420/src/app.ts:10:5)\n    at bar (http://localhost:1420/src/lib.ts:20:3)";
    let stack = CallStack::new(Some(raw));
    let location = "Error#src/app.ts:10:5)#src/lib.ts:20:3)";
    assert_eq!(resolve_caller(LogLevel::Trace, &stack).as_str(), location);
    assert_eq!(resolve_caller(LogLevel::Error, &stack).as_str(), location);
    assert_eq!(
        resolve_caller(LogLevel::Debug, &stack).as_str(),
        "src/lib.ts:20:3)"
    );
    assert_eq!(
        resolve_caller(LogLevel::Warn, &stack).as_str(),
        "src/lib.ts:20:3)"
    );
    assert_eq!(
        resolve_caller(LogLevel::Info, &stack).as_str(),
        "lib.ts:20:3)"
    );
}

#[test]
fn garbage_input_degrades_to_garbage_lines() {
    let stack = CallStack::new(Some("\u{fffd}\u{0000}x\n\n::"));
    assert_eq!(stack.location().as_str(), "\u{fffd}\u{0000}x##::");
    assert_eq!(stack.path().as_str(), "::");
}

#[test]
fn line_replace_rewrites_occurrences() {
    let line = CallStackLine::new("aaa and aa");
    assert_eq!(line.replace("aa", "b").as_str(), "ba and b");
    assert_eq!(line.replace("zz", "b").as_str(), "aaa and aa");
    let line2 = CallStackLine::new("abc");
    assert_eq!(line2.replace("", "-").as_str(), "-a-b-c-");
}

#[test]
fn from_option_string_parses_like_new() {
    let owned = Some(String::from("a\nb"));
    let stack = CallStack::from_option_string(&owned);
    assert_eq!(stack.location().as_str(), "a#b");
    let none = CallStack::from_option_string(&None);
    assert_eq!(none.location().as_str(), "");
}
