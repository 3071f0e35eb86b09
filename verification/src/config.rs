//! Sink configuration: output destinations, format options, and the fluent
//! builder that freezes them into one dispatch configuration.

use vstd::prelude::*;

use crate::LogLevel;
use crate::filter::TargetFilter;
use crate::rotation::{MaxFileSize, Rotation, RotationStrategy};

verus! {

/// A log output destination.
#[derive(Debug, Clone)]
pub enum Target {
    /// Print logs to stdout.
    Stdout,
    /// Print logs to stderr.
    Stderr,
    /// Forward logs to the frontend event channel.
    Webview,
    /// Write logs to the platform-standard log directory, under the given
    /// file-name prefix (`app` when absent).
    LogDir { file_name: Option<String> },
    /// Write logs to the given directory, under the given file-name prefix
    /// (`app` when absent).
    Folder { path: String, file_name: Option<String> },
}

/// A target that writes to a file on disk.
pub open spec fn is_file_target(t: Target) -> bool {
    match t {
        Target::LogDir { .. } => true,
        Target::Folder { .. } => true,
        _ => false,
    }
}

/// Some configured target writes to a file.
pub open spec fn spec_has_file_target(ts: Seq<Target>) -> bool {
    exists|i: int| 0 <= i < ts.len() && is_file_target(#[trigger] ts[i])
}

/// Log output format style.
#[derive(Debug, Clone, Copy, PartialEq, Eq, Structural)]
pub enum LogFormat {
    /// Everything on a single line.
    Full,
    /// A compact single-line format.
    Compact,
    /// A multi-line human-readable format for development.
    Pretty,
}

impl Default for LogFormat {
    /// The default style is `Full`.
    fn default() -> (r: Self)
        ensures
            r == LogFormat::Full,
    {
        LogFormat::Full
    }
}

/// Which pieces of information each log line carries.
#[derive(Debug, Clone, Copy, PartialEq, Eq, Structural)]
pub struct FormatOptions {
    /// The overall format style.
    pub format: LogFormat,
    /// Show the source file path.
    pub file: bool,
    /// Show the source line number.
    pub line_number: bool,
    /// Show thread ids.
    pub thread_ids: bool,
    /// Show thread names.
    pub thread_names: bool,
    /// Show the log target.
    pub target: bool,
    /// Show the severity level.
    pub level: bool,
}

/// The default format options: only the target and the level are shown, in
/// the `Full` style.
pub open spec fn spec_default_format() -> FormatOptions {
    FormatOptions {
        format: LogFormat::Full,
        file: false,
        line_number: false,
        thread_ids: false,
        thread_names: false,
        target: true,
        level: true,
    }
}

impl Default for FormatOptions {
    /// By default only the target and the level are shown, in the `Full`
    /// style.
    fn default() -> (r: Self)
        ensures
            r == spec_default_format(),
    {
        FormatOptions {
            format: LogFormat::Full,
            file: false,
            line_number: false,
            thread_ids: false,
            thread_names: false,
            target: true,
            level: true,
        }
    }
}

/// Timezone strategy for log timestamps.
#[derive(Debug, Clone, Copy, PartialEq, Eq, Structural)]
pub enum TimezoneStrategy {
    /// UTC timestamps.
    Utc,
    /// Local timestamps, falling back to UTC when the local offset cannot
    /// be determined.
    Local,
}

impl Default for TimezoneStrategy {
    /// The default timezone is UTC.
    fn default() -> (r: Self)
        ensures
            r == TimezoneStrategy::Utc,
    {
        TimezoneStrategy::Utc
    }
}

/// The fluent configuration builder. Calls accumulate sinks, filter rules,
/// rotation, retention, format and timezone choices; `build` freezes them.
///
/// The default sink set is console plus frontend-forward; file logging and
/// other sinks are strictly additive opt-ins.
#[derive(Debug, Clone)]
pub struct Builder {
    /// The configured output destinations.
    pub targets: Vec<Target>,
    /// The unified severity/target filter.
    pub filter: TargetFilter,
    /// The time-based rotation period for file sinks.
    pub rotation: Rotation,
    /// The size threshold for file rotation, if any.
    pub max_file_size: Option<MaxFileSize>,
    /// The retention policy applied at startup.
    pub retention: RotationStrategy,
    /// The timestamp timezone strategy.
    pub timezone: TimezoneStrategy,
    /// The line format options.
    pub format: FormatOptions,
    /// Whether console output may use ANSI colors.
    pub colors: bool,
    /// Whether file sinks are routed through the ANSI stripper.
    pub strip_ansi_files: bool,
    /// Whether to install the assembled dispatcher as the process-wide
    /// default subscriber.
    pub install_default: bool,
}

/// The policy fields, which most fluent calls leave untouched, agree.
pub open spec fn same_policies(a: Builder, b: Builder) -> bool {
    &&& a.rotation == b.rotation
    &&& a.max_file_size == b.max_file_size
    &&& a.retention == b.retention
    &&& a.timezone == b.timezone
    &&& a.format == b.format
    &&& a.colors == b.colors
    &&& a.strip_ansi_files == b.strip_ansi_files
    &&& a.install_default == b.install_default
}

impl Builder {
    /// A builder with the default configuration: console and
    /// frontend-forward sinks, a `Warn` default minimum severity, daily
    /// rotation, keep-all retention, UTC timestamps, default format, no
    /// colors, file sinks routed through the ANSI stripper, and no
    /// process-wide default installed.
    pub fn new() -> (r: Self)
        ensures
            r.targets@.len() == 2,
            r.targets@[0] is Stdout,
            r.targets@[1] is Webview,
            r.filter.spec_rules() == Seq::<(Seq<char>, LogLevel)>::empty(),
            r.filter.spec_default() == LogLevel::Warn,
            r.rotation == Rotation::Daily,
            r.max_file_size is None,
            r.retention == RotationStrategy::KeepAll,
            r.timezone == TimezoneStrategy::Utc,
            r.format == spec_default_format(),
            !r.colors,
            r.strip_ansi_files,
            !r.install_default,
    {
        let mut targets: Vec<Target> = Vec::new();
        targets.push(Target::Stdout);
        targets.push(Target::Webview);
        Builder {
            targets,
            filter: TargetFilter::new(LogLevel::Warn),
            rotation: Rotation::Daily,
            max_file_size: None,
            retention: RotationStrategy::KeepAll,
            timezone: TimezoneStrategy::Utc,
            format: FormatOptions::default(),
            colors: false,
            strip_ansi_files: true,
            install_default: false,
        }
    }

    /// Sets the default minimum severity for targets no rule matches.
    pub fn with_max_level(self, level: LogLevel) -> (r: Self)
        ensures
            r.filter.spec_rules() == self.filter.spec_rules(),
            r.filter.spec_default() == level,
            r.targets == self.targets,
            same_policies(r, self),
    {
        let filter = self.filter.with_default(level);
        Builder { filter, ..self }
    }

    /// Adds a per-target minimum severity rule.
    pub fn with_target(self, target: &str, level: LogLevel) -> (r: Self)
        ensures
            r.filter.spec_rules() == self.filter.spec_rules().push((target@, level)),
            r.filter.spec_default() == self.filter.spec_default(),
            r.targets == self.targets,
            same_policies(r, self),
    {
        let filter = self.filter.with_target(target, level);
        Builder { filter, ..self }
    }

    /// Appends one output destination.
    pub fn target(self, t: Target) -> (r: Self)
        ensures
            r.targets@ == self.targets@.push(t),
            r.filter == self.filter,
            same_policies(r, self),
    {
        let mut targets = self.targets;
        targets.push(t);
        Builder { targets, ..self }
    }

    /// Replaces the output destinations.
    pub fn targets(self, ts: Vec<Target>) -> (r: Self)
        ensures
            r.targets == ts,
            r.filter == self.filter,
            same_policies(r, self),
    {
        Builder { targets: ts, ..self }
    }

    /// Removes every output destination.
    pub fn clear_targets(self) -> (r: Self)
        ensures
            r.targets@ == Seq::<Target>::empty(),
            r.filter == self.filter,
            same_policies(r, self),
    {
        Builder { targets: Vec::new(), ..self }
    }

    /// Enables ANSI colors on console output. Colors reach the console only
    /// when no file sink is active or file sinks go through the ANSI
    /// stripper; `build` enforces that.
    pub fn with_colors(self) -> (r: Self)
        ensures
            r.colors,
            r.targets == self.targets,
            r.filter == self.filter,
            r.rotation == self.rotation,
            r.max_file_size == self.max_file_size,
            r.retention == self.retention,
            r.timezone == self.timezone,
            r.format == self.format,
            r.strip_ansi_files == self.strip_ansi_files,
            r.install_default == self.install_default,
    {
        Builder { colors: true, ..self }
    }

    /// Adds the platform log directory as a file sink, with the default
    /// file-name prefix.
    pub fn with_file_logging(self) -> (r: Self)
        ensures
            r.targets@ == self.targets@.push(Target::LogDir { file_name: None }),
            r.filter == self.filter,
            same_policies(r, self),
    {
        self.target(Target::LogDir { file_name: None })
    }

    /// Sets the time-based rotation period for file sinks.
    pub fn with_rotation(self, rotation: Rotation) -> (r: Self)
        ensures
            r.rotation == rotation,
            r.targets == self.targets,
            r.filter == self.filter,
            r.max_file_size == self.max_file_size,
            r.retention == self.retention,
            r.timezone == self.timezone,
            r.format == self.format,
            r.colors == self.colors,
            r.strip_ansi_files == self.strip_ansi_files,
            r.install_default == self.install_default,
    {
        Builder { rotation, ..self }
    }

    /// Sets a size threshold at which file sinks roll over.
    pub fn with_max_file_size(self, size: MaxFileSize) -> (r: Self)
        ensures
            r.max_file_size == Some(size),
            r.targets == self.targets,
            r.filter == self.filter,
            r.rotation == self.rotation,
            r.retention == self.retention,
            r.timezone == self.timezone,
            r.format == self.format,
            r.colors == self.colors,
            r.strip_ansi_files == self.strip_ansi_files,
            r.install_default == self.install_default,
    {
        Builder { max_file_size: Some(size), ..self }
    }

    /// Sets the retention policy applied at startup.
    pub fn with_rotation_strategy(self, retention: RotationStrategy) -> (r: Self)
        ensures
            r.retention == retention,
            r.targets == self.targets,
            r.filter == self.filter,
            r.rotation == self.rotation,
            r.max_file_size == self.max_file_size,
            r.timezone == self.timezone,
            r.format == self.format,
            r.colors == self.colors,
            r.strip_ansi_files == self.strip_ansi_files,
            r.install_default == self.install_default,
    {
        Builder { retention, ..self }
    }

    /// Sets the timestamp timezone strategy.
    pub fn with_timezone_strategy(self, timezone: TimezoneStrategy) -> (r: Self)
        ensures
            r.timezone == timezone,
            r.targets == self.targets,
            r.filter == self.filter,
            r.rotation == self.rotation,
            r.max_file_size == self.max_file_size,
            r.retention == self.retention,
            r.format == self.format,
            r.colors == self.colors,
            r.strip_ansi_files == self.strip_ansi_files,
            r.install_default == self.install_default,
    {
        Builder { timezone, ..self }
    }

    /// Sets the line format options.
    pub fn with_format(self, format: FormatOptions) -> (r: Self)
        ensures
            r.format == format,
            r.targets == self.targets,
            r.filter == self.filter,
            r.rotation == self.rotation,
            r.max_file_size == self.max_file_size,
            r.retention == self.retention,
            r.timezone == self.timezone,
            r.colors == self.colors,
            r.strip_ansi_files == self.strip_ansi_files,
            r.install_default == self.install_default,
    {
        Builder { format, ..self }
    }

    /// Chooses whether file sinks are routed through the ANSI stripper.
    /// Disabling it puts file sinks in legacy mode, where `build` turns
    /// console colors off to keep escape codes out of files.
    pub fn with_ansi_stripper(self, enabled: bool) -> (r: Self)
        ensures
            r.strip_ansi_files == enabled,
            r.targets == self.targets,
            r.filter == self.filter,
            r.rotation == self.rotation,
            r.max_file_size == self.max_file_size,
            r.retention == self.retention,
            r.timezone == self.timezone,
            r.format == self.format,
            r.colors == self.colors,
            r.install_default == self.install_default,
    {
        Builder { strip_ansi_files: enabled, ..self }
    }

    /// Opts in to installing the assembled dispatcher as the process-wide
    /// default subscriber, once, at assembly time.
    pub fn with_default_subscriber(self) -> (r: Self)
        ensures
            r.install_default,
            r.targets == self.targets,
            r.filter == self.filter,
            r.rotation == self.rotation,
            r.max_file_size == self.max_file_size,
            r.retention == self.retention,
            r.timezone == self.timezone,
            r.format == self.format,
            r.colors == self.colors,
            r.strip_ansi_files == self.strip_ansi_files,
    {
        Builder { install_default: true, ..self }
    }

    /// Freezes the configuration.
    ///
    /// Console color is granted only when colors were requested and either
    /// no file sink is configured or file sinks go through the ANSI
    /// stripper: a plain file sink sharing formatting machinery with a
    /// colored console would otherwise leak escape codes into the file.
    pub fn build(self) -> (r: Config)
        ensures
            r.targets == self.targets,
            r.filter == self.filter,
            r.rotation == self.rotation,
            r.max_file_size == self.max_file_size,
            r.retention == self.retention,
            r.timezone == self.timezone,
            r.format == self.format,
            r.strip_ansi_files == self.strip_ansi_files,
            r.install_default == self.install_default,
            r.console_ansi == (self.colors && (self.strip_ansi_files || !spec_has_file_target(
                self.targets@,
            ))),
    {
        let mut has_file = false;
        let mut i: usize = 0;
        while i < self.targets.len()
            invariant
                0 <= i <= self.targets@.len(),
                has_file == spec_has_file_target(self.targets@.take(i as int)),
            decreases self.targets@.len() - i,
        {
            let f = match &self.targets[i] {
                Target::LogDir { .. } => true,
                Target::Folder { .. } => true,
                _ => false,
            };
            proof {
                let pre = self.targets@.take(i as int);
                let now = self.targets@.take(i + 1);
                assert(now =~= pre.push(self.targets@[i as int]));
                if f {
                    assert(is_file_target(now[i as int]));
                    assert(spec_has_file_target(now));
                } else {
                    if spec_has_file_target(now) {
                        let w = choose|w: int|
                            0 <= w < now.len() && is_file_target(#[trigger] now[w]);
                        if w < i {
                            assert(is_file_target(pre[w]));
                        }
                    }
                }
            }
            if f {
                has_file = true;
            }
            i = i + 1;
        }
        proof {
            assert(self.targets@.take(self.targets@.len() as int) =~= self.targets@);
        }
        let console_ansi = self.colors && (self.strip_ansi_files || !has_file);
        Config {
            targets: self.targets,
            filter: self.filter,
            rotation: self.rotation,
            max_file_size: self.max_file_size,
            retention: self.retention,
            timezone: self.timezone,
            format: self.format,
            console_ansi,
            strip_ansi_files: self.strip_ansi_files,
            install_default: self.install_default,
        }
    }
}

impl Default for Builder {
    /// The default builder, as `new` makes it.
    fn default() -> (r: Self)
        ensures
            r.targets@.len() == 2,
            r.targets@[0] is Stdout,
            r.targets@[1] is Webview,
            r.filter.spec_rules() == Seq::<(Seq<char>, LogLevel)>::empty(),
            r.filter.spec_default() == LogLevel::Warn,
            r.rotation == Rotation::Daily,
            r.max_file_size is None,
            r.retention == RotationStrategy::KeepAll,
            r.timezone == TimezoneStrategy::Utc,
            r.format == spec_default_format(),
            !r.colors,
            r.strip_ansi_files,
            !r.install_default,
    {
        Builder::new()
    }
}

/// A frozen dispatch configuration, produced once by `Builder::build` and
/// then only read.
#[derive(Debug, Clone)]
pub struct Config {
    /// The output destinations.
    pub targets: Vec<Target>,
    /// The unified severity/target filter shared by every sink.
    pub filter: TargetFilter,
    /// The time-based rotation period for file sinks.
    pub rotation: Rotation,
    /// The size threshold for file rotation, if any.
    pub max_file_size: Option<MaxFileSize>,
    /// The retention policy applied at startup.
    pub retention: RotationStrategy,
    /// The timestamp timezone strategy.
    pub timezone: TimezoneStrategy,
    /// The line format options.
    pub format: FormatOptions,
    /// Whether console output uses ANSI colors; never granted while a file
    /// sink bypasses the ANSI stripper.
    pub console_ansi: bool,
    /// Whether file sinks go through the ANSI stripper.
    pub strip_ansi_files: bool,
    /// Whether the dispatcher is installed as the process-wide default.
    pub install_default: bool,
}

impl Config {
    /// Decides whether an event reaches the sinks: every sink shares this
    /// one filter decision per event.
    pub fn event_enabled(&self, target: &str, level: LogLevel) -> (r: bool)
        ensures
            r == crate::filter::spec_enabled(
                self.filter.spec_rules(),
                self.filter.spec_default(),
                target@,
                level,
            ),
    {
        self.filter.enabled(target, level)
    }

    /// Whether the startup retention sweep runs: it is skipped when
    /// size-based rotation is configured, because size-rotated file names
    /// are not guaranteed to sort chronologically.
    pub fn sweep_enabled(&self) -> (r: bool)
        ensures
            r == (self.max_file_size is None),
    {
        self.max_file_size.is_none()
    }
}

} // verus!
