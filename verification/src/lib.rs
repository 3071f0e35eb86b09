//! A logging bridge core: call-stack location resolution, ANSI stripping,
//! sink configuration, rotation and retention policy, and severity filtering.

pub mod callstack;
pub mod config;
pub mod filter;
pub mod folded;
pub mod message;
pub mod rotation;
pub mod span_timing;
pub mod strip_ansi;
pub mod text;
pub mod timing;

pub use callstack::{CallStack, CallStackLine};
pub use config::{Builder, Config, FormatOptions, LogFormat, Target, TimezoneStrategy};
pub use filter::TargetFilter;
pub use folded::simplify_thread_names;
pub use message::{LogMessage, RecordPayload};
pub use rotation::{MaxFileSize, Rotation, RotationStrategy};
pub use span_timing::{
    analyze_span_events, truncate_span_name, ActiveSpan, SpanEvent, SpanEventType,
    SpanTimingCapture,
};
pub use strip_ansi::{strip_ansi, strip_ansi_and_write, StripAnsiWriter};
pub use timing::TimerTable;

use vstd::prelude::*;

verus! {

/// The five severity levels of the logger, ordered from least to most severe.
///
/// The numeric encoding used on the wire is 1-based ascending:
/// `Trace` is 1 and `Error` is 5. The default level is `Info`.
#[derive(Clone, Copy, Debug, PartialEq, Eq, Structural)]
pub enum LogLevel {
    Trace,
    Debug,
    Info,
    Warn,
    Error,
}

/// The numeric encoding of a level: 1 for `Trace` up to 5 for `Error`.
pub open spec fn spec_level_number(l: LogLevel) -> u8 {
    match l {
        LogLevel::Trace => 1,
        LogLevel::Debug => 2,
        LogLevel::Info => 3,
        LogLevel::Warn => 4,
        LogLevel::Error => 5,
    }
}

impl LogLevel {
    /// Returns the 1-based numeric encoding of this level.
    pub fn to_number(self) -> (n: u8)
        ensures
            n == spec_level_number(self),
    {
        match self {
            LogLevel::Trace => 1,
            LogLevel::Debug => 2,
            LogLevel::Info => 3,
            LogLevel::Warn => 4,
            LogLevel::Error => 5,
        }
    }

    /// Decodes a level from its numeric encoding; numbers outside 1..=5 have
    /// no level and yield `None`.
    pub fn from_number(n: u8) -> (r: Option<LogLevel>)
        ensures
            r matches Some(l) ==> spec_level_number(l) == n,
            r is None <==> !(1 <= n <= 5),
    {
        match n {
            1 => Some(LogLevel::Trace),
            2 => Some(LogLevel::Debug),
            3 => Some(LogLevel::Info),
            4 => Some(LogLevel::Warn),
            5 => Some(LogLevel::Error),
            _ => None,
        }
    }

    /// Returns whether `self` is at least as severe as `other`.
    pub fn at_least(self, other: LogLevel) -> (r: bool)
        ensures
            r == (spec_level_number(self) >= spec_level_number(other)),
    {
        self.to_number() >= other.to_number()
    }
}

impl Default for LogLevel {
    /// The default severity is `Info`.
    fn default() -> (r: Self)
        ensures
            r == LogLevel::Info,
    {
        LogLevel::Info
    }
}

/// The numeric encoding round-trips: decoding the encoding of any level
/// yields that level again.
pub proof fn lemma_level_number_round_trip(l: LogLevel)
    ensures
        1 <= spec_level_number(l) <= 5,
        forall|m: LogLevel| spec_level_number(m) == spec_level_number(l) ==> m == l,
{
}

} // verus!
