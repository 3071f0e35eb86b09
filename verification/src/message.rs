//! Log messages and the frontend-forward payload.

use vstd::prelude::*;

use crate::LogLevel;
use crate::text::{join_with, views_of};

verus! {

/// A log message of one or more string parts; displayed as the parts joined
/// with `", "`.
#[derive(Debug, Clone)]
pub struct LogMessage(Vec<String>);

impl View for LogMessage {
    type V = Seq<Seq<char>>;

    closed spec fn view(&self) -> Seq<Seq<char>> {
        views_of(self.0@)
    }
}

impl LogMessage {
    /// Wraps the given parts as one message.
    pub fn new(parts: Vec<String>) -> (r: Self)
        ensures
            r@ == views_of(parts@),
    {
        LogMessage(parts)
    }

    /// The parts of the message.
    pub fn parts(&self) -> (r: &Vec<String>)
        ensures
            views_of(r@) == self@,
    {
        &self.0
    }

    /// The message as one string: the parts joined with `", "`.
    pub fn joined(&self) -> (r: String)
        ensures
            r@ == join_with(self@, ", "@),
    {
        crate::text::join_strings_sep(&self.0, ", ")
    }
}

/// The payload forwarded to the frontend event channel for one log record:
/// the joined message and the numeric severity.
#[derive(Debug, Clone)]
pub struct RecordPayload {
    /// The formatted log message.
    pub message: String,
    /// The severity level of the record.
    pub level: LogLevel,
}

impl RecordPayload {
    /// Builds the payload of one record: the message parts joined with
    /// `", "` and the record's severity.
    pub fn new(message: &LogMessage, level: LogLevel) -> (r: Self)
        ensures
            r.message@ == join_with(message@, ", "@),
            r.level == level,
    {
        RecordPayload { message: message.joined(), level }
    }

    /// The 1-based numeric encoding of the payload's severity, as put on
    /// the wire.
    pub fn level_number(&self) -> (n: u8)
        ensures
            n == crate::spec_level_number(self.level),
    {
        self.level.to_number()
    }
}

} // verus!
