use vstd::prelude::*;
use super::{level_rank, InstrumentationProvider, LogLevel};

verus! {

/// Forwards messages to a sink, filtered by level: a message is forwarded
/// when the logger's level comes no later than the message's level in the
/// order Error, Warn, Info, Debug, Trace.
#[derive(Clone)]
pub struct Logger<P> {
    logging_provider: P,
    log_level: LogLevel,
}

impl<P: InstrumentationProvider> Logger<P> {
    pub fn new(logging_provider: P, log_level: LogLevel) -> (r: Self)
        ensures
            r.level() == log_level,
    {
        Logger { logging_provider, log_level }
    }

    /// The level the logger was made with.
    pub closed spec fn level(&self) -> LogLevel {
        self.log_level
    }

    /// The level the logger was made with.
    pub fn log_level(&self) -> (r: LogLevel)
        ensures
            r == self.level(),
    {
        self.log_level
    }

    /// Whether a message of `level` is forwarded to the sink.
    pub fn enabled(&self, level: LogLevel) -> (r: bool)
        ensures
            r == (level_rank(self.level()) <= level_rank(level)),
    {
        self.log_level.rank() <= level.rank()
    }

    pub fn debug(&self, message: String) {
        if self.enabled(LogLevel::Debug) {
            self.logging_provider.debug(message);
        }
    }

    pub fn info(&self, message: String) {
        if self.enabled(LogLevel::Info) {
            self.logging_provider.info(message);
        }
    }

    pub fn warn(&self, message: String) {
        if self.enabled(LogLevel::Warn) {
            self.logging_provider.warn(message);
        }
    }

    pub fn error(&self, message: String) {
        if self.enabled(LogLevel::Error) {
            self.logging_provider.error(message);
        }
    }

    pub fn trace(&self, message: String) {
        if self.enabled(LogLevel::Trace) {
            self.logging_provider.trace(message);
        }
    }
}

} // verus!
