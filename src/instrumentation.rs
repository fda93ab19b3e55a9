use vstd::prelude::*;
use std::io::Write;

pub mod logger;

verus! {

/// Severity of a log message, from most to least severe.
#[derive(Clone, Copy, Debug, PartialEq, Eq, Structural)]
pub enum LogLevel {
    Error,
    Warn,
    Info,
    Debug,
    Trace,
}

/// The position of `level` in the order Error, Warn, Info, Debug, Trace.
pub open spec fn level_rank(level: LogLevel) -> int {
    match level {
        LogLevel::Error => 0,
        LogLevel::Warn => 1,
        LogLevel::Info => 2,
        LogLevel::Debug => 3,
        LogLevel::Trace => 4,
    }
}

impl LogLevel {
    /// The position of this level in the order Error, Warn, Info, Debug, Trace.
    pub fn rank(&self) -> (r: u8)
        ensures
            r as int == level_rank(*self),
    {
        match self {
            LogLevel::Error => 0,
            LogLevel::Warn => 1,
            LogLevel::Info => 2,
            LogLevel::Debug => 3,
            LogLevel::Trace => 4,
        }
    }
}

/// A sink for log messages, one method per level. Users of the engine
/// supply their own.
pub trait InstrumentationProvider {
    fn debug(&self, message: String);

    fn info(&self, message: String);

    fn warn(&self, message: String);

    fn error(&self, message: String);

    fn trace(&self, message: String);
}

/// The default sink: every message goes to standard error.
#[derive(Clone, Copy, Debug)]
pub struct NoopInstrumentationProvider;

/// Relies on `writeln!` to standard error: writes the message and a newline;
/// a failed write is ignored.
#[verifier::external_body]
fn write_to_stderr(message: &String) {
    let _ = writeln!(std::io::stderr(), "{}", message);
}

impl NoopInstrumentationProvider {
    fn log(log_level: LogLevel, message: String) {
        match log_level {
            LogLevel::Error => write_to_stderr(&message),
            LogLevel::Warn => write_to_stderr(&message),
            LogLevel::Info => write_to_stderr(&message),
            LogLevel::Debug => write_to_stderr(&message),
            LogLevel::Trace => write_to_stderr(&message),
        }
    }
}

impl InstrumentationProvider for NoopInstrumentationProvider {
    fn debug(&self, message: String) {
        Self::log(LogLevel::Debug, message);
    }

    fn info(&self, message: String) {
        Self::log(LogLevel::Info, message);
    }

    fn warn(&self, message: String) {
        Self::log(LogLevel::Warn, message);
    }

    fn error(&self, message: String) {
        Self::log(LogLevel::Error, message);
    }

    fn trace(&self, message: String) {
        Self::log(LogLevel::Trace, message);
    }
}

/// How an application logs: the level and the sink.
pub struct InstrumentationOpts<P> {
    pub level: LogLevel,
    pub provider: P,
}

impl Default for InstrumentationOpts<NoopInstrumentationProvider> {
    fn default() -> (r: Self)
        ensures
            r.level == LogLevel::Debug,
    {
        InstrumentationOpts { level: LogLevel::Debug, provider: NoopInstrumentationProvider }
    }
}

} // verus!
