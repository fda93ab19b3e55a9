use sept::injector::AsyncInjector;
use sept::instrumentation::logger::Logger;
use sept::instrumentation::{InstrumentationOpts, InstrumentationProvider, LogLevel, NoopInstrumentationProvider};
use sept::key::TypeKey;
use std::cell::RefCell;
use std::rc::Rc;

#[derive(Clone, Default)]
struct Recorder {
    seen: Rc<RefCell<Vec<String>>>,
}

impl InstrumentationProvider for Recorder {
    fn debug(&self, message: String) {
        self.seen.borrow_mut().push(format!("debug:{}", message));
    }
    fn info(&self, message: String) {
        self.seen.borrow_mut().push(format!("info:{}", message));
    }
    fn warn(&self, message: String) {
        self.seen.borrow_mut().push(format!("warn:{}", message));
    }
    fn error(&self, message: String) {
        self.seen.borrow_mut().push(format!("error:{}", message));
    }
    fn trace(&self, message: String) {
        self.seen.borrow_mut().push(format!("trace:{}", message));
    }
}

fn log_all(logger: &Logger<Recorder>) {
    logger.error("e".to_string());
    logger.warn("w".to_string());
    logger.info("i".to_string());
    logger.debug("d".to_string());
    logger.trace("t".to_string());
}

#[test]
fn logger_forwards_levels_from_its_own_on() {
    let rec = Recorder::default();
    let logger = Logger::new(rec.clone(), LogLevel::Info);
    log_all(&logger);
    assert_eq!(*rec.seen.borrow(), vec!["info:i", "debug:d", "trace:t"]);
}

#[test]
fn logger_at_error_forwards_everything() {
    let rec = Recorder::default();
    let logger = Logger::new(rec.clone(), LogLevel::Error);
    log_all(&logger);
    assert_eq!(rec.seen.borrow().len(), 5);
}

#[test]
fn logger_at_trace_forwards_trace_only() {
    let rec = Recorder::default();
    let logger = Logger::new(rec.clone(), LogLevel::Trace);
    log_all(&logger);
    assert_eq!(*rec.seen.borrow(), vec!["trace:t"]);
    assert!(!logger.enabled(LogLevel::Debug));
    assert_eq!(logger.log_level(), LogLevel::Trace);
}

#[test]
fn level_ranks_follow_severity() {
    assert_eq!(LogLevel::Error.rank(), 0);
    assert_eq!(LogLevel::Warn.rank(), 1);
    assert_eq!(LogLevel::Info.rank(), 2);
    assert_eq!(LogLevel::Debug.rank(), 3);
    assert_eq!(LogLevel::Trace.rank(), 4);
}

#[test]
fn default_options_log_debug_to_stderr() {
    let opts: InstrumentationOpts<NoopInstrumentationProvider> = Default::default();
    assert_eq!(opts.level, LogLevel::Debug);
    let logger = Logger::new(opts.provider, opts.level);
    logger.debug("written to standard error".to_string());
    assert!(logger.enabled(LogLevel::Trace));
}

#[test]
fn new_injector_is_empty() {
    let inj = AsyncInjector::new();
    assert!(!inj.graph().contains(TypeKey::of(1)));
    let d = AsyncInjector::default();
    assert!(!d.graph().contains(TypeKey::of(1)));
}
