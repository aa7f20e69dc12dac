use llama_rs::mapped::logger::{enabled, init, init_with_level, log, LogLevel, LoggerState};
use llama_rs::mapped::timer::Timer;

#[test]
fn levels_have_names_and_parse_ignoring_case() {
    assert_eq!(LogLevel::Warn.as_str(), "WARN");
    assert_eq!(LogLevel::from_str("WARNING"), Some(LogLevel::Warn));
    assert_eq!(LogLevel::from_str("Trace"), Some(LogLevel::Trace));
    assert_eq!(LogLevel::from_str("verbose"), None);
}

#[test]
fn first_level_setting_wins() {
    let mut state = LoggerState::new();
    init_with_level(&mut state, LogLevel::Error);
    init_with_level(&mut state, LogLevel::Trace);
    assert!(enabled(&mut state, LogLevel::Error));
    assert!(!enabled(&mut state, LogLevel::Warn));
}

#[test]
fn querying_before_setting_fixes_info() {
    let mut state = LoggerState::new();
    assert!(enabled(&mut state, LogLevel::Info));
    assert!(!enabled(&mut state, LogLevel::Debug));
    init_with_level(&mut state, LogLevel::Trace);
    assert!(!enabled(&mut state, LogLevel::Debug));
}

#[test]
fn init_reads_the_level_value() {
    let mut state = LoggerState::new();
    init(&mut state, Some("debug"));
    assert!(enabled(&mut state, LogLevel::Debug));
    let mut state = LoggerState::new();
    init(&mut state, Some("nonsense"));
    assert!(!enabled(&mut state, LogLevel::Debug));
}

#[test]
fn log_lines_are_formatted_or_dropped() {
    let mut state = LoggerState::new();
    init_with_level(&mut state, LogLevel::Info);
    let line = log(&mut state, LogLevel::Warn, "llama_rs::main", "src/main.rs", 42, "hello", 1700000000123);
    assert_eq!(line.as_deref(), Some("[1700000000123]  WARN llama_rs::main src/main.rs:42 hello\n"));
    let line = log(&mut state, LogLevel::Error, "m", "f", 0, "x", 0);
    assert_eq!(line.as_deref(), Some("[0] ERROR m f:0 x\n"));
    assert_eq!(log(&mut state, LogLevel::Debug, "m", "f", 1, "x", 5), None);
}

#[test]
fn timer_messages_name_the_label() {
    let timer = Timer::start("load");
    assert_eq!(timer.message(1234), "timer: load took 1234 ms");
    let message = timer.finish();
    assert!(message.starts_with("timer: load took "));
    assert!(message.ends_with(" ms"));
    let _ = timer.elapsed_ms();
}
