use hyperbug::logging::{enabled, log_line, max_level, Level, OnceFlag};

#[test]
fn level_parsing_is_case_insensitive_and_rejects_garbage() {
    assert_eq!(Level::parse("Debug"), Some(Level::Debug));
    assert_eq!(Level::parse("WARN"), Some(Level::Warn));
    assert_eq!(Level::parse("warning"), Some(Level::Warn));
    assert_eq!(Level::parse("nonsense"), None);
}

#[test]
fn enabled_respects_ordering() {
    // Error is the most severe (0) and always enabled when the max
    // level is anything at or above it; Trace (4) is only enabled
    // when the max level is Trace itself.
    assert!(Level::Error <= Level::Info);
    assert!(Level::Trace > Level::Info);
}

#[test]
fn once_flag_fires_exactly_once() {
    let mut flag = OnceFlag::new();
    assert!(flag.take());
    assert!(!flag.take());
    assert!(!flag.take());
}

#[test]
fn what_is_enabled_follows_the_setting() {
    assert_eq!(max_level(None), Level::Info);
    assert_eq!(max_level(Some("nonsense")), Level::Info);
    assert_eq!(max_level(Some("TRACE")), Level::Trace);
    assert!(enabled(Level::Error, Level::Warn));
    assert!(!enabled(Level::Debug, Level::Info));
    assert!(enabled(Level::Trace, Level::Trace));
}

#[test]
fn a_line_shows_when_and_how_severe() {
    assert_eq!(log_line(Level::Warn, 7, 5, "hyperbug::pci", "odd"), "[hyperbug]      7.005 WARN  hyperbug::pci: odd");
}
