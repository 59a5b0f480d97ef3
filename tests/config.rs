use tags_lsp::config::{level_from_lowercase, parse_log_level, LogLevel};

#[test]
fn default_level_is_info() {
    assert_eq!(parse_log_level(None), Some(LogLevel::Info));
}

#[test]
fn level_names_ignore_case() {
    assert_eq!(parse_log_level(Some("OFF")), Some(LogLevel::Off));
    assert_eq!(parse_log_level(Some("Trace")), Some(LogLevel::Trace));
    assert_eq!(parse_log_level(Some("debug")), Some(LogLevel::Debug));
    assert_eq!(parse_log_level(Some("iNfO")), Some(LogLevel::Info));
    assert_eq!(parse_log_level(Some("WARN")), Some(LogLevel::Warn));
    assert_eq!(parse_log_level(Some("Error")), Some(LogLevel::Error));
}

#[test]
fn unknown_level_is_refused() {
    assert_eq!(parse_log_level(Some("verbose")), None);
    assert_eq!(parse_log_level(Some("")), None);
    assert_eq!(level_from_lowercase("WARN"), None);
    assert_eq!(level_from_lowercase("warn"), Some(LogLevel::Warn));
}
