use tdist::config::{Config, LogLevel};

#[test]
fn default_configuration_has_four_workers_and_logs_from_info() {
    let config = Config::default();
    assert_eq!(config.threads, 4);
    assert_eq!(config.log_level, "info");
    assert_eq!(config.taskfile_dir, "taskfiles");
    assert!(!config.starves_tasks());
    assert_eq!(LogLevel::parse(&config.log_level), Some(LogLevel::Info));
}

#[test]
fn pool_without_workers_starves_tasks() {
    let config = Config { threads: 0, ..Config::default() };
    assert!(config.starves_tasks());
    let config = Config { threads: 1, ..Config::default() };
    assert!(!config.starves_tasks());
}

#[test]
fn each_level_has_its_name() {
    assert_eq!(LogLevel::from_lowercase("trace"), Some(LogLevel::Trace));
    assert_eq!(LogLevel::from_lowercase("debug"), Some(LogLevel::Debug));
    assert_eq!(LogLevel::from_lowercase("info"), Some(LogLevel::Info));
    assert_eq!(LogLevel::from_lowercase("warn"), Some(LogLevel::Warn));
    assert_eq!(LogLevel::from_lowercase("error"), Some(LogLevel::Error));
}

#[test]
fn name_as_written_must_be_in_lower_case() {
    assert_eq!(LogLevel::from_lowercase("INFO"), None);
    assert_eq!(LogLevel::from_lowercase("Warn"), None);
    assert_eq!(LogLevel::from_lowercase(""), None);
    assert_eq!(LogLevel::from_lowercase("warning"), None);
    assert_eq!(LogLevel::from_lowercase(" info"), None);
}

#[test]
fn level_is_parsed_in_any_case() {
    assert_eq!(LogLevel::parse("TRACE"), Some(LogLevel::Trace));
    assert_eq!(LogLevel::parse("Debug"), Some(LogLevel::Debug));
    assert_eq!(LogLevel::parse("iNfO"), Some(LogLevel::Info));
    assert_eq!(LogLevel::parse("WARN"), Some(LogLevel::Warn));
    assert_eq!(LogLevel::parse("error"), Some(LogLevel::Error));
}

#[test]
fn unknown_level_is_rejected() {
    assert_eq!(LogLevel::parse("verbose"), None);
    assert_eq!(LogLevel::parse(""), None);
    assert_eq!(LogLevel::parse("info "), None);
}
