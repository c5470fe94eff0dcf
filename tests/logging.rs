use duk::logging::{format_log_message, host_level, log_record, should_log, stash_log, LogDecision, LogLevel};

#[test]
fn engine_levels_map_to_host_levels() {
    assert_eq!(host_level(0), Some(LogLevel::Trace));
    assert_eq!(host_level(1), Some(LogLevel::Debug));
    assert_eq!(host_level(2), Some(LogLevel::Info));
    assert_eq!(host_level(3), Some(LogLevel::Warn));
    assert_eq!(host_level(4), Some(LogLevel::Error));
    assert_eq!(host_level(5), Some(LogLevel::Error));
    assert_eq!(host_level(6), None);
    assert_eq!(host_level(-1), None);
}

#[test]
fn logger_threshold_filters_records() {
    assert!(should_log(2, 2));
    assert!(should_log(3, 0));
    assert!(!should_log(1, 2));
}

#[test]
fn record_text_joins_name_and_arguments() {
    let name = String::from("test");
    assert_eq!(format_log_message(&name, &vec![]), "test:");
    assert_eq!(
        format_log_message(&name, &vec![String::from("trace"), String::from("foo")]),
        "test: trace foo"
    );
}

#[test]
fn stash_log_fills_the_first_free_entry() {
    let mut levels: Vec<Option<LogLevel>> = vec![None; 3];
    let msg = String::from("m");
    stash_log(&mut levels, LogLevel::Trace, &msg);
    stash_log(&mut levels, LogLevel::Debug, &msg);
    assert_eq!(levels, vec![Some(LogLevel::Trace), Some(LogLevel::Debug), None]);
    stash_log(&mut levels, LogLevel::Info, &msg);
    stash_log(&mut levels, LogLevel::Warn, &msg);
    assert_eq!(levels, vec![Some(LogLevel::Trace), Some(LogLevel::Debug), Some(LogLevel::Info)]);
}

#[test]
fn log_record_decides_in_order() {
    use_log_record();
}

fn use_log_record() {
    let name = String::from("test");
    let args = vec![String::from("a")];
    assert_eq!(log_record(9, 0, &name, &args), LogDecision::InvalidLevel);
    assert_eq!(log_record(1, 2, &name, &args), LogDecision::Filtered);
    assert_eq!(log_record(5, 0, &name, &args), LogDecision::Emit(LogLevel::Error, String::from("test: a")));
}
