use logcore::json::JsonValue;
use logcore::logger::{
    info, trace, validate_config, ConfigError, Dispatch, LoggerState,
};
use logcore::types::{
    EnvConfig, FieldsConfig, LogEntry, LogLevel, LoggerConfig, MaskingConfig, OutputConfig,
    OutputFormat, OutputTarget,
};

fn output(target: OutputTarget, file_path: Option<&str>) -> OutputConfig {
    OutputConfig {
        color: false,
        format: OutputFormat::Text,
        target,
        file_path: file_path.map(|p| p.to_string()),
        max_file_size: None,
        max_backups: None,
        rotate_daily: None,
        batch_enabled: None,
        batch_interval_ms: None,
        batch_size: None,
        masking: None,
    }
}

fn env(target: OutputTarget, file_path: Option<&str>, transport: &str) -> EnvConfig {
    EnvConfig { transport: Some(transport.to_string()), output: output(target, file_path), fields: None }
}

fn entry(msg: &str) -> LogEntry {
    LogEntry { level: LogLevel::Info, msg: JsonValue::String(msg.to_string()), time: 5, pid: 1 }
}

#[test]
fn file_target_without_path_is_refused() {
    let c = env(OutputTarget::File, None, "t");
    assert_eq!(validate_config(&c), Err(ConfigError::MissingFilePath));
    let c = env(OutputTarget::File, Some(""), "t");
    assert_eq!(validate_config(&c), Err(ConfigError::MissingFilePath));
    let c = env(OutputTarget::File, Some("app.log"), "t");
    assert_eq!(validate_config(&c), Ok(()));
    let c = env(OutputTarget::Stdout, None, "t");
    assert_eq!(validate_config(&c), Ok(()));
}

#[test]
fn invalid_config_keeps_prior_one() {
    let mut state = LoggerState::new();
    let first = LoggerConfig { dev: Some(env(OutputTarget::Stdout, None, "first")), prod: None };
    let r = state.set_config(first, None);
    assert!(r.is_some());
    let bad = LoggerConfig { dev: Some(env(OutputTarget::File, Some(""), "bad")), prod: None };
    assert!(state.set_config(bad, None).is_none());
    let active = state.active.as_ref().unwrap();
    assert_eq!(active.transport.as_deref(), Some("first"));
    assert_eq!(active.output.target, OutputTarget::Stdout);
}

#[test]
fn invalid_first_config_installs_nothing() {
    let mut state = LoggerState::new();
    let bad = LoggerConfig { dev: Some(env(OutputTarget::File, Some(""), "bad")), prod: None };
    assert!(state.set_config(bad, None).is_none());
    assert!(state.active.is_none());
    let none = LoggerConfig { dev: None, prod: None };
    assert!(state.set_config(none, None).is_none());
    assert!(state.active.is_none());
}

#[test]
fn environment_selects_configuration() {
    let mut state = LoggerState::new();
    let pair = LoggerConfig {
        dev: Some(env(OutputTarget::Stdout, None, "dev")),
        prod: Some(env(OutputTarget::Stderr, None, "prod")),
    };
    let r = state.set_config(pair, Some("production".to_string())).unwrap();
    assert_eq!(r.transport.as_deref(), Some("prod"));
    let pair = LoggerConfig {
        dev: Some(env(OutputTarget::Stdout, None, "dev")),
        prod: Some(env(OutputTarget::Stderr, None, "prod")),
    };
    let r = state.set_config(pair, Some("staging".to_string())).unwrap();
    assert_eq!(r.transport.as_deref(), Some("dev"));
    let only_prod = LoggerConfig { dev: None, prod: Some(env(OutputTarget::Stderr, None, "prod")) };
    let r = state.set_config(only_prod, None).unwrap();
    assert_eq!(r.transport.as_deref(), Some("prod"));
    let only_dev = LoggerConfig { dev: Some(env(OutputTarget::Stdout, None, "dev")), prod: None };
    assert!(state.set_config(only_dev, Some("production".to_string())).is_none());
}

#[test]
fn missing_fields_take_defaults() {
    let mut state = LoggerState::new();
    let r = state
        .set_config(LoggerConfig { dev: Some(env(OutputTarget::Null, None, "d")), prod: None }, None)
        .unwrap();
    assert_eq!(r.fields, Some(FieldsConfig::default()));
    assert_eq!(
        FieldsConfig::default(),
        FieldsConfig { pid: Some(false), time: Some(true), msg: Some(true), level: Some(true) }
    );
}

#[test]
fn masking_rules_installed_and_replaced() {
    let mut state = LoggerState::new();
    let mut c = env(OutputTarget::Stdout, None, "m");
    c.output.masking = Some(MaskingConfig {
        exact: Some(vec!["password".to_string()]),
        partial: None,
        regex: None,
        keyword: None,
    });
    state.set_config(LoggerConfig { dev: Some(c), prod: None }, None).unwrap();
    assert_eq!(state.rules.as_ref().unwrap().keyword, "[MASKED]");
    let msg = JsonValue::Object(vec![("password".to_string(), JsonValue::String("p".to_string()))]);
    match state.submit(LogEntry { level: LogLevel::Info, msg, time: 5, pid: 1 }) {
        Dispatch::Deliver(line) => assert_eq!(line, "[Info] [5] {\n  \"password\": \"[MASKED]\"\n}"),
        other => panic!("unexpected {:?}", other),
    }
    state
        .set_config(LoggerConfig { dev: Some(env(OutputTarget::Stdout, None, "n")), prod: None }, None)
        .unwrap();
    assert!(state.rules.is_none());
}

#[test]
fn warning_before_configuration_fires_once() {
    let mut state = LoggerState::new();
    assert!(matches!(state.submit(entry("a")), Dispatch::Warn));
    assert!(matches!(state.submit(entry("b")), Dispatch::Drop));
    assert!(matches!(state.submit(entry("c")), Dispatch::Drop));
    assert!(state.warned);
}

#[test]
fn synchronous_and_queued_delivery() {
    let mut state = LoggerState::new();
    let mut c = env(OutputTarget::Stdout, None, "d");
    c.output.batch_enabled = Some(true);
    state.set_config(LoggerConfig { dev: Some(c), prod: None }, None).unwrap();
    match state.submit(entry("now")) {
        Dispatch::Deliver(line) => assert_eq!(line, "[Info] [5] now"),
        other => panic!("unexpected {:?}", other),
    }
    assert!(state.needs_worker());
    state.worker_started();
    assert!(!state.needs_worker());
    match state.submit(entry("later")) {
        Dispatch::Enqueue(e) => assert_eq!(e.msg.to_compact_string(), "\"later\""),
        other => panic!("unexpected {:?}", other),
    }
    state.worker_stopped();
    assert!(matches!(state.submit(entry("again")), Dispatch::Deliver(_)));
}

#[test]
fn level_entry_points_stamp_entries() {
    let mut state = LoggerState::new();
    state
        .set_config(LoggerConfig { dev: Some(env(OutputTarget::Stdout, None, "d")), prod: None }, None)
        .unwrap();
    match trace(&mut state, JsonValue::String("x".to_string()), 7) {
        Dispatch::Deliver(line) => {
            assert!(line.starts_with("[Trace] ["));
            assert!(line.ends_with("] x"));
        },
        other => panic!("unexpected {:?}", other),
    }
    state.worker_started();
    match info(&mut state, JsonValue::Null, 7) {
        Dispatch::Enqueue(e) => {
            assert_eq!(e.level, LogLevel::Info);
            assert_eq!(e.pid, 7);
            assert!(e.time > 1_600_000_000_000);
        },
        other => panic!("unexpected {:?}", other),
    }
}

#[test]
fn plain_log_line() {
    assert_eq!(logcore::log("hi".to_string()), "[LOG] hi");
}
