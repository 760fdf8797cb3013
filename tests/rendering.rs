use logcore::format::{
    format_log_json, format_log_text, text_from_message, LineColor, SerializableLogEntry,
};
use logcore::json::{JsonNumber, JsonValue};
use logcore::types::{
    EnvConfig, FieldsConfig, LogEntry, LogLevel, OutputConfig, OutputFormat, OutputTarget,
};

fn s(t: &str) -> JsonValue {
    JsonValue::String(t.to_string())
}

fn num(t: &str) -> JsonValue {
    JsonValue::Number(JsonNumber::parse(t).unwrap())
}

fn obj(entries: Vec<(&str, JsonValue)>) -> JsonValue {
    JsonValue::Object(entries.into_iter().map(|(k, v)| (k.to_string(), v)).collect())
}

fn output(format: OutputFormat, color: bool) -> OutputConfig {
    OutputConfig {
        color,
        format,
        target: OutputTarget::Stdout,
        file_path: None,
        max_file_size: None,
        max_backups: None,
        rotate_daily: None,
        batch_enabled: None,
        batch_interval_ms: None,
        batch_size: None,
        masking: None,
    }
}

fn env(format: OutputFormat, fields: Option<FieldsConfig>) -> EnvConfig {
    EnvConfig { transport: None, output: output(format, false), fields }
}

fn entry(level: LogLevel, msg: JsonValue) -> LogEntry {
    LogEntry { level, msg, time: 1700000000000, pid: 42 }
}

#[test]
fn compact_text_of_nested_value() {
    let v = obj(vec![
        ("a", num("1")),
        ("b", JsonValue::Array(vec![JsonValue::Bool(true), JsonValue::Null])),
        ("c", s("x\"y")),
    ]);
    assert_eq!(v.to_compact_string(), "{\"a\":1,\"b\":[true,null],\"c\":\"x\\\"y\"}");
}

#[test]
fn compact_text_escapes_control_characters() {
    let v = s("a\u{1}\n\t\\b");
    assert_eq!(v.to_compact_string(), "\"a\\u0001\\n\\t\\\\b\"");
}

#[test]
fn pretty_text_of_nested_value() {
    let v = obj(vec![
        ("a", num("1")),
        ("b", JsonValue::Array(vec![JsonValue::Bool(true), JsonValue::Null])),
        ("e", JsonValue::Array(vec![])),
        ("o", obj(vec![])),
    ]);
    assert_eq!(
        v.to_pretty_string(),
        "{\n  \"a\": 1,\n  \"b\": [\n    true,\n    null\n  ],\n  \"e\": [],\n  \"o\": {}\n}"
    );
}

#[test]
fn pretty_text_of_scalars_is_compact() {
    assert_eq!(JsonValue::Bool(false).to_pretty_string(), "false");
    assert_eq!(s("hi").to_pretty_string(), "\"hi\"");
    assert_eq!(JsonValue::Array(vec![]).to_pretty_string(), "[]");
}

#[test]
fn text_from_message_forms() {
    assert_eq!(text_from_message(&s("plain")), "plain");
    assert_eq!(text_from_message(&obj(vec![("message", s("bare"))])), "{\n  \"message\": \"bare\"\n}");
    assert_eq!(text_from_message(&obj(vec![("a", num("1"))])), "{\n  \"a\": 1\n}");
    assert_eq!(text_from_message(&num("7")), "7");
}

#[test]
fn text_line_with_default_fields() {
    let c = env(OutputFormat::Text, None);
    let line = format_log_text(&entry(LogLevel::Info, s("hello")), &c, &None);
    assert_eq!(line, "[Info] [1700000000000] hello");
}

#[test]
fn text_line_with_pid_and_negative_time() {
    let c = env(
        OutputFormat::Text,
        Some(FieldsConfig { pid: Some(true), time: Some(true), msg: Some(true), level: Some(true) }),
    );
    let mut e = entry(LogLevel::Warn, s("disk"));
    e.time = -5;
    assert_eq!(format_log_text(&e, &c, &None), "[Warn] [PID:42] [-5] disk");
}

#[test]
fn text_line_with_only_message() {
    let c = env(
        OutputFormat::Text,
        Some(FieldsConfig { pid: Some(false), time: Some(false), msg: None, level: Some(false) }),
    );
    assert_eq!(format_log_text(&entry(LogLevel::Debug, s("hello")), &c, &None), " hello");
}

#[test]
fn text_line_of_structured_message() {
    let c = env(
        OutputFormat::Text,
        Some(FieldsConfig { pid: None, time: Some(false), msg: None, level: None }),
    );
    let line = format_log_text(&entry(LogLevel::Error, obj(vec![("a", num("1"))])), &c, &None);
    assert_eq!(line, "[Error] {\n  \"a\": 1\n}");
}

#[test]
fn scope_extraction_in_text() {
    let c = env(OutputFormat::Text, None);
    let m = obj(vec![("scope", s("db")), ("message", s("connected"))]);
    let line = format_log_text(&entry(LogLevel::Info, m), &c, &None);
    assert_eq!(line, "[Info] [1700000000000] [db] connected");
    assert!(line.contains("[db] connected"));
}

#[test]
fn scope_extraction_in_json() {
    let c = env(OutputFormat::Json, None);
    let m = obj(vec![("scope", s("db")), ("message", s("connected"))]);
    let line = format_log_json(&entry(LogLevel::Info, m), &c, &None);
    assert_eq!(
        line,
        "{\"level\":\"Info\",\"msg\":\"connected\",\"time\":1700000000000,\"scope\":\"db\"}"
    );
}

#[test]
fn scope_alone_leaves_empty_mapping() {
    let c = env(
        OutputFormat::Text,
        Some(FieldsConfig { pid: None, time: Some(false), msg: None, level: None }),
    );
    let line = format_log_text(&entry(LogLevel::Info, obj(vec![("scope", s("db"))])), &c, &None);
    assert_eq!(line, "[Info] [db] {}");
}

#[test]
fn lone_message_in_text_line() {
    let c = env(
        OutputFormat::Text,
        Some(FieldsConfig { pid: None, time: Some(false), msg: None, level: None }),
    );
    let line = format_log_text(&entry(LogLevel::Info, obj(vec![("message", s("x"))])), &c, &None);
    assert_eq!(line, "[Info] x");
}

#[test]
fn json_message_kept_without_scope() {
    let c = env(
        OutputFormat::Json,
        Some(FieldsConfig { pid: None, time: Some(false), msg: None, level: Some(false) }),
    );
    let line = format_log_json(&entry(LogLevel::Info, obj(vec![("message", s("x"))])), &c, &None);
    assert_eq!(line, "{\"msg\":{\"message\":\"x\"}}");
}

#[test]
fn json_line_has_only_enabled_fields() {
    let c = env(
        OutputFormat::Json,
        Some(FieldsConfig { pid: Some(true), time: Some(false), msg: None, level: Some(false) }),
    );
    let line = format_log_json(&entry(LogLevel::Info, s("hello")), &c, &None);
    assert_eq!(line, "{\"msg\":\"hello\",\"pid\":42}");
}

#[test]
fn json_line_without_message_drops_scope() {
    let c = env(
        OutputFormat::Json,
        Some(FieldsConfig { pid: None, time: None, msg: Some(false), level: None }),
    );
    let m = obj(vec![("scope", s("db")), ("message", s("connected"))]);
    let line = format_log_json(&entry(LogLevel::Fatal, m), &c, &None);
    assert_eq!(line, "{\"level\":\"Fatal\",\"time\":1700000000000}");
}

#[test]
fn json_line_with_nothing_selected() {
    let c = env(
        OutputFormat::Json,
        Some(FieldsConfig { pid: Some(false), time: Some(false), msg: Some(false), level: Some(false) }),
    );
    assert_eq!(format_log_json(&entry(LogLevel::Info, s("x")), &c, &None), "{}");
}

#[test]
fn serializable_entry_renders_present_fields() {
    let p = SerializableLogEntry {
        level: Some(LogLevel::Trace),
        msg: None,
        time: Some(-1),
        pid: None,
        scope: Some(num("3")),
    };
    assert_eq!(p.to_json_string(), "{\"level\":\"Trace\",\"time\":-1,\"scope\":3}");
}

#[test]
fn coloured_line_keeps_its_text() {
    let mut c = env(OutputFormat::Text, None);
    c.output.color = true;
    let line = format_log_text(&entry(LogLevel::Info, s("hello")), &c, &None);
    assert!(line.contains("[Info] [1700000000000] hello"));
    assert!(
        line == "[Info] [1700000000000] hello"
            || line == "\u{1b}[32m[Info] [1700000000000] hello\u{1b}[0m"
    );
}

#[test]
fn level_colours() {
    assert_eq!(logcore::format::color_of(LogLevel::Trace), LineColor::BrightBlack);
    assert_eq!(logcore::format::color_of(LogLevel::Fatal), LineColor::BoldRed);
    assert_eq!(LogLevel::Warn.name(), "Warn");
}

#[test]
fn number_literals_are_checked() {
    for ok in ["0", "-1", "42", "-1.5e3", "1E+2", "0.25", "3e-7"] {
        assert_eq!(JsonNumber::parse(ok).map(|n| n.as_str().to_string()), Some(ok.to_string()));
    }
    for bad in ["", "-", "+1", "01", "1.", ".5", "1e", "1,\"pid\":2", "NaN", "1 "] {
        assert!(JsonNumber::parse(bad).is_none(), "{}", bad);
    }
    assert_eq!(JsonNumber::from_int(-9223372036854775808).as_str(), "-9223372036854775808");
    assert_eq!(JsonNumber::from_int(0).as_str(), "0");
}
