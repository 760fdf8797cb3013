use std::collections::HashMap;

use logcore::sink::{
    cleanup_old_daily_logs, daily_file_path, plan_output, rotate_logs, should_rotate, stem_and_ext,
    write_output, BeforeAppend, CivilDate, OutputPlan,
};
use logcore::types::{EnvConfig, OutputConfig, OutputFormat, OutputTarget};

fn config(target: OutputTarget, path: Option<&str>, max_size: Option<i64>, backups: Option<u8>, daily: Option<bool>) -> EnvConfig {
    EnvConfig {
        transport: None,
        output: OutputConfig {
            color: false,
            format: OutputFormat::Text,
            target,
            file_path: path.map(|p| p.to_string()),
            max_file_size: max_size,
            max_backups: backups,
            rotate_daily: daily,
            batch_enabled: None,
            batch_interval_ms: None,
            batch_size: None,
            masking: None,
        },
        fields: None,
    }
}

fn date(year: i32, month: u8, day: u8) -> CivilDate {
    CivilDate { year, month, day }
}

#[test]
fn daily_file_names() {
    assert_eq!(daily_file_path("logs/app.log", date(2024, 3, 5)), "logs/app_2024-03-05.log");
    assert_eq!(daily_file_path("app", date(2024, 12, 31)), "app_2024-12-31.log");
    assert_eq!(daily_file_path("/var/log/x.y.txt", date(12, 1, 9)), "/var/log/x.y_0012-01-09.txt");
    assert_eq!(daily_file_path(".hidden", date(1999, 10, 10)), ".hidden_1999-10-10.log");
    assert_eq!(daily_file_path("a/", date(2000, 1, 1)), "a/log_2000-01-01.log");
    assert_eq!(daily_file_path("big.log", date(10000, 1, 1)), "big_+10000-01-01.log");
    assert_eq!(daily_file_path("neg.log", date(-7, 1, 1)), "neg_-0007-01-01.log");
}

#[test]
fn stems_and_extensions() {
    assert_eq!(stem_and_ext("dir/app.log"), ("app".to_string(), "log".to_string()));
    assert_eq!(stem_and_ext("archive.tar.gz"), ("archive.tar".to_string(), "gz".to_string()));
    assert_eq!(stem_and_ext("noext"), ("noext".to_string(), "log".to_string()));
    assert_eq!(stem_and_ext(".."), ("log".to_string(), "log".to_string()));
}

#[test]
fn rotation_threshold() {
    let c = config(OutputTarget::File, Some("a.log"), Some(100), None, None);
    assert!(should_rotate(Some(100), &c));
    assert!(should_rotate(Some(150), &c));
    assert!(!should_rotate(Some(99), &c));
    assert!(!should_rotate(None, &c));
    let negative = config(OutputTarget::File, Some("a.log"), Some(-1), None, None);
    assert!(!should_rotate(Some(1_000_000_000), &negative));
    let default = config(OutputTarget::File, Some("a.log"), None, None, None);
    assert!(!should_rotate(Some(10 * 1024 * 1024 - 1), &default));
    assert!(should_rotate(Some(10 * 1024 * 1024), &default));
}

#[test]
fn rotation_renames_oldest_first() {
    let c = config(OutputTarget::File, Some("app.log"), None, None, None);
    let r = rotate_logs("app.log", &c);
    let expected: Vec<(String, String)> = vec![
        ("app.log.2".to_string(), "app.log.3".to_string()),
        ("app.log.1".to_string(), "app.log.2".to_string()),
        ("app.log".to_string(), "app.log.1".to_string()),
    ];
    assert_eq!(r, expected);
    let none = config(OutputTarget::File, Some("app.log"), None, Some(0), None);
    assert!(rotate_logs("app.log", &none).is_empty());
}

#[test]
fn size_rotation_keeps_k_backups() {
    // Files as name -> generation; rotate when the limit is reached, then write.
    let k: u8 = 2;
    let c = config(OutputTarget::File, Some("app.log"), Some(10), Some(k), None);
    let mut files: HashMap<String, u32> = HashMap::new();
    let mut sizes: HashMap<String, u64> = HashMap::new();
    files.insert("app.log".to_string(), 0);
    sizes.insert("app.log".to_string(), 10);
    for generation in 1..=(k as u32 + 1) {
        let len = sizes.get("app.log").copied();
        assert!(should_rotate(len, &c));
        for (src, dst) in rotate_logs("app.log", &c) {
            if let Some(g) = files.remove(&src) {
                files.insert(dst.clone(), g);
                let s = sizes.remove(&src).unwrap();
                sizes.insert(dst, s);
            }
        }
        files.insert("app.log".to_string(), generation);
        sizes.insert("app.log".to_string(), 10);
    }
    assert_eq!(files.len(), k as usize + 1);
    assert_eq!(files.get("app.log"), Some(&3));
    assert_eq!(files.get("app.log.1"), Some(&2));
    assert_eq!(files.get("app.log.2"), Some(&1));
    assert!(!files.values().any(|g| *g == 0));
}

#[test]
fn cleanup_selects_oldest_daily_files() {
    let c = config(OutputTarget::File, Some("logs/app.log"), None, Some(2), Some(true));
    let names: Vec<String> = vec![
        "app_2024-01-03.log",
        "app.log",
        "app_2024-01-01.log",
        "other_2024-01-01.log",
        "app_2024-01-02.log",
        "app_2024-01-04.txt",
        "app_2024-01-04.log",
    ]
    .into_iter()
    .map(|s| s.to_string())
    .collect();
    let mut doomed = cleanup_old_daily_logs(&names, &c);
    doomed.sort();
    assert_eq!(doomed, vec!["app_2024-01-01.log".to_string(), "app_2024-01-02.log".to_string()]);
}

#[test]
fn cleanup_with_default_keeps_seven() {
    let c = config(OutputTarget::File, Some("app.log"), None, None, Some(true));
    let names: Vec<String> = (1..=9).map(|d| format!("app_2024-01-0{}.log", d)).collect();
    let mut doomed = cleanup_old_daily_logs(&names, &c);
    doomed.sort();
    assert_eq!(doomed, vec!["app_2024-01-01.log".to_string(), "app_2024-01-02.log".to_string()]);
    let no_path = config(OutputTarget::File, None, None, None, Some(true));
    assert!(cleanup_old_daily_logs(&names, &no_path).is_empty());
}

#[test]
fn daily_rotation_over_k_plus_three_dates() {
    let k: u8 = 2;
    let c = config(OutputTarget::File, Some("logs/app.log"), None, Some(k), Some(true));
    let mut dir: Vec<String> = Vec::new();
    let days: Vec<CivilDate> = (1..=(k + 3)).map(|d| date(2024, 1, d)).collect();
    for d in &days {
        for name in cleanup_old_daily_logs(&dir, &c) {
            dir.retain(|n| *n != name);
        }
        let path = daily_file_path("logs/app.log", *d);
        let name = path.rsplit('/').next().unwrap().to_string();
        if !dir.contains(&name) {
            dir.push(name);
        }
    }
    // After the last write: the k kept files and the one just written.
    assert_eq!(dir.len(), k as usize + 1);
    // The cleanup before the next write leaves exactly the k most recent.
    for name in cleanup_old_daily_logs(&dir, &c) {
        dir.retain(|n| *n != name);
    }
    dir.sort();
    assert_eq!(dir, vec!["app_2024-01-04.log".to_string(), "app_2024-01-05.log".to_string()]);
}

#[test]
fn output_plans() {
    let out = config(OutputTarget::Stdout, None, None, None, None);
    assert!(matches!(plan_output(&out, "x", date(2024, 1, 1)), OutputPlan::Stdout(l) if l == "x"));
    let err = config(OutputTarget::Stderr, None, None, None, None);
    assert!(matches!(plan_output(&err, "x", date(2024, 1, 1)), OutputPlan::Stderr(l) if l == "x"));
    let null = config(OutputTarget::Null, None, None, None, None);
    assert!(matches!(plan_output(&null, "x", date(2024, 1, 1)), OutputPlan::Discard));
    let missing = config(OutputTarget::File, None, None, None, None);
    assert!(matches!(plan_output(&missing, "x", date(2024, 1, 1)), OutputPlan::MissingPath));
    let file = config(OutputTarget::File, Some("a.log"), None, None, None);
    match plan_output(&file, "x", date(2024, 1, 1)) {
        OutputPlan::AppendFile { path, line, before } => {
            assert_eq!(path, "a.log");
            assert_eq!(line, "x");
            assert_eq!(before, BeforeAppend::RotateIfDue);
        },
        other => panic!("unexpected {:?}", other),
    }
    let daily = config(OutputTarget::File, Some("d/a.log"), None, None, Some(true));
    match plan_output(&daily, "x", date(2024, 2, 29)) {
        OutputPlan::AppendFile { path, before, .. } => {
            assert_eq!(path, "d/a_2024-02-29.log");
            assert_eq!(before, BeforeAppend::RemoveStaleDaily);
        },
        other => panic!("unexpected {:?}", other),
    }
}

#[test]
fn empty_file_path_is_missing() {
    let empty = config(OutputTarget::File, Some(""), None, None, Some(true));
    assert!(matches!(plan_output(&empty, "x", date(2024, 1, 1)), OutputPlan::MissingPath));
    let empty_size = config(OutputTarget::File, Some(""), None, None, None);
    assert!(matches!(write_output(&empty_size, "x"), OutputPlan::MissingPath));
}

#[test]
fn todays_daily_file() {
    let daily = config(OutputTarget::File, Some("d/a.log"), None, None, Some(true));
    match write_output(&daily, "x") {
        OutputPlan::AppendFile { path, .. } => {
            assert!(path.starts_with("d/a_20"));
            assert!(path.ends_with(".log"));
            assert_eq!(path.len(), "d/a_YYYY-MM-DD.log".len());
            assert_eq!(&path[8..9], "-");
            assert_eq!(&path[11..12], "-");
        },
        other => panic!("unexpected {:?}", other),
    }
}

#[test]
fn daily_names_sort_by_date() {
    let days = vec![date(2023, 12, 31), date(2024, 1, 1), date(2024, 1, 10), date(2024, 2, 1), date(2024, 10, 2)];
    let names: Vec<String> = days.iter().map(|d| daily_file_path("app.log", *d)).collect();
    let mut sorted = names.clone();
    sorted.sort();
    assert_eq!(names, sorted);
    assert_eq!(names[0], "app_2023-12-31.log");
}
