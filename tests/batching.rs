use logcore::batch::{
    batch_settings, init_batching_logger, BatchSettings, BatchWorker, WorkerEvent, WorkerWait,
};
use logcore::json::{JsonNumber, JsonValue};
use logcore::types::{EnvConfig, LogEntry, LogLevel, OutputConfig, OutputFormat, OutputTarget};

fn entry(n: i64) -> LogEntry {
    LogEntry { level: LogLevel::Info, msg: JsonValue::Number(JsonNumber::from_int(n)), time: n, pid: 1 }
}

fn config(interval: Option<i64>, size: Option<i64>) -> EnvConfig {
    EnvConfig {
        transport: None,
        output: OutputConfig {
            color: false,
            format: OutputFormat::Json,
            target: OutputTarget::Stdout,
            file_path: None,
            max_file_size: None,
            max_backups: None,
            rotate_daily: None,
            batch_enabled: Some(true),
            batch_interval_ms: interval,
            batch_size: size,
            masking: None,
        },
        fields: None,
    }
}

#[test]
fn settings_defaults_and_floors() {
    assert_eq!(
        batch_settings(&config(None, None)),
        BatchSettings { flush_interval_ms: 100, batch_size: 50 }
    );
    assert_eq!(
        batch_settings(&config(Some(0), Some(-5))),
        BatchSettings { flush_interval_ms: 1, batch_size: 1 }
    );
    assert_eq!(
        batch_settings(&config(Some(250), Some(10))),
        BatchSettings { flush_interval_ms: 250, batch_size: 10 }
    );
}

#[test]
fn full_batch_flushes_once_without_waiting() {
    let mut w = BatchWorker::new(BatchSettings { flush_interval_ms: 1000, batch_size: 3 }, 0);
    assert_eq!(w.first_wait(), WorkerWait::Recv(1000));
    let a = w.step(WorkerEvent::Message(entry(1)), 1);
    assert!(a.flush.is_empty());
    assert_eq!(a.next, WorkerWait::TryRecv);
    let b = w.step(WorkerEvent::Message(entry(2)), 1);
    assert!(b.flush.is_empty());
    let c = w.step(WorkerEvent::Message(entry(3)), 2);
    let times: Vec<i64> = c.flush.iter().map(|e| e.time).collect();
    assert_eq!(times, vec![1, 2, 3]);
    assert_eq!(c.next, WorkerWait::Recv(1000));
    assert!(w.buffer.is_empty());
}

#[test]
fn partial_batch_flushes_after_interval() {
    let mut w = BatchWorker::new(BatchSettings { flush_interval_ms: 100, batch_size: 50 }, 0);
    w.step(WorkerEvent::Message(entry(1)), 10);
    w.step(WorkerEvent::Message(entry(2)), 10);
    let quiet = w.step(WorkerEvent::Quiet, 10);
    assert!(quiet.flush.is_empty());
    assert_eq!(quiet.next, WorkerWait::Recv(90));
    let due = w.step(WorkerEvent::Quiet, 100);
    let times: Vec<i64> = due.flush.iter().map(|e| e.time).collect();
    assert_eq!(times, vec![1, 2]);
    assert_eq!(due.next, WorkerWait::Recv(100));
    let idle = w.step(WorkerEvent::Quiet, 250);
    assert!(idle.flush.is_empty());
    assert_eq!(idle.next, WorkerWait::Recv(100));
    assert_eq!(w.last_flush_ms, 250);
}

#[test]
fn shutdown_drains_buffer() {
    let mut w = init_batching_logger(&config(Some(10000), Some(50)), 0);
    for n in 1..=3 {
        let s = w.step(WorkerEvent::Message(entry(n)), 5);
        assert!(s.flush.is_empty());
    }
    let last = w.step(WorkerEvent::Shutdown, 6);
    let times: Vec<i64> = last.flush.iter().map(|e| e.time).collect();
    assert_eq!(times, vec![1, 2, 3]);
    assert_eq!(last.next, WorkerWait::Stop);
    assert!(w.stopped);
}

#[test]
fn batch_of_one_flushes_each_entry() {
    let mut w = BatchWorker::new(BatchSettings { flush_interval_ms: 5, batch_size: 1 }, 0);
    let s = w.step(WorkerEvent::Message(entry(9)), 0);
    assert_eq!(s.flush.len(), 1);
}
