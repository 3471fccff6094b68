use llama_proxy::config::StatsFormat;
use llama_proxy::exporters::influxdb::{build_data_point, feature_off_error, FieldValue, InfluxDbConfig, Measure};
use llama_proxy::exporters::worker::{
    join_step, JoinStep, Poll, SendOutcome, WorkerAction, WriteStep, WriterQueue, CAPACITY,
};
use llama_proxy::exporters::{
    log_sample_and_should_export, ExportError, ExporterManager, MetricsExporter, RequestMetrics, SampleLine,
};
use std::cell::Cell;

struct MockExporter {
    name: String,
    should_fail: bool,
    export_count: Cell<u32>,
}

impl MockExporter {
    fn new(name: &str, should_fail: bool) -> Self {
        Self { name: name.to_string(), should_fail, export_count: Cell::new(0) }
    }

    fn get_export_count(&self) -> u32 {
        self.export_count.get()
    }
}

impl MetricsExporter for MockExporter {
    fn export(&self, _metrics: &RequestMetrics) -> Result<(), ExportError> {
        self.export_count.set(self.export_count.get() + 1);
        if self.should_fail {
            Err(ExportError::Write("Mock failure".to_string()))
        } else {
            Ok(())
        }
    }

    fn name(&self) -> &str {
        &self.name
    }
}

#[test]
fn test_export_error_display() {
    let err = ExportError::Connection("failed to connect".to_string());
    assert!(err.to_string().contains("failed to connect"));

    let err = ExportError::Auth("invalid token".to_string());
    assert!(err.to_string().contains("invalid token"));

    let err = ExportError::Write("write failed".to_string());
    assert!(err.to_string().contains("write failed"));

    let err = ExportError::Config("missing config".to_string());
    assert!(err.to_string().contains("missing config"));

    let err = ExportError::Other("unknown error".to_string());
    assert!(err.to_string().contains("unknown error"));
    assert_eq!(err.to_string(), "unknown error");
    assert_eq!(ExportError::Auth("t".to_string()).to_string(), "Authentication error: t");
}

#[test]
fn test_exporter_manager_new() {
    let manager = ExporterManager::<MockExporter>::new();
    assert!(manager.exporters.is_empty());
}

#[test]
fn test_exporter_manager_default() {
    let manager = ExporterManager::<MockExporter>::default();
    assert!(manager.exporters.is_empty());
}

#[test]
fn test_exporter_manager_add() {
    let mut manager = ExporterManager::new();
    manager.add(MockExporter::new("test", false));

    assert_eq!(manager.exporters.len(), 1);
    assert_eq!(manager.exporters[0].name(), "test");
}

fn measurable_metrics() -> RequestMetrics {
    let mut metrics = RequestMetrics::new();
    metrics.model = "test-model".to_string();
    metrics.total_tokens = 150;
    metrics
}

#[test]
fn test_exporter_manager_export_all_success() {
    let mut manager = ExporterManager::new();
    manager.add(MockExporter::new("test", false));

    let metrics = measurable_metrics();
    let outcomes = manager.export_all(&metrics);

    assert_eq!(manager.exporters[0].get_export_count(), 1);
    assert_eq!(outcomes, vec![Ok(())]);
}

#[test]
fn test_exporter_manager_export_all_failure() {
    let mut manager = ExporterManager::new();
    manager.add(MockExporter::new("test", true));

    let metrics = measurable_metrics();
    let outcomes = manager.export_all(&metrics);

    assert_eq!(manager.exporters[0].get_export_count(), 1);
    assert_eq!(outcomes, vec![Err(ExportError::Write("Mock failure".to_string()))]);
}

#[test]
fn test_exporter_manager_export_all_multiple() {
    let mut manager = ExporterManager::new();
    manager.add(MockExporter::new("test1", true));
    manager.add(MockExporter::new("test2", false));

    let metrics = measurable_metrics();
    manager.export_all(&metrics);

    assert_eq!(manager.exporters[0].get_export_count(), 1);
    assert_eq!(manager.exporters[1].get_export_count(), 1);
}

#[test]
fn test_export_all_does_not_filter() {
    let mut manager = ExporterManager::new();
    manager.add(MockExporter::new("audit", false));

    manager.export_all(&RequestMetrics::new());

    assert_eq!(manager.exporters[0].get_export_count(), 1);
}

#[test]
fn test_gate_passes_measurable_sample() {
    let metrics = measurable_metrics();
    let (mut skipped, mut log) = (0, vec![]);

    let keep = log_sample_and_should_export(&metrics, StatsFormat::Compact, &mut skipped, &mut log);

    assert!(keep);
    assert_eq!(skipped, 0);
    assert_eq!(log, vec![SampleLine::Metrics { own_lines: false }]);
}

#[test]
fn test_gate_drops_unmeasurable_sample_in_every_format() {
    let before = 40;
    let mut skipped = before;
    let mut log = vec![];

    for format in [StatsFormat::Compact, StatsFormat::Json, StatsFormat::Pretty] {
        let keep = log_sample_and_should_export(&RequestMetrics::new(), format, &mut skipped, &mut log);
        assert!(!keep, "a zero-filled sample must not be exported ({format:?})");
    }

    assert_eq!(skipped - before, 3);
}

#[test]
fn the_first_and_every_hundredth_skip_is_logged() {
    let (mut skipped, mut log) = (0, vec![]);
    for _ in 0..200 {
        log_sample_and_should_export(&RequestMetrics::new(), StatsFormat::Json, &mut skipped, &mut log);
    }
    let totals: Vec<u64> = log
        .iter()
        .map(|line| match line {
            SampleLine::Skipped { skipped_total, prompt_tokens, .. } => {
                assert_eq!(prompt_tokens, "n/a");
                *skipped_total
            }
            other => panic!("expected a skip, got {other:?}"),
        })
        .collect();
    assert_eq!(totals, vec![1, 100, 200]);
}

#[test]
fn any_measure_makes_a_sample_worth_exporting() {
    let with = |change: fn(&mut RequestMetrics)| {
        let mut m = RequestMetrics::new();
        change(&mut m);
        m.has_throughput_signal()
    };
    assert!(!with(|_| {}));
    assert!(with(|m| m.total_tokens = 1));
    assert!(with(|m| m.prompt_tokens = Some(0)));
    assert!(with(|m| m.completion_tokens = Some(0)));
    assert!(with(|m| m.has_reported_rate = true));
}

#[test]
fn test_exporter_manager_flush_all() {
    let mut manager = ExporterManager::new();
    manager.add(MockExporter::new("test", false));

    assert_eq!(manager.flush_all(), vec![Ok(())]);
}

#[test]
fn test_exporter_manager_shutdown_all() {
    let mut manager = ExporterManager::new();
    manager.add(MockExporter::new("test", false));

    assert_eq!(manager.shutdown_all(), vec![Ok(())]);
}

#[test]
fn test_exporter_manager_empty() {
    let manager = ExporterManager::<MockExporter>::new();

    let metrics = RequestMetrics::new();
    assert!(manager.export_all(&metrics).is_empty());
    assert!(manager.flush_all().is_empty());
    assert!(manager.shutdown_all().is_empty());
}

fn measurable() -> RequestMetrics {
    let mut m = RequestMetrics::new();
    m.total_tokens = 150;
    m.timestamp_nanos = Some(1_700_000_000_000_000_000);
    m
}

fn field(metrics: &RequestMetrics, name: &str) -> Option<FieldValue> {
    let point = build_data_point(metrics).unwrap();
    point.fields.iter().find(|(n, _)| n == name).map(|(_, v)| *v)
}

#[test]
fn absent_token_counts_omit_their_fields() {
    let m = measurable();
    assert_eq!(field(&m, "prompt_tokens"), None);
    assert_eq!(field(&m, "completion_tokens"), None);
    assert_eq!(field(&m, "total_tokens"), Some(FieldValue::Count(150)));
}

#[test]
fn present_token_counts_are_written() {
    let mut m = measurable();
    m.prompt_tokens = Some(100);
    m.completion_tokens = Some(0);
    assert_eq!(field(&m, "prompt_tokens"), Some(FieldValue::Count(100)));
    assert_eq!(field(&m, "completion_tokens"), Some(FieldValue::Count(0)), "measured zero written");
}

#[test]
fn a_point_carries_the_tags_that_are_known() {
    let mut m = measurable();
    m.model = "m".to_string();
    m.streaming = true;
    m.group_name = Some("g".to_string());
    m.has_context_percent = true;
    let point = build_data_point(&m).unwrap();
    assert_eq!(point.measurement, "llama_request");
    let tags: Vec<(&str, &str)> = point.tags.iter().map(|(n, v)| (n.as_str(), v.as_str())).collect();
    assert_eq!(
        tags,
        vec![("model", "m"), ("streaming", "true"), ("finish_reason", ""), ("stream_end", ""), ("group_name", "g")]
    );
    assert_eq!(
        point.fields.last().unwrap(),
        &("context_percent".to_string(), FieldValue::Measured(Measure::ContextPercent))
    );
    assert_eq!(point.timestamp_nanos, 1_700_000_000_000_000_000);
}

#[test]
fn a_sample_without_a_time_is_not_written() {
    let mut m = measurable();
    m.timestamp_nanos = None;
    assert_eq!(build_data_point(&m), None);
}

#[test]
fn a_database_is_refused_where_it_is_not_built_in() {
    let config = llama_proxy::config::InfluxDbConfig {
        enabled: true,
        url: "http://localhost:8086".to_string(),
        org: "test".to_string(),
        bucket: "test".to_string(),
        token: "test".to_string(),
    };
    assert_eq!(InfluxDbConfig::from_config(&config, false, 10, 5), Err(feature_off_error()));
    let built = InfluxDbConfig::from_config(&config, true, 10, 5).unwrap();
    assert_eq!((built.url.as_str(), built.batch_size, built.flush_interval_seconds), ("http://localhost:8086", 10, 5));
}

#[test]
fn overflow_refuses_past_capacity_without_blocking_the_caller() {
    let mut queue = WriterQueue::new();
    for i in 0..CAPACITY {
        assert_eq!(queue.enqueue(i), SendOutcome::Queued);
    }
    assert_eq!(queue.enqueue(CAPACITY), SendOutcome::Dropped);
    assert_eq!(queue.dropped_total(), 1);
    assert_eq!(queue.poll_samples(), Poll::Ready(0));
    assert_eq!(queue.enqueue(7), SendOutcome::Queued);
}

#[test]
fn dead_endpoint_retries_three_times_then_counts_the_drop() {
    let mut queue = WriterQueue::<u8>::new();
    let steps: Vec<WriteStep> = (0..4).map(|attempt| queue.after_attempt(attempt, false)).collect();
    assert_eq!(
        steps,
        vec![
            WriteStep::RetryAfter(100),
            WriteStep::RetryAfter(500),
            WriteStep::RetryAfter(2000),
            WriteStep::GivenUp
        ]
    );
    assert_eq!((queue.retries_total(), queue.dropped_total()), (3, 1));
    assert_eq!(queue.after_attempt(0, true), WriteStep::Written);
    assert_eq!((queue.retries_total(), queue.dropped_total()), (3, 1));
}

#[test]
fn shutdown_drains_the_queue_before_the_join_returns() {
    let mut queue = WriterQueue::new();
    for i in 0..3 {
        queue.enqueue(i);
    }
    queue.close();
    for i in 0..3 {
        assert_eq!(queue.next_action(), WorkerAction::Write(i));
    }
    assert_eq!(queue.next_action(), WorkerAction::Finish);
}

#[test]
fn post_shutdown_export_reports_shut_down_cleanly() {
    let mut queue = WriterQueue::new();
    queue.close();
    assert_eq!(queue.enqueue(1), SendOutcome::ShutDown);
    assert_eq!(queue.dropped_total(), 0);
    assert_eq!(queue.poll_samples(), Poll::Gone);
}

#[test]
fn a_flush_is_answered_when_no_sample_waits() {
    let mut queue = WriterQueue::new();
    queue.enqueue('a');
    let first = queue.register_flush();
    let second = queue.register_flush();
    assert_ne!(first, second);
    queue.withdraw_flush(first);
    assert_eq!(queue.next_action(), WorkerAction::Write('a'));
    assert_eq!(queue.next_action(), WorkerAction::Acknowledge);
    assert_eq!(queue.answer_flushes(), vec![second]);
    assert_eq!(queue.answer_flushes(), Vec::<u64>::new());
    assert_eq!(queue.next_action(), WorkerAction::AcknowledgeAndWait);
}

#[test]
fn stalled_shutdown_proceeds_on_its_budget() {
    assert_eq!(join_step(false, 119_999, 120_000), JoinStep::Wait);
    assert_eq!(join_step(false, 120_000, 120_000), JoinStep::GaveUp);
    assert_eq!(join_step(true, 120_000, 120_000), JoinStep::Joined);
}

#[test]
fn a_sample_that_cannot_be_written_is_counted() {
    let mut queue = WriterQueue::<u8>::new();
    queue.drop_unwritable();
    assert_eq!((queue.dropped_total(), queue.retries_total()), (1, 0));
}
