//! The export of metrics.

use vstd::prelude::*;
use vstd::string::*;
use crate::config::StatsFormat;
use crate::text::{decimal, decimal_text, joined};

pub mod influxdb;
pub mod laws;
pub mod worker;

verus! {

broadcast use vstd::string::group_string_axioms;

/// What is known of one request. Rates and times in milliseconds stay with
/// whoever measured them; here stands only what is decided on.
#[derive(Debug, PartialEq, Eq)]
pub struct RequestMetrics {
    pub model: String,
    pub streaming: bool,
    pub finish_reason: String,
    /// How the stream ended, in a word.
    pub stream_end: String,
    pub stream_incomplete: bool,
    pub client_id: Option<String>,
    pub conversation_id: Option<String>,
    pub group_name: Option<String>,
    pub total_tokens: u64,
    pub prompt_tokens: Option<u64>,
    pub completion_tokens: Option<u64>,
    pub reasoning_tokens: Option<u64>,
    pub accepted_prediction_tokens: Option<u64>,
    pub rejected_prediction_tokens: Option<u64>,
    pub context_used: Option<u64>,
    pub context_total: Option<u64>,
    /// Whether it is known how full the context is.
    pub has_context_percent: bool,
    /// Whether the backend told how long the prompt and the answer took.
    pub has_timing_split: bool,
    /// Whether the backend reported a rate.
    pub has_reported_rate: bool,
    pub input_len: u64,
    pub output_len: u64,
    /// Nanoseconds since the epoch, where the time can be told in them.
    pub timestamp_nanos: Option<i64>,
}

/// Whether a sample says how fast a request was: it has a count of tokens, or
/// a rate that the backend reported.
pub open spec fn is_measured(m: RequestMetrics) -> bool {
    m.total_tokens > 0 || m.prompt_tokens is Some || m.completion_tokens is Some || m.has_reported_rate
}

impl RequestMetrics {
    /// A sample of which nothing is known.
    pub fn new() -> (m: RequestMetrics)
        ensures
            !is_measured(m),
            m.model@ == Seq::<char>::empty(),
            m.finish_reason@ == Seq::<char>::empty(),
            m.stream_end@ == Seq::<char>::empty(),
            m == (RequestMetrics {
                model: m.model,
                streaming: false,
                finish_reason: m.finish_reason,
                stream_end: m.stream_end,
                stream_incomplete: false,
                client_id: None,
                conversation_id: None,
                group_name: None,
                total_tokens: 0,
                prompt_tokens: None,
                completion_tokens: None,
                reasoning_tokens: None,
                accepted_prediction_tokens: None,
                rejected_prediction_tokens: None,
                context_used: None,
                context_total: None,
                has_context_percent: false,
                has_timing_split: false,
                has_reported_rate: false,
                input_len: 0,
                output_len: 0,
                timestamp_nanos: None,
            }),
    {
        RequestMetrics {
            model: String::new(),
            streaming: false,
            finish_reason: String::new(),
            stream_end: String::new(),
            stream_incomplete: false,
            client_id: None,
            conversation_id: None,
            group_name: None,
            total_tokens: 0,
            prompt_tokens: None,
            completion_tokens: None,
            reasoning_tokens: None,
            accepted_prediction_tokens: None,
            rejected_prediction_tokens: None,
            context_used: None,
            context_total: None,
            has_context_percent: false,
            has_timing_split: false,
            has_reported_rate: false,
            input_len: 0,
            output_len: 0,
            timestamp_nanos: None,
        }
    }

    /// Whether the sample says how fast a request was.
    pub fn has_throughput_signal(&self) -> (measured: bool)
        ensures
            measured == is_measured(*self),
    {
        self.total_tokens > 0 || self.prompt_tokens.is_some() || self.completion_tokens.is_some()
            || self.has_reported_rate
    }
}

/// Every how many samples that are left out one is logged.
pub const DROP_WARN_INTERVAL: u64 = 100;

/// What is logged of a sample.
#[derive(Debug, PartialEq, Eq)]
pub enum SampleLine {
    /// The metrics, in the configured format; on lines of their own, or not.
    Metrics { own_lines: bool },
    /// A sample that was left out, as the how manieth.
    Skipped {
        model: String,
        stream_end: String,
        finish_reason: String,
        prompt_tokens: String,
        skipped_total: u64,
    },
}

/// The text of a count that may be missing.
pub open spec fn count_or_na(count: Option<u64>) -> Seq<char> {
    match count {
        Some(n) => decimal(n as nat),
        None => "n/a"@,
    }
}

/// One more, with the count starting anew at its end.
pub open spec fn one_more(n: u64) -> u64 {
    if n == u64::MAX {
        0
    } else {
        (n + 1) as u64
    }
}

/// Whether a line is that of a sample that was left out.
pub open spec fn is_skip_line(line: SampleLine, m: RequestMetrics, skipped: u64) -> bool {
    match line {
        SampleLine::Skipped { model, stream_end, finish_reason, prompt_tokens, skipped_total } => {
            &&& model == m.model
            &&& stream_end == m.stream_end
            &&& finish_reason == m.finish_reason
            &&& prompt_tokens@ == count_or_na(m.prompt_tokens)
            &&& skipped_total == skipped
        },
        SampleLine::Metrics { .. } => false,
    }
}

/// Whether a sample may be exported: one that says nothing of how fast a
/// request was may not, and is counted. What is to be logged of it is added to
/// the log: the metrics; or, of the samples that are left out, the first and
/// then every hundredth.
pub fn log_sample_and_should_export(
    metrics: &RequestMetrics,
    format: StatsFormat,
    skipped_total: &mut u64,
    log: &mut Vec<SampleLine>,
) -> (export: bool)
    ensures
        export == is_measured(*metrics),
        *final(skipped_total) == if export {
            *old(skipped_total)
        } else {
            one_more(*old(skipped_total))
        },
        ({
            let skipped = *final(skipped_total);
            if export {
                final(log)@ == old(log)@.push(SampleLine::Metrics { own_lines: format != StatsFormat::Compact })
            } else if skipped == 1 || skipped % DROP_WARN_INTERVAL == 0 {
                &&& final(log)@.len() == old(log)@.len() + 1
                &&& final(log)@.drop_last() == old(log)@
                &&& is_skip_line(final(log)@.last(), *metrics, skipped)
            } else {
                final(log)@ == old(log)@
            }
        }),
{
    if metrics.has_throughput_signal() {
        let own_lines = match format {
            StatsFormat::Compact => false,
            _ => true,
        };
        log.push(SampleLine::Metrics { own_lines });
        return true;
    }
    let skipped = (*skipped_total).wrapping_add(1);
    *skipped_total = skipped;
    if skipped == 1 || skipped % DROP_WARN_INTERVAL == 0 {
        let prompt_tokens = match metrics.prompt_tokens {
            Some(tokens) => decimal_text(tokens),
            None => "n/a".to_owned(),
        };
        log.push(
            SampleLine::Skipped {
                model: metrics.model.clone(),
                stream_end: metrics.stream_end.clone(),
                finish_reason: metrics.finish_reason.clone(),
                prompt_tokens,
                skipped_total: skipped,
            },
        );
        proof {
            assert(log@.drop_last() =~= old(log)@);
        }
    }
    false
}

/// Why metrics could not be exported.
#[derive(Debug, PartialEq, Eq)]
pub enum ExportError {
    Connection(String),
    Auth(String),
    Write(String),
    Config(String),
    Other(String),
}

/// An [`ExportError`] in words.
pub open spec fn export_message(e: ExportError) -> Seq<char> {
    match e {
        ExportError::Connection(m) => "Connection error: "@ + m@,
        ExportError::Auth(m) => "Authentication error: "@ + m@,
        ExportError::Write(m) => "Write error: "@ + m@,
        ExportError::Config(m) => "Configuration error: "@ + m@,
        ExportError::Other(m) => m@,
    }
}

impl ExportError {
    /// The error in words.
    pub fn to_string(&self) -> (text: String)
        ensures
            text@ == export_message(*self),
    {
        match self {
            ExportError::Connection(m) => joined("Connection error: ", m.as_str()),
            ExportError::Auth(m) => joined("Authentication error: ", m.as_str()),
            ExportError::Write(m) => joined("Write error: ", m.as_str()),
            ExportError::Config(m) => joined("Configuration error: ", m.as_str()),
            ExportError::Other(m) => m.clone(),
        }
    }
}

/// A place that metrics go to.
pub trait MetricsExporter: Sized {
    /// Takes a sample.
    fn export(&self, metrics: &RequestMetrics) -> Result<(), ExportError>;

    /// Sees to it that every sample that was taken is on its way.
    fn flush(&self) -> (result: Result<(), ExportError>)
        default_ensures
            result is Ok,
    {
        Ok(())
    }

    /// Ends the export.
    fn shutdown(&self) -> (result: Result<(), ExportError>)
        default_ensures
            call_ensures(Self::flush, (self,), result),
    {
        self.flush()
    }

    /// The name of the exporter.
    fn name(&self) -> &str;
}

/// The places that metrics go to.
pub struct ExporterManager<E: MetricsExporter> {
    pub exporters: Vec<E>,
}

impl<E: MetricsExporter> ExporterManager<E> {
    /// No place yet.
    pub fn new() -> (manager: ExporterManager<E>)
        ensures
            manager.exporters@ == Seq::<E>::empty(),
    {
        ExporterManager { exporters: Vec::new() }
    }

    /// Adds a place behind the others.
    pub fn add(&mut self, exporter: E)
        ensures
            final(self).exporters@ == old(self).exporters@.push(exporter),
    {
        self.exporters.push(exporter);
    }

    /// Hands a sample to every place, in order, whatever became of it at the
    /// others, and says what became of it at each.
    pub fn export_all(&self, metrics: &RequestMetrics) -> (outcomes: Vec<Result<(), ExportError>>)
        ensures
            outcomes@.len() == self.exporters@.len(),
            forall|i: int|
                0 <= i < self.exporters@.len() ==> call_ensures(
                    E::export,
                    (&self.exporters@[i], metrics),
                    #[trigger] outcomes@[i],
                ),
    {
        let mut outcomes: Vec<Result<(), ExportError>> = Vec::new();
        let mut i: usize = 0;
        while i < self.exporters.len()
            invariant
                i <= self.exporters@.len(),
                outcomes@.len() == i,
                forall|k: int|
                    0 <= k < i ==> call_ensures(E::export, (&self.exporters@[k], metrics), #[trigger] outcomes@[k]),
            decreases self.exporters@.len() - i,
        {
            let outcome = self.exporters[i].export(metrics);
            outcomes.push(outcome);
            i += 1;
        }
        outcomes
    }

    /// Flushes every place, in order, and says what became of it at each.
    pub fn flush_all(&self) -> (outcomes: Vec<Result<(), ExportError>>)
        ensures
            outcomes@.len() == self.exporters@.len(),
            forall|i: int|
                0 <= i < self.exporters@.len() ==> call_ensures(
                    E::flush,
                    (&self.exporters@[i],),
                    #[trigger] outcomes@[i],
                ),
    {
        let mut outcomes: Vec<Result<(), ExportError>> = Vec::new();
        let mut i: usize = 0;
        while i < self.exporters.len()
            invariant
                i <= self.exporters@.len(),
                outcomes@.len() == i,
                forall|k: int| 0 <= k < i ==> call_ensures(E::flush, (&self.exporters@[k],), #[trigger] outcomes@[k]),
            decreases self.exporters@.len() - i,
        {
            let outcome = self.exporters[i].flush();
            outcomes.push(outcome);
            i += 1;
        }
        outcomes
    }

    /// Ends the export at every place, in order, and says what became of it at
    /// each.
    pub fn shutdown_all(&self) -> (outcomes: Vec<Result<(), ExportError>>)
        ensures
            outcomes@.len() == self.exporters@.len(),
            forall|i: int|
                0 <= i < self.exporters@.len() ==> call_ensures(
                    E::shutdown,
                    (&self.exporters@[i],),
                    #[trigger] outcomes@[i],
                ),
    {
        let mut outcomes: Vec<Result<(), ExportError>> = Vec::new();
        let mut i: usize = 0;
        while i < self.exporters.len()
            invariant
                i <= self.exporters@.len(),
                outcomes@.len() == i,
                forall|k: int| 0 <= k < i ==> call_ensures(E::shutdown, (&self.exporters@[k],), #[trigger] outcomes@[k]),
            decreases self.exporters@.len() - i,
        {
            let outcome = self.exporters[i].shutdown();
            outcomes.push(outcome);
            i += 1;
        }
        outcomes
    }
}

impl<E: MetricsExporter> Default for ExporterManager<E> {
    fn default() -> (manager: ExporterManager<E>)
        ensures
            manager.exporters@ == Seq::<E>::empty(),
    {
        Self::new()
    }
}

} // verus!
