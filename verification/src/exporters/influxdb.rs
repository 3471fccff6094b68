//! The export of metrics to InfluxDB: what is written of a sample.

use vstd::prelude::*;
use vstd::string::*;
use crate::text::opt_text;
use super::{ExportError, RequestMetrics};

verus! {

broadcast use vstd::string::group_string_axioms;

/// The database that metrics are written to.
#[derive(Debug, PartialEq, Eq)]
pub struct InfluxDbConfig {
    pub url: String,
    pub org: String,
    pub bucket: String,
    pub token: String,
    pub batch_size: usize,
    pub flush_interval_seconds: u64,
}

/// What is said where the export is asked for of a program that was built
/// without it.
pub fn feature_off_error() -> (error: ExportError)
    ensures
        error is Config,
        error->Config_0@ == "influxdb enabled in config but binary built without the influxdb feature"@,
{
    ExportError::Config("influxdb enabled in config but binary built without the influxdb feature".to_owned())
}

impl InfluxDbConfig {
    /// The database that a configuration names. A configuration that asks for
    /// the export of a program that was built without it is refused.
    pub fn from_config(
        config: &crate::config::InfluxDbConfig,
        built_in: bool,
        batch_size: usize,
        flush_interval_seconds: u64,
    ) -> (result: Result<InfluxDbConfig, ExportError>)
        ensures
            config.enabled && !built_in ==> {
                &&& result is Err
                &&& result->Err_0 is Config
                &&& result->Err_0->Config_0@ == "influxdb enabled in config but binary built without the influxdb feature"@
            },
            !config.enabled || built_in ==> result == Ok::<InfluxDbConfig, ExportError>(
                InfluxDbConfig {
                    url: config.url,
                    org: config.org,
                    bucket: config.bucket,
                    token: config.token,
                    batch_size,
                    flush_interval_seconds,
                },
            ),
    {
        if config.enabled && !built_in {
            return Err(feature_off_error());
        }
        Ok(
            InfluxDbConfig {
                url: config.url.clone(),
                org: config.org.clone(),
                bucket: config.bucket.clone(),
                token: config.token.clone(),
                batch_size,
                flush_interval_seconds,
            },
        )
    }
}

/// A number that was measured and is not held here.
#[derive(Debug, Clone, Copy, PartialEq, Eq, Structural)]
pub enum Measure {
    PromptTps,
    TotalTps,
    GenerationTps,
    PromptMs,
    GenerationMs,
    DurationMs,
    ContextPercent,
}

/// The value of a field.
#[derive(Debug, Clone, Copy, PartialEq, Eq, Structural)]
pub enum FieldValue {
    Count(u64),
    Flag(bool),
    Measured(Measure),
}

/// What is written of a sample.
#[derive(Debug, PartialEq, Eq)]
pub struct PointPlan {
    pub measurement: String,
    pub tags: Vec<(String, String)>,
    pub fields: Vec<(String, FieldValue)>,
    pub timestamp_nanos: i64,
}

/// Tags, as contracts see them.
pub type Tags = Seq<(Seq<char>, Seq<char>)>;

/// Fields, as contracts see them.
pub type Fields = Seq<(Seq<char>, FieldValue)>;

/// The views of a list of tags.
pub open spec fn tag_views(tags: Seq<(String, String)>) -> Tags {
    Seq::new(tags.len(), |i: int| (tags[i].0@, tags[i].1@))
}

/// The views of a list of fields.
pub open spec fn field_views(fields: Seq<(String, FieldValue)>) -> Fields {
    Seq::new(fields.len(), |i: int| (fields[i].0@, fields[i].1))
}

/// Tags with one more, where there is a value for it.
pub open spec fn with_tag(tags: Tags, name: Seq<char>, value: Option<String>) -> Tags {
    match value {
        Some(v) => tags.push((name, v@)),
        None => tags,
    }
}

/// Fields with one more, where there is a count for it.
pub open spec fn with_count(fields: Fields, name: Seq<char>, count: Option<u64>) -> Fields {
    match count {
        Some(n) => fields.push((name, FieldValue::Count(n))),
        None => fields,
    }
}

/// The text of a truth value.
pub open spec fn bool_text(b: bool) -> Seq<char> {
    if b {
        "true"@
    } else {
        "false"@
    }
}

/// The tags of a sample. One that is not known is left out.
pub open spec fn point_tags(m: RequestMetrics) -> Tags {
    let always = seq![
        ("model"@, m.model@),
        ("streaming"@, bool_text(m.streaming)),
        ("finish_reason"@, m.finish_reason@),
        ("stream_end"@, m.stream_end@),
    ];
    with_tag(
        with_tag(with_tag(always, "client_id"@, m.client_id), "conversation_id"@, m.conversation_id),
        "group_name"@,
        m.group_name,
    )
}

/// The fields that every sample has.
pub open spec fn common_fields(m: RequestMetrics) -> Fields {
    seq![
        ("total_tokens"@, FieldValue::Count(m.total_tokens)),
        ("prompt_tps"@, FieldValue::Measured(Measure::PromptTps)),
        ("total_tps"@, FieldValue::Measured(Measure::TotalTps)),
        ("has_timing_split"@, FieldValue::Flag(m.has_timing_split)),
        ("generation_tps"@, FieldValue::Measured(Measure::GenerationTps)),
        ("prompt_ms"@, FieldValue::Measured(Measure::PromptMs)),
        ("generation_ms"@, FieldValue::Measured(Measure::GenerationMs)),
        ("duration_ms"@, FieldValue::Measured(Measure::DurationMs)),
        ("stream_incomplete"@, FieldValue::Flag(m.stream_incomplete)),
        ("input_len"@, FieldValue::Count(m.input_len)),
        ("output_len"@, FieldValue::Count(m.output_len)),
    ]
}

/// The fields of a sample. A count that is missing is left out: a zero would
/// say that it was measured.
pub open spec fn point_fields(m: RequestMetrics) -> Fields {
    let a = with_count(common_fields(m), "prompt_tokens"@, m.prompt_tokens);
    let b = with_count(a, "completion_tokens"@, m.completion_tokens);
    let c = with_count(b, "reasoning_tokens"@, m.reasoning_tokens);
    let d = with_count(c, "accepted_prediction_tokens"@, m.accepted_prediction_tokens);
    let e = with_count(d, "rejected_prediction_tokens"@, m.rejected_prediction_tokens);
    let f = with_count(e, "context_used"@, m.context_used);
    let g = with_count(f, "context_total"@, m.context_total);
    if m.has_context_percent {
        g.push(("context_percent"@, FieldValue::Measured(Measure::ContextPercent)))
    } else {
        g
    }
}

/// What is written under a name, if anything is.
pub open spec fn written<V>(entries: Seq<(Seq<char>, V)>, name: Seq<char>) -> Option<V>
    decreases entries.len(),
{
    if entries.len() == 0 {
        None
    } else if entries.last().0 == name {
        Some(entries.last().1)
    } else {
        written(entries.drop_last(), name)
    }
}

/// Whether no name is written twice.
#[verifier::opaque]
pub open spec fn names_once<V>(entries: Seq<(Seq<char>, V)>) -> bool {
    forall|i: int, j: int| 0 <= i < j < entries.len() ==> #[trigger] entries[i].0 != #[trigger] entries[j].0
}

/// A count as it is written, where it is known.
pub open spec fn count_of(count: Option<u64>) -> Option<FieldValue> {
    match count {
        Some(n) => Some(FieldValue::Count(n)),
        None => None,
    }
}

proof fn lemma_not_written<V>(entries: Seq<(Seq<char>, V)>, name: Seq<char>, i: int)
    requires
        written(entries, name) is None,
        0 <= i < entries.len(),
    ensures
        entries[i].0 != name,
    decreases entries.len(),
{
    if i < entries.len() - 1 {
        lemma_not_written(entries.drop_last(), name, i);
        assert(entries.drop_last()[i] == entries[i]);
    }
}

/// One more entry is found under its name, and leaves the others.
proof fn lemma_one_more<V>(entries: Seq<(Seq<char>, V)>, name: Seq<char>, value: V)
    ensures
        forall|x: Seq<char>| #[trigger]
            written(entries.push((name, value)), x) == if x == name {
                Some(value)
            } else {
                written(entries, x)
            },
        names_once(entries) && written(entries, name) is None ==> names_once(entries.push((name, value))),
{
    reveal(names_once);
    let more = entries.push((name, value));
    assert(more.drop_last() =~= entries);
    if names_once(entries) && written(entries, name) is None {
        assert forall|i: int, j: int| 0 <= i < j < more.len() implies #[trigger] more[i].0 != #[trigger] more[j].0 by {
            if j == entries.len() {
                lemma_not_written(entries, name, i);
            }
        }
    }
}

/// The names of the fields differ in their length or their first letter.
proof fn lemma_field_names()
    ensures
        "total_tokens"@.len() == 12 && "total_tokens"@[0] == 't',
        "prompt_tps"@.len() == 10 && "prompt_tps"@[0] == 'p',
        "total_tps"@.len() == 9 && "total_tps"@[0] == 't',
        "has_timing_split"@.len() == 16 && "has_timing_split"@[0] == 'h',
        "generation_tps"@.len() == 14 && "generation_tps"@[0] == 'g',
        "prompt_ms"@.len() == 9 && "prompt_ms"@[0] == 'p',
        "generation_ms"@.len() == 13 && "generation_ms"@[0] == 'g',
        "duration_ms"@.len() == 11 && "duration_ms"@[0] == 'd',
        "stream_incomplete"@.len() == 17 && "stream_incomplete"@[0] == 's',
        "input_len"@.len() == 9 && "input_len"@[0] == 'i',
        "output_len"@.len() == 10 && "output_len"@[0] == 'o',
        "prompt_tokens"@.len() == 13 && "prompt_tokens"@[0] == 'p',
        "completion_tokens"@.len() == 17 && "completion_tokens"@[0] == 'c',
        "reasoning_tokens"@.len() == 16 && "reasoning_tokens"@[0] == 'r',
        "accepted_prediction_tokens"@.len() == 26 && "accepted_prediction_tokens"@[0] == 'a',
        "rejected_prediction_tokens"@.len() == 26 && "rejected_prediction_tokens"@[0] == 'r',
        "context_used"@.len() == 12 && "context_used"@[0] == 'c',
        "context_total"@.len() == 13 && "context_total"@[0] == 'c',
        "context_percent"@.len() == 15 && "context_percent"@[0] == 'c',
{
    reveal_strlit("total_tokens");
    reveal_strlit("prompt_tps");
    reveal_strlit("total_tps");
    reveal_strlit("has_timing_split");
    reveal_strlit("generation_tps");
    reveal_strlit("prompt_ms");
    reveal_strlit("generation_ms");
    reveal_strlit("duration_ms");
    reveal_strlit("stream_incomplete");
    reveal_strlit("input_len");
    reveal_strlit("output_len");
    reveal_strlit("prompt_tokens");
    reveal_strlit("completion_tokens");
    reveal_strlit("reasoning_tokens");
    reveal_strlit("accepted_prediction_tokens");
    reveal_strlit("rejected_prediction_tokens");
    reveal_strlit("context_used");
    reveal_strlit("context_total");
    reveal_strlit("context_percent");
}

/// The names of the tags differ in their length or their first letter.
proof fn lemma_tag_names()
    ensures
        "model"@.len() == 5 && "model"@[0] == 'm',
        "streaming"@.len() == 9 && "streaming"@[0] == 's',
        "finish_reason"@.len() == 13 && "finish_reason"@[0] == 'f',
        "stream_end"@.len() == 10 && "stream_end"@[0] == 's',
        "client_id"@.len() == 9 && "client_id"@[0] == 'c',
        "conversation_id"@.len() == 15 && "conversation_id"@[0] == 'c',
        "group_name"@.len() == 10 && "group_name"@[0] == 'g',
{
    reveal_strlit("model");
    reveal_strlit("streaming");
    reveal_strlit("finish_reason");
    reveal_strlit("stream_end");
    reveal_strlit("client_id");
    reveal_strlit("conversation_id");
    reveal_strlit("group_name");
}

/// One more field is found under its name, and leaves the others.
proof fn lemma_one_more_field(fields: Fields, name: Seq<char>, value: FieldValue)
    ensures
        forall|x: Seq<char>| #[trigger]
            written(fields.push((name, value)), x) == if x == name {
                Some(value)
            } else {
                written(fields, x)
            },
        names_once(fields) && written(fields, name) is None ==> names_once(fields.push((name, value))),
        all_known(fields) && is_field_name(name) ==> all_known(fields.push((name, value))),
{
    reveal(all_known);
    lemma_one_more(fields, name, value);
}

/// The names that a field may have.
pub open spec fn is_field_name(name: Seq<char>) -> bool {
    ||| name == "total_tokens"@
    ||| name == "prompt_tps"@
    ||| name == "total_tps"@
    ||| name == "has_timing_split"@
    ||| name == "generation_tps"@
    ||| name == "prompt_ms"@
    ||| name == "generation_ms"@
    ||| name == "duration_ms"@
    ||| name == "stream_incomplete"@
    ||| name == "input_len"@
    ||| name == "output_len"@
    ||| name == "prompt_tokens"@
    ||| name == "completion_tokens"@
    ||| name == "reasoning_tokens"@
    ||| name == "accepted_prediction_tokens"@
    ||| name == "rejected_prediction_tokens"@
    ||| name == "context_used"@
    ||| name == "context_total"@
    ||| name == "context_percent"@
}

/// Whether no field has another name.
#[verifier::opaque]
pub open spec fn all_known(fields: Fields) -> bool {
    forall|i: int| 0 <= i < fields.len() ==> is_field_name(#[trigger] fields[i].0)
}

/// The common fields are written under their own names, each once, and nothing
/// else is.
proof fn lemma_common_fields(m: RequestMetrics)
    ensures
        written(common_fields(m), "total_tokens"@) == Some(FieldValue::Count(m.total_tokens)),
        written(common_fields(m), "prompt_tps"@) == Some(FieldValue::Measured(Measure::PromptTps)),
        written(common_fields(m), "total_tps"@) == Some(FieldValue::Measured(Measure::TotalTps)),
        written(common_fields(m), "has_timing_split"@) == Some(FieldValue::Flag(m.has_timing_split)),
        written(common_fields(m), "generation_tps"@) == Some(FieldValue::Measured(Measure::GenerationTps)),
        written(common_fields(m), "prompt_ms"@) == Some(FieldValue::Measured(Measure::PromptMs)),
        written(common_fields(m), "generation_ms"@) == Some(FieldValue::Measured(Measure::GenerationMs)),
        written(common_fields(m), "duration_ms"@) == Some(FieldValue::Measured(Measure::DurationMs)),
        written(common_fields(m), "stream_incomplete"@) == Some(FieldValue::Flag(m.stream_incomplete)),
        written(common_fields(m), "input_len"@) == Some(FieldValue::Count(m.input_len)),
        written(common_fields(m), "output_len"@) == Some(FieldValue::Count(m.output_len)),
        written(common_fields(m), "prompt_tokens"@) is None,
        written(common_fields(m), "completion_tokens"@) is None,
        written(common_fields(m), "reasoning_tokens"@) is None,
        written(common_fields(m), "accepted_prediction_tokens"@) is None,
        written(common_fields(m), "rejected_prediction_tokens"@) is None,
        written(common_fields(m), "context_used"@) is None,
        written(common_fields(m), "context_total"@) is None,
        written(common_fields(m), "context_percent"@) is None,
        names_once(common_fields(m)),
        all_known(common_fields(m)),
{
    lemma_field_names();
    let none = Seq::<(Seq<char>, FieldValue)>::empty();
    assert(names_once(none)) by {
        reveal(names_once);
    }
    assert(all_known(none)) by {
        reveal(all_known);
    }
    lemma_one_more_field(none, "total_tokens"@, FieldValue::Count(m.total_tokens));
    let f0 = none.push(("total_tokens"@, FieldValue::Count(m.total_tokens)));
    lemma_one_more_field(f0, "prompt_tps"@, FieldValue::Measured(Measure::PromptTps));
    let f1 = f0.push(("prompt_tps"@, FieldValue::Measured(Measure::PromptTps)));
    lemma_one_more_field(f1, "total_tps"@, FieldValue::Measured(Measure::TotalTps));
    let f2 = f1.push(("total_tps"@, FieldValue::Measured(Measure::TotalTps)));
    lemma_one_more_field(f2, "has_timing_split"@, FieldValue::Flag(m.has_timing_split));
    let f3 = f2.push(("has_timing_split"@, FieldValue::Flag(m.has_timing_split)));
    lemma_one_more_field(f3, "generation_tps"@, FieldValue::Measured(Measure::GenerationTps));
    let f4 = f3.push(("generation_tps"@, FieldValue::Measured(Measure::GenerationTps)));
    lemma_one_more_field(f4, "prompt_ms"@, FieldValue::Measured(Measure::PromptMs));
    let f5 = f4.push(("prompt_ms"@, FieldValue::Measured(Measure::PromptMs)));
    lemma_one_more_field(f5, "generation_ms"@, FieldValue::Measured(Measure::GenerationMs));
    let f6 = f5.push(("generation_ms"@, FieldValue::Measured(Measure::GenerationMs)));
    lemma_one_more_field(f6, "duration_ms"@, FieldValue::Measured(Measure::DurationMs));
    let f7 = f6.push(("duration_ms"@, FieldValue::Measured(Measure::DurationMs)));
    lemma_one_more_field(f7, "stream_incomplete"@, FieldValue::Flag(m.stream_incomplete));
    let f8 = f7.push(("stream_incomplete"@, FieldValue::Flag(m.stream_incomplete)));
    lemma_one_more_field(f8, "input_len"@, FieldValue::Count(m.input_len));
    let f9 = f8.push(("input_len"@, FieldValue::Count(m.input_len)));
    lemma_one_more_field(f9, "output_len"@, FieldValue::Count(m.output_len));
    let f10 = f9.push(("output_len"@, FieldValue::Count(m.output_len)));
    assert(f10 =~= common_fields(m));
}

/// Each quantity of a sample is written under its own name, once; what is not
/// known is not written.
pub proof fn law_each_quantity_has_its_field(m: RequestMetrics)
    ensures
        written(point_fields(m), "total_tokens"@) == Some(FieldValue::Count(m.total_tokens)),
        written(point_fields(m), "prompt_tps"@) == Some(FieldValue::Measured(Measure::PromptTps)),
        written(point_fields(m), "total_tps"@) == Some(FieldValue::Measured(Measure::TotalTps)),
        written(point_fields(m), "has_timing_split"@) == Some(FieldValue::Flag(m.has_timing_split)),
        written(point_fields(m), "generation_tps"@) == Some(FieldValue::Measured(Measure::GenerationTps)),
        written(point_fields(m), "prompt_ms"@) == Some(FieldValue::Measured(Measure::PromptMs)),
        written(point_fields(m), "generation_ms"@) == Some(FieldValue::Measured(Measure::GenerationMs)),
        written(point_fields(m), "duration_ms"@) == Some(FieldValue::Measured(Measure::DurationMs)),
        written(point_fields(m), "stream_incomplete"@) == Some(FieldValue::Flag(m.stream_incomplete)),
        written(point_fields(m), "input_len"@) == Some(FieldValue::Count(m.input_len)),
        written(point_fields(m), "output_len"@) == Some(FieldValue::Count(m.output_len)),
        written(point_fields(m), "prompt_tokens"@) == count_of(m.prompt_tokens),
        written(point_fields(m), "completion_tokens"@) == count_of(m.completion_tokens),
        written(point_fields(m), "reasoning_tokens"@) == count_of(m.reasoning_tokens),
        written(point_fields(m), "accepted_prediction_tokens"@) == count_of(m.accepted_prediction_tokens),
        written(point_fields(m), "rejected_prediction_tokens"@) == count_of(m.rejected_prediction_tokens),
        written(point_fields(m), "context_used"@) == count_of(m.context_used),
        written(point_fields(m), "context_total"@) == count_of(m.context_total),
        written(point_fields(m), "context_percent"@) == if m.has_context_percent {
            Some(FieldValue::Measured(Measure::ContextPercent))
        } else {
            None
        },
        names_once(point_fields(m)),
        all_known(point_fields(m)),
{
    lemma_field_names();
    lemma_common_fields(m);
    let common = common_fields(m);
    if let Some(count) = m.prompt_tokens {
        lemma_one_more_field(common, "prompt_tokens"@, FieldValue::Count(count));
    }
    let c0 = with_count(common, "prompt_tokens"@, m.prompt_tokens);
    if let Some(count) = m.completion_tokens {
        lemma_one_more_field(c0, "completion_tokens"@, FieldValue::Count(count));
    }
    let c1 = with_count(c0, "completion_tokens"@, m.completion_tokens);
    if let Some(count) = m.reasoning_tokens {
        lemma_one_more_field(c1, "reasoning_tokens"@, FieldValue::Count(count));
    }
    let c2 = with_count(c1, "reasoning_tokens"@, m.reasoning_tokens);
    if let Some(count) = m.accepted_prediction_tokens {
        lemma_one_more_field(c2, "accepted_prediction_tokens"@, FieldValue::Count(count));
    }
    let c3 = with_count(c2, "accepted_prediction_tokens"@, m.accepted_prediction_tokens);
    if let Some(count) = m.rejected_prediction_tokens {
        lemma_one_more_field(c3, "rejected_prediction_tokens"@, FieldValue::Count(count));
    }
    let c4 = with_count(c3, "rejected_prediction_tokens"@, m.rejected_prediction_tokens);
    if let Some(count) = m.context_used {
        lemma_one_more_field(c4, "context_used"@, FieldValue::Count(count));
    }
    let c5 = with_count(c4, "context_used"@, m.context_used);
    if let Some(count) = m.context_total {
        lemma_one_more_field(c5, "context_total"@, FieldValue::Count(count));
    }
    let c6 = with_count(c5, "context_total"@, m.context_total);
    lemma_one_more_field(c6, "context_percent"@, FieldValue::Measured(Measure::ContextPercent));
}

/// Each label of a sample is written under its own name, once; what is not known
/// is not written.
pub proof fn law_each_label_has_its_tag(m: RequestMetrics)
    ensures
        written(point_tags(m), "model"@) == Some(m.model@),
        written(point_tags(m), "streaming"@) == Some(
            if m.streaming {
                "true"@
            } else {
                "false"@
            },
        ),
        written(point_tags(m), "finish_reason"@) == Some(m.finish_reason@),
        written(point_tags(m), "stream_end"@) == Some(m.stream_end@),
        written(point_tags(m), "client_id"@) == opt_text(m.client_id),
        written(point_tags(m), "conversation_id"@) == opt_text(m.conversation_id),
        written(point_tags(m), "group_name"@) == opt_text(m.group_name),
        names_once(point_tags(m)),
{
    lemma_tag_names();
    let none = Seq::<(Seq<char>, Seq<char>)>::empty();
    assert(names_once(none)) by {
        reveal(names_once);
    }
    lemma_one_more(none, "model"@, m.model@);
    let t0 = none.push(("model"@, m.model@));
    lemma_one_more(t0, "streaming"@, bool_text(m.streaming));
    let t1 = t0.push(("streaming"@, bool_text(m.streaming)));
    lemma_one_more(t1, "finish_reason"@, m.finish_reason@);
    let t2 = t1.push(("finish_reason"@, m.finish_reason@));
    lemma_one_more(t2, "stream_end"@, m.stream_end@);
    let t3 = t2.push(("stream_end"@, m.stream_end@));
    let always = seq![
        ("model"@, m.model@),
        ("streaming"@, bool_text(m.streaming)),
        ("finish_reason"@, m.finish_reason@),
        ("stream_end"@, m.stream_end@),
    ];
    assert(t3 =~= always);
    if let Some(value) = m.client_id {
        lemma_one_more(t3, "client_id"@, value@);
    }
    let o0 = with_tag(t3, "client_id"@, m.client_id);
    if let Some(value) = m.conversation_id {
        lemma_one_more(o0, "conversation_id"@, value@);
    }
    let o1 = with_tag(o0, "conversation_id"@, m.conversation_id);
    if let Some(value) = m.group_name {
        lemma_one_more(o1, "group_name"@, value@);
    }
    let o2 = with_tag(o1, "group_name"@, m.group_name);
}

fn add_tag(tags: &mut Vec<(String, String)>, name: &str, value: &str)
    ensures
        tag_views(final(tags)@) == tag_views(old(tags)@).push((name@, value@)),
{
    tags.push((name.to_owned(), value.to_owned()));
    proof {
        assert(tag_views(tags@) =~= tag_views(old(tags)@).push((name@, value@)));
    }
}

fn add_opt_tag(tags: &mut Vec<(String, String)>, name: &str, value: &Option<String>)
    ensures
        tag_views(final(tags)@) == with_tag(tag_views(old(tags)@), name@, *value),
{
    if let Some(v) = value {
        add_tag(tags, name, v.as_str());
    }
}

fn add_field(fields: &mut Vec<(String, FieldValue)>, name: &str, value: FieldValue)
    ensures
        field_views(final(fields)@) == field_views(old(fields)@).push((name@, value)),
{
    fields.push((name.to_owned(), value));
    proof {
        assert(field_views(fields@) =~= field_views(old(fields)@).push((name@, value)));
    }
}

fn add_count(fields: &mut Vec<(String, FieldValue)>, name: &str, count: Option<u64>)
    ensures
        field_views(final(fields)@) == with_count(field_views(old(fields)@), name@, count),
{
    if let Some(n) = count {
        add_field(fields, name, FieldValue::Count(n));
    }
}

/// What is written of a sample. One whose time cannot be told in nanoseconds is
/// not written at all.
pub fn build_data_point(metrics: &RequestMetrics) -> (point: Option<PointPlan>)
    ensures
        match metrics.timestamp_nanos {
            None => point is None,
            Some(nanos) => {
                &&& point is Some
                &&& point->0.measurement@ == "llama_request"@
                &&& tag_views(point->0.tags@) == point_tags(*metrics)
                &&& field_views(point->0.fields@) == point_fields(*metrics)
                &&& point->0.timestamp_nanos == nanos
                &&& written(tag_views(point->0.tags@), "model"@) == Some(metrics.model@)
                &&& written(tag_views(point->0.tags@), "streaming"@) == Some(
                    if metrics.streaming {
                        "true"@
                    } else {
                        "false"@
                    },
                )
                &&& written(tag_views(point->0.tags@), "finish_reason"@) == Some(metrics.finish_reason@)
                &&& written(tag_views(point->0.tags@), "stream_end"@) == Some(metrics.stream_end@)
                &&& written(tag_views(point->0.tags@), "client_id"@) == opt_text(metrics.client_id)
                &&& written(tag_views(point->0.tags@), "conversation_id"@) == opt_text(metrics.conversation_id)
                &&& written(tag_views(point->0.tags@), "group_name"@) == opt_text(metrics.group_name)
                &&& names_once(tag_views(point->0.tags@))
                &&& written(field_views(point->0.fields@), "total_tokens"@) == Some(FieldValue::Count(metrics.total_tokens))
                &&& written(field_views(point->0.fields@), "prompt_tps"@) == Some(FieldValue::Measured(Measure::PromptTps))
                &&& written(field_views(point->0.fields@), "total_tps"@) == Some(FieldValue::Measured(Measure::TotalTps))
                &&& written(field_views(point->0.fields@), "has_timing_split"@) == Some(FieldValue::Flag(metrics.has_timing_split))
                &&& written(field_views(point->0.fields@), "generation_tps"@) == Some(FieldValue::Measured(Measure::GenerationTps))
                &&& written(field_views(point->0.fields@), "prompt_ms"@) == Some(FieldValue::Measured(Measure::PromptMs))
                &&& written(field_views(point->0.fields@), "generation_ms"@) == Some(FieldValue::Measured(Measure::GenerationMs))
                &&& written(field_views(point->0.fields@), "duration_ms"@) == Some(FieldValue::Measured(Measure::DurationMs))
                &&& written(field_views(point->0.fields@), "stream_incomplete"@) == Some(FieldValue::Flag(metrics.stream_incomplete))
                &&& written(field_views(point->0.fields@), "input_len"@) == Some(FieldValue::Count(metrics.input_len))
                &&& written(field_views(point->0.fields@), "output_len"@) == Some(FieldValue::Count(metrics.output_len))
                &&& written(field_views(point->0.fields@), "prompt_tokens"@) == count_of(metrics.prompt_tokens)
                &&& written(field_views(point->0.fields@), "completion_tokens"@) == count_of(metrics.completion_tokens)
                &&& written(field_views(point->0.fields@), "reasoning_tokens"@) == count_of(metrics.reasoning_tokens)
                &&& written(field_views(point->0.fields@), "accepted_prediction_tokens"@) == count_of(metrics.accepted_prediction_tokens)
                &&& written(field_views(point->0.fields@), "rejected_prediction_tokens"@) == count_of(metrics.rejected_prediction_tokens)
                &&& written(field_views(point->0.fields@), "context_used"@) == count_of(metrics.context_used)
                &&& written(field_views(point->0.fields@), "context_total"@) == count_of(metrics.context_total)
                &&& written(field_views(point->0.fields@), "context_percent"@) == if metrics.has_context_percent {
                    Some(FieldValue::Measured(Measure::ContextPercent))
                } else {
                    None
                }
                &&& names_once(field_views(point->0.fields@))
                &&& all_known(field_views(point->0.fields@))
            },
        },
{
    let timestamp_nanos = match metrics.timestamp_nanos {
        None => {
            return None;
        },
        Some(nanos) => nanos,
    };
    let mut tags: Vec<(String, String)> = Vec::new();
    add_tag(&mut tags, "model", metrics.model.as_str());
    add_tag(&mut tags, "streaming", if metrics.streaming { "true" } else { "false" });
    add_tag(&mut tags, "finish_reason", metrics.finish_reason.as_str());
    add_tag(&mut tags, "stream_end", metrics.stream_end.as_str());
    proof {
        assert(tag_views(tags@) =~= seq![
            ("model"@, metrics.model@),
            ("streaming"@, bool_text(metrics.streaming)),
            ("finish_reason"@, metrics.finish_reason@),
            ("stream_end"@, metrics.stream_end@),
        ]);
    }
    add_opt_tag(&mut tags, "client_id", &metrics.client_id);
    add_opt_tag(&mut tags, "conversation_id", &metrics.conversation_id);
    add_opt_tag(&mut tags, "group_name", &metrics.group_name);
    let mut fields: Vec<(String, FieldValue)> = Vec::new();
    add_field(&mut fields, "total_tokens", FieldValue::Count(metrics.total_tokens));
    add_field(&mut fields, "prompt_tps", FieldValue::Measured(Measure::PromptTps));
    add_field(&mut fields, "total_tps", FieldValue::Measured(Measure::TotalTps));
    add_field(&mut fields, "has_timing_split", FieldValue::Flag(metrics.has_timing_split));
    add_field(&mut fields, "generation_tps", FieldValue::Measured(Measure::GenerationTps));
    add_field(&mut fields, "prompt_ms", FieldValue::Measured(Measure::PromptMs));
    add_field(&mut fields, "generation_ms", FieldValue::Measured(Measure::GenerationMs));
    add_field(&mut fields, "duration_ms", FieldValue::Measured(Measure::DurationMs));
    add_field(&mut fields, "stream_incomplete", FieldValue::Flag(metrics.stream_incomplete));
    add_field(&mut fields, "input_len", FieldValue::Count(metrics.input_len));
    add_field(&mut fields, "output_len", FieldValue::Count(metrics.output_len));
    proof {
        assert(field_views(fields@) =~= common_fields(*metrics));
    }
    add_count(&mut fields, "prompt_tokens", metrics.prompt_tokens);
    add_count(&mut fields, "completion_tokens", metrics.completion_tokens);
    add_count(&mut fields, "reasoning_tokens", metrics.reasoning_tokens);
    add_count(&mut fields, "accepted_prediction_tokens", metrics.accepted_prediction_tokens);
    add_count(&mut fields, "rejected_prediction_tokens", metrics.rejected_prediction_tokens);
    add_count(&mut fields, "context_used", metrics.context_used);
    add_count(&mut fields, "context_total", metrics.context_total);
    if metrics.has_context_percent {
        add_field(&mut fields, "context_percent", FieldValue::Measured(Measure::ContextPercent));
    }
    proof {
        law_each_quantity_has_its_field(*metrics);
        law_each_label_has_its_tag(*metrics);
    }
    Some(PointPlan { measurement: "llama_request".to_owned(), tags, fields, timestamp_nanos })
}

/// A count that is known is written, also where it is zero.
pub proof fn law_known_counts_are_written(fields: Fields, name: Seq<char>, count: u64)
    ensures
        with_count(fields, name, Some(count)).last() == (name, FieldValue::Count(count)),
{
}

/// A count that is missing adds no field.
pub proof fn law_missing_counts_are_not_written(fields: Fields, name: Seq<char>)
    ensures
        with_count(fields, name, None) == fields,
{
}

} // verus!
