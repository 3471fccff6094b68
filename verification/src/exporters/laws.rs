//! Which samples are exported, and how often one is tried.

use vstd::prelude::*;
use vstd::string::*;
use crate::text::decimal;
use super::worker::{delay_after, failing_chain, law_three_retries_then_dropped, without_first};
use super::{count_or_na, export_message, is_measured, is_skip_line, one_more, ExportError, RequestMetrics, SampleLine};

verus! {

broadcast use vstd::string::group_string_axioms;

/// Any one count of tokens, or a rate that was reported, is enough for a sample to be
/// exported; without all of them it is not.
pub proof fn law_any_signal_is_enough(m: RequestMetrics)
    ensures
        m.total_tokens > 0 ==> is_measured(m),
        m.prompt_tokens is Some ==> is_measured(m),
        m.completion_tokens is Some ==> is_measured(m),
        m.has_reported_rate ==> is_measured(m),
        m.total_tokens == 0 && m.prompt_tokens is None && m.completion_tokens is None && !m.has_reported_rate
            ==> !is_measured(m),
{
}

/// A known count is told in decimal, and an unknown one as not available.
pub proof fn law_counts_are_told(count: Option<u64>)
    ensures
        count is Some ==> count_or_na(count) == decimal(count->0 as nat),
        count is None ==> count_or_na(count) == "n/a"@,
{
}

/// A count goes on by one.
pub proof fn law_counts_go_on_by_one(n: u64)
    requires
        n < u64::MAX,
    ensures
        one_more(n) == n + 1,
{
}

/// A sample that cannot be written is tried again after 100, 500 and 2000
/// milliseconds, and given up after that.
pub proof fn law_pauses_between_attempts(attempt: nat, n: nat)
    ensures
        delay_after(0) == Some(100u64),
        delay_after(1) == Some(500u64),
        delay_after(2) == Some(2000u64),
        attempt >= 3 ==> delay_after(attempt) is None,
        n <= 3 ==> failing_chain(n) == (n, false),
        n > 3 ==> failing_chain(n) == (3nat, true),
{
    law_three_retries_then_dropped(n);
}

/// A flush that is taken back is gone, and every other one stays in its place.
pub proof fn law_a_withdrawn_flush_is_gone(before: Seq<u64>, ticket: u64, after: Seq<u64>)
    requires
        !before.contains(ticket),
    ensures
        without_first(before + seq![ticket] + after, ticket, 0) == before + after,
        without_first(before, ticket, 0) == before,
{
    lemma_withdrawn(before, ticket, after, 0);
    lemma_not_there(before, ticket, 0);
}

proof fn lemma_withdrawn(before: Seq<u64>, ticket: u64, after: Seq<u64>, from: int)
    requires
        0 <= from <= before.len(),
        !before.contains(ticket),
    ensures
        without_first(before + seq![ticket] + after, ticket, from) == before + after,
    decreases before.len() - from,
{
    let all = before + seq![ticket] + after;
    if from < before.len() {
        assert(all[from] == before[from]);
        assert(before.contains(before[from]));
        lemma_withdrawn(before, ticket, after, from + 1);
    } else {
        assert(all[from] == ticket);
        assert(all.remove(from) =~= before + after);
    }
}

proof fn lemma_not_there(tickets: Seq<u64>, ticket: u64, from: int)
    requires
        0 <= from <= tickets.len(),
        !tickets.contains(ticket),
    ensures
        without_first(tickets, ticket, from) == tickets,
    decreases tickets.len() - from,
{
    if from < tickets.len() {
        assert(tickets.contains(tickets[from]));
        lemma_not_there(tickets, ticket, from + 1);
    }
}

/// The words of an error end with what was said of it, behind its kind.
pub proof fn law_errors_in_words(e: ExportError)
    ensures
        match e {
            ExportError::Connection(m) => export_message(e) == "Connection error: "@ + m@,
            ExportError::Auth(m) => export_message(e) == "Authentication error: "@ + m@,
            ExportError::Write(m) => export_message(e) == "Write error: "@ + m@,
            ExportError::Config(m) => export_message(e) == "Configuration error: "@ + m@,
            ExportError::Other(m) => export_message(e) == m@,
        },
{
}

/// The line of a sample that was left out tells its model, how it ended, its tokens and how
/// many were left out so far; no other line does.
pub proof fn law_what_is_told_of_a_sample_that_is_left_out(line: SampleLine, m: RequestMetrics, skipped: u64)
    requires
        is_skip_line(line, m, skipped),
    ensures
        match line {
            SampleLine::Skipped { model, stream_end, finish_reason, prompt_tokens, skipped_total } => {
                &&& model@ == m.model@
                &&& stream_end@ == m.stream_end@
                &&& finish_reason@ == m.finish_reason@
                &&& m.prompt_tokens is Some ==> prompt_tokens@ == decimal(m.prompt_tokens->0 as nat)
                &&& m.prompt_tokens is None ==> prompt_tokens@ == "n/a"@
                &&& skipped_total == skipped
            },
            SampleLine::Metrics { .. } => false,
        },
{
}

} // verus!
