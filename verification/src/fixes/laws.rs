//! What the fixes do to the tool calls of a response, and in which order the
//! registry runs them.

use vstd::prelude::*;
use vstd::string::*;
use crate::config::FixModuleConfig;
use crate::json::{lemma_put, parsed, printed, JsonView};
use crate::text::{decimal, find_from, is_white, join_texts, law_join_of_one_more, occurs_at};
use super::builtin::{all_on, builtin_fixes, kept, left_out, means_a_fix, skipped, unknown_keys, BuiltinFix};
use super::json_scan::{key_spans, law_spans_are_in_text_order, lemma_key_spans, value_text, Span};
use super::log::{lines_of, LineView, LogLevel};
use super::registry::{
    base_name, configured, fix_from, found, named_from, run, run_in_context, run_stream, run_stream_in_context,
    unknown_names, Flags,
};
use super::snippet::{clipped, SnippetLimit};
use super::toolcall_bad_filepath_fix::{
    after_colon, closing_quote, first_wins, law_the_first_filepath_wins, repaired, string_value_end, truncated,
    ToolcallBadFilepathFix,
};
use super::toolcall_malformed_arguments_fix::{
    fill_fn, filled, law_a_filled_call_keeps_its_other_members, request_schemas, ToolcallMalformedArgumentsFix,
};
use super::toolcall_null_index_fix::ToolCallNullIndexFix;
use super::walk::{
    call_at, law_walk_repairs_each_call, lemma_some_call_triggers, lemma_stands_in, lemma_walk_never_fails, repair_fn, stands_in, walk_response,
    Sides,
};
use super::{aggregated, snippets, ActionView, ErrorView, FixLogLevel, ResponseFix};

verus! {

broadcast use vstd::string::group_string_axioms;

/// A number, whole or not.
pub open spec fn is_a_number(v: JsonView) -> bool {
    v is Unsigned || v is Negative || v is Float
}

/// Wherever a call stands whose `index` is no number, in a message or a delta, it
/// gets its position as its `index` and keeps every other member. A call with a
/// number is left as it is.
pub proof fn law_every_call_gets_an_index(
    fix: ToolCallNullIndexFix,
    response: JsonView,
    i: int,
    side: Seq<char>,
    j: int,
    call: JsonView,
    key: Seq<char>,
) -> (done: JsonView)
    requires
        side == "message"@ || side == "delta"@,
        stands_in(response, i, side, j, call),
        j <= u32::MAX,
    ensures
        stands_in(fix.apply_view(response).0, i, side, j, done),
        call.get("index"@) is Some && is_a_number(call.get("index"@)->0) ==> done == call,
        !(call is Object) ==> done == call,
        call is Object && !(call.get("index"@) is Some && is_a_number(call.get("index"@)->0)) ==> done.get("index"@) == Some(
            JsonView::Unsigned(j as u64),
        ),
        key != "index"@ ==> done.get(key) == call.get(key),
{
    let f = repair_fn(fix);
    lemma_walk_never_fails(f, response, Sides::Both);
    lemma_stands_in(response, i, side, j, call);
    law_walk_repairs_each_call(f, response, Sides::Both, i, side, j);
    let done = f(j, call)->Ok_0.0;
    lemma_stands_in(fix.apply_view(response).0, i, side, j, done);
    if call is Object && !(call.get("index"@) is Some && is_a_number(call.get("index"@)->0)) {
        super::toolcall_null_index_fix::law_missing_index_is_the_position(fix, j, call, key);
    }
    done
}

/// The fix for indices is for every response in which a call has none.
pub proof fn law_a_missing_index_is_seen(
    fix: ToolCallNullIndexFix,
    response: JsonView,
    i: int,
    side: Seq<char>,
    j: int,
    call: JsonView,
)
    requires
        side == "message"@ || side == "delta"@,
        stands_in(response, i, side, j, call),
        !(call.get("index"@) is Some && is_a_number(call.get("index"@)->0)),
    ensures
        fix.applies_view(response),
{
    lemma_stands_in(response, i, side, j, call);
    lemma_seen(super::walk::trigger_fn(fix), response, Sides::Both, i, side, j);
}

proof fn lemma_seen(t: super::walk::TriggerFn, response: JsonView, sides: Sides, i: int, side: Seq<char>, j: int)
    requires
        side == "message"@ || (side == "delta"@ && sides == Sides::Both),
        call_at(response, i, side, j) is Some,
        t(call_at(response, i, side, j)->0),
    ensures
        super::walk::response_triggers(t, response, sides),
{
    let choices = super::walk::choices_of(response)->0;
    let calls = super::walk::side_calls(choices[i], side)->0;
    assert(t(calls[j]));
    assert(super::walk::side_triggers(t, choices[i], side));
    assert(super::walk::choice_triggers(t, choices[i], sides));
}

/// In a response in which an index is set, something was repaired.
pub proof fn law_a_set_index_is_reported(fix: ToolCallNullIndexFix, response: JsonView)
    ensures
        fix.apply_view(response).0 != response ==> fix.apply_view(response).1 is Fixed,
        !(fix.apply_view(response).1 is Failed),
{
    let f = repair_fn(fix);
    lemma_walk_never_fails(f, response, Sides::Both);
    if fix.apply_view(response).1 is NotApplicable {
        lemma_no_action_no_change(f, response, Sides::Both);
    }
}

/// Whether a repair that changes a call says so.
pub open spec fn is_honest(f: super::walk::RepairFn) -> bool {
    forall|at: int, call: JsonView|
        (#[trigger] f(at, call)) is Ok && f(at, call)->Ok_0.1 is None ==> f(at, call)->Ok_0.0 == call
}

proof fn lemma_calls_unchanged(f: super::walk::RepairFn, calls: Seq<JsonView>, n: nat)
    requires
        is_honest(f),
        n <= calls.len(),
        super::walk::walk_calls(f, calls, n) is Ok,
        super::walk::walk_calls(f, calls, n)->Ok_0.1.len() == 0,
    ensures
        super::walk::walk_calls(f, calls, n)->Ok_0.0 == calls,
    decreases n,
{
    if n > 0 {
        lemma_calls_unchanged(f, calls, (n - 1) as nat);
        assert(f(n - 1, calls[n - 1]) is Ok);
        assert(calls.update(n - 1, calls[n - 1]) =~= calls);
    }
}

proof fn lemma_side_unchanged(f: super::walk::RepairFn, choice: JsonView, side: Seq<char>)
    requires
        is_honest(f),
        super::walk::walk_side(f, choice, side) is Ok,
        super::walk::walk_side(f, choice, side)->Ok_0.1.len() == 0,
    ensures
        super::walk::walk_side(f, choice, side)->Ok_0.0 == choice,
{
    if let Some(calls) = super::walk::side_calls(choice, side) {
        lemma_calls_unchanged(f, calls, calls.len());
        crate::json::lemma_put_same(choice.get(side)->0, "tool_calls"@);
        crate::json::lemma_put_same(choice, side);
    }
}

proof fn lemma_choices_unchanged(f: super::walk::RepairFn, choices: Seq<JsonView>, n: nat, sides: Sides)
    requires
        is_honest(f),
        n <= choices.len(),
        super::walk::walk_choices(f, choices, n, sides) is Ok,
        super::walk::walk_choices(f, choices, n, sides)->Ok_0.1.len() == 0,
    ensures
        super::walk::walk_choices(f, choices, n, sides)->Ok_0.0 == choices,
    decreases n,
{
    if n > 0 {
        lemma_choices_unchanged(f, choices, (n - 1) as nat, sides);
        let choice = choices[n - 1];
        lemma_side_unchanged(f, choice, "message"@);
        if sides == Sides::Both {
            lemma_side_unchanged(f, choice, "delta"@);
        }
        assert(choices.update(n - 1, choice) =~= choices);
    }
}

/// A walk that reports no repair changed nothing.
proof fn lemma_no_action_no_change(f: super::walk::RepairFn, response: JsonView, sides: Sides)
    requires
        is_honest(f),
        walk_response(f, response, sides) is Ok,
        walk_response(f, response, sides)->Ok_0.1.len() == 0,
    ensures
        walk_response(f, response, sides)->Ok_0.0 == response,
{
    if let Some(choices) = super::walk::choices_of(response) {
        lemma_choices_unchanged(f, choices, choices.len(), sides);
        crate::json::lemma_put_same(response, "choices"@);
    }
}

/// Wherever a call with slots stands, in a message or a delta, and the fix goes
/// through, its arguments are filled by the parameters of its tool, and every
/// other member of it stays.
pub proof fn law_every_call_is_filled(
    fix: ToolcallMalformedArgumentsFix,
    response: JsonView,
    request: JsonView,
    i: int,
    side: Seq<char>,
    j: int,
    call: JsonView,
    function: JsonView,
    name: Seq<char>,
    args: Seq<char>,
    text: Seq<char>,
    key: Seq<char>,
) -> (done: JsonView)
    requires
        side == "message"@ || side == "delta"@,
        stands_in(response, i, side, j, call),
        fix.apply_in_context(response, request) is Ok,
        call.get("function"@) == Some(function),
        function.get("name"@) == Some(JsonView::Str(name)),
        function.get("arguments"@) == Some(JsonView::Str(args)),
        request_schemas(request).contains_key(name),
        filled(args, Some(request_schemas(request)[name])) == Ok::<Option<Seq<char>>, ErrorView>(Some(text)),
    ensures
        stands_in(fix.apply_in_context(response, request)->Ok_0.0, i, side, j, done),
        done.get("function"@) is Some,
        done.get("function"@)->0.get("arguments"@) == Some(JsonView::Str(text)),
        key != "arguments"@ ==> done.get("function"@)->0.get(key) == function.get(key),
        key != "function"@ ==> done.get(key) == call.get(key),
{
    let schemas = request_schemas(request);
    let f = fill_fn(schemas);
    assert(schemas != Map::<Seq<char>, Seq<Seq<char>>>::empty());
    lemma_stands_in(response, i, side, j, call);
    law_walk_repairs_each_call(f, response, Sides::Both, i, side, j);
    let done = f(j, call)->Ok_0.0;
    lemma_stands_in(fix.apply_in_context(response, request)->Ok_0.0, i, side, j, done);
    law_a_filled_call_keeps_its_other_members(schemas, call, function, args, name, text, key);
    done
}

/// A request without tools changes nothing, and neither does no request.
pub proof fn law_without_tools_nothing_is_filled(
    fix: ToolcallMalformedArgumentsFix,
    response: JsonView,
    request: JsonView,
)
    requires
        request.get("tools"@) is None || !(request.get("tools"@)->0 is Array) || request.get("tools"@)->0->Array_0.len() == 0,
    ensures
        fix.apply_in_context(response, request) == Ok::<(JsonView, ActionView), ErrorView>(
            (response, ActionView::NotApplicable),
        ),
        fix.apply_view(response) == (response, ActionView::NotApplicable),
{
}

/// Wherever a call of a message stands whose arguments are no JSON or carry
/// `filePath` twice, and the fix goes through, its arguments are repaired, and
/// every other member of it stays.
pub proof fn law_every_file_path_is_repaired(
    fix: ToolcallBadFilepathFix,
    response: JsonView,
    request: JsonView,
    i: int,
    j: int,
    call: JsonView,
    function: JsonView,
    args: Seq<char>,
    key: Seq<char>,
) -> (done: JsonView)
    requires
        stands_in(response, i, "message"@, j, call),
        fix.apply_in_context(response, request) is Ok,
        call.get("function"@) == Some(function),
        function.get("arguments"@) == Some(JsonView::Str(args)),
    ensures
        stands_in(fix.apply_in_context(response, request)->Ok_0.0, i, "message"@, j, done),
        fix.apply_view(response) == fix.apply_in_context(response, request)->Ok_0,
        parsed(args) is Ok && super::json_scan::key_count(args, "filePath"@) <= 1 ==> done == call,
        parsed(args) is Err || super::json_scan::key_count(args, "filePath"@) > 1 ==> {
            &&& repaired(args) is Ok
            &&& done.get("function"@) is Some
            &&& done.get("function"@)->0.get("arguments"@) == Some(JsonView::Str(repaired(args)->Ok_0))
            &&& key != "arguments"@ ==> done.get("function"@)->0.get(key) == function.get(key)
            &&& key != "function"@ ==> done.get(key) == call.get(key)
        },
{
    let f = repair_fn(fix);
    lemma_stands_in(response, i, "message"@, j, call);
    law_walk_repairs_each_call(f, response, Sides::Message, i, "message"@, j);
    let done = f(j, call)->Ok_0.0;
    lemma_stands_in(fix.apply_in_context(response, request)->Ok_0.0, i, "message"@, j, done);
    if parsed(args) is Err || super::json_scan::key_count(args, "filePath"@) > 1 {
        let value = JsonView::Str(repaired(args)->Ok_0);
        let changed = crate::json::put(function, "arguments"@, value);
        lemma_put(function, "arguments"@, value, "arguments"@);
        lemma_put(function, "arguments"@, value, key);
        lemma_put(call, "function"@, changed, "function"@);
        lemma_put(call, "function"@, changed, key);
    }
    done
}

/// Where one call cannot be repaired, the response comes back as it was, and the
/// failure is told.
pub proof fn law_an_unrepairable_file_path_leaves_the_response(
    fix: ToolcallBadFilepathFix,
    response: JsonView,
    i: int,
    j: int,
    call: JsonView,
    function: JsonView,
    args: Seq<char>,
)
    requires
        stands_in(response, i, "message"@, j, call),
        call.get("function"@) == Some(function),
        function.get("arguments"@) == Some(JsonView::Str(args)),
        parsed(args) is Err,
        repaired(args) is Err,
    ensures
        fix.apply_view(response).0 == response,
        fix.apply_view(response).1 is Failed,
{
    let f = repair_fn(fix);
    lemma_stands_in(response, i, "message"@, j, call);
    if walk_response(f, response, Sides::Message) is Ok {
        law_walk_repairs_each_call(f, response, Sides::Message, i, "message"@, j);
        assert(f(j, call) is Err);
    }
}

/// The text of a string of JSON from `j` on: without a quote, but for those
/// behind a backslash, which takes one character with it.
pub open spec fn is_string_body(text: Seq<char>, j: int) -> bool
    decreases text.len() - j,
{
    if j < 0 || j > text.len() {
        false
    } else if j == text.len() {
        true
    } else if text[j] == '\\' {
        j + 1 < text.len() && is_string_body(text, j + 2)
    } else {
        text[j] != '"' && is_string_body(text, j + 1)
    }
}

proof fn lemma_body_ends(text: Seq<char>, s: Seq<char>, at: int, j: int)
    requires
        0 <= at,
        0 <= j <= text.len(),
        at + text.len() < s.len(),
        is_string_body(text, j),
        forall|k: int| 0 <= k < text.len() ==> #[trigger] s[at + k] == text[k],
        s[at + text.len()] == '"',
    ensures
        closing_quote(s, at + j) == Some(at + text.len() + 1),
    decreases text.len() - j,
{
    if j < text.len() {
        assert(s[at + j] == text[j]);
        if text[j] == '\\' {
            lemma_body_ends(text, s, at, j + 2);
        } else {
            lemma_body_ends(text, s, at, j + 1);
        }
    }
}

proof fn lemma_blanks_skipped(blanks: Seq<char>, s: Seq<char>, i: int)
    requires
        0 <= i <= blanks.len() < s.len(),
        forall|k: int| 0 <= k < blanks.len() ==> (is_white(#[trigger] blanks[k]) || blanks[k] == ':'),
        forall|k: int| 0 <= k < blanks.len() ==> #[trigger] s[k] == blanks[k],
        s[blanks.len() as int] == '"',
    ensures
        after_colon(s, i) == blanks.len(),
    decreases blanks.len() - i,
{
    if i < blanks.len() {
        assert(s[i] == blanks[i]);
        lemma_blanks_skipped(blanks, s, i + 1);
    }
}

proof fn lemma_first_find(hay: Seq<char>, needle: Seq<char>, at: int, from: int)
    requires
        0 <= from <= at <= hay.len(),
        occurs_at(hay, needle, at),
        forall|k: int| from <= k < at ==> !occurs_at(hay, needle, k),
    ensures
        find_from(hay, needle, from) == Some(at),
    decreases at - from,
{
    if from < at {
        assert(!occurs_at(hay, needle, from));
        lemma_first_find(hay, needle, at, from + 1);
    }
}

/// Arguments that are no JSON are cut behind the first value of `filePath`, a
/// string, and closed: whatever comes behind that value is gone, and nothing
/// before it changes.
pub proof fn law_what_follows_the_file_path_is_cut(
    before: Seq<char>,
    blanks: Seq<char>,
    value: Seq<char>,
    rest: Seq<char>,
)
    requires
        forall|k: int| 0 <= k < blanks.len() ==> (is_white(#[trigger] blanks[k]) || blanks[k] == ':'),
        is_string_body(value, 0),
        forall|k: int|
            0 <= k < before.len() ==> !occurs_at(
                before + "\"filePath\":"@ + blanks + seq!['"'] + value + seq!['"'] + rest,
                "\"filePath\":"@,
                k,
            ),
    ensures
        truncated(before + "\"filePath\":"@ + blanks + seq!['"'] + value + seq!['"'] + rest) == Ok::<Seq<char>, ErrorView>(
            before + "\"filePath\":"@ + blanks + seq!['"'] + value + seq!['"', '}'],
        ),
{
    let pattern = "\"filePath\":"@;
    let whole = before + pattern + blanks + seq!['"'] + value + seq!['"'] + rest;
    let start = before.len() as int;
    assert(whole.subrange(start, start + pattern.len()) =~= pattern);
    lemma_first_find(whole, pattern, start, 0);
    let tail = whole.skip(start + pattern.len());
    assert(tail =~= blanks + seq!['"'] + value + seq!['"'] + rest);
    lemma_blanks_skipped(blanks, tail, 0);
    let open = blanks.len() as int;
    assert forall|k: int| 0 <= k < value.len() implies #[trigger] tail[open + 1 + k] == value[k] by {}
    lemma_body_ends(value, tail, open + 1, 0);
    let end = open + value.len() + 2;
    assert(string_value_end(tail) == Some(end));
    assert(whole.take(start + pattern.len() + end).push('}') =~= before + pattern + blanks + seq!['"'] + value + seq![
        '"',
        '}',
    ]);
}

/// Arguments without a `filePath` are not cut.
pub proof fn law_without_a_file_path_nothing_is_cut(args: Seq<char>)
    requires
        forall|k: int| !occurs_at(args, "\"filePath\":"@, k),
    ensures
        truncated(args) is Err,
        truncated(args)->Err_0 is Parse,
{
    lemma_no_find(args, "\"filePath\":"@, 0);
}

proof fn lemma_no_find(hay: Seq<char>, needle: Seq<char>, from: int)
    requires
        0 <= from <= hay.len() + 1,
        forall|k: int| !occurs_at(hay, needle, k),
    ensures
        find_from(hay, needle, from) is None,
    decreases hay.len() + 1 - from,
{
    if from <= hay.len() {
        assert(!occurs_at(hay, needle, from));
        lemma_no_find(hay, needle, from + 1);
    }
}

/// What is cut is used where it is valid JSON, and refused where it is not.
pub proof fn law_a_cut_is_used_where_it_is_valid(args: Seq<char>)
    requires
        parsed(args) is Err,
    ensures
        truncated(args) is Ok && parsed(truncated(args)->Ok_0) is Ok ==> repaired(args) == truncated(args),
        truncated(args) is Ok && parsed(truncated(args)->Ok_0) is Err ==> repaired(args) is Err && repaired(args)->Err_0 is
        Rebuild,
        truncated(args) is Err ==> repaired(args) == truncated(args),
{
}

/// One more fix runs behind the others, on what they made of the response, where
/// it is enabled and for it; otherwise nothing changes.
pub proof fn law_one_more_fix_runs_last<F: ResponseFix>(
    fixes: Seq<F>,
    fix: F,
    flags: Flags,
    response: JsonView,
    request: JsonView,
)
    ensures
        ({
            let n = fixes.len();
            let on = flags.contains_key(fix.name_view()) && flags[fix.name_view()];
            let alone = run(fixes, flags, response, n).0;
            let with_request = run_in_context(fixes, flags, response, request, n).0;
            let chunk = run_stream(fixes, flags, response, n).0;
            let chunk_with_request = run_stream_in_context(fixes, flags, response, request, n).0;
            let more = fixes.push(fix);
            &&& run(more, flags, response, n + 1).0 == if on && fix.applies_view(alone) {
                fix.apply_view(alone).0
            } else {
                alone
            }
            &&& run_in_context(more, flags, response, request, n + 1).0 == if on && fix.applies_in_context(
                with_request,
                request,
            ) && fix.apply_in_context(with_request, request) is Ok {
                fix.apply_in_context(with_request, request)->Ok_0.0
            } else {
                with_request
            }
            &&& run_stream(more, flags, response, n + 1).0 == if on {
                fix.apply_view(chunk).0
            } else {
                chunk
            }
            &&& run_stream_in_context(more, flags, response, request, n + 1).0 == if on && fix.apply_in_context(
                chunk_with_request,
                request,
            ) is Ok {
                fix.apply_in_context(chunk_with_request, request)->Ok_0.0
            } else {
                chunk_with_request
            }
        }),
        run(Seq::<F>::empty(), flags, response, 0).0 == response,
        run_in_context(Seq::<F>::empty(), flags, response, request, 0).0 == response,
        run_stream(Seq::<F>::empty(), flags, response, 0).0 == response,
        run_stream_in_context(Seq::<F>::empty(), flags, response, request, 0).0 == response,
{
    lemma_first_fixes(fixes, fixes.push(fix), flags, response, request, fixes.len());
}

proof fn lemma_first_fixes<F: ResponseFix>(
    a: Seq<F>,
    b: Seq<F>,
    flags: Flags,
    response: JsonView,
    request: JsonView,
    n: nat,
)
    requires
        n <= a.len(),
        n <= b.len(),
        forall|i: int| 0 <= i < n ==> a[i] == b[i],
    ensures
        run(a, flags, response, n) == run(b, flags, response, n),
        run_in_context(a, flags, response, request, n) == run_in_context(b, flags, response, request, n),
        run_stream(a, flags, response, n) == run_stream(b, flags, response, n),
        run_stream_in_context(a, flags, response, request, n) == run_stream_in_context(b, flags, response, request, n),
        forall|q: Option<JsonView>| #[trigger] found(a, flags, response, q, n) == found(b, flags, response, q, n),
    decreases n,
{
    if n > 0 {
        lemma_first_fixes(a, b, flags, response, request, (n - 1) as nat);
        assert forall|q: Option<JsonView>| #[trigger] found(a, flags, response, q, n) == found(b, flags, response, q, n) by {
            assert(found(a, flags, response, q, (n - 1) as nat) == found(b, flags, response, q, (n - 1) as nat));
        }
    }
}

/// What one more fix did is logged behind what the others did, under its name and
/// at its level, and nothing is logged of one that did not run.
pub proof fn law_one_more_fix_logs_last<F: ResponseFix>(
    fixes: Seq<F>,
    fix: F,
    flags: Flags,
    response: JsonView,
    request: JsonView,
)
    ensures
        ({
            let n = fixes.len();
            let on = flags.contains_key(fix.name_view()) && flags[fix.name_view()];
            let (alone, lines) = run(fixes, flags, response, n);
            let (with_request, context_lines) = run_in_context(fixes, flags, response, request, n);
            let more = fixes.push(fix);
            &&& on && fix.applies_view(alone) ==> run(more, flags, response, n + 1).1 == lines + lines_of(
                fix.name_view(),
                fix.apply_view(alone).1,
                fix.log_level_view(),
            )
            &&& !(on && fix.applies_view(alone)) ==> run(more, flags, response, n + 1).1 == lines
            &&& on && fix.applies_in_context(with_request, request) && fix.apply_in_context(with_request, request) is Ok
                ==> run_in_context(more, flags, response, request, n + 1).1 == context_lines + lines_of(
                fix.name_view(),
                fix.apply_in_context(with_request, request)->Ok_0.1,
                fix.log_level_view(),
            )
            &&& on && fix.applies_in_context(with_request, request) && fix.apply_in_context(with_request, request) is Err
                ==> run_in_context(more, flags, response, request, n + 1).1 == context_lines + lines_of(
                fix.name_view(),
                ActionView::Failed {
                    original: clipped(printed(with_request), 200, SnippetLimit::Chars),
                    attempted: "fixer error: "@ + fix.apply_in_context(with_request, request)->Err_0.message(),
                },
                fix.log_level_view(),
            )
            &&& !(on && fix.applies_in_context(with_request, request)) ==> run_in_context(
                more,
                flags,
                response,
                request,
                n + 1,
            ).1 == context_lines
        }),
{
    lemma_first_fixes(fixes, fixes.push(fix), flags, response, request, fixes.len());
    let lines = run_in_context(fixes, flags, response, request, fixes.len()).1;
    assert(lines + Seq::<LineView>::empty() =~= lines);
}

/// One more fix is found, behind the others, where it is enabled, is for the
/// response as it came, and would do something; its name and the beginning of what
/// it found are told.
pub proof fn law_one_more_fix_is_found_last<F: ResponseFix>(
    fixes: Seq<F>,
    fix: F,
    flags: Flags,
    response: JsonView,
    request: JsonView,
)
    ensures
        ({
            let n = fixes.len();
            let on = flags.contains_key(fix.name_view()) && flags[fix.name_view()];
            let before = found(fixes, flags, response, Some(request), n);
            let after = found(fixes.push(fix), flags, response, Some(request), n + 1);
            &&& !(on && fix.applies_in_context(response, request)) ==> after == before
            &&& on && fix.applies_in_context(response, request) ==> match fix.apply_in_context(response, request) {
                Ok((_, ActionView::NotApplicable)) => after == before,
                Ok((_, ActionView::Fixed { original, .. })) => after == before.push(
                    (fix.name_view(), clipped(original, 200, SnippetLimit::Chars)),
                ),
                Ok((_, ActionView::Failed { original, .. })) => after == before.push(
                    (fix.name_view(), clipped(original, 200, SnippetLimit::Chars)),
                ),
                Err(_) => after.len() == before.len() + 1 && after.drop_last() == before && after.last().0 == fix.name_view(),
            }
        }),
        ({
            let n = fixes.len();
            let on = flags.contains_key(fix.name_view()) && flags[fix.name_view()];
            let before = found(fixes, flags, response, None, n);
            let after = found(fixes.push(fix), flags, response, None, n + 1);
            if on && fix.applies_view(response) {
                match fix.apply_view(response).1 {
                    ActionView::NotApplicable => after == before,
                    ActionView::Fixed { original, .. } => after == before.push(
                        (fix.name_view(), clipped(original, 200, SnippetLimit::Chars)),
                    ),
                    ActionView::Failed { original, .. } => after == before.push(
                        (fix.name_view(), clipped(original, 200, SnippetLimit::Chars)),
                    ),
                }
            } else {
                after == before
            }
        }),
        found(Seq::<F>::empty(), flags, response, Some(request), 0).len() == 0,
        found(Seq::<F>::empty(), flags, response, None, 0).len() == 0,
{
    lemma_first_fixes(fixes, fixes.push(fix), flags, response, request, fixes.len());
    let before = found(fixes, flags, response, Some(request), fixes.len());
    let after = found(fixes.push(fix), flags, response, Some(request), fixes.len() + 1);
    if after.len() > before.len() {
        assert(after.drop_last() =~= before);
    }
}

/// A name without `_fix` at its end is its own base; a name with it has what stands
/// before it.
pub proof fn law_base_names(name: Seq<char>)
    ensures
        base_name(name + "_fix"@) == name,
        (forall|x: Seq<char>| name != #[trigger] (x + "_fix"@)) ==> base_name(name) == name,
        base_name(name) == name || name == base_name(name) + "_fix"@,
{
    reveal_strlit("_fix");
    let long = name + "_fix"@;
    assert(long.skip(long.len() - 4) =~= "_fix"@);
    assert(long.take(long.len() - 4) =~= name);
    if name.len() >= 4 && name.skip(name.len() - 4) == "_fix"@ {
        let x = name.take(name.len() - 4);
        assert(name =~= x + "_fix"@);
    }
}

proof fn lemma_named_first<F: ResponseFix>(fixes: Seq<F>, name: Seq<char>, at: int, from: int)
    requires
        0 <= from <= at < fixes.len(),
        base_name(fixes[at].name_view()) == base_name(name),
        forall|k: int| 0 <= k < at ==> base_name((#[trigger] fixes[k]).name_view()) != base_name(name),
    ensures
        named_from(fixes, name, from) == at,
    decreases at - from,
{
    if from < at {
        lemma_named_first(fixes, name, at, from + 1);
    }
}

proof fn lemma_named_none<F: ResponseFix>(fixes: Seq<F>, name: Seq<char>, from: int)
    requires
        0 <= from <= fixes.len(),
        forall|k: int| 0 <= k < fixes.len() ==> base_name((#[trigger] fixes[k]).name_view()) != base_name(name),
    ensures
        named_from(fixes, name, from) == fixes.len(),
    decreases fixes.len() - from,
{
    if from < fixes.len() {
        lemma_named_none(fixes, name, from + 1);
    }
}

/// One more entry of a configuration sets the flag of the first fix whose name it
/// is, up to a `_fix` at the end, and no other flag. An entry that is the name of
/// no fix sets none and is told.
pub proof fn law_one_more_entry_sets_one_flag<F: ResponseFix>(
    fixes: Seq<F>,
    flags: Flags,
    entries: Seq<(String, FixModuleConfig)>,
    entry: (String, FixModuleConfig),
    at: int,
)
    ensures
        ({
            let n = entries.len();
            let before = configured(fixes, flags, entries, n);
            let after = configured(fixes, flags, entries.push(entry), n + 1);
            let told = unknown_names(fixes, entries, n);
            let told_after = unknown_names(fixes, entries.push(entry), n + 1);
            &&& 0 <= at < fixes.len() && base_name(fixes[at].name_view()) == base_name(entry.0@) && (forall|k: int|
                0 <= k < at ==> base_name((#[trigger] fixes[k]).name_view()) != base_name(entry.0@)) ==> {
                &&& after.contains_key(fixes[at].name_view())
                &&& after[fixes[at].name_view()] == entry.1.enabled
                &&& forall|x: Seq<char>|
                    x != fixes[at].name_view() ==> (#[trigger] after.contains_key(x) <==> before.contains_key(x))
                &&& forall|x: Seq<char>| x != fixes[at].name_view() && before.contains_key(x) ==> after[x] == #[trigger] before[x]
                &&& told_after == told
            }
            &&& (forall|k: int| 0 <= k < fixes.len() ==> base_name((#[trigger] fixes[k]).name_view()) != base_name(entry.0@))
                ==> after == before && told_after == told.push(entry.0@)
        }),
        configured(fixes, flags, Seq::<(String, FixModuleConfig)>::empty(), 0) == flags,
        unknown_names(fixes, Seq::<(String, FixModuleConfig)>::empty(), 0).len() == 0,
{
    let more = entries.push(entry);
    lemma_first_entries(fixes, flags, entries, more, entries.len());
    let name = entry.0@;
    assert(more[entries.len() as int] == entry);
    if 0 <= at < fixes.len() && base_name(fixes[at].name_view()) == base_name(name) && (forall|k: int|
        0 <= k < at ==> base_name((#[trigger] fixes[k]).name_view()) != base_name(name)) {
        lemma_named_first(fixes, name, at, 0);
    }
    if forall|k: int| 0 <= k < fixes.len() ==> base_name((#[trigger] fixes[k]).name_view()) != base_name(name) {
        lemma_named_none(fixes, name, 0);
    }
}

proof fn lemma_first_entries<F: ResponseFix>(
    fixes: Seq<F>,
    flags: Flags,
    a: Seq<(String, FixModuleConfig)>,
    b: Seq<(String, FixModuleConfig)>,
    n: nat,
)
    requires
        n <= a.len(),
        n <= b.len(),
        forall|i: int| 0 <= i < n ==> a[i] == b[i],
    ensures
        configured(fixes, flags, a, n) == configured(fixes, flags, b, n),
        unknown_names(fixes, a, n) == unknown_names(fixes, b, n),
    decreases n,
{
    if n > 0 {
        lemma_first_entries(fixes, flags, a, b, (n - 1) as nat);
        assert(a[n - 1] == b[n - 1]);
    }
}

/// A fix is got by its exact name, the first of several with it.
pub proof fn law_a_fix_is_got_by_its_name<F: ResponseFix>(fixes: Seq<F>, name: Seq<char>, from: int)
    requires
        0 <= from <= fixes.len(),
    ensures
        from <= fix_from(fixes, name, from) <= fixes.len(),
        fix_from(fixes, name, from) < fixes.len() ==> fixes[fix_from(fixes, name, from)].name_view() == name,
        forall|k: int| from <= k < fix_from(fixes, name, from) ==> (#[trigger] fixes[k]).name_view() != name,
    decreases fixes.len() - from,
{
    if from < fixes.len() && fixes[from].name_view() != name {
        law_a_fix_is_got_by_its_name(fixes, name, from + 1);
    }
}

/// The fixes of this library run in this order, under these names and at these
/// levels, and all of them are enabled by default.
pub proof fn law_the_default_registry()
    ensures
        builtin_fixes().len() == 3,
        builtin_fixes()[0] is NullIndex,
        builtin_fixes()[1] is MalformedArguments,
        builtin_fixes()[2] is BadFilepath,
        builtin_fixes()[0].name_view() == "toolcall_null_index_fix"@,
        builtin_fixes()[1].name_view() == "toolcall_malformed_arguments"@,
        builtin_fixes()[2].name_view() == "toolcall_bad_filepath"@,
        builtin_fixes()[0].log_level_view() == FixLogLevel::Debug,
        builtin_fixes()[1].log_level_view() == FixLogLevel::Info,
        builtin_fixes()[2].log_level_view() == FixLogLevel::Info,
        forall|i: int|
            0 <= i < 3 ==> all_on(builtin_fixes()).contains_key((#[trigger] builtin_fixes()[i]).name_view()) && all_on(
                builtin_fixes(),
            )[builtin_fixes()[i].name_view()],
{
    let all = builtin_fixes();
    reveal_with_fuel(all_on, 4);
    assert(all.drop_last() =~= all.take(2));
    assert(all.take(2).drop_last() =~= all.take(1));
    assert(all.take(1).drop_last() =~= Seq::<BuiltinFix>::empty());
    assert(all.last() == all[2] && all.take(2).last() == all[1] && all.take(1).last() == all[0]);
    assert forall|i: int| 0 <= i < 3 implies all_on(all).contains_key((#[trigger] all[i]).name_view()) && all_on(
        all,
    )[all[i].name_view()] by {
        if i == 0 {
        } else if i == 1 {
        } else {
            assert(i == 2);
        }
    }
}

proof fn lemma_short_names()
    ensures
        "toolcall_null_index_fix"@ == "toolcall_null_index"@ + "_fix"@,
        base_name("toolcall_null_index_fix"@) == "toolcall_null_index"@,
        base_name("toolcall_malformed_arguments"@) == "toolcall_malformed_arguments"@,
        base_name("toolcall_bad_filepath"@) == "toolcall_bad_filepath"@,
        base_name("toolcall_null_index"@) == "toolcall_null_index"@,
{
    reveal_strlit("_fix");
    reveal_strlit("toolcall_null_index");
    reveal_strlit("toolcall_null_index_fix");
    reveal_strlit("toolcall_malformed_arguments");
    reveal_strlit("toolcall_bad_filepath");
    assert("toolcall_null_index_fix"@ =~= "toolcall_null_index"@ + "_fix"@);
    law_base_names("toolcall_null_index"@);
    let a = "toolcall_malformed_arguments"@;
    let b = "toolcall_bad_filepath"@;
    let c = "toolcall_null_index"@;
    assert(a.skip(a.len() - 4)[0] == 'e');
    assert(b.skip(b.len() - 4)[0] == 'p');
    assert(c.skip(c.len() - 4)[0] == 'n');
    assert("_fix"@[0] == '_');
}

/// A fix is left out where the configuration switches it off under its short name,
/// or, where that is not spoken of, under the name with `_fix`; it is not left out
/// where neither is spoken of.
pub proof fn law_which_fixes_are_left_out(modules: Map<Seq<char>, FixModuleConfig>, name: Seq<char>, short: Seq<char>)
    requires
        name == short + "_fix"@ || name == short && base_name(short) == short,
    ensures
        left_out(modules, name) <==> {
            ||| modules.contains_key(short) && !modules[short].enabled
            ||| !modules.contains_key(short) && modules.contains_key(short + "_fix"@) && !modules[short + "_fix"@].enabled
        },
{
    law_base_names(short);
}

/// These names, each with `_fix` or without, are those of the fixes of this
/// library, and a configured name that is none of them is told.
pub proof fn law_which_names_mean_a_fix(name: Seq<char>, entries: Seq<(String, FixModuleConfig)>, entry: (String, FixModuleConfig))
    ensures
        means_a_fix(name) <==> {
            ||| base_name(name) == "toolcall_null_index"@
            ||| base_name(name) == "toolcall_malformed_arguments"@
            ||| base_name(name) == "toolcall_bad_filepath"@
        },
        means_a_fix(entry.0@) ==> unknown_keys(entries.push(entry), entries.len() + 1) == unknown_keys(entries, entries.len()),
        !means_a_fix(entry.0@) ==> unknown_keys(entries.push(entry), entries.len() + 1) == unknown_keys(
            entries,
            entries.len(),
        ).push(entry.0@),
{
    lemma_short_names();
    let all = builtin_fixes();
    assert(all[0].name_view() == "toolcall_null_index_fix"@);
    assert(all[1].name_view() == "toolcall_malformed_arguments"@);
    assert(all[2].name_view() == "toolcall_bad_filepath"@);
    if means_a_fix(name) {
        let i = choose|i: int| 0 <= i < all.len() && base_name(name) == base_name((#[trigger] all[i]).name_view());
        assert(i == 0 || i == 1 || i == 2);
    }
    lemma_first_keys(entries, entries.push(entry), entries.len());
}

proof fn lemma_first_keys(a: Seq<(String, FixModuleConfig)>, b: Seq<(String, FixModuleConfig)>, n: nat)
    requires
        n <= a.len(),
        n <= b.len(),
        forall|i: int| 0 <= i < n ==> a[i] == b[i],
    ensures
        unknown_keys(a, n) == unknown_keys(b, n),
    decreases n,
{
    if n > 0 {
        lemma_first_keys(a, b, (n - 1) as nat);
        assert(a[n - 1] == b[n - 1]);
    }
}

/// Every line names its fix. Of a repair the last line tells the text before and
/// after it; at the level that the fix asks for, but one below for debugging. The
/// first of two lines tells what was found: as a warning, unless the fix is for
/// debugging only.
pub proof fn law_repairs_are_logged(name: Seq<char>, original: Seq<char>, fixed: Seq<char>, level: FixLogLevel)
    ensures
        ({
            let lines = lines_of(name, ActionView::Fixed { original, fixed }, level);
            &&& lines.len() == if level == FixLogLevel::Trace {
                1int
            } else {
                2
            }
            &&& forall|k: int|
                0 <= k < lines.len() ==> (#[trigger] lines[k]).fix_name == name && lines[k].original == Some(original)
                    && lines[k].attempted is None
            &&& lines.last().fixed == Some(fixed)
            &&& lines.last().level == match level {
                FixLogLevel::Trace => LogLevel::Trace,
                FixLogLevel::Debug => LogLevel::Trace,
                FixLogLevel::Info => LogLevel::Info,
                FixLogLevel::Warn => LogLevel::Warn,
            }
            &&& level == FixLogLevel::Debug ==> lines[0].level == LogLevel::Debug
            &&& level == FixLogLevel::Info || level == FixLogLevel::Warn ==> lines[0].level == LogLevel::Warn
            &&& level != FixLogLevel::Trace ==> lines[0].fixed is None
            &&& level == FixLogLevel::Trace ==> lines[0].message == "Detected and fixed malformed content"@
            &&& level == FixLogLevel::Debug ==> lines[0].message == "Detected malformed content (fixed)"@
            &&& level == FixLogLevel::Info || level == FixLogLevel::Warn ==> lines[0].message == "Detected malformed content"@
            &&& level != FixLogLevel::Trace ==> lines[1].message == "Successfully fixed malformed content"@
        }),
{
}

/// Of a failure two lines are logged whatever the fix asks for: a warning that
/// tells what was found, and an error that tells what was tried. Of a fix that did
/// not apply there is one line, for tracing.
pub proof fn law_failures_and_misses_are_logged(
    name: Seq<char>,
    original: Seq<char>,
    attempted: Seq<char>,
    level: FixLogLevel,
)
    ensures
        ({
            let lines = lines_of(name, ActionView::Failed { original, attempted }, level);
            &&& lines.len() == 2
            &&& lines[0].fix_name == name && lines[1].fix_name == name
            &&& lines[0].original == Some(original) && lines[1].original == Some(original)
            &&& lines[0].level == LogLevel::Warn && lines[1].level == LogLevel::Error
            &&& lines[0].attempted is None && lines[1].attempted == Some(attempted)
            &&& lines[0].fixed is None && lines[1].fixed is None
            &&& lines[0].message == "Detected malformed content"@
            &&& lines[1].message == "Failed to fix malformed content"@
        }),
        ({
            let lines = lines_of(name, ActionView::NotApplicable, level);
            &&& lines.len() == 1
            &&& lines[0].fix_name == name
            &&& lines[0].level == LogLevel::Trace
            &&& lines[0].original is None && lines[0].fixed is None && lines[0].attempted is None
            &&& lines[0].message == "Fix did not apply"@
        }),
{
}

/// The originals of repairs.
pub open spec fn originals_of(actions: Seq<ActionView>) -> Seq<Seq<char>> {
    Seq::new(
        actions.len(),
        |i: int|
            match actions[i] {
                ActionView::Fixed { original, .. } => original,
                _ => Seq::empty(),
            },
    )
}

/// What repairs made of their originals.
pub open spec fn fixeds_of(actions: Seq<ActionView>) -> Seq<Seq<char>> {
    Seq::new(
        actions.len(),
        |i: int|
            match actions[i] {
                ActionView::Fixed { fixed, .. } => fixed,
                _ => Seq::empty(),
            },
    )
}

proof fn lemma_snippets_join(actions: Seq<ActionView>, n: nat)
    requires
        n <= actions.len(),
        forall|i: int| 0 <= i < actions.len() ==> (#[trigger] actions[i]) is Fixed && actions[i]->Fixed_original.len() > 0,
    ensures
        snippets(actions, n).0 == join_texts(originals_of(actions).take(n as int), " ;; "@),
        snippets(actions, n).1 == join_texts(fixeds_of(actions).take(n as int), " ;; "@),
        n > 0 ==> snippets(actions, n).0.len() > 0,
    decreases n,
{
    if n > 0 {
        lemma_snippets_join(actions, (n - 1) as nat);
        let originals = originals_of(actions);
        let fixeds = fixeds_of(actions);
        assert(actions[n - 1] is Fixed);
        assert(originals.take(n as int) =~= originals.take(n - 1).push(originals[n - 1]));
        assert(fixeds.take(n as int) =~= fixeds.take(n - 1).push(fixeds[n - 1]));
        law_join_of_one_more(originals.take(n - 1), originals[n - 1], " ;; "@);
        law_join_of_one_more(fixeds.take(n - 1), fixeds[n - 1], " ;; "@);
        if n == 1 {
            assert(snippets(actions, 0) == (Seq::<char>::empty(), Seq::<char>::empty()));
            assert(snippets(actions, 1).0 =~= originals[0]);
            assert(snippets(actions, 1).1 =~= fixeds[0]);
        }
    }
}

/// No repair is nothing, one repair is itself, and several are told one after
/// another behind their number, in their order.
pub proof fn law_repairs_are_told_together(actions: Seq<ActionView>)
    requires
        forall|i: int| 0 <= i < actions.len() ==> (#[trigger] actions[i]) is Fixed && actions[i]->Fixed_original.len() > 0,
    ensures
        actions.len() == 0 ==> aggregated(actions) is NotApplicable,
        actions.len() == 1 ==> aggregated(actions) == actions[0],
        actions.len() >= 2 ==> aggregated(actions) == (ActionView::Fixed {
            original: decimal(actions.len()) + " repairs: "@ + join_texts(originals_of(actions), " ;; "@),
            fixed: decimal(actions.len()) + " repairs: "@ + join_texts(fixeds_of(actions), " ;; "@),
        }),
{
    lemma_snippets_join(actions, actions.len());
    assert(originals_of(actions).take(actions.len() as int) =~= originals_of(actions));
    assert(fixeds_of(actions).take(actions.len() as int) =~= fixeds_of(actions));
}

/// Of arguments that can be read and carry `filePath` more than once, the one that stands
/// first in the text is kept, and every other member as it was read.
pub proof fn law_the_first_file_path_in_the_text_is_kept(
    args: Seq<char>,
    json: JsonView,
    first: Span,
    value: JsonView,
    key: Seq<char>,
) -> (kept: JsonView)
    requires
        parsed(args) == Ok::<JsonView, Seq<char>>(json),
        json is Object,
        key_spans(args, "filePath"@).len() >= 2,
        key_spans(args, "filePath"@).contains(first),
        forall|k: int|
            0 <= k < key_spans(args, "filePath"@).len() ==> first.key_start <= (#[trigger] key_spans(
                args,
                "filePath"@,
            )[k]).key_start,
        parsed(value_text(args, first)) == Ok::<JsonView, Seq<char>>(value),
    ensures
        kept.get("filePath"@) == Some(value),
        key != "filePath"@ ==> kept.get(key) == json.get(key),
        parsed(printed(kept)) is Ok ==> repaired(args) == Ok::<Seq<char>, ErrorView>(printed(kept)),
{
    let spans = key_spans(args, "filePath"@);
    law_spans_are_in_text_order(args, "filePath"@);
    let at = choose|at: int| 0 <= at < spans.len() && spans[at] == first;
    if at > 0 {
        lemma_key_spans(args, "filePath"@, 0);
        assert(spans[0].value_end < spans[at].key_start);
        assert(first.key_start <= spans[0].key_start);
    }
    let kept = first_wins(json, args);
    law_the_first_filepath_wins(json, args, key);
    kept
}

/// Arguments that can be read and carry `filePath` at most once are printed as they were
/// read.
pub proof fn law_a_single_file_path_is_kept(args: Seq<char>, json: JsonView)
    requires
        parsed(args) == Ok::<JsonView, Seq<char>>(json),
        key_spans(args, "filePath"@).len() < 2,
        parsed(printed(json)) is Ok,
    ensures
        repaired(args) == Ok::<Seq<char>, ErrorView>(printed(json)),
{
}

/// The words of an error of a fix end with what was said of it, behind its kind.
pub proof fn law_errors_of_fixes_in_words(said: Seq<char>)
    ensures
        ErrorView::Parse(said).message() == "parse error: "@ + said,
        ErrorView::Rebuild(said).message() == "rebuild error: "@ + said,
{
}

/// Where the arguments of a response cannot be repaired, the beginning of the response and
/// the error are told.
pub proof fn law_an_unrepairable_response_is_told(
    fix: ToolcallBadFilepathFix,
    response: JsonView,
    request: JsonView,
    error: ErrorView,
)
    requires
        fix.apply_in_context(response, request) == Err::<(JsonView, ActionView), ErrorView>(error),
    ensures
        fix.apply_view(response) == (
            response,
            ActionView::Failed {
                original: clipped(printed(response), 200, SnippetLimit::Chars),
                attempted: error.message(),
            },
        ),
{
}

/// What is said of arguments that cannot be repaired.
pub proof fn law_why_arguments_are_not_repaired(args: Seq<char>, start: int)
    requires
        parsed(args) is Err,
    ensures
        (forall|k: int| !occurs_at(args, "\"filePath\":"@, k)) ==> repaired(args) == Err::<Seq<char>, ErrorView>(
            ErrorView::Parse(
                "unparseable arguments carry no repairable \"filePath\":\"<value>\" pattern: "@ + clipped(
                    args,
                    200,
                    SnippetLimit::Chars,
                ),
            ),
        ),
        occurs_at(args, "\"filePath\":"@, start) && (forall|k: int| 0 <= k < start ==> !occurs_at(args, "\"filePath\":"@, k))
            && (forall|k: int| start + "\"filePath\":"@.len() <= k < args.len() ==> #[trigger] args[k] != '"') ==> repaired(args)
            == Err::<Seq<char>, ErrorView>(
            ErrorView::Parse("first filePath value has no closing quote: "@ + clipped(args, 200, SnippetLimit::Chars)),
        ),
        truncated(args) is Ok && parsed(truncated(args)->Ok_0) is Err ==> repaired(args) == Err::<Seq<char>, ErrorView>(
            ErrorView::Rebuild(
                "schema-truncation candidate is still invalid JSON: "@ + clipped(
                    truncated(args)->Ok_0,
                    200,
                    SnippetLimit::Chars,
                ),
            ),
        ),
{
    let pattern = "\"filePath\":"@;
    if forall|k: int| !occurs_at(args, pattern, k) {
        lemma_no_find(args, pattern, 0);
    }
    if occurs_at(args, pattern, start) && (forall|k: int| 0 <= k < start ==> !occurs_at(args, pattern, k)) && (forall|k: int|
        start + pattern.len() <= k < args.len() ==> #[trigger] args[k] != '"') {
        lemma_first_find(args, pattern, start, 0);
        let tail = args.skip(start + pattern.len());
        let i = after_colon(tail, 0);
        lemma_colon_place(tail, 0);
        if 0 <= i < tail.len() {
            assert(tail[i] == args[start + pattern.len() + i]);
        }
    }
}

proof fn lemma_colon_place(s: Seq<char>, i: int)
    requires
        0 <= i <= s.len(),
    ensures
        i <= after_colon(s, i) <= s.len(),
    decreases s.len() - i,
{
    if i < s.len() && (is_white(s[i]) || s[i] == ':') {
        lemma_colon_place(s, i + 1);
    }
}

/// What is told of indices that were set.
pub proof fn law_set_indices_are_told(fix: ToolCallNullIndexFix, response: JsonView)
    requires
        fix.apply_view(response).0 != response,
    ensures
        fix.apply_view(response).1 == (ActionView::Fixed {
            original: "tool_calls with null/missing indices"@,
            fixed: "tool_calls with sequential indices (0, 1, 2, ...)"@,
        }),
{
    law_a_set_index_is_reported(fix, response);
}

/// The fix for indices is for no response in which every call has a number as its `index`.
pub proof fn law_set_indices_are_not_seen(fix: ToolCallNullIndexFix, response: JsonView)
    requires
        forall|i: int, side: Seq<char>, j: int, call: JsonView| #[trigger]
            stands_in(response, i, side, j, call) ==> call.get("index"@) is Some && is_a_number(call.get("index"@)->0),
    ensures
        !fix.applies_view(response),
{
    if fix.applies_view(response) {
        let (i, side, j) = lemma_some_call_triggers(super::walk::trigger_fn(fix), response, Sides::Both);
        let call = call_at(response, i, side, j)->0;
        lemma_stands_in(response, i, side, j, call);
        assert(stands_in(response, i, side, j, call));
    }
}

/// The fix for `filePath` is for every response in which a call of a message has arguments
/// that are no JSON or carry it twice, and for no other.
pub proof fn law_bad_arguments_are_seen(
    fix: ToolcallBadFilepathFix,
    response: JsonView,
    i: int,
    j: int,
    call: JsonView,
    function: JsonView,
    args: Seq<char>,
)
    ensures
        stands_in(response, i, "message"@, j, call) && call.get("function"@) == Some(function) && function.get("arguments"@)
            == Some(JsonView::Str(args)) && (parsed(args) is Err || super::json_scan::key_count(args, "filePath"@) > 1)
            ==> fix.applies_view(response),
        (forall|x: int, y: int, c: JsonView| #[trigger]
            stands_in(response, x, "message"@, y, c) && c.get("function"@) is Some && c.get("function"@)->0.get("arguments"@) is
            Some && c.get("function"@)->0.get("arguments"@)->0 is Str ==> parsed(
                c.get("function"@)->0.get("arguments"@)->0->Str_0,
            ) is Ok && super::json_scan::key_count(c.get("function"@)->0.get("arguments"@)->0->Str_0, "filePath"@) <= 1)
            ==> !fix.applies_view(response),
{
    let t = super::walk::trigger_fn(fix);
    if stands_in(response, i, "message"@, j, call) && call.get("function"@) == Some(function) && function.get("arguments"@)
        == Some(JsonView::Str(args)) && (parsed(args) is Err || super::json_scan::key_count(args, "filePath"@) > 1) {
        lemma_stands_in(response, i, "message"@, j, call);
        lemma_seen(t, response, Sides::Message, i, "message"@, j);
    }
    if fix.applies_view(response) {
        let (x, side, y) = lemma_some_call_triggers(t, response, Sides::Message);
        let c = call_at(response, x, side, y)->0;
        lemma_stands_in(response, x, side, y, c);
        assert(stands_in(response, x, "message"@, y, c));
    }
}

/// Of the fixes in their order, each is kept or told as left out, and never both.
pub proof fn law_each_fix_is_kept_or_left_out(
    modules: Map<Seq<char>, FixModuleConfig>,
    fixes: Seq<BuiltinFix>,
    fix: BuiltinFix,
)
    ensures
        ({
            let n = fixes.len();
            let more = fixes.push(fix);
            &&& left_out(modules, fix.name_view()) ==> kept(modules, more, n + 1) == kept(modules, fixes, n) && skipped(
                modules,
                more,
                n + 1,
            ) == skipped(modules, fixes, n).push(fix.name_view())
            &&& !left_out(modules, fix.name_view()) ==> kept(modules, more, n + 1) == kept(modules, fixes, n).push(fix)
                && skipped(modules, more, n + 1) == skipped(modules, fixes, n)
        }),
        kept(modules, Seq::empty(), 0).len() == 0,
        skipped(modules, Seq::empty(), 0).len() == 0,
{
    lemma_first_kept(modules, fixes, fixes.push(fix), fixes.len());
}

proof fn lemma_first_kept(modules: Map<Seq<char>, FixModuleConfig>, a: Seq<BuiltinFix>, b: Seq<BuiltinFix>, n: nat)
    requires
        n <= a.len(),
        n <= b.len(),
        forall|i: int| 0 <= i < n ==> a[i] == b[i],
    ensures
        kept(modules, a, n) == kept(modules, b, n),
        skipped(modules, a, n) == skipped(modules, b, n),
    decreases n,
{
    if n > 0 {
        lemma_first_kept(modules, a, b, (n - 1) as nat);
        assert(a[n - 1] == b[n - 1]);
    }
}

} // verus!
