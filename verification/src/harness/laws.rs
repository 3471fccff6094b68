//! What a stream adds up to, where a path leads, and which keys are found.

use vstd::prelude::*;
use vstd::string::*;
use crate::json::{parsed, JsonView, Members};
use crate::text::{ascii_lowered, decimal, find_from, occurs_at, split_from, split_text};
use super::types::{
    args_path, args_to, calls_args, content_to, data_to, digits_value, index_value, is_digit, path_from, path_step,
    path_text, path_value, reason_to, without_plus, SseEvent,
};
use super::vram::{ends_with, forbidden_elements, forbidden_in, forbidden_members, is_forbidden};

verus! {

broadcast use vstd::string::group_string_axioms;

/// The first events decide alone what they add.
proof fn lemma_first_events(a: Seq<SseEvent>, b: Seq<SseEvent>, at: usize, n: nat)
    requires
        n <= a.len(),
        n <= b.len(),
        forall|i: int| 0 <= i < n ==> a[i] == b[i],
    ensures
        content_to(a, n) == content_to(b, n),
        args_to(a, at, n) == args_to(b, at, n),
        reason_to(a, n) == reason_to(b, n),
        data_to(a, n) == data_to(b, n),
    decreases n,
{
    if n > 0 {
        lemma_first_events(a, b, at, (n - 1) as nat);
        assert(a[n - 1] == b[n - 1]);
    }
}

/// One more event adds, at the end, the text of what its first choice adds, and a
/// mark of the end or an event that is no JSON adds nothing.
pub proof fn law_one_more_event_adds_its_text(events: Seq<SseEvent>, event: SseEvent, chunk: JsonView, choices: Seq<JsonView>, delta: JsonView, text: Seq<char>)
    ensures
        content_to(Seq::empty(), 0).len() == 0,
        !event.is_done && parsed(event.data@) == Ok::<JsonView, Seq<char>>(chunk) && chunk.get("choices"@) == Some(
            JsonView::Array(choices),
        ) && choices.len() > 0 && choices[0].get("delta"@) == Some(delta) && delta.get("content"@) == Some(
            JsonView::Str(text),
        ) ==> content_to(events.push(event), events.len() + 1) == content_to(events, events.len()) + text,
        event.is_done || parsed(event.data@) is Err ==> content_to(events.push(event), events.len() + 1) == content_to(
            events,
            events.len(),
        ),
{
    lemma_first_events(events, events.push(event), 0, events.len());
}

/// One more event adds, at the end, the arguments of those of its tool calls that are
/// at the position, in their order.
pub proof fn law_one_more_event_adds_its_arguments(
    events: Seq<SseEvent>,
    event: SseEvent,
    at: usize,
    chunk: JsonView,
    choices: Seq<JsonView>,
    delta: JsonView,
    calls: Seq<JsonView>,
)
    ensures
        args_to(Seq::empty(), at, 0).len() == 0,
        !event.is_done && parsed(event.data@) == Ok::<JsonView, Seq<char>>(chunk) && chunk.get("choices"@) == Some(
            JsonView::Array(choices),
        ) && choices.len() > 0 && choices[0].get("delta"@) == Some(delta) && delta.get("tool_calls"@) == Some(
            JsonView::Array(calls),
        ) ==> args_to(events.push(event), at, events.len() + 1) == args_to(events, at, events.len()) + calls_args(
            calls,
            at,
            calls.len(),
        ),
        event.is_done || parsed(event.data@) is Err ==> args_to(events.push(event), at, events.len() + 1) == args_to(
            events,
            at,
            events.len(),
        ),
{
    lemma_first_events(events, events.push(event), at, events.len());
}

/// One more tool call adds its arguments to the call at its index, or at 0 where it
/// has none, and to no other.
pub proof fn law_one_more_call_adds_its_arguments(
    calls: Seq<JsonView>,
    call: JsonView,
    at: usize,
    function: JsonView,
    args: Seq<char>,
)
    requires
        call.get("function"@) == Some(function),
        function.get("arguments"@) == Some(JsonView::Str(args)),
    ensures
        ({
            let before = calls_args(calls, at, calls.len());
            let after = calls_args(calls.push(call), at, calls.len() + 1);
            &&& call.get("index"@) == Some(JsonView::Unsigned(at as u64)) ==> after == before + args
            &&& call.get("index"@) is None && at == 0 ==> after == before + args
            &&& call.get("index"@) is None && at != 0 ==> after == before
            &&& call.get("index"@) is Some && call.get("index"@)->0 is Unsigned && call.get("index"@)->0->Unsigned_0
                <= usize::MAX && call.get("index"@)->0->Unsigned_0 != at ==> after == before
        }),
        calls_args(Seq::empty(), at, 0).len() == 0,
{
    let more = calls.push(call);
    lemma_first_calls(calls, more, at, calls.len());
    let before = calls_args(calls, at, calls.len());
    assert(before + Seq::<char>::empty() =~= before);
}

proof fn lemma_first_calls(a: Seq<JsonView>, b: Seq<JsonView>, at: usize, n: nat)
    requires
        n <= a.len(),
        n <= b.len(),
        forall|i: int| 0 <= i < n ==> a[i] == b[i],
    ensures
        calls_args(a, at, n) == calls_args(b, at, n),
    decreases n,
{
    if n > 0 {
        lemma_first_calls(a, b, at, (n - 1) as nat);
        assert(a[n - 1] == b[n - 1]);
    }
}

/// The last event that gives a reason for ending decides; the word `null` is no
/// reason.
pub proof fn law_the_last_reason_counts(events: Seq<SseEvent>, event: SseEvent, chunk: JsonView, choices: Seq<JsonView>, reason: Seq<char>)
    requires
        parsed(event.data@) == Ok::<JsonView, Seq<char>>(chunk),
        chunk.get("choices"@) == Some(JsonView::Array(choices)),
        choices.len() > 0,
    ensures
        reason_to(Seq::empty(), 0) is None,
        !event.is_done && choices[0].get("finish_reason"@) == Some(JsonView::Str(reason)) && reason != "null"@ ==> reason_to(
            events.push(event),
            events.len() + 1,
        ) == Some(reason),
        event.is_done || choices[0].get("finish_reason"@) is None || choices[0].get("finish_reason"@) == Some(
            JsonView::Str("null"@),
        ) || choices[0].get("finish_reason"@) == Some(JsonView::Null) ==> reason_to(events.push(event), events.len() + 1)
            == reason_to(events, events.len()),
{
    lemma_first_events(events, events.push(event), 0, events.len());
}

/// The events that carry data are all but the marks of the end, in their order.
pub proof fn law_data_events_are_all_but_the_marks(events: Seq<SseEvent>, event: SseEvent)
    ensures
        data_to(Seq::empty(), 0).len() == 0,
        event.is_done ==> data_to(events.push(event), events.len() + 1) == data_to(events, events.len()),
        !event.is_done ==> data_to(events.push(event), events.len() + 1) == data_to(events, events.len()).push(event),
{
    lemma_first_events(events, events.push(event), 0, events.len());
}

proof fn lemma_digits_of_decimal(n: nat)
    ensures
        decimal(n).len() > 0,
        forall|i: int| 0 <= i < decimal(n).len() ==> is_digit(#[trigger] decimal(n)[i]),
        digits_value(decimal(n)) == n,
    decreases n,
{
    reveal_with_fuel(digits_value, 2);
    if n >= 10 {
        lemma_digits_of_decimal(n / 10);
        assert(decimal(n).drop_last() =~= decimal(n / 10));
    } else {
        assert(decimal(n).drop_last() =~= Seq::empty());
    }
}

/// The decimal text of a number is read as that number.
pub proof fn law_numbers_are_read_back(n: usize)
    ensures
        index_value(decimal(n as nat)) == Some(n),
{
    lemma_digits_of_decimal(n as nat);
    assert(is_digit(decimal(n as nat)[0]));
    assert(without_plus(decimal(n as nat)) == decimal(n as nat));
}

proof fn lemma_split_more(p: Seq<char>, q: Seq<char>, start: int, i: int)
    requires
        0 <= start <= i <= p.len(),
        forall|k: int| 0 <= k < q.len() ==> #[trigger] q[k] != '.',
    ensures
        split_from(p + seq!['.'] + q, '.', start, i) == split_from(p, '.', start, i).push(q),
    decreases p.len() - i,
{
    let whole = p + seq!['.'] + q;
    if i < p.len() {
        assert(whole[i] == p[i]);
        if p[i] == '.' {
            lemma_split_more(p, q, i + 1, i + 1);
            assert(whole.subrange(start, i) =~= p.subrange(start, i));
            let rest = split_from(p, '.', i + 1, i + 1);
            assert(seq![p.subrange(start, i)] + rest.push(q) =~= (seq![p.subrange(start, i)] + rest).push(q));
        } else {
            lemma_split_more(p, q, start, i + 1);
        }
    } else {
        assert(whole[i] == '.');
        assert(whole.subrange(start, i) =~= p.subrange(start, p.len() as int));
        lemma_no_dots(whole, i + 1, i + 1);
        assert(whole.subrange(i + 1, whole.len() as int) =~= q);
        assert(split_from(whole, '.', start, i) =~= split_from(p, '.', start, i).push(q));
    }
}

proof fn lemma_no_dots(s: Seq<char>, start: int, i: int)
    requires
        0 <= start <= i <= s.len(),
        forall|k: int| i <= k < s.len() ==> #[trigger] s[k] != '.',
    ensures
        split_from(s, '.', start, i) == seq![s.subrange(start, s.len() as int)],
    decreases s.len() - i,
{
    if i < s.len() {
        lemma_no_dots(s, start, i + 1);
    }
}

proof fn lemma_path_more(v: JsonView, parts: Seq<Seq<char>>, part: Seq<char>, i: int)
    requires
        0 <= i <= parts.len(),
    ensures
        path_from(v, parts.push(part), i) == match path_from(v, parts, i) {
            Some(at) => path_step(at, part),
            None => None,
        },
    decreases parts.len() - i,
{
    let more = parts.push(part);
    if i < parts.len() {
        assert(more[i] == parts[i]);
        if let Some(next) = path_step(v, parts[i]) {
            lemma_path_more(next, parts, part, i + 1);
        }
    } else {
        assert(more[i] == part);
        if let Some(next) = path_step(v, part) {
            assert(path_from(next, more, i + 1) == Some(next));
        }
    }
}

/// A path with one more part leads one step on from where the path leads: to an
/// element where the part is a number, and to a member where it is not.
pub proof fn law_one_more_part_is_one_more_step(v: JsonView, path: Seq<char>, part: Seq<char>)
    requires
        forall|k: int| 0 <= k < part.len() ==> #[trigger] part[k] != '.',
    ensures
        path_value(v, path + seq!['.'] + part) == match path_value(v, path) {
            Some(at) => match index_value(part) {
                Some(i) => at.at(i as int),
                None => at.get(part),
            },
            None => None,
        },
        path_value(v, part) == match index_value(part) {
            Some(i) => v.at(i as int),
            None => v.get(part),
        },
{
    lemma_split_more(path, part, 0, 0);
    lemma_path_more(v, split_text(path, '.'), part, 0);
    lemma_no_dots(part, 0, 0);
    assert(part.subrange(0, part.len() as int) =~= part);
    let alone = split_text(part, '.');
    assert(alone == seq![part]);
    if let Some(next) = path_step(v, part) {
        assert(path_from(next, alone, 1) == Some(next));
    }
}

proof fn lemma_decimal_has_no_dot(n: nat)
    ensures
        forall|k: int| 0 <= k < decimal(n).len() ==> #[trigger] decimal(n)[k] != '.',
{
    lemma_digits_of_decimal(n);
    assert forall|k: int| 0 <= k < decimal(n).len() implies #[trigger] decimal(n)[k] != '.' by {
        assert(is_digit(decimal(n)[k]));
    }
}

proof fn lemma_word(word: Seq<char>)
    requires
        word.len() > 0,
        'a' <= word[0] <= 'z',
    ensures
        index_value(word) is None,
{
    assert(!is_digit(word[0]));
    assert(without_plus(word) == word);
}

/// The arguments of a tool call are found where they stand in a response.
pub proof fn law_arguments_are_found(
    body: JsonView,
    choices: Seq<JsonView>,
    choice: usize,
    message: JsonView,
    calls: Seq<JsonView>,
    tc: usize,
    function: JsonView,
    args: Seq<char>,
)
    requires
        body.get("choices"@) == Some(JsonView::Array(choices)),
        choice < choices.len(),
        choices[choice as int].get("message"@) == Some(message),
        message.get("tool_calls"@) == Some(JsonView::Array(calls)),
        tc < calls.len(),
        calls[tc as int].get("function"@) == Some(function),
        function.get("arguments"@) == Some(JsonView::Str(args)),
    ensures
        path_text(body, args_path(choice as nat, tc as nat)) == Some(args),
{
    reveal_strlit("choices");
    reveal_strlit("message");
    reveal_strlit("tool_calls");
    reveal_strlit("function");
    reveal_strlit("arguments");
    reveal_strlit("choices.");
    reveal_strlit(".message.tool_calls.");
    reveal_strlit(".function.arguments");
    let c = decimal(choice as nat);
    let t = decimal(tc as nat);
    let dot = seq!['.'];
    lemma_decimal_has_no_dot(choice as nat);
    lemma_decimal_has_no_dot(tc as nat);
    law_numbers_are_read_back(choice);
    law_numbers_are_read_back(tc);
    lemma_word("choices"@);
    lemma_word("message"@);
    lemma_word("tool_calls"@);
    lemma_word("function"@);
    lemma_word("arguments"@);
    let p1 = "choices"@;
    let p2 = p1 + dot + c;
    let p3 = p2 + dot + "message"@;
    let p4 = p3 + dot + "tool_calls"@;
    let p5 = p4 + dot + t;
    let p6 = p5 + dot + "function"@;
    let p7 = p6 + dot + "arguments"@;
    assert("choices."@ =~= p1 + dot);
    assert(".message.tool_calls."@ =~= dot + "message"@ + dot + "tool_calls"@ + dot);
    assert(".function.arguments"@ =~= dot + "function"@ + dot + "arguments"@);
    assert(args_path(choice as nat, tc as nat) =~= p7);
    law_one_more_part_is_one_more_step(body, p1, p1);
    law_one_more_part_is_one_more_step(body, p1, c);
    law_one_more_part_is_one_more_step(body, p2, "message"@);
    law_one_more_part_is_one_more_step(body, p3, "tool_calls"@);
    law_one_more_part_is_one_more_step(body, p4, t);
    law_one_more_part_is_one_more_step(body, p5, "function"@);
    law_one_more_part_is_one_more_step(body, p6, "arguments"@);
}

/// A key is forbidden where it holds `byte` or `vram`, ends in `_display` or is `id`,
/// in upper or lower case, and nowhere else.
pub proof fn law_which_keys_are_forbidden(key: Seq<char>)
    ensures
        is_forbidden(key) <==> {
            ||| exists|i: int| occurs_at(ascii_lowered(key), "byte"@, i)
            ||| exists|i: int| occurs_at(ascii_lowered(key), "vram"@, i)
            ||| exists|before: Seq<char>| ascii_lowered(key) == #[trigger] (before + "_display"@)
            ||| ascii_lowered(key) == "id"@
        },
{
    let lower = ascii_lowered(key);
    lemma_found(lower, "byte"@, 0);
    lemma_found(lower, "vram"@, 0);
    let tail = "_display"@;
    if ends_with(lower, tail) {
        let before = lower.take(lower.len() - tail.len());
        assert(lower =~= before + tail);
    }
    if exists|before: Seq<char>| lower == #[trigger] (before + tail) {
        let before = choose|before: Seq<char>| lower == #[trigger] (before + tail);
        assert(lower.skip(lower.len() - tail.len()) =~= tail);
    }
}

proof fn lemma_found(hay: Seq<char>, needle: Seq<char>, from: int)
    requires
        0 <= from <= hay.len() + 1,
    ensures
        find_from(hay, needle, from) is Some <==> exists|i: int| from <= i && occurs_at(hay, needle, i),
    decreases hay.len() + 1 - from,
{
    if from <= hay.len() {
        lemma_found(hay, needle, from + 1);
        if !occurs_at(hay, needle, from) && exists|i: int| from <= i && occurs_at(hay, needle, i) {
            let i = choose|i: int| from <= i && occurs_at(hay, needle, i);
            assert(from + 1 <= i);
        }
    }
}

proof fn lemma_first_members(a: Members, b: Members, path: Seq<char>, n: nat)
    requires
        n <= a.len(),
        n <= b.len(),
        forall|i: int| 0 <= i < n ==> a[i] == b[i],
    ensures
        forbidden_members(a, path, n) == forbidden_members(b, path, n),
    decreases n,
{
    if n > 0 {
        lemma_first_members(a, b, path, (n - 1) as nat);
        assert(a[n - 1] == b[n - 1]);
    }
}

proof fn lemma_first_elements(a: Seq<JsonView>, b: Seq<JsonView>, path: Seq<char>, n: nat)
    requires
        n <= a.len(),
        n <= b.len(),
        forall|i: int| 0 <= i < n ==> a[i] == b[i],
    ensures
        forbidden_elements(a, path, n) == forbidden_elements(b, path, n),
    decreases n,
{
    if n > 0 {
        lemma_first_elements(a, b, path, (n - 1) as nat);
        assert(a[n - 1] == b[n - 1]);
    }
}

/// One more member adds, at the end, its own path where its key is forbidden, and
/// then those of what it holds; one more element adds those of what it holds. Any
/// other value holds none.
pub proof fn law_one_more_value_is_searched(
    m: Members,
    key: Seq<char>,
    a: Seq<JsonView>,
    value: JsonView,
    path: Seq<char>,
)
    ensures
        ({
            let here = path + "."@ + key;
            let before = forbidden_in(JsonView::Object(m), path);
            let after = forbidden_in(JsonView::Object(m.push((key, value))), path);
            &&& is_forbidden(key) ==> after == before.push(here) + forbidden_in(value, here)
            &&& !is_forbidden(key) ==> after == before + forbidden_in(value, here)
        }),
        forbidden_in(JsonView::Array(a.push(value)), path) == forbidden_in(JsonView::Array(a), path) + forbidden_in(
            value,
            path + "["@ + decimal(a.len()) + "]"@,
        ),
        forbidden_in(JsonView::Object(Seq::empty()), path).len() == 0,
        forbidden_in(JsonView::Array(Seq::empty()), path).len() == 0,
        !(value is Object || value is Array) ==> forbidden_in(value, path).len() == 0,
{
    lemma_first_members(m, m.push((key, value)), path, m.len());
    lemma_first_elements(a, a.push(value), path, a.len());
    reveal_with_fuel(forbidden_members, 2);
    reveal_with_fuel(forbidden_elements, 2);
}

/// A plus sign before a number changes nothing, and nothing else but digits is a number.
pub proof fn law_which_texts_are_numbers(n: usize, s: Seq<char>, i: int)
    ensures
        index_value(seq!['+'] + decimal(n as nat)) == Some(n),
        s.len() == 0 ==> index_value(s) is None,
        0 <= i < s.len() && !is_digit(s[i]) && !(i == 0 && s[0] == '+') ==> index_value(s) is None,
        s == seq!['+'] ==> index_value(s) is None,
{
    let d = decimal(n as nat);
    lemma_digits_of_decimal(n as nat);
    let whole = seq!['+'] + d;
    assert(whole.drop_first() =~= d);
    if 0 <= i < s.len() && !is_digit(s[i]) && !(i == 0 && s[0] == '+') {
        let digits = without_plus(s);
        if s[0] == '+' {
            assert(digits[i - 1] == s[i]);
        } else {
            assert(digits[i] == s[i]);
        }
    }
    if s == seq!['+'] {
        assert(s.drop_first() =~= Seq::empty());
    }
}

} // verus!
