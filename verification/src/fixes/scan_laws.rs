//! Where the members of an object and the slots of arguments are found, byte by byte.

use vstd::prelude::*;
use vstd::string::*;
use vstd::utf8::*;
use crate::json::{parsed, JsonView};
use crate::text::decimal;
use super::json_scan::{
    after_ws, container_end, key_is, lemma_member_at, literal_end, member_at, members_from, object_members, string_end, value_end,
    Span,
};
use super::toolcall_malformed_arguments_fix::{
    candidates, filled, masked, sentinel, slot_fn, slot_starts, slots_from, spliced, ToolcallMalformedArgumentsFix,
};
use super::walk::{choice_triggers, choices_of, lemma_stands_in, side_calls, side_triggers, stands_in, Sides};
use super::{ErrorView, ResponseFix};

verus! {

broadcast use vstd::string::group_string_axioms;

/// A space, a tab, a line feed or a carriage return.
pub open spec fn is_blank_byte(c: u8) -> bool {
    c == 32 || c == 9 || c == 10 || c == 13
}

/// The bytes of a string of JSON from `j` up to its closing quote at `end`: no control
/// character, and no quote but behind a backslash, which takes one byte with it.
pub open spec fn is_body(b: Seq<u8>, j: int, end: int) -> bool
    decreases end - j,
{
    if j >= end {
        j == end
    } else if b[j] == 92 {
        j + 2 <= end && is_body(b, j + 2, end)
    } else {
        b[j] >= 32 && b[j] != 34 && is_body(b, j + 1, end)
    }
}

/// A string ends behind the first quote that no backslash stands before; a control
/// character in it means that it does not end.
pub proof fn law_where_a_string_ends(b: Seq<u8>, j: int, end: int)
    requires
        0 <= j <= end < b.len(),
        is_body(b, j, end),
    ensures
        b[end] == 34 ==> string_end(b, j) == Some(end + 1),
        b[end] < 32 ==> string_end(b, j) is None,
    decreases end - j,
{
    if j < end {
        if b[j] == 92 {
            law_where_a_string_ends(b, j + 2, end);
        } else {
            law_where_a_string_ends(b, j + 1, end);
        }
    }
}

/// Space is passed over, and nothing else is.
pub proof fn law_space_is_passed_over(b: Seq<u8>, i: int, end: int)
    requires
        0 <= i <= end <= b.len(),
        forall|k: int| i <= k < end ==> is_blank_byte(#[trigger] b[k]),
        end < b.len() ==> !is_blank_byte(b[end]),
    ensures
        after_ws(b, i) == end,
    decreases end - i,
{
    if i < end {
        law_space_is_passed_over(b, i + 1, end);
    }
}

/// Whether a literal goes on with a byte: not with space, a comma or a closing bracket.
pub open spec fn goes_on(c: u8) -> bool {
    !is_blank_byte(c) && c != 44 && c != 93 && c != 125
}

/// A literal goes up to the first space, comma or closing bracket.
pub proof fn law_where_a_literal_ends(b: Seq<u8>, i: int, end: int)
    requires
        0 <= i < end <= b.len(),
        forall|k: int| i <= k < end ==> goes_on(#[trigger] b[k]),
        end < b.len() ==> !goes_on(b[end]),
        b[i] != 34 && b[i] != 91 && b[i] != 123,
    ensures
        value_end(b, i) == Some(end),
{
    lemma_literal(b, i, end);
}

proof fn lemma_literal(b: Seq<u8>, i: int, end: int)
    requires
        0 <= i <= end <= b.len(),
        forall|k: int| i <= k < end ==> goes_on(#[trigger] b[k]),
        end < b.len() ==> !goes_on(b[end]),
    ensures
        literal_end(b, i) == end,
    decreases end - i,
{
    if i < end {
        lemma_literal(b, i + 1, end);
    }
}

/// How many brackets that are open at `from` and `depth` more are open at `to`, where
/// no string stands between; brackets of both kinds count alike.
pub open spec fn open_brackets(b: Seq<u8>, from: int, to: int, depth: int) -> int
    decreases to - from,
{
    if from >= to {
        depth
    } else if b[from] == 91 || b[from] == 123 {
        open_brackets(b, from + 1, to, depth + 1)
    } else if b[from] == 93 || b[from] == 125 {
        open_brackets(b, from + 1, to, depth - 1)
    } else {
        open_brackets(b, from + 1, to, depth)
    }
}

/// A container without strings ends with the bracket that leaves none open.
pub proof fn law_where_a_container_ends(b: Seq<u8>, i: int, end: int)
    requires
        0 <= i < end - 1,
        end <= b.len(),
        b[i] == 91 || b[i] == 123,
        forall|k: int| i < k < end ==> #[trigger] b[k] != 34,
        forall|k: int| i < k < end ==> #[trigger] open_brackets(b, i + 1, k, 1) > 0,
        open_brackets(b, i + 1, end, 1) == 0,
    ensures
        value_end(b, i) == Some(end),
{
    lemma_container(b, i + 1, i + 1, end, 1);
}

proof fn lemma_open_step(b: Seq<u8>, from: int, to: int, depth: int)
    requires
        from <= to,
    ensures
        open_brackets(b, from, to + 1, depth) == open_brackets(b, from, to, depth) + if b[to] == 91 || b[to] == 123 {
            1int
        } else if b[to] == 93 || b[to] == 125 {
            -1int
        } else {
            0int
        },
    decreases to - from,
{
    if from < to {
        if b[from] == 91 || b[from] == 123 {
            lemma_open_step(b, from + 1, to, depth + 1);
        } else if b[from] == 93 || b[from] == 125 {
            lemma_open_step(b, from + 1, to, depth - 1);
        } else {
            lemma_open_step(b, from + 1, to, depth);
        }
    } else {
        reveal_with_fuel(open_brackets, 2);
    }
}

proof fn lemma_container(b: Seq<u8>, from: int, j: int, end: int, depth: nat)
    requires
        0 <= from <= j < end <= b.len(),
        forall|k: int| from <= k < end ==> #[trigger] b[k] != 34,
        forall|k: int| from <= k < end ==> #[trigger] open_brackets(b, from, k, 1) > 0,
        open_brackets(b, from, end, 1) == 0,
        depth == open_brackets(b, from, j, 1),
    ensures
        container_end(b, j, depth) == Some(end),
    decreases end - j,
{
    lemma_open_step(b, from, j, 1);
    assert(open_brackets(b, from, j, 1) > 0);
    if j + 1 < end {
        assert(open_brackets(b, from, j + 1, 1) > 0);
        if b[j] == 91 || b[j] == 123 {
            lemma_container(b, from, j + 1, end, depth + 1);
        } else if b[j] == 93 || b[j] == 125 {
            lemma_container(b, from, j + 1, end, (depth - 1) as nat);
        } else {
            lemma_container(b, from, j + 1, end, depth);
        }
    }
}

/// A string inside a container is passed over, whatever brackets it holds.
pub proof fn law_strings_hide_brackets(b: Seq<u8>, j: int, end: int, depth: nat)
    requires
        0 <= j < end < b.len(),
        b[j] == 34,
        is_body(b, j + 1, end),
        b[end] == 34,
    ensures
        container_end(b, j, depth) == container_end(b, end + 1, depth),
{
    law_where_a_string_ends(b, j + 1, end);
}

/// A member is its key in quotes, a colon and its value, with or without space between.
pub proof fn law_where_a_member_stands(b: Seq<u8>, start: int, key_end: int, colon: int, value: int, end: int)
    requires
        0 <= start < key_end - 1,
        key_end <= colon < value < b.len(),
        b[start] == 34,
        is_body(b, start + 1, key_end - 1),
        b[key_end - 1] == 34,
        forall|k: int| key_end <= k < colon ==> is_blank_byte(#[trigger] b[k]),
        b[colon] == 58,
        forall|k: int| colon < k < value ==> is_blank_byte(#[trigger] b[k]),
        !is_blank_byte(b[value]),
        value_end(b, value) == Some(end),
    ensures
        member_at(b, start) == Some(Span { key_start: start, key_end, value_start: value, value_end: end }),
{
    law_where_a_string_ends(b, start + 1, key_end - 1);
    law_space_is_passed_over(b, key_end, colon);
    law_space_is_passed_over(b, colon + 1, value);
}

/// Behind a member a comma brings the next one and a brace ends the object; anything
/// else is no object.
pub proof fn law_members_follow_commas(b: Seq<u8>, start: int, m: Span, mark: int, next: int)
    requires
        member_at(b, start) == Some(m),
        m.value_end <= mark < b.len(),
        forall|k: int| m.value_end <= k < mark ==> is_blank_byte(#[trigger] b[k]),
        !is_blank_byte(b[mark]),
        mark < next <= b.len(),
        forall|k: int| mark < k < next ==> is_blank_byte(#[trigger] b[k]),
        next < b.len() ==> !is_blank_byte(b[next]),
    ensures
        b[mark] == 125 ==> members_from(b, start) == Some(seq![m]),
        b[mark] == 44 ==> members_from(b, start) == match members_from(b, next) {
            Some(rest) => Some(seq![m] + rest),
            None => None,
        },
        b[mark] != 44 && b[mark] != 125 ==> members_from(b, start) is None,
{
    lemma_member_at(b, start);
    law_space_is_passed_over(b, m.value_end, mark);
    law_space_is_passed_over(b, mark + 1, next);
}

/// An object begins with a brace, before which only space may stand; without members a
/// brace follows.
pub proof fn law_where_an_object_begins(b: Seq<u8>, brace: int, first: int)
    requires
        0 <= brace < first < b.len(),
        forall|k: int| 0 <= k < brace ==> is_blank_byte(#[trigger] b[k]),
        !is_blank_byte(b[brace]),
        forall|k: int| brace < k < first ==> is_blank_byte(#[trigger] b[k]),
        !is_blank_byte(b[first]),
    ensures
        b[brace] != 123 ==> object_members(b) is None,
        b[brace] == 123 && b[first] == 125 ==> object_members(b) == Some(Seq::<Span>::empty()),
        b[brace] == 123 && b[first] != 125 ==> object_members(b) == members_from(b, first),
{
    law_space_is_passed_over(b, 0, brace);
    law_space_is_passed_over(b, brace + 1, first);
}

/// A key without a backslash is compared byte for byte.
pub proof fn law_plain_keys_are_compared_by_byte(b: Seq<u8>, m: Span, key: Seq<char>)
    requires
        0 <= m.key_start,
        m.key_start + 2 <= m.key_end <= b.len(),
        forall|k: int| m.key_start < k < m.key_end - 1 ==> #[trigger] b[k] != 92,
    ensures
        key_is(b, m, key) <==> {
            &&& m.key_end - m.key_start - 2 == encode_utf8(key).len()
            &&& forall|k: int| 0 <= k < encode_utf8(key).len() ==> #[trigger] encode_utf8(key)[k] == b[m.key_start + 1 + k]
        },
{
    let inner = b.subrange(m.key_start + 1, m.key_end - 1);
    assert forall|k: int| 0 <= k < inner.len() implies inner[k] != 92 by {
        assert(inner[k] == b[m.key_start + 1 + k]);
    }
    let wanted = encode_utf8(key);
    if inner.len() == wanted.len() && forall|k: int| 0 <= k < wanted.len() ==> #[trigger] wanted[k] == b[m.key_start + 1 + k] {
        assert forall|k: int| 0 <= k < inner.len() implies inner[k] == wanted[k] by {
            assert(wanted[k] == b[m.key_start + 1 + k]);
        }
        assert(inner =~= wanted);
    }
    if key_is(b, m, key) {
        assert forall|k: int| 0 <= k < wanted.len() implies #[trigger] wanted[k] == b[m.key_start + 1 + k] by {
            assert(inner[k] == wanted[k]);
        }
    }
}

/// Whether a slot stands in bytes: a comma or an opening brace, a pair of braces, a quote
/// and a colon.
pub open spec fn is_slot(b: Seq<u8>, i: int) -> bool {
    &&& 0 <= i
    &&& i + 5 <= b.len()
    &&& b[i] == 44 || b[i] == 123
    &&& b[i + 1] == 123
    &&& b[i + 2] == 125
    &&& b[i + 3] == 34
    &&& b[i + 4] == 58
}

proof fn lemma_slots(b: Seq<u8>, from: int, at: int)
    requires
        0 <= from,
    ensures
        slots_from(b, from).contains(at) <==> from <= at && is_slot(b, at),
        forall|j: int, k: int|
            0 <= j < k < slots_from(b, from).len() ==> #[trigger] slots_from(b, from)[j] < #[trigger] slots_from(b, from)[k],
        forall|j: int| 0 <= j < slots_from(b, from).len() ==> from <= #[trigger] slots_from(b, from)[j],
    decreases b.len() - from,
{
    if from < b.len() {
        lemma_slots(b, from + 1, at);
        let rest = slots_from(b, from + 1);
        let all = slots_from(b, from);
        if is_slot(b, from) {
            assert(all == seq![from] + rest);
            assert(all[0] == from);
            assert forall|j: int, k: int| 0 <= j < k < all.len() implies #[trigger] all[j] < #[trigger] all[k] by {
                assert(all[k] == rest[k - 1]);
                if j > 0 {
                    assert(all[j] == rest[j - 1]);
                }
            }
            assert forall|j: int| 0 <= j < all.len() implies from <= #[trigger] all[j] by {
                if j > 0 {
                    assert(all[j] == rest[j - 1]);
                }
            }
            if rest.contains(at) {
                let j = choose|j: int| 0 <= j < rest.len() && rest[j] == at;
                assert(all[j + 1] == at);
            }
            if all.contains(at) && at != from {
                let j = choose|j: int| 0 <= j < all.len() && all[j] == at;
                assert(rest[j - 1] == at);
            }
        }
    } else {
        assert(!is_slot(b, at) || at < from);
    }
}

/// Every slot of a text is found, and nothing else is, from left to right.
pub proof fn law_every_slot_is_found(text: Seq<char>, at: int)
    ensures
        slot_starts(text).contains(at) <==> is_slot(encode_utf8(text), at),
        forall|j: int, k: int|
            0 <= j < k < slot_starts(text).len() ==> #[trigger] slot_starts(text)[j] < #[trigger] slot_starts(text)[k],
{
    lemma_slots(encode_utf8(text), 0, at);
}

/// The fix for slots is for every response in which a call holds one, in a message or a
/// delta, where the request has tools.
pub proof fn law_a_slot_is_seen(
    fix: ToolcallMalformedArgumentsFix,
    response: JsonView,
    request: JsonView,
    i: int,
    side: Seq<char>,
    j: int,
    call: JsonView,
    function: JsonView,
    args: Seq<char>,
    at: int,
)
    requires
        side == "message"@ || side == "delta"@,
        stands_in(response, i, side, j, call),
        call.get("function"@) == Some(function),
        function.get("arguments"@) == Some(JsonView::Str(args)),
        is_slot(encode_utf8(args), at),
    ensures
        fix.applies_view(response),
        request.get("tools"@) is Some ==> fix.applies_in_context(response, request),
        request.get("tools"@) is None ==> !fix.applies_in_context(response, request),
{
    law_every_slot_is_found(args, at);
    lemma_stands_in(response, i, side, j, call);
    let t = slot_fn();
    let choices = choices_of(response)->0;
    let calls = side_calls(choices[i], side)->0;
    assert(t(calls[j]));
    assert(side_triggers(t, choices[i], side));
    assert(choice_triggers(t, choices[i], Sides::Both));
}

/// What is said where slots are not filled: that no parameter is missing, that more are
/// missing than there are slots, or else how many slots and missing parameters there are.
pub proof fn law_why_slots_are_not_filled(args: Seq<char>, schema: Seq<Seq<char>>)
    requires
        slot_starts(args).len() > 0,
    ensures
        ({
            let slots = slot_starts(args).len();
            let missing = candidates(args, schema).len();
            let outcome = filled(args, Some(schema));
            &&& missing == 0 ==> outcome == Err::<Option<Seq<char>>, ErrorView>(ErrorView::Rebuild("no candidate keys"@))
            &&& missing > slots ==> outcome == Err::<Option<Seq<char>>, ErrorView>(
                ErrorView::Rebuild("ambiguous: "@ + decimal(missing) + " candidates for "@ + decimal(slots) + " slots"@),
            )
            &&& 0 < missing < slots || (0 < missing && missing == slots && parsed(spliced(args, candidates(args, schema))) is Err)
                ==> outcome == Err::<Option<Seq<char>>, ErrorView>(
                ErrorView::Rebuild(
                    "fill invalid: "@ + decimal(slots) + " slots, "@ + decimal(missing) + if missing == 1 {
                        " candidate"@
                    } else {
                        " candidates"@
                    },
                ),
            )
        }),
{
}

/// In place of a slot stands, while arguments are read, a key that begins with an escaped
/// zero character: no name of a parameter does.
pub proof fn law_the_stand_in_is_no_name(text: Seq<char>)
    ensures
        sentinel().len() > 6,
        sentinel()[0] == '\\' && sentinel()[1] == 'u' && sentinel()[2] == '0' && sentinel()[3] == '0' && sentinel()[4] == '0'
            && sentinel()[5] == '0',
        masked(text) == spliced(text, Seq::new(slot_starts(text).len(), |i: int| sentinel())),
{
    reveal_strlit("\\u0000llama-proxy-slot");
}

} // verus!
