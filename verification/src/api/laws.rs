//! What the conversions between the two APIs keep, block by block.

use vstd::prelude::*;
use vstd::string::*;
use crate::api::openai::{
    block_views, call_views, calls_of, content_texts, first_signature, lines_or_none, opt_call_views,
    reasoning_texts, says_it_back, says_the_same, uses_of, AnthropicMessage, BlockView,
    ChatCompletionResponse, ResponseMessage, ToolCallView,
};
use crate::augment::block_texts;
use crate::json::{parsed, printed, JsonView};
use crate::text::{law_join_of_one_more, opt_text};

verus! {

broadcast use vstd::string::group_string_axioms;

/// The first blocks decide alone what they contribute.
proof fn lemma_first_blocks(a: Seq<BlockView>, b: Seq<BlockView>, n: nat)
    requires
        n <= a.len(),
        n <= b.len(),
        forall|i: int| 0 <= i < n ==> a[i] == b[i],
    ensures
        content_texts(a, n) == content_texts(b, n),
        reasoning_texts(a, n) == reasoning_texts(b, n),
        first_signature(a, n) == first_signature(b, n),
        calls_of(a, n) == calls_of(b, n),
    decreases n,
{
    if n > 0 {
        lemma_first_blocks(a, b, (n - 1) as nat);
    }
}

/// A message without blocks says nothing.
pub proof fn law_no_blocks_say_nothing(msg: AnthropicMessage, r: ChatCompletionResponse)
    requires
        says_the_same(msg, r),
        msg.content@.len() == 0,
    ensures
        r.choices@[0].message->0.content is None,
        r.choices@[0].message->0.reasoning_text is None,
        r.choices@[0].message->0.reasoning_opaque is None,
        r.choices@[0].message->0.tool_calls is None,
{
}

/// One more text block is one more line of content, and nothing else.
pub proof fn law_a_text_block_is_a_line_of_content(
    msg: AnthropicMessage,
    r: ChatCompletionResponse,
    longer: AnthropicMessage,
    longer_r: ChatCompletionResponse,
    text: Seq<char>,
)
    requires
        says_the_same(msg, r),
        says_the_same(longer, longer_r),
        block_views(longer.content@) == block_views(msg.content@).push(BlockView::Text(text)),
    ensures
        opt_text(longer_r.choices@[0].message->0.content) == match opt_text(r.choices@[0].message->0.content) {
            None => Some(text),
            Some(lines) => Some(lines + "\n"@ + text),
        },
        opt_text(longer_r.choices@[0].message->0.reasoning_text) == opt_text(r.choices@[0].message->0.reasoning_text),
        opt_text(longer_r.choices@[0].message->0.reasoning_opaque) == opt_text(r.choices@[0].message->0.reasoning_opaque),
        opt_call_views(longer_r.choices@[0].message->0.tool_calls) == opt_call_views(r.choices@[0].message->0.tool_calls),
{
    let a = block_views(msg.content@);
    let b = block_views(longer.content@);
    lemma_first_blocks(a, b, a.len());
    law_join_of_one_more(content_texts(a, a.len()), text, "\n"@);
}

/// One more thinking block is one more line of reasoning. The first signature
/// stays.
pub proof fn law_a_thinking_block_is_a_line_of_reasoning(
    msg: AnthropicMessage,
    r: ChatCompletionResponse,
    longer: AnthropicMessage,
    longer_r: ChatCompletionResponse,
    text: Seq<char>,
    signature: Option<Seq<char>>,
)
    requires
        says_the_same(msg, r),
        says_the_same(longer, longer_r),
        block_views(longer.content@) == block_views(msg.content@).push(BlockView::Thinking(text, signature)),
    ensures
        opt_text(longer_r.choices@[0].message->0.content) == opt_text(r.choices@[0].message->0.content),
        opt_text(longer_r.choices@[0].message->0.reasoning_text) == match opt_text(
            r.choices@[0].message->0.reasoning_text,
        ) {
            None => Some(text),
            Some(lines) => Some(lines + "\n"@ + text),
        },
        r.choices@[0].message->0.reasoning_opaque is Some ==> opt_text(longer_r.choices@[0].message->0.reasoning_opaque)
            == opt_text(r.choices@[0].message->0.reasoning_opaque),
        r.choices@[0].message->0.reasoning_opaque is None ==> opt_text(longer_r.choices@[0].message->0.reasoning_opaque)
            == signature,
        opt_call_views(longer_r.choices@[0].message->0.tool_calls) == opt_call_views(r.choices@[0].message->0.tool_calls),
{
    let a = block_views(msg.content@);
    let b = block_views(longer.content@);
    lemma_first_blocks(a, b, a.len());
    law_join_of_one_more(reasoning_texts(a, a.len()), text, "\n"@);
}

/// One more tool use is one more tool call at the end, with the same id and name
/// and the text of the input as its arguments.
pub proof fn law_a_tool_use_is_a_tool_call(
    msg: AnthropicMessage,
    r: ChatCompletionResponse,
    longer: AnthropicMessage,
    longer_r: ChatCompletionResponse,
    id: Seq<char>,
    name: Seq<char>,
    input: JsonView,
)
    requires
        says_the_same(msg, r),
        says_the_same(longer, longer_r),
        block_views(longer.content@) == block_views(msg.content@).push(BlockView::ToolUse { id, name, input }),
    ensures
        opt_text(longer_r.choices@[0].message->0.content) == opt_text(r.choices@[0].message->0.content),
        opt_text(longer_r.choices@[0].message->0.reasoning_text) == opt_text(r.choices@[0].message->0.reasoning_text),
        opt_text(longer_r.choices@[0].message->0.reasoning_opaque) == opt_text(r.choices@[0].message->0.reasoning_opaque),
        longer_r.choices@[0].message->0.tool_calls is Some,
        ({
            let before = match opt_call_views(r.choices@[0].message->0.tool_calls) {
                Some(calls) => calls,
                None => Seq::empty(),
            };
            let after = call_views(longer_r.choices@[0].message->0.tool_calls->0@);
            &&& after.len() == before.len() + 1
            &&& after.drop_last() == before
            &&& after.last().id == Some(id)
            &&& after.last().call_type == Some("function"@)
            &&& before.len() <= u32::MAX ==> after.last().index == Some(before.len() as u32)
            &&& after.last().name == name
            &&& after.last().arguments == printed(input)
        }),
{
    let a = block_views(msg.content@);
    let b = block_views(longer.content@);
    lemma_first_blocks(a, b, a.len());
    let before = calls_of(a, a.len());
    let after = calls_of(b, b.len());
    assert(after.drop_last() =~= before);
    assert(opt_call_views(longer_r.choices@[0].message->0.tool_calls) == Some(after));
}

/// One more tool result whose content is a text is one more line of content, and
/// nothing else.
pub proof fn law_a_tool_result_is_a_line_of_content(
    msg: AnthropicMessage,
    r: ChatCompletionResponse,
    longer: AnthropicMessage,
    longer_r: ChatCompletionResponse,
    tool_use_id: Seq<char>,
    content: JsonView,
    is_error: Option<bool>,
)
    requires
        says_the_same(msg, r),
        says_the_same(longer, longer_r),
        block_views(longer.content@) == block_views(msg.content@).push(
            BlockView::ToolResult { tool_use_id, content, is_error },
        ),
    ensures
        match content {
            JsonView::Str(text) => opt_text(longer_r.choices@[0].message->0.content) == match opt_text(
                r.choices@[0].message->0.content,
            ) {
                None => Some(text),
                Some(lines) => Some(lines + "\n"@ + text),
            },
            JsonView::Array(parts) => opt_text(longer_r.choices@[0].message->0.content) == match (
                opt_text(r.choices@[0].message->0.content),
                lines_or_none(block_texts(parts, parts.len())),
            ) {
                (lines, None) => lines,
                (None, Some(text)) => Some(text),
                (Some(lines), Some(text)) => Some(lines + "\n"@ + text),
            },
            _ => opt_text(longer_r.choices@[0].message->0.content) == opt_text(r.choices@[0].message->0.content),
        },
        opt_text(longer_r.choices@[0].message->0.reasoning_text) == opt_text(r.choices@[0].message->0.reasoning_text),
        opt_text(longer_r.choices@[0].message->0.reasoning_opaque) == opt_text(r.choices@[0].message->0.reasoning_opaque),
        opt_call_views(longer_r.choices@[0].message->0.tool_calls) == opt_call_views(r.choices@[0].message->0.tool_calls),
{
    let a = block_views(msg.content@);
    let b = block_views(longer.content@);
    lemma_first_blocks(a, b, a.len());
    match content {
        JsonView::Str(text) => {
            law_join_of_one_more(content_texts(a, a.len()), text, "\n"@);
        },
        JsonView::Array(parts) => {
            if let Some(text) = lines_or_none(block_texts(parts, parts.len())) {
                law_join_of_one_more(content_texts(a, a.len()), text, "\n"@);
            }
        },
        _ => {},
    }
}

/// A block of another shape contributes nothing.
pub proof fn law_other_blocks_contribute_nothing(
    msg: AnthropicMessage,
    r: ChatCompletionResponse,
    longer: AnthropicMessage,
    longer_r: ChatCompletionResponse,
    value: JsonView,
)
    requires
        says_the_same(msg, r),
        says_the_same(longer, longer_r),
        block_views(longer.content@) == block_views(msg.content@).push(BlockView::Other(value)),
    ensures
        opt_text(longer_r.choices@[0].message->0.content) == opt_text(r.choices@[0].message->0.content),
        opt_text(longer_r.choices@[0].message->0.reasoning_text) == opt_text(r.choices@[0].message->0.reasoning_text),
        opt_text(longer_r.choices@[0].message->0.reasoning_opaque) == opt_text(r.choices@[0].message->0.reasoning_opaque),
        opt_call_views(longer_r.choices@[0].message->0.tool_calls) == opt_call_views(r.choices@[0].message->0.tool_calls),
{
    let a = block_views(msg.content@);
    lemma_first_blocks(a, block_views(longer.content@), a.len());
}

/// A chat completion carries the id, the model and the role of the message, its
/// token counts and their sum, and one choice.
pub proof fn law_chat_completion_keeps_the_envelope(msg: AnthropicMessage, r: ChatCompletionResponse)
    requires
        says_the_same(msg, r),
        msg.usage.input_tokens + msg.usage.output_tokens <= u64::MAX,
    ensures
        r.id@ == msg.id@,
        r.model@ == msg.model@,
        r.object@ == "chat.completion"@,
        r.created == 0,
        r.timings is None,
        r.choices@.len() == 1,
        r.choices@[0].index == 0,
        r.choices@[0].delta is None,
        r.choices@[0].message is Some,
        r.choices@[0].message->0.role@ == msg.role@,
        r.usage is Some,
        r.usage->0.prompt_tokens == msg.usage.input_tokens,
        r.usage->0.completion_tokens == msg.usage.output_tokens,
        r.usage->0.total_tokens == msg.usage.input_tokens + msg.usage.output_tokens,
        r.usage->0.completion_tokens_details is None,
        r.choices@[0].finish_reason is Some <==> msg.stop_reason is Some,
{
}

/// How the reasons of the messages API read in the chat completion API.
pub proof fn law_finish_reasons(msg: AnthropicMessage, r: ChatCompletionResponse, reason: Seq<char>)
    requires
        says_the_same(msg, r),
        opt_text(msg.stop_reason) == Some(reason),
    ensures
        reason == "end_turn"@ || reason == "stop_sequence"@ ==> opt_text(r.choices@[0].finish_reason) == Some("stop"@),
        reason == "max_tokens"@ ==> opt_text(r.choices@[0].finish_reason) == Some("length"@),
        reason == "tool_use"@ ==> opt_text(r.choices@[0].finish_reason) == Some("tool_calls"@),
        reason != "end_turn"@ && reason != "stop_sequence"@ && reason != "max_tokens"@ && reason != "tool_use"@
            ==> opt_text(r.choices@[0].finish_reason) == Some(reason),
{
    reveal_strlit("end_turn");
    reveal_strlit("stop_sequence");
    reveal_strlit("max_tokens");
    reveal_strlit("tool_use");
    assert("end_turn"@.len() == 8 && "stop_sequence"@.len() == 13 && "max_tokens"@.len() == 10 && "tool_use"@.len() == 8);
    assert("end_turn"@[0] == 'e' && "tool_use"@[0] == 't');
}

/// How the reasons of the chat completion API read in the messages API.
pub proof fn law_stop_reasons(r: ChatCompletionResponse, ids: Seq<Seq<char>>, msg: AnthropicMessage, reason: Seq<char>)
    requires
        says_it_back(r, ids, msg),
        r.choices@.len() > 0,
        opt_text(r.choices@[0].finish_reason) == Some(reason),
    ensures
        reason == "stop"@ ==> opt_text(msg.stop_reason) == Some("end_turn"@),
        reason == "length"@ ==> opt_text(msg.stop_reason) == Some("max_tokens"@),
        reason == "tool_calls"@ ==> opt_text(msg.stop_reason) == Some("tool_use"@),
        reason != "stop"@ && reason != "length"@ && reason != "tool_calls"@ ==> opt_text(msg.stop_reason) == Some(reason),
{
    reveal_strlit("stop");
    reveal_strlit("length");
    reveal_strlit("tool_calls");
    assert("stop"@.len() == 4 && "length"@.len() == 6 && "tool_calls"@.len() == 10);
}

/// A message keeps the id and the model of the chat completion, and its token
/// counts, which are 0 where it has none. A message is an assistant's.
pub proof fn law_message_keeps_the_envelope(r: ChatCompletionResponse, ids: Seq<Seq<char>>, msg: AnthropicMessage)
    requires
        says_it_back(r, ids, msg),
    ensures
        msg.id@ == r.id@,
        msg.model@ == r.model@,
        msg.message_type@ == "message"@,
        msg.role@ == "assistant"@,
        msg.stop_sequence is None,
        r.usage is Some ==> msg.usage.input_tokens == r.usage->0.prompt_tokens && msg.usage.output_tokens
            == r.usage->0.completion_tokens,
        r.usage is None ==> msg.usage.input_tokens == 0 && msg.usage.output_tokens == 0,
        r.choices@.len() == 0 || r.choices@[0].finish_reason is None ==> msg.stop_reason is None,
{
}

/// The tool use of each call stands at its place.
proof fn lemma_use_at(calls: Seq<ToolCallView>, ids: Seq<Seq<char>>, n: nat)
    requires
        n <= calls.len(),
    ensures
        uses_of(calls, ids, n).len() == n,
        forall|k: int|
            0 <= k < n ==> (#[trigger] uses_of(calls, ids, n)[k]) == (BlockView::ToolUse {
                id: if calls[k].id is Some {
                    calls[k].id->0
                } else {
                    ids[k]
                },
                name: calls[k].name,
                input: match parsed(calls[k].arguments) {
                    Ok(v) => v,
                    Err(_) => JsonView::Object(Seq::empty()),
                },
            }),
    decreases n,
{
    if n > 0 {
        lemma_use_at(calls, ids, (n - 1) as nat);
    }
}

/// Content that is not empty becomes exactly one text block, which holds it
/// whole. It stands behind all reasoning and before every tool use, whether or
/// not there are any.
pub proof fn law_content_is_one_text_block(
    r: ChatCompletionResponse,
    ids: Seq<Seq<char>>,
    msg: AnthropicMessage,
    m: ResponseMessage,
    text: Seq<char>,
) -> (at: int)
    requires
        says_it_back(r, ids, msg),
        r.choices@.len() > 0,
        r.choices@[0].message == Some(m),
        opt_text(m.content) == Some(text),
        text.len() > 0,
    ensures
        0 <= at < msg.content@.len(),
        msg.content@[at]@ == BlockView::Text(text),
        forall|j: int|
            0 <= j < msg.content@.len() && j != at ==> !((#[trigger] msg.content@[j])@ is Text),
        forall|j: int| 0 <= j < msg.content@.len() && (#[trigger] msg.content@[j])@ is ToolUse ==> at < j,
        forall|j: int| 0 <= j < msg.content@.len() && (#[trigger] msg.content@[j])@ is Thinking ==> j < at,
{
    let blocks = block_views(msg.content@);
    let at: int = if m.reasoning_text is Some {
        1
    } else {
        0
    };
    if let Some(calls) = opt_call_views(m.tool_calls) {
        lemma_use_at(calls, ids, calls.len());
    }
    assert(blocks[at] == BlockView::Text(text));
    assert forall|j: int| 0 <= j < msg.content@.len() implies (#[trigger] msg.content@[j])@ == blocks[j] by {}
    assert forall|j: int| at < j < blocks.len() implies (#[trigger] blocks[j]) is ToolUse by {}
    assert forall|j: int| 0 <= j < msg.content@.len() && j != at implies !((#[trigger] msg.content@[j])@ is Text) by {
        if at < j {
            assert(blocks[j] is ToolUse);
        }
    }
    assert forall|j: int| 0 <= j < msg.content@.len() && (#[trigger] msg.content@[j])@ is Thinking implies j < at by {
        if at < j {
            assert(blocks[j] is ToolUse);
        }
    }
    at
}

/// Reasoning becomes the first block, without a signature, and is the only
/// thinking block. Without reasoning there is none.
pub proof fn law_reasoning_is_the_first_block(
    r: ChatCompletionResponse,
    ids: Seq<Seq<char>>,
    msg: AnthropicMessage,
    m: ResponseMessage,
)
    requires
        says_it_back(r, ids, msg),
        r.choices@.len() > 0,
        r.choices@[0].message == Some(m),
    ensures
        m.reasoning_text is Some ==> msg.content@[0]@ == BlockView::Thinking(m.reasoning_text->0@, None),
        forall|j: int| 0 <= j < msg.content@.len() && (#[trigger] msg.content@[j])@ is Thinking ==> j == 0,
        m.reasoning_text is None ==> !(msg.content@[0]@ is Thinking),
{
    let blocks = block_views(msg.content@);
    if let Some(calls) = opt_call_views(m.tool_calls) {
        lemma_use_at(calls, ids, calls.len());
    }
    assert(msg.content@[0]@ == blocks[0]);
    assert forall|j: int| 0 <= j < msg.content@.len() && (#[trigger] msg.content@[j])@ is Thinking implies j == 0 by {
        assert(msg.content@[j]@ == blocks[j]);
    }
}

/// The `k`th tool call becomes the `k`th of the tool uses, which are the last
/// blocks: with its id, or the one at hand where it has none, its name, and its
/// arguments as a value, or no members where they are no JSON.
pub proof fn law_each_call_is_a_tool_use(
    r: ChatCompletionResponse,
    ids: Seq<Seq<char>>,
    msg: AnthropicMessage,
    m: ResponseMessage,
    k: int,
)
    requires
        says_it_back(r, ids, msg),
        r.choices@.len() > 0,
        r.choices@[0].message == Some(m),
        m.tool_calls is Some,
        0 <= k < m.tool_calls->0@.len(),
    ensures
        m.tool_calls->0@.len() <= msg.content@.len(),
        ({
            let call = m.tool_calls->0@[k];
            let block = msg.content@[msg.content@.len() - m.tool_calls->0@.len() + k]@;
            &&& block is ToolUse
            &&& block->id == if call.id is Some {
                call.id->0@
            } else {
                ids[k]
            }
            &&& block->name == call.function.name@
            &&& parsed(call.function.arguments@) is Ok ==> block->input == parsed(call.function.arguments@)->Ok_0
            &&& parsed(call.function.arguments@) is Err ==> block->input == JsonView::Object(Seq::empty())
        }),
{
    let blocks = block_views(msg.content@);
    let calls = call_views(m.tool_calls->0@);
    lemma_use_at(calls, ids, calls.len());
    let at = blocks.len() - calls.len() + k;
    assert(msg.content@[at]@ == blocks[at]);
    assert(calls[k] == m.tool_calls->0@[k]@);
    assert(blocks[at] == uses_of(calls, ids, calls.len())[k]);
}

/// A message has one block for its reasoning, one for its content and one for
/// each tool call. Where it has none of them, it is one empty text.
pub proof fn law_message_has_no_other_blocks(
    r: ChatCompletionResponse,
    ids: Seq<Seq<char>>,
    msg: AnthropicMessage,
    m: ResponseMessage,
)
    requires
        says_it_back(r, ids, msg),
        r.choices@.len() > 0,
        r.choices@[0].message == Some(m),
    ensures
        ({
            let reasoning: int = if m.reasoning_text is Some {
                1
            } else {
                0
            };
            let content: int = if m.content is Some && m.content->0@.len() > 0 {
                1
            } else {
                0
            };
            let calls: int = if m.tool_calls is Some {
                m.tool_calls->0@.len() as int
            } else {
                0
            };
            let said = reasoning + content + calls;
            &&& said > 0 ==> msg.content@.len() == said
            &&& said == 0 ==> msg.content@.len() == 1 && msg.content@[0]@ == BlockView::Text(Seq::empty())
        }),
{
    let blocks = block_views(msg.content@);
    if let Some(calls) = opt_call_views(m.tool_calls) {
        lemma_use_at(calls, ids, calls.len());
    }
    assert(blocks.len() == msg.content@.len());
    assert(msg.content@.len() > 0 ==> msg.content@[0]@ == blocks[0]);
}

/// A chat completion without a message is one empty text.
pub proof fn law_no_message_is_an_empty_text(r: ChatCompletionResponse, ids: Seq<Seq<char>>, msg: AnthropicMessage)
    requires
        says_it_back(r, ids, msg),
        r.choices@.len() == 0 || r.choices@[0].message is None,
    ensures
        msg.content@.len() == 1,
        msg.content@[0]@ == BlockView::Text(Seq::empty()),
{
    let blocks = block_views(msg.content@);
    assert(blocks.len() == msg.content@.len());
    assert(msg.content@[0]@ == blocks[0]);
}

proof fn lemma_one_text(blocks: Seq<BlockView>, at: int, text: Seq<char>, n: nat)
    requires
        n <= blocks.len(),
        0 <= at < blocks.len(),
        blocks[at] == BlockView::Text(text),
        forall|j: int|
            0 <= j < blocks.len() && j != at ==> !((#[trigger] blocks[j]) is Text) && !(blocks[j] is ToolResult),
    ensures
        n <= at ==> content_texts(blocks, n) == Seq::<Seq<char>>::empty(),
        n > at ==> content_texts(blocks, n) == seq![text],
    decreases n,
{
    if n > 0 {
        lemma_one_text(blocks, at, text, (n - 1) as nat);
        if n - 1 == at {
            assert(content_texts(blocks, n) =~= seq![text]);
        }
    }
}

/// The text of a message survives the way to the chat completion API and back,
/// with tool uses or without: it is the one text block of what comes back, before
/// every tool use.
pub proof fn law_text_survives_the_round_trip(
    msg: AnthropicMessage,
    r: ChatCompletionResponse,
    ids: Seq<Seq<char>>,
    back: AnthropicMessage,
    at: int,
    text: Seq<char>,
) -> (place: int)
    requires
        says_the_same(msg, r),
        says_it_back(r, ids, back),
        0 <= at < msg.content@.len(),
        msg.content@[at]@ == BlockView::Text(text),
        text.len() > 0,
        forall|j: int|
            0 <= j < msg.content@.len() && j != at ==> !((#[trigger] msg.content@[j])@ is Text) && !(msg.content@[j]@ is
            ToolResult),
    ensures
        0 <= place < back.content@.len(),
        back.content@[place]@ == BlockView::Text(text),
        forall|j: int|
            0 <= j < back.content@.len() && j != place ==> !((#[trigger] back.content@[j])@ is Text),
        forall|j: int| 0 <= j < back.content@.len() && (#[trigger] back.content@[j])@ is ToolUse ==> place < j,
{
    let blocks = block_views(msg.content@);
    assert(blocks[at] == BlockView::Text(text));
    assert forall|j: int| 0 <= j < blocks.len() && j != at implies !((#[trigger] blocks[j]) is Text) && !(blocks[j] is
    ToolResult) by {
        assert(blocks[j] == msg.content@[j]@);
    }
    lemma_one_text(blocks, at, text, blocks.len());
    law_content_is_one_text_block(r, ids, back, r.choices@[0].message->0, text)
}

/// Content and reasoning survive the way to the messages API and back.
pub proof fn law_content_survives_the_way_back(
    r: ChatCompletionResponse,
    ids: Seq<Seq<char>>,
    msg: AnthropicMessage,
    again: ChatCompletionResponse,
    m: ResponseMessage,
)
    requires
        says_it_back(r, ids, msg),
        says_the_same(msg, again),
        r.choices@.len() > 0,
        r.choices@[0].message == Some(m),
    ensures
        m.content is Some && m.content->0@.len() > 0 ==> opt_text(again.choices@[0].message->0.content) == opt_text(
            m.content,
        ),
        opt_text(again.choices@[0].message->0.reasoning_text) == opt_text(m.reasoning_text),
{
    let blocks = block_views(msg.content@);
    let n = blocks.len();
    if let Some(calls) = opt_call_views(m.tool_calls) {
        lemma_use_at(calls, ids, calls.len());
    }
    assert forall|j: int| 1 <= j < n implies !((#[trigger] blocks[j]) is Thinking) by {}
    lemma_reasoning_in_front(blocks, n);
    if m.content is Some && m.content->0@.len() > 0 {
        let at: int = if m.reasoning_text is Some {
            1
        } else {
            0
        };
        assert(blocks[at] == BlockView::Text(m.content->0@));
        lemma_one_text(blocks, at, m.content->0@, n);
    }
}

proof fn lemma_reasoning_in_front(blocks: Seq<BlockView>, n: nat)
    requires
        0 < n <= blocks.len(),
        forall|j: int| 1 <= j < blocks.len() ==> !((#[trigger] blocks[j]) is Thinking),
    ensures
        blocks[0] is Thinking ==> reasoning_texts(blocks, n) == seq![blocks[0]->Thinking_0],
        !(blocks[0] is Thinking) ==> reasoning_texts(blocks, n) == Seq::<Seq<char>>::empty(),
    decreases n,
{
    if n > 1 {
        lemma_reasoning_in_front(blocks, (n - 1) as nat);
    } else {
        reveal_with_fuel(reasoning_texts, 2);
        if blocks[0] is Thinking {
            assert(reasoning_texts(blocks, n) =~= seq![blocks[0]->Thinking_0]);
        }
    }
}

} // verus!
