//! What blocks, messages and tools are read from, member by member.

use vstd::prelude::*;
use vstd::string::*;
use crate::api::blocks::{block_of, wire_of};
use crate::api::openai::{arguments_text, BlockView, ToolCallView};
use crate::api::requests::{
    call_of, calls_of, choice_of, message_of, messages_of, part_of, parts_of, strings_of, tool_of, tools_of,
    ContentPartView, ContentView, MessageView, ToolChoiceView, ToolView,
};
use crate::json::{position_from, printed, JsonView};

verus! {

broadcast use vstd::string::group_string_axioms;

/// Whether a member is missing or null.
pub open spec fn says_nothing(v: JsonView, key: Seq<char>) -> bool {
    v.get(key) is None || v.get(key) == Some(JsonView::Null)
}

/// Whether a member is this text, or missing or null where there is none.
pub open spec fn is_member_text(v: JsonView, key: Seq<char>, text: Option<Seq<char>>) -> bool {
    match text {
        Some(t) => v.get(key) == Some(JsonView::Str(t)),
        None => says_nothing(v, key),
    }
}

proof fn lemma_tags()
    ensures
        "text"@ != "thinking"@,
        "text"@ != "tool_use"@,
        "text"@ != "tool_result"@,
        "thinking"@ != "tool_use"@,
        "thinking"@ != "tool_result"@,
        "tool_use"@ != "tool_result"@,
{
    reveal_strlit("text");
    reveal_strlit("thinking");
    reveal_strlit("tool_use");
    reveal_strlit("tool_result");
    assert("text"@.len() == 4 && "thinking"@.len() == 8 && "tool_use"@.len() == 8 && "tool_result"@.len() == 11);
    assert("thinking"@[1] == 'h' && "tool_use"@[1] == 'o');
}

/// Which members make an object a block of which kind. An object of any other kind is
/// kept whole.
pub proof fn law_objects_are_read_as_blocks(raw: JsonView, block: BlockView)
    requires
        raw is Object,
    ensures
        match block {
            BlockView::Text(text) => raw.get("type"@) == Some(JsonView::Str("text"@)) && raw.get("text"@) == Some(
                JsonView::Str(text),
            ) <==> block_of(raw) == block,
            BlockView::Thinking(text, signature) => raw.get("type"@) == Some(JsonView::Str("thinking"@)) && raw.get(
                "thinking"@,
            ) == Some(JsonView::Str(text)) && is_member_text(raw, "signature"@, signature) <==> block_of(raw) == block,
            BlockView::ToolUse { id, name, input } => raw.get("type"@) == Some(JsonView::Str("tool_use"@)) && raw.get("id"@)
                == Some(JsonView::Str(id)) && raw.get("name"@) == Some(JsonView::Str(name)) && raw.get("input"@) == Some(input)
                <==> block_of(raw) == block,
            BlockView::ToolResult { tool_use_id, content, is_error } => raw.get("type"@) == Some(
                JsonView::Str("tool_result"@),
            ) && raw.get("tool_use_id"@) == Some(JsonView::Str(tool_use_id)) && raw.get("content"@) == Some(content) && (
            match is_error {
                Some(b) => raw.get("is_error"@) == Some(JsonView::Bool(b)),
                None => says_nothing(raw, "is_error"@),
            }) <==> block_of(raw) == block,
            BlockView::Other(whole) => block_of(raw) == block ==> whole == raw,
        },
        raw.get("type"@) != Some(JsonView::Str("text"@)) && raw.get("type"@) != Some(JsonView::Str("thinking"@)) && raw.get(
            "type"@,
        ) != Some(JsonView::Str("tool_use"@)) && raw.get("type"@) != Some(JsonView::Str("tool_result"@)) ==> block_of(raw)
            == BlockView::Other(raw),
{
    lemma_tags();
}

/// Which members stand for a block.
pub proof fn law_blocks_are_written_by_member(block: BlockView)
    ensures
        match block {
            BlockView::Text(text) => {
                &&& wire_of(block).get("type"@) == Some(JsonView::Str("text"@))
                &&& wire_of(block).get("text"@) == Some(JsonView::Str(text))
            },
            BlockView::Thinking(text, signature) => {
                &&& wire_of(block).get("type"@) == Some(JsonView::Str("thinking"@))
                &&& wire_of(block).get("thinking"@) == Some(JsonView::Str(text))
                &&& is_member_text(wire_of(block), "signature"@, signature)
            },
            BlockView::ToolUse { id, name, input } => {
                &&& wire_of(block).get("type"@) == Some(JsonView::Str("tool_use"@))
                &&& wire_of(block).get("id"@) == Some(JsonView::Str(id))
                &&& wire_of(block).get("name"@) == Some(JsonView::Str(name))
                &&& wire_of(block).get("input"@) == Some(input)
            },
            BlockView::ToolResult { tool_use_id, content, is_error } => {
                &&& wire_of(block).get("type"@) == Some(JsonView::Str("tool_result"@))
                &&& wire_of(block).get("tool_use_id"@) == Some(JsonView::Str(tool_use_id))
                &&& wire_of(block).get("content"@) == Some(content)
                &&& wire_of(block).get("is_error"@) == Some(
                    match is_error {
                        Some(b) => JsonView::Bool(b),
                        None => JsonView::Null,
                    },
                )
            },
            BlockView::Other(raw) => wire_of(block) == raw,
        },
{
    reveal_with_fuel(position_from, 5);
    reveal_strlit("type");
    reveal_strlit("text");
    reveal_strlit("thinking");
    reveal_strlit("signature");
    reveal_strlit("id");
    reveal_strlit("name");
    reveal_strlit("input");
    reveal_strlit("tool_use_id");
    reveal_strlit("content");
    reveal_strlit("is_error");
    assert("type"@.len() == 4 && "text"@.len() == 4 && "name"@.len() == 4 && "type"@[1] == 'y' && "text"@[1] == 'e'
        && "name"@[1] == 'a');
    assert("thinking"@.len() == 8 && "signature"@.len() == 9 && "id"@.len() == 2 && "input"@.len() == 5);
    assert("tool_use_id"@.len() == 11 && "content"@.len() == 7 && "is_error"@.len() == 8);
}

/// The arguments of a call are a text as it is, no arguments where they are null, and
/// any other value as it is printed.
pub proof fn law_arguments_as_text(value: JsonView)
    ensures
        value is Str ==> arguments_text(value) == value->Str_0,
        value is Null ==> arguments_text(value) == "{}"@,
        !(value is Str) && !(value is Null) ==> arguments_text(value) == printed(value),
{
}

/// What a tool call that is an object is read from.
pub proof fn law_calls_are_read_by_member(raw: JsonView, call: ToolCallView, function: JsonView)
    requires
        raw is Object,
        raw.get("function"@) == Some(function),
        function is Object,
    ensures
        call_of(raw) == Some(call) ==> {
            &&& is_member_text(raw, "id"@, call.id)
            &&& is_member_text(raw, "type"@, call.call_type)
            &&& match call.index {
                Some(n) => raw.get("index"@) == Some(JsonView::Unsigned(n as u64)),
                None => says_nothing(raw, "index"@),
            }
            &&& function.get("name"@) == Some(JsonView::Str(call.name))
            &&& match function.get("arguments"@) {
                Some(JsonView::Str(text)) => call.arguments == text,
                Some(JsonView::Null) => call.arguments == "{}"@,
                Some(other) => call.arguments == printed(other),
                None => call.arguments == "{}"@,
            }
        },
        function.get("name"@) is Some && function.get("name"@)->0 is Str && (says_nothing(raw, "id"@) || raw.get("id"@)->0 is
        Str) && (says_nothing(raw, "type"@) || raw.get("type"@)->0 is Str) && (says_nothing(raw, "index"@) || raw.get(
            "index"@,
        )->0 is Unsigned && raw.get("index"@)->0->Unsigned_0 <= u32::MAX) ==> call_of(raw) is Some,
{
}

/// What a part of a message that is an object is read from.
pub proof fn law_parts_are_read_by_member(raw: JsonView, part: ContentPartView)
    requires
        raw is Object,
    ensures
        part_of(raw) == Some(part) ==> {
            &&& raw.get("type"@) == Some(JsonView::Str(part.content_type))
            &&& is_member_text(raw, "text"@, part.text)
            &&& part.image_url is None <==> says_nothing(raw, "image_url"@)
            &&& part.image_url is Some && raw.get("image_url"@)->0 is Object ==> raw.get("image_url"@)->0.get("url"@) == Some(
                JsonView::Str(part.image_url->0.url),
            ) && is_member_text(raw.get("image_url"@)->0, "detail"@, part.image_url->0.detail)
        },
        raw.get("type"@) is Some && raw.get("type"@)->0 is Str && (says_nothing(raw, "text"@) || raw.get("text"@)->0 is Str)
            && says_nothing(raw, "image_url"@) ==> part_of(raw) is Some,
{
}

/// What a message that is an object is read from.
pub proof fn law_messages_are_read_by_member(raw: JsonView, message: MessageView)
    requires
        raw is Object,
    ensures
        message_of(raw) == Some(message) ==> {
            &&& raw.get("role"@) == Some(JsonView::Str(message.role))
            &&& is_member_text(raw, "name"@, message.name)
            &&& is_member_text(raw, "tool_call_id"@, message.tool_call_id)
            &&& match message.content {
                None => says_nothing(raw, "content"@),
                Some(ContentView::Text(text)) => raw.get("content"@) == Some(JsonView::Str(text)),
                Some(ContentView::Parts(parts)) => raw.get("content"@) is Some && raw.get("content"@)->0 is Array && parts_of(
                    raw.get("content"@)->0->Array_0,
                    raw.get("content"@)->0->Array_0.len(),
                ) == Some(parts),
            }
            &&& match message.tool_calls {
                None => says_nothing(raw, "tool_calls"@),
                Some(calls) => raw.get("tool_calls"@) is Some && raw.get("tool_calls"@)->0 is Array && calls_of(
                    raw.get("tool_calls"@)->0->Array_0,
                    raw.get("tool_calls"@)->0->Array_0.len(),
                ) == Some(calls),
            }
        },
        raw.get("role"@) is Some && raw.get("role"@)->0 is Str && (says_nothing(raw, "content"@) || raw.get("content"@)->0 is
        Str) && says_nothing(raw, "tool_calls"@) && (says_nothing(raw, "name"@) || raw.get("name"@)->0 is Str) && (
        says_nothing(raw, "tool_call_id"@) || raw.get("tool_call_id"@)->0 is Str) ==> message_of(raw) is Some,
{
}

/// What a tool that is an object is read from.
pub proof fn law_tools_are_read_by_member(raw: JsonView, function: JsonView, tool: ToolView)
    requires
        raw is Object,
        raw.get("function"@) == Some(function),
        function is Object,
    ensures
        tool_of(raw) == Some(tool) <==> {
            &&& raw.get("type"@) == Some(JsonView::Str(tool.tool_type))
            &&& function.get("name"@) == Some(JsonView::Str(tool.name))
            &&& is_member_text(function, "description"@, tool.description)
            &&& function.get("parameters"@) == Some(tool.parameters)
        },
{
}

/// What a choice of tools is read from: a word, or a kind and the name of a function.
pub proof fn law_choices_are_read_by_member(raw: JsonView, word: Seq<char>, kind: Seq<char>, function: JsonView, name: Seq<char>)
    ensures
        raw == JsonView::Str(word) ==> choice_of(raw) == Some(ToolChoiceView::Text(word)),
        raw is Object && raw.get("type"@) == Some(JsonView::Str(kind)) && says_nothing(raw, "function"@) ==> choice_of(raw)
            == Some(ToolChoiceView::Object { choice_type: kind, function: None }),
        raw is Object && raw.get("type"@) == Some(JsonView::Str(kind)) && raw.get("function"@) == Some(function) && function is
        Object && function.get("name"@) == Some(JsonView::Str(name)) ==> choice_of(raw) == Some(
            ToolChoiceView::Object { choice_type: kind, function: Some(name) },
        ),
{
}

/// A list is read where each of its elements is, one by one and in order.
pub proof fn law_lists_are_read_one_by_one(raw: Seq<JsonView>, n: nat, i: int)
    requires
        0 <= i < n <= raw.len(),
    ensures
        messages_of(raw, n) is Some ==> messages_of(raw, n)->0.len() == n && message_of(raw[i]) == Some(
            messages_of(raw, n)->0[i],
        ),
        parts_of(raw, n) is Some ==> parts_of(raw, n)->0.len() == n && part_of(raw[i]) == Some(parts_of(raw, n)->0[i]),
        calls_of(raw, n) is Some ==> calls_of(raw, n)->0.len() == n && call_of(raw[i]) == Some(calls_of(raw, n)->0[i]),
        tools_of(raw, n) is Some ==> tools_of(raw, n)->0.len() == n && tool_of(raw[i]) == Some(tools_of(raw, n)->0[i]),
        strings_of(raw, n) is Some ==> strings_of(raw, n)->0.len() == n && raw[i] == JsonView::Str(strings_of(raw, n)->0[i]),
    decreases n,
{
    if i < n - 1 {
        law_lists_are_read_one_by_one(raw, (n - 1) as nat, i);
    } else if n > 1 {
        law_lists_are_read_one_by_one(raw, (n - 1) as nat, 0);
    } else {
        reveal_with_fuel(messages_of, 2);
        reveal_with_fuel(parts_of, 2);
        reveal_with_fuel(calls_of, 2);
        reveal_with_fuel(tools_of, 2);
        reveal_with_fuel(strings_of, 2);
    }
}

/// A block may list its fields behind its tag without their names, in their order, and no
/// more than them: a longer list is kept whole.
pub proof fn law_lists_are_read_as_blocks(list: Seq<JsonView>, first: Seq<char>, second: Seq<char>, third: JsonView)
    ensures
        list == seq![JsonView::Str("text"@), JsonView::Str(first)] ==> block_of(JsonView::Array(list)) == BlockView::Text(
            first,
        ),
        list == seq![JsonView::Str("thinking"@), JsonView::Str(first), JsonView::Str(second)] ==> block_of(
            JsonView::Array(list),
        ) == BlockView::Thinking(first, Some(second)),
        list == seq![JsonView::Str("thinking"@), JsonView::Str(first)] ==> block_of(JsonView::Array(list))
            == BlockView::Thinking(first, None),
        list == seq![JsonView::Str("tool_use"@), JsonView::Str(first), JsonView::Str(second), third] ==> block_of(
            JsonView::Array(list),
        ) == (BlockView::ToolUse { id: first, name: second, input: third }),
        list == seq![JsonView::Str("tool_result"@), JsonView::Str(first), third] ==> block_of(JsonView::Array(list)) == (
        BlockView::ToolResult { tool_use_id: first, content: third, is_error: None }),
        list == seq![JsonView::Str("tool_result"@), JsonView::Str(first), third, JsonView::Bool(true)] ==> block_of(
            JsonView::Array(list),
        ) == (BlockView::ToolResult { tool_use_id: first, content: third, is_error: Some(true) }),
        list.len() > 2 && list[0] == JsonView::Str("text"@) ==> block_of(JsonView::Array(list)) == BlockView::Other(
            JsonView::Array(list),
        ),
        list.len() > 3 && list[0] == JsonView::Str("thinking"@) ==> block_of(JsonView::Array(list)) == BlockView::Other(
            JsonView::Array(list),
        ),
        list.len() > 4 ==> block_of(JsonView::Array(list)) == BlockView::Other(JsonView::Array(list)),
        list.len() < 2 ==> block_of(JsonView::Array(list)) == BlockView::Other(JsonView::Array(list)),
{
    lemma_tags();
}

/// Messages, calls, parts and tools, too, may list their fields without their names, in their
/// order, and no more than them.
pub proof fn law_lists_are_read_as_fields(list: Seq<JsonView>)
    ensures
        ({
            let raw = JsonView::Array(list);
            &&& list.len() > 5 ==> message_of(raw) is None
            &&& list.len() > 4 ==> call_of(raw) is None
            &&& list.len() > 3 ==> part_of(raw) is None
            &&& list.len() > 2 ==> tool_of(raw) is None && choice_of(raw) is None
            &&& list.len() < 2 ==> tool_of(raw) is None && choice_of(raw) is None
            &&& message_of(raw) is Some ==> {
                let m = message_of(raw)->0;
                &&& list.len() > 0
                &&& list[0] == JsonView::Str(m.role)
                &&& list.len() > 1 && list[1] is Str ==> m.content == Some(ContentView::Text(list[1]->Str_0))
                &&& list.len() > 2 && list[2] is Str ==> m.name == Some(list[2]->Str_0)
                &&& list.len() > 4 && list[4] is Str ==> m.tool_call_id == Some(list[4]->Str_0)
                &&& list.len() <= 1 ==> m.content is None && m.name is None && m.tool_calls is None && m.tool_call_id is None
            }
            &&& call_of(raw) is Some ==> {
                let c = call_of(raw)->0;
                &&& list.len() == 4
                &&& list[0] is Str ==> c.id == Some(list[0]->Str_0)
                &&& list[1] is Str ==> c.call_type == Some(list[1]->Str_0)
                &&& list[2] is Unsigned ==> c.index == Some(list[2]->Unsigned_0 as u32)
            }
            &&& part_of(raw) is Some ==> {
                let p = part_of(raw)->0;
                &&& list.len() > 0
                &&& list[0] == JsonView::Str(p.content_type)
                &&& list.len() > 1 && list[1] is Str ==> p.text == Some(list[1]->Str_0)
            }
            &&& tool_of(raw) is Some ==> list.len() == 2 && list[0] == JsonView::Str(tool_of(raw)->0.tool_type)
        }),
{
}

} // verus!
