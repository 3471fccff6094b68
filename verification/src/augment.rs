//! Enrichment of requests.
//!
//! A fast model is asked for context on what the user wrote, and its answer is
//! put into the request before it goes to the main backend.

use vstd::prelude::*;
use vstd::string::*;
use crate::api::openai::{ChatCompletionRequest, ContentPart, Message, MessageContent, Tool, ToolChoice};
use crate::api::requests::{
    choice_of, maybe_u32_of, message_views, messages_of, read_choice, read_messages, read_strings, read_tools, strings_of,
    tool_views, tools_of, ToolChoiceView, ToolView,
};
use crate::config::AugmentBackendConfig;
use crate::json::{lemma_put, lemma_put_same, member_views, printed, put, views, Json, JsonView};
use crate::text::{group_texts, join, join_texts, joined, opt_text, same_text, str_texts, texts, trim_end_char, trimmed_end};
use crate::text_map::TextMap;

pub mod laws;

verus! {

broadcast use {vstd::string::group_string_axioms, crate::json::group_json, crate::text::group_texts};

/// Whether a member is this text.
pub open spec fn member_is(v: JsonView, key: Seq<char>, text: Seq<char>) -> bool {
    match v.get(key) {
        Some(JsonView::Str(s)) => s == text,
        _ => false,
    }
}

/// The text of a text block.
pub open spec fn block_text(block: JsonView) -> Option<Seq<char>> {
    if member_is(block, "type"@, "text"@) {
        match block.get("text"@) {
            Some(JsonView::Str(s)) => Some(s),
            _ => None,
        }
    } else {
        None
    }
}

/// The texts of the text blocks among the first `n` blocks.
pub open spec fn block_texts(blocks: Seq<JsonView>, n: nat) -> Seq<Seq<char>>
    decreases n,
{
    if n == 0 || n > blocks.len() {
        Seq::empty()
    } else {
        let before = block_texts(blocks, (n - 1) as nat);
        match block_text(blocks[n - 1]) {
            Some(t) => before.push(t),
            None => before,
        }
    }
}

/// The answer of a model in the format of OpenAI.
pub open spec fn openai_text(body: JsonView) -> Option<Seq<char>> {
    match body.get("choices"@) {
        Some(choices) => match choices.at(0) {
            Some(first) => match first.get("message"@) {
                Some(message) => match message.get("content"@) {
                    Some(content) => content.as_str(),
                    None => None,
                },
                None => None,
            },
            None => None,
        },
        None => None,
    }
}

/// The answer of a model in the format of Anthropic, which may be empty.
pub open spec fn anthropic_text(body: JsonView) -> Seq<char> {
    match body.get("content"@) {
        Some(JsonView::Array(blocks)) => join_texts(block_texts(blocks, blocks.len()), "\n"@),
        _ => Seq::empty(),
    }
}

/// The answer of a model: in the format of OpenAI, or else in that of
/// Anthropic.
pub open spec fn response_text(body: JsonView) -> Result<Seq<char>, Seq<char>> {
    match openai_text(body) {
        Some(text) => Ok(text),
        None => if anthropic_text(body).len() > 0 {
            Ok(anthropic_text(body))
        } else {
            Err("Could not extract text from augment backend response: "@ + printed(body))
        },
    }
}

/// A result whose parts are texts, as contracts see it.
pub open spec fn text_result(r: Result<String, String>) -> Result<Seq<char>, Seq<char>> {
    match r {
        Ok(t) => Ok(t@),
        Err(e) => Err(e@),
    }
}

/// Whether a member is this text.
pub fn has_text_member(v: &Json, key: &str, text: &str) -> (same: bool)
    ensures
        same == member_is(v@, key@, text@),
{
    match v.get(key) {
        Some(Json::Str(s)) => same_text(s.as_str(), text),
        _ => false,
    }
}

/// The texts of the text blocks of a list.
pub fn collect_block_texts(blocks: &Vec<Json>) -> (parts: Vec<String>)
    ensures
        texts(parts@) == block_texts(views(blocks@), blocks@.len()),
{
    let mut parts: Vec<String> = Vec::new();
    let mut i: usize = 0;
    proof {
        assert(texts(parts@) =~= Seq::empty());
    }
    while i < blocks.len()
        invariant
            i <= blocks@.len(),
            texts(parts@) == block_texts(views(blocks@), i as nat),
        decreases blocks@.len() - i,
    {
        if has_text_member(&blocks[i], "type", "text") {
            if let Some(Json::Str(s)) = blocks[i].get("text") {
                parts.push(s.clone());
            }
        }
        i += 1;
    }
    parts
}

/// The answer of a model, from the body of its response.
pub fn extract_response_text(body: &Json) -> (result: Result<String, String>)
    ensures
        text_result(result) == response_text(body@),
{
    if let Some(Json::Array(choices)) = body.get("choices") {
        if choices.len() > 0 {
            if let Some(message) = choices[0].get("message") {
                if let Some(Json::Str(content)) = message.get("content") {
                    return Ok(content.clone());
                }
            }
        }
    }
    if let Some(Json::Array(blocks)) = body.get("content") {
        let text = join(&collect_block_texts(blocks), "\n");
        if !text.as_str().is_empty() {
            return Ok(text);
        }
    }
    Err(joined("Could not extract text from augment backend response: ", body.print().as_str()))
}

/// The texts of one message of a user: its content where that is a text, and
/// the texts of its text blocks where it is a list.
pub open spec fn user_texts(message: JsonView) -> Seq<Seq<char>> {
    if !member_is(message, "role"@, "user"@) {
        Seq::empty()
    } else {
        match message.get("content"@) {
            Some(JsonView::Str(s)) => seq![s],
            Some(JsonView::Array(blocks)) => block_texts(blocks, blocks.len()),
            _ => Seq::empty(),
        }
    }
}

/// The texts of the user among the first `n` messages.
pub open spec fn all_user_texts(messages: Seq<JsonView>, n: nat) -> Seq<Seq<char>>
    decreases n,
{
    if n == 0 || n > messages.len() {
        Seq::empty()
    } else {
        all_user_texts(messages, (n - 1) as nat) + user_texts(messages[n - 1])
    }
}

/// What the user wrote in a request.
pub open spec fn user_content(request: JsonView) -> Seq<char> {
    match request.get("messages"@) {
        Some(JsonView::Array(messages)) => join_texts(all_user_texts(messages, messages.len()), "\n"@),
        _ => Seq::empty(),
    }
}

/// What the user wrote in a request, its texts on lines of their own.
pub fn extract_user_content_from_json(request: &Json) -> (text: String)
    ensures
        text@ == user_content(request@),
{
    let messages = match request.get("messages") {
        Some(Json::Array(m)) => m,
        _ => {
            return String::new();
        },
    };
    let mut parts: Vec<String> = Vec::new();
    let mut i: usize = 0;
    proof {
        assert(texts(parts@) =~= Seq::empty());
    }
    while i < messages.len()
        invariant
            i <= messages@.len(),
            texts(parts@) == all_user_texts(views(messages@), i as nat),
        decreases messages@.len() - i,
    {
        let message = &messages[i];
        let ghost before = parts@;
        let ghost written = user_texts(message@);
        if has_text_member(message, "role", "user") {
            match message.get("content") {
                Some(Json::Str(s)) => {
                    parts.push(s.clone());
                    proof {
                        assert(texts(parts@) =~= texts(before) + written);
                    }
                },
                Some(Json::Array(blocks)) => {
                    let mut more = collect_block_texts(blocks);
                    let ghost added = more@;
                    parts.append(&mut more);
                    proof {
                        assert(texts(parts@) =~= texts(before) + texts(added));
                    }
                },
                _ => {
                    proof {
                        assert(texts(parts@) =~= texts(before) + written);
                    }
                },
            }
        } else {
            proof {
                assert(texts(parts@) =~= texts(before) + written);
            }
        }
        i += 1;
    }
    join(&parts, "\n")
}

/// The block that is put into a request.
pub open spec fn augmentation_block(prompt: Seq<char>, augmentation: Seq<char>) -> Seq<char> {
    "\n\n"@ + prompt + "\n\n"@ + augmentation
}

/// A request whose `stop`, where it is a text, is a list of that text.
pub open spec fn with_stop_list(request: JsonView) -> JsonView {
    match request.get("stop"@) {
        Some(JsonView::Str(s)) => put(request, "stop"@, JsonView::Array(seq![JsonView::Str(s)])),
        _ => request,
    }
}

/// The position of the last of the first `n` messages that is the user's.
pub open spec fn last_user(messages: Seq<JsonView>, n: nat) -> Option<int>
    decreases n,
{
    if n == 0 || n > messages.len() {
        None
    } else if member_is(messages[n - 1], "role"@, "user"@) {
        Some(n - 1)
    } else {
        last_user(messages, (n - 1) as nat)
    }
}

/// The position of the last of the first `n` parts that is a text part.
pub open spec fn last_text_part(parts: Seq<JsonView>, n: nat) -> Option<int>
    decreases n,
{
    if n == 0 || n > parts.len() {
        None
    } else if member_is(parts[n - 1], "type"@, "text"@) {
        Some(n - 1)
    } else {
        last_text_part(parts, (n - 1) as nat)
    }
}

/// The parts of a message with a block behind the last text part: at the end of
/// its text, or nowhere where it has none. Where there is no text part, the
/// block becomes one.
pub open spec fn parts_with_block(parts: Seq<JsonView>, block: Seq<char>) -> Seq<JsonView> {
    match last_text_part(parts, parts.len()) {
        Some(j) => match parts[j].get("text"@) {
            Some(JsonView::Str(t)) => parts.update(j, put(parts[j], "text"@, JsonView::Str(t + block))),
            _ => parts,
        },
        None => parts.push(
            JsonView::Object(seq![("text"@, JsonView::Str(block)), ("type"@, JsonView::Str("text"@))]),
        ),
    }
}

/// A message with a block at the end of its content.
pub open spec fn message_with_block(message: JsonView, block: Seq<char>) -> Result<JsonView, Seq<char>> {
    match message.get("content"@) {
        None => Ok(put(message, "content"@, JsonView::Str(block))),
        Some(JsonView::Null) => Ok(put(message, "content"@, JsonView::Str(block))),
        Some(JsonView::Str(s)) => Ok(put(message, "content"@, JsonView::Str(s + block))),
        Some(JsonView::Array(parts)) => Ok(
            put(message, "content"@, JsonView::Array(parts_with_block(parts, block))),
        ),
        Some(other) => Err("augment injection: unsupported message content type: "@ + printed(other)),
    }
}

/// The message that carries a block where no message is the user's.
pub open spec fn system_message(block: Seq<char>) -> JsonView {
    JsonView::Object(seq![("content"@, JsonView::Str(block)), ("role"@, JsonView::Str("system"@))])
}

/// The messages of a request with a block: in the last message of the user, or
/// in a new message at the end where there are only others. No message at all
/// stays none.
pub open spec fn messages_with_block(messages: Seq<JsonView>, block: Seq<char>) -> Result<Seq<JsonView>, Seq<char>> {
    match last_user(messages, messages.len()) {
        Some(i) => match message_with_block(messages[i], block) {
            Ok(m) => Ok(messages.update(i, m)),
            Err(e) => Err(e),
        },
        None => if messages.len() > 0 {
            Ok(messages.push(system_message(block)))
        } else {
            Ok(messages)
        },
    }
}

/// A request with the augmentation in it.
pub open spec fn injected(request: JsonView, prompt: Seq<char>, augmentation: Seq<char>) -> Result<JsonView, Seq<char>> {
    if !(request is Object) {
        Err("augment injection: request body is not a JSON object"@)
    } else {
        let request = with_stop_list(request);
        match request.get("messages"@) {
            Some(JsonView::Array(messages)) => match messages_with_block(
                messages,
                augmentation_block(prompt, augmentation),
            ) {
                Ok(done) => Ok(put(request, "messages"@, JsonView::Array(done))),
                Err(e) => Err(e),
            },
            _ => Err("augment injection: request has no \"messages\" array"@),
        }
    }
}

/// A result of an injection, as contracts see it.
pub open spec fn injection_view(r: Result<Json, String>) -> Result<JsonView, Seq<char>> {
    match r {
        Ok(j) => Ok(j@),
        Err(e) => Err(e@),
    }
}

/// Puts a block behind the last text part.
fn append_block_to_parts(parts: &mut Vec<Json>, block: &str)
    ensures
        views(final(parts)@) == parts_with_block(views(old(parts)@), block@),
{
    let n = parts.len();
    let mut k: usize = n;
    while k > 0
        invariant
            k <= n,
            n == parts@.len(),
            parts@ == old(parts)@,
            last_text_part(views(parts@), n as nat) == last_text_part(views(parts@), k as nat),
        decreases k,
    {
        let j = k - 1;
        if has_text_member(&parts[j], "type", "text") {
            let ghost part = parts@[j as int]@;
            proof {
                if part.get("text"@) is Some {
                    lemma_put_same(part, "text"@);
                    assert(views(parts@).update(j as int, part) =~= views(parts@));
                }
            }
            if let Some(text) = parts[j].get_mut("text") {
                if let Json::Str(s) = text {
                    s.append(block);
                }
            }
            return;
        }
        k -= 1;
    }
    let mut members: Vec<(String, Json)> = Vec::new();
    members.push(("text".to_owned(), Json::Str(block.to_owned())));
    members.push(("type".to_owned(), Json::Str("text".to_owned())));
    proof {
        assert(member_views(members@) =~= seq![
            ("text"@, JsonView::Str(block@)),
            ("type"@, JsonView::Str("text"@)),
        ]);
    }
    parts.push(Json::Object(members));
}

/// Puts a block at the end of the content of a message.
fn append_block_to_message(message: &mut Json, block: &str) -> (result: Result<(), String>)
    requires
        old(message)@ is Object,
    ensures
        match result {
            Ok(()) => message_with_block(old(message)@, block@) == Ok::<JsonView, Seq<char>>(final(message)@),
            Err(e) => message_with_block(old(message)@, block@) == Err::<JsonView, Seq<char>>(e@),
        },
{
    let absent = match message.get("content") {
        None => true,
        Some(Json::Null) => true,
        Some(_) => false,
    };
    if absent {
        message.insert("content".to_owned(), Json::Str(block.to_owned()));
        return Ok(());
    }
    match message.get_mut("content") {
        None => Ok(()),
        Some(content) => match content {
            Json::Str(s) => {
                s.append(block);
                Ok(())
            },
            Json::Array(parts) => {
                append_block_to_parts(parts, block);
                Ok(())
            },
            other => Err(
                joined("augment injection: unsupported message content type: ", other.print().as_str()),
            ),
        },
    }
}

/// Puts a block into the messages of a request.
fn append_block_to_messages(messages: &mut Vec<Json>, block: &str) -> (result: Result<(), String>)
    ensures
        match result {
            Ok(()) => messages_with_block(views(old(messages)@), block@) == Ok::<Seq<JsonView>, Seq<char>>(
                views(final(messages)@),
            ),
            Err(e) => messages_with_block(views(old(messages)@), block@) == Err::<Seq<JsonView>, Seq<char>>(e@),
        },
{
    let n = messages.len();
    let mut k: usize = n;
    while k > 0
        invariant
            k <= n,
            n == messages@.len(),
            messages@ == old(messages)@,
            last_user(views(messages@), n as nat) == last_user(views(messages@), k as nat),
        decreases k,
    {
        let i = k - 1;
        if has_text_member(&messages[i], "role", "user") {
            return append_block_to_message(&mut messages[i], block);
        }
        k -= 1;
    }
    if n > 0 {
        let mut members: Vec<(String, Json)> = Vec::new();
        members.push(("content".to_owned(), Json::Str(block.to_owned())));
        members.push(("role".to_owned(), Json::Str("system".to_owned())));
        proof {
            assert(member_views(members@) =~= seq![
                ("content"@, JsonView::Str(block@)),
                ("role"@, JsonView::Str("system"@)),
            ]);
        }
        messages.push(Json::Object(members));
    }
    Ok(())
}

/// Puts the augmentation into a request.
///
/// The block goes to the end of the last message of the user; where there are
/// only other messages, it becomes a system message behind them. A `stop` that
/// is a text becomes a list of it. Nothing else of the request changes. Each
/// call adds another block. An error means that the request is to go on as it
/// came.
pub fn inject_augmentation_value(request: Json, request_prompt: &str, augmentation: &str) -> (result: Result<
    Json,
    String,
>)
    ensures
        injection_view(result) == injected(request@, request_prompt@, augmentation@),
{
    let mut request = request;
    let is_object = match &request {
        Json::Object(_) => true,
        _ => false,
    };
    if !is_object {
        return Err("augment injection: request body is not a JSON object".to_owned());
    }
    let stop = match request.get("stop") {
        Some(Json::Str(s)) => Some(s.clone()),
        _ => None,
    };
    if let Some(s) = stop {
        let mut list: Vec<Json> = Vec::new();
        let ghost text = s@;
        list.push(Json::Str(s));
        proof {
            assert(views(list@) =~= seq![JsonView::Str(text)]);
        }
        request.insert("stop".to_owned(), Json::Array(list));
    }
    let mut block = joined("\n\n", request_prompt);
    block.append("\n\n");
    block.append(augmentation);
    match request.get_mut("messages") {
        Some(messages) => match messages {
            Json::Array(list) => match append_block_to_messages(list, block.as_str()) {
                Ok(()) => {},
                Err(e) => {
                    return Err(e);
                },
            },
            _ => {
                return Err("augment injection: request has no \"messages\" array".to_owned());
            },
        },
        None => {
            return Err("augment injection: request has no \"messages\" array".to_owned());
        },
    }
    Ok(request)
}

/// The texts of the text parts among the first `n` parts.
pub open spec fn part_texts(parts: Seq<ContentPart>, n: nat) -> Seq<Seq<char>>
    decreases n,
{
    if n == 0 || n > parts.len() {
        Seq::empty()
    } else {
        let before = part_texts(parts, (n - 1) as nat);
        if parts[n - 1].content_type@ == "text"@ && parts[n - 1].text is Some {
            before.push(parts[n - 1].text->0@)
        } else {
            before
        }
    }
}

/// What the user wrote in a message; nothing where the message is not the
/// user's, or its parts hold no text.
pub open spec fn message_text(m: Message) -> Option<Seq<char>> {
    if m.role@ != "user"@ {
        None
    } else {
        match m.content {
            Some(MessageContent::Text(t)) => Some(t@),
            Some(MessageContent::Parts(parts)) => {
                let text = join_texts(part_texts(parts@, parts@.len()), "\n"@);
                if text.len() > 0 {
                    Some(text)
                } else {
                    None
                }
            },
            None => None,
        }
    }
}

/// What the user wrote in the first `n` messages.
pub open spec fn message_texts(messages: Seq<Message>, n: nat) -> Seq<Seq<char>>
    decreases n,
{
    if n == 0 || n > messages.len() {
        Seq::empty()
    } else {
        let before = message_texts(messages, (n - 1) as nat);
        match message_text(messages[n - 1]) {
            Some(t) => before.push(t),
            None => before,
        }
    }
}

/// The text of the text parts of a message.
fn text_of_parts(parts: &Vec<ContentPart>) -> (text: String)
    ensures
        text@ == join_texts(part_texts(parts@, parts@.len()), "\n"@),
{
    let mut found: Vec<String> = Vec::new();
    let mut i: usize = 0;
    proof {
        assert(texts(found@) =~= Seq::empty());
    }
    while i < parts.len()
        invariant
            i <= parts@.len(),
            texts(found@) == part_texts(parts@, i as nat),
        decreases parts@.len() - i,
    {
        if same_text(parts[i].content_type.as_str(), "text") {
            if let Some(t) = &parts[i].text {
                found.push(t.clone());
            }
        }
        i += 1;
    }
    join(&found, "\n")
}

/// What the user wrote, one text for each message that holds any.
pub fn extract_user_content(messages: &[Message]) -> (found: Vec<String>)
    ensures
        texts(found@) == message_texts(messages@, messages@.len()),
{
    let mut found: Vec<String> = Vec::new();
    let mut i: usize = 0;
    proof {
        assert(texts(found@) =~= Seq::empty());
    }
    while i < messages.len()
        invariant
            i <= messages@.len(),
            texts(found@) == message_texts(messages@, i as nat),
        decreases messages@.len() - i,
    {
        if same_text(messages[i].role.as_str(), "user") {
            match &messages[i].content {
                Some(MessageContent::Text(t)) => {
                    found.push(t.clone());
                },
                Some(MessageContent::Parts(parts)) => {
                    let text = text_of_parts(parts);
                    if !text.as_str().is_empty() {
                        found.push(text);
                    }
                },
                None => {},
            }
        }
        i += 1;
    }
    found
}

/// The position of the last of the first `n` parts that is a text part.
pub open spec fn last_text(parts: Seq<ContentPart>, n: nat) -> Option<int>
    decreases n,
{
    if n == 0 || n > parts.len() {
        None
    } else if parts[n - 1].content_type@ == "text"@ {
        Some(n - 1)
    } else {
        last_text(parts, (n - 1) as nat)
    }
}

/// Whether parts gained a block: at the end of the text of the last text part,
/// nowhere where that has none, or as a part of its own where there is no text
/// part.
pub open spec fn parts_gain(before: Seq<ContentPart>, block: Seq<char>, after: Seq<ContentPart>) -> bool {
    match last_text(before, before.len()) {
        Some(j) => match before[j].text {
            Some(t) => {
                &&& after.len() == before.len()
                &&& after == before.update(j, after[j])
                &&& after[j].content_type == before[j].content_type
                &&& after[j].image_url == before[j].image_url
                &&& after[j].text is Some
                &&& after[j].text->0@ == t@ + block
            },
            None => after == before,
        },
        None => {
            &&& after.len() == before.len() + 1
            &&& after == before.push(after.last())
            &&& after.last().content_type@ == "text"@
            &&& after.last().text is Some
            &&& after.last().text->0@ == block
            &&& after.last().image_url is None
        },
    }
}

/// Whether a message gained a block at the end of its content.
pub open spec fn message_gains(before: Message, block: Seq<char>, after: Message) -> bool {
    &&& after == (Message { content: after.content, ..before })
    &&& match before.content {
        None => after.content is Some && after.content->0 is Text && after.content->0->Text_0@ == block,
        Some(MessageContent::Text(t)) => after.content is Some && after.content->0 is Text && after.content->0->Text_0@
            == t@ + block,
        Some(MessageContent::Parts(parts)) => after.content is Some && after.content->0 is Parts && parts_gain(
            parts@,
            block,
            after.content->0->Parts_0@,
        ),
    }
}

/// The position of the last of the first `n` messages that is the user's.
pub open spec fn last_user_message(messages: Seq<Message>, n: nat) -> Option<int>
    decreases n,
{
    if n == 0 || n > messages.len() {
        None
    } else if messages[n - 1].role@ == "user"@ {
        Some(n - 1)
    } else {
        last_user_message(messages, (n - 1) as nat)
    }
}

/// Whether a message is the system message that carries a block.
pub open spec fn is_system_message(m: Message, block: Seq<char>) -> bool {
    &&& m.role@ == "system"@
    &&& m.content is Some
    &&& m.content->0 is Text
    &&& m.content->0->Text_0@ == block
    &&& m.name is None
    &&& m.tool_calls is None
    &&& m.tool_call_id is None
}

/// Whether messages gained a block: the last one of the user, or a new one
/// behind them where the user has none. No message at all stays none.
pub open spec fn messages_gain(before: Seq<Message>, block: Seq<char>, after: Seq<Message>) -> bool {
    match last_user_message(before, before.len()) {
        Some(i) => {
            &&& after.len() == before.len()
            &&& after == before.update(i, after[i])
            &&& message_gains(before[i], block, after[i])
        },
        None => if before.len() == 0 {
            after == before
        } else {
            &&& after.len() == before.len() + 1
            &&& after == before.push(after.last())
            &&& is_system_message(after.last(), block)
        },
    }
}

fn append_to_parts(parts: &mut Vec<ContentPart>, block: &str)
    ensures
        parts_gain(old(parts)@, block@, final(parts)@),
{
    let n = parts.len();
    let mut k: usize = n;
    while k > 0
        invariant
            k <= n,
            n == parts@.len(),
            parts@ == old(parts)@,
            last_text(parts@, n as nat) == last_text(parts@, k as nat),
        decreases k,
    {
        let j = k - 1;
        if same_text(parts[j].content_type.as_str(), "text") {
            if let Some(t) = &mut parts[j].text {
                t.append(block);
            }
            proof {
                assert(parts@ =~= old(parts)@.update(j as int, parts@[j as int]));
                if old(parts)@[j as int].text is None {
                    assert(parts@ =~= old(parts)@);
                }
            }
            return;
        }
        k -= 1;
    }
    parts.push(ContentPart { content_type: "text".to_owned(), text: Some(block.to_owned()), image_url: None });
    proof {
        assert(parts@ =~= old(parts)@.push(parts@.last()));
    }
}

fn append_to_message(message: &mut Message, block: &str)
    ensures
        message_gains(*old(message), block@, *final(message)),
{
    match &mut message.content {
        Some(MessageContent::Text(t)) => {
            t.append(block);
            return;
        },
        Some(MessageContent::Parts(parts)) => {
            append_to_parts(parts, block);
            return;
        },
        None => {},
    }
    message.content = Some(MessageContent::Text(block.to_owned()));
}

/// Puts a block into messages that were read into their fields.
fn append_to_messages(messages: Vec<Message>, block: &str) -> (changed: Vec<Message>)
    ensures
        messages_gain(messages@, block@, changed@),
{
    let ghost before = messages@;
    let mut changed = messages;
    let n = changed.len();
    let mut k: usize = n;
    while k > 0
        invariant
            k <= n,
            n == before.len(),
            before == messages@,
            changed@ == before,
            last_user_message(before, n as nat) == last_user_message(before, k as nat),
        decreases k,
    {
        let i = k - 1;
        if same_text(changed[i].role.as_str(), "user") {
            append_to_message(&mut changed[i], block);
            proof {
                assert(changed@ =~= before.update(i as int, changed@[i as int]));
            }
            return changed;
        }
        k -= 1;
    }
    if n > 0 {
        changed.push(
            Message {
                role: "system".to_owned(),
                content: Some(MessageContent::Text(block.to_owned())),
                name: None,
                tool_calls: None,
                tool_call_id: None,
            },
        );
        proof {
            assert(changed@ =~= before.push(changed@.last()));
        }
    }
    changed
}

/// The names of the fields of a request.
pub open spec fn request_fields() -> Seq<Seq<char>> {
    seq![
        "model"@,
        "messages"@,
        "temperature"@,
        "top_p"@,
        "max_tokens"@,
        "stream"@,
        "tools"@,
        "tool_choice"@,
        "stop"@,
        "frequency_penalty"@,
        "presence_penalty"@,
        "user"@,
        "reasoning_effort"@,
        "verbosity"@,
        "thinking_budget"@,
    ]
}

/// Whether a key is the name of a field of a request.
pub open spec fn is_request_field(key: Seq<char>) -> bool {
    request_fields().contains(key)
}

fn list_request_fields() -> (names: Vec<&'static str>)
    ensures
        str_texts(names@) == request_fields(),
{
    let names = vec![
        "model",
        "messages",
        "temperature",
        "top_p",
        "max_tokens",
        "stream",
        "tools",
        "tool_choice",
        "stop",
        "frequency_penalty",
        "presence_penalty",
        "user",
        "reasoning_effort",
        "verbosity",
        "thinking_budget",
    ];
    proof {
        assert(str_texts(names@) =~= request_fields());
    }
    names
}

/// What a request gives once more for a field, among its further members. As
/// JSON the two have one name, and this one counts.
pub open spec fn given(request: ChatCompletionRequest, key: Seq<char>) -> Option<JsonView> {
    if request.extra@.contains_key(key) {
        Some(request.extra@[key]@)
    } else {
        None
    }
}

/// Whether a text is what a request gives for it.
pub open spec fn text_follows(v: Option<JsonView>, before: String, after: String) -> bool {
    match v {
        Some(j) => j.as_str() == Some(after@),
        None => after == before,
    }
}

/// A text that may be missing, as a value gives it. Outside it stands whether
/// the value has that shape.
pub open spec fn maybe_text_of(j: JsonView) -> Option<Option<Seq<char>>> {
    match j {
        JsonView::Null => Some(None),
        JsonView::Str(s) => Some(Some(s)),
        _ => None,
    }
}

/// Whether a text that may be missing is what a request gives for it.
pub open spec fn opt_text_follows(v: Option<JsonView>, before: Option<String>, after: Option<String>) -> bool {
    match v {
        Some(j) => maybe_text_of(j) == Some(opt_text(after)),
        None => after == before,
    }
}

/// A number that may be missing, as a value gives it. Outside it stands whether
/// the value has that shape.
pub open spec fn maybe_number_of(j: JsonView) -> Option<Option<JsonView>> {
    if j is Null {
        Some(None)
    } else if j.is_number() {
        Some(Some(j))
    } else {
        None
    }
}

/// The view of a value that may be missing.
pub open spec fn opt_json(j: Option<Json>) -> Option<JsonView> {
    match j {
        Some(v) => Some(v@),
        None => None,
    }
}

/// Whether a number that may be missing is what a request gives for it.
pub open spec fn number_follows(v: Option<JsonView>, before: Option<Json>, after: Option<Json>) -> bool {
    match v {
        Some(j) => maybe_number_of(j) == Some(opt_json(after)),
        None => after == before,
    }
}

/// Whether a number of 32 bits that may be missing is what a request gives for
/// it.
pub open spec fn u32_follows(v: Option<JsonView>, before: Option<u32>, after: Option<u32>) -> bool {
    match v {
        Some(j) => maybe_u32_of(Some(j)) == Some(after),
        None => after == before,
    }
}

/// A number of 64 bits that may be missing, as a value gives it. Outside it
/// stands whether the value has that shape.
pub open spec fn maybe_u64_of(j: JsonView) -> Option<Option<u64>> {
    match j {
        JsonView::Null => Some(None),
        JsonView::Unsigned(n) => Some(Some(n)),
        _ => None,
    }
}

/// Whether a number of 64 bits that may be missing is what a request gives for
/// it.
pub open spec fn u64_follows(v: Option<JsonView>, before: Option<u64>, after: Option<u64>) -> bool {
    match v {
        Some(j) => maybe_u64_of(j) == Some(after),
        None => after == before,
    }
}

/// A truth value that may be missing, as a value gives it. Outside it stands
/// whether the value has that shape.
pub open spec fn maybe_bool_of(j: JsonView) -> Option<Option<bool>> {
    match j {
        JsonView::Null => Some(None),
        JsonView::Bool(b) => Some(Some(b)),
        _ => None,
    }
}

/// Whether a truth value that may be missing is what a request gives for it.
pub open spec fn bool_follows(v: Option<JsonView>, before: Option<bool>, after: Option<bool>) -> bool {
    match v {
        Some(j) => maybe_bool_of(j) == Some(after),
        None => after == before,
    }
}

/// Where to stop, as a value gives it: a text, texts, or nothing. Outside it
/// stands whether the value has that shape.
pub open spec fn maybe_stop_of(j: JsonView) -> Option<Option<Seq<Seq<char>>>> {
    match j {
        JsonView::Null => Some(None),
        JsonView::Str(s) => Some(Some(seq![s])),
        JsonView::Array(a) => match strings_of(a, a.len()) {
            Some(t) => Some(Some(t)),
            None => None,
        },
        _ => None,
    }
}

/// The view of texts that may be missing.
pub open spec fn opt_texts(t: Option<Vec<String>>) -> Option<Seq<Seq<char>>> {
    match t {
        Some(v) => Some(texts(v@)),
        None => None,
    }
}

/// Whether where to stop is what a request gives for it.
pub open spec fn stop_follows(v: Option<JsonView>, before: Option<Vec<String>>, after: Option<Vec<String>>) -> bool {
    match v {
        Some(j) => maybe_stop_of(j) == Some(opt_texts(after)),
        None => after == before,
    }
}

/// Tools that may be missing, as a value gives them. Outside it stands whether
/// the value has that shape.
pub open spec fn maybe_tools_of(j: JsonView) -> Option<Option<Seq<ToolView>>> {
    match j {
        JsonView::Null => Some(None),
        JsonView::Array(a) => match tools_of(a, a.len()) {
            Some(t) => Some(Some(t)),
            None => None,
        },
        _ => None,
    }
}

/// The view of tools that may be missing.
pub open spec fn opt_tools(t: Option<Vec<Tool>>) -> Option<Seq<ToolView>> {
    match t {
        Some(v) => Some(tool_views(v@)),
        None => None,
    }
}

/// Whether tools are what a request gives for them.
pub open spec fn tools_follow(v: Option<JsonView>, before: Option<Vec<Tool>>, after: Option<Vec<Tool>>) -> bool {
    match v {
        Some(j) => maybe_tools_of(j) == Some(opt_tools(after)),
        None => after == before,
    }
}

/// A choice of tools that may be missing, as a value gives it. Outside it stands
/// whether the value has that shape.
pub open spec fn maybe_choice_of(j: JsonView) -> Option<Option<ToolChoiceView>> {
    if j is Null {
        Some(None)
    } else {
        match choice_of(j) {
            Some(c) => Some(Some(c)),
            None => None,
        }
    }
}

/// The view of a choice of tools that may be missing.
pub open spec fn opt_choice(c: Option<ToolChoice>) -> Option<ToolChoiceView> {
    match c {
        Some(v) => Some(v@),
        None => None,
    }
}

/// Whether a choice of tools is what a request gives for it.
pub open spec fn choice_follows(v: Option<JsonView>, before: Option<ToolChoice>, after: Option<ToolChoice>) -> bool {
    match v {
        Some(j) => maybe_choice_of(j) == Some(opt_choice(after)),
        None => after == before,
    }
}

/// Whether what a request gives once more for its fields, but for the messages,
/// has the shapes of the fields.
pub open spec fn fields_are_read(r: ChatCompletionRequest) -> bool {
    &&& given(r, "model"@) is Some ==> given(r, "model"@)->0 is Str
    &&& given(r, "temperature"@) is Some ==> maybe_number_of(given(r, "temperature"@)->0) is Some
    &&& given(r, "top_p"@) is Some ==> maybe_number_of(given(r, "top_p"@)->0) is Some
    &&& given(r, "max_tokens"@) is Some ==> maybe_u32_of(given(r, "max_tokens"@)) is Some
    &&& given(r, "stream"@) is Some ==> maybe_bool_of(given(r, "stream"@)->0) is Some
    &&& given(r, "tools"@) is Some ==> maybe_tools_of(given(r, "tools"@)->0) is Some
    &&& given(r, "tool_choice"@) is Some ==> maybe_choice_of(given(r, "tool_choice"@)->0) is Some
    &&& given(r, "stop"@) is Some ==> maybe_stop_of(given(r, "stop"@)->0) is Some
    &&& given(r, "frequency_penalty"@) is Some ==> maybe_number_of(given(r, "frequency_penalty"@)->0) is Some
    &&& given(r, "presence_penalty"@) is Some ==> maybe_number_of(given(r, "presence_penalty"@)->0) is Some
    &&& given(r, "user"@) is Some ==> maybe_text_of(given(r, "user"@)->0) is Some
    &&& given(r, "reasoning_effort"@) is Some ==> maybe_text_of(given(r, "reasoning_effort"@)->0) is Some
    &&& given(r, "verbosity"@) is Some ==> maybe_text_of(given(r, "verbosity"@)->0) is Some
    &&& given(r, "thinking_budget"@) is Some ==> maybe_u64_of(given(r, "thinking_budget"@)->0) is Some
}

/// Whether a request has the fields of another, but for the messages: each as
/// it was, or as it was given once more.
pub open spec fn fields_follow(before: ChatCompletionRequest, after: ChatCompletionRequest) -> bool {
    &&& text_follows(given(before, "model"@), before.model, after.model)
    &&& number_follows(given(before, "temperature"@), before.temperature, after.temperature)
    &&& number_follows(given(before, "top_p"@), before.top_p, after.top_p)
    &&& u32_follows(given(before, "max_tokens"@), before.max_tokens, after.max_tokens)
    &&& bool_follows(given(before, "stream"@), before.stream, after.stream)
    &&& tools_follow(given(before, "tools"@), before.tools, after.tools)
    &&& choice_follows(given(before, "tool_choice"@), before.tool_choice, after.tool_choice)
    &&& stop_follows(given(before, "stop"@), before.stop, after.stop)
    &&& number_follows(given(before, "frequency_penalty"@), before.frequency_penalty, after.frequency_penalty)
    &&& number_follows(given(before, "presence_penalty"@), before.presence_penalty, after.presence_penalty)
    &&& opt_text_follows(given(before, "user"@), before.user, after.user)
    &&& opt_text_follows(given(before, "reasoning_effort"@), before.reasoning_effort, after.reasoning_effort)
    &&& opt_text_follows(given(before, "verbosity"@), before.verbosity, after.verbosity)
    &&& u64_follows(given(before, "thinking_budget"@), before.thinking_budget, after.thinking_budget)
}

/// What is said of a request of which a field cannot be read back.
pub open spec fn unreadable() -> Seq<char> {
    "augment injection: a member with the name of a field does not have its type"@
}

/// Why a request that was read into its fields takes no block, if it does not.
/// The block comes first, then the reading.
pub open spec fn typed_refusal(r: ChatCompletionRequest, block: Seq<char>) -> Option<Seq<char>> {
    let read = if fields_are_read(r) {
        None
    } else {
        Some(unreadable())
    };
    match given(r, "messages"@) {
        None => read,
        Some(JsonView::Array(messages)) => match messages_with_block(messages, block) {
            Err(e) => Some(e),
            Ok(done) => if messages_of(done, done.len()) is Some {
                read
            } else {
                Some(unreadable())
            },
        },
        Some(_) => Some("augment injection: request has no \"messages\" array"@),
    }
}

/// Whether messages are those of a request with a block: its own, or those that
/// it gives once more.
pub open spec fn messages_follow(r: ChatCompletionRequest, block: Seq<char>, after: Seq<Message>) -> bool {
    match given(r, "messages"@) {
        None => messages_gain(r.messages@, block, after),
        Some(j) => {
            let done = messages_with_block(j->Array_0, block)->Ok_0;
            messages_of(done, done.len()) == Some(message_views(after))
        },
    }
}

fn take_text(v: Option<Json>, before: String) -> (after: Option<String>)
    ensures
        match after {
            Some(a) => text_follows(opt_json(v), before, a),
            None => v is Some && !(v->0@ is Str),
        },
{
    match v {
        Some(Json::Str(s)) => Some(s),
        Some(_) => None,
        None => Some(before),
    }
}

fn take_opt_text(v: Option<Json>, before: Option<String>) -> (after: Result<Option<String>, ()>)
    ensures
        match after {
            Ok(a) => opt_text_follows(opt_json(v), before, a),
            Err(_) => v is Some && maybe_text_of(v->0@) is None,
        },
{
    match v {
        Some(Json::Null) => Ok(None),
        Some(Json::Str(s)) => Ok(Some(s)),
        Some(_) => Err(()),
        None => Ok(before),
    }
}

fn take_number(v: Option<Json>, before: Option<Json>) -> (after: Result<Option<Json>, ()>)
    ensures
        match after {
            Ok(a) => number_follows(opt_json(v), before, a),
            Err(_) => v is Some && maybe_number_of(v->0@) is None,
        },
{
    match v {
        Some(Json::Null) => Ok(None),
        Some(Json::Unsigned(n)) => Ok(Some(Json::Unsigned(n))),
        Some(Json::Negative(n)) => Ok(Some(Json::Negative(n))),
        Some(Json::Float(t)) => Ok(Some(Json::Float(t))),
        Some(_) => Err(()),
        None => Ok(before),
    }
}

fn take_u32(v: Option<Json>, before: Option<u32>) -> (after: Result<Option<u32>, ()>)
    ensures
        match after {
            Ok(a) => u32_follows(opt_json(v), before, a),
            Err(_) => v is Some && maybe_u32_of(opt_json(v)) is None,
        },
{
    match v {
        Some(Json::Null) => Ok(None),
        Some(Json::Unsigned(n)) => if n <= u32::MAX as u64 {
            Ok(Some(n as u32))
        } else {
            Err(())
        },
        Some(_) => Err(()),
        None => Ok(before),
    }
}

fn take_u64(v: Option<Json>, before: Option<u64>) -> (after: Result<Option<u64>, ()>)
    ensures
        match after {
            Ok(a) => u64_follows(opt_json(v), before, a),
            Err(_) => v is Some && maybe_u64_of(v->0@) is None,
        },
{
    match v {
        Some(Json::Null) => Ok(None),
        Some(Json::Unsigned(n)) => Ok(Some(n)),
        Some(_) => Err(()),
        None => Ok(before),
    }
}

fn take_bool(v: Option<Json>, before: Option<bool>) -> (after: Result<Option<bool>, ()>)
    ensures
        match after {
            Ok(a) => bool_follows(opt_json(v), before, a),
            Err(_) => v is Some && maybe_bool_of(v->0@) is None,
        },
{
    match v {
        Some(Json::Null) => Ok(None),
        Some(Json::Bool(b)) => Ok(Some(b)),
        Some(_) => Err(()),
        None => Ok(before),
    }
}

fn take_stop(v: Option<Json>, before: Option<Vec<String>>) -> (after: Result<Option<Vec<String>>, ()>)
    ensures
        match after {
            Ok(a) => stop_follows(opt_json(v), before, a),
            Err(_) => v is Some && maybe_stop_of(v->0@) is None,
        },
{
    match v {
        Some(Json::Null) => Ok(None),
        Some(Json::Str(s)) => {
            let ghost text = s@;
            let list = vec![s];
            proof {
                assert(texts(list@) =~= seq![text]);
            }
            Ok(Some(list))
        },
        Some(Json::Array(a)) => match read_strings(&a) {
            Some(list) => Ok(Some(list)),
            None => Err(()),
        },
        Some(_) => Err(()),
        None => Ok(before),
    }
}

fn take_tools(v: Option<Json>, before: Option<Vec<Tool>>) -> (after: Result<Option<Vec<Tool>>, ()>)
    ensures
        match after {
            Ok(a) => tools_follow(opt_json(v), before, a),
            Err(_) => v is Some && maybe_tools_of(v->0@) is None,
        },
{
    match v {
        Some(Json::Null) => Ok(None),
        Some(Json::Array(a)) => match read_tools(&a) {
            Some(tools) => Ok(Some(tools)),
            None => Err(()),
        },
        Some(_) => Err(()),
        None => Ok(before),
    }
}

fn take_choice(v: Option<Json>, before: Option<ToolChoice>) -> (after: Result<Option<ToolChoice>, ()>)
    ensures
        match after {
            Ok(a) => choice_follows(opt_json(v), before, a),
            Err(_) => v is Some && maybe_choice_of(v->0@) is None,
        },
{
    match v {
        Some(Json::Null) => Ok(None),
        Some(j) => match read_choice(&j) {
            Some(choice) => Ok(Some(choice)),
            None => Err(()),
        },
        None => Ok(before),
    }
}

/// The messages of a request with a block.
fn take_messages(v: Option<Json>, before: Vec<Message>, block: &str) -> (after: Result<Vec<Message>, String>)
    ensures
        match opt_json(v) {
            None => after is Ok && messages_gain(before@, block@, after->Ok_0@),
            Some(JsonView::Array(messages)) => match messages_with_block(messages, block@) {
                Err(e) => after is Err && after->Err_0@ == e,
                Ok(done) => match messages_of(done, done.len()) {
                    Some(read) => after is Ok && message_views(after->Ok_0@) == read,
                    None => after is Err && after->Err_0@ == unreadable(),
                },
            },
            Some(_) => after is Err && after->Err_0@ == "augment injection: request has no \"messages\" array"@,
        },
{
    match v {
        None => Ok(append_to_messages(before, block)),
        Some(Json::Array(list)) => {
            let mut list = list;
            match append_block_to_messages(&mut list, block) {
                Err(e) => Err(e),
                Ok(()) => match read_messages(&list) {
                    Some(messages) => Ok(messages),
                    None => Err(
                        "augment injection: a member with the name of a field does not have its type".to_owned(),
                    ),
                },
            }
        },
        Some(_) => Err("augment injection: request has no \"messages\" array".to_owned()),
    }
}

/// What the further members of a request give for a field.
fn copy_given(extra: &TextMap<Json>, key: &str) -> (v: Option<Json>)
    ensures
        opt_json(v) == if extra@.contains_key(key@) {
            Some(extra@[key@]@)
        } else {
            None
        },
{
    match extra.get(key) {
        Some(j) => Some(j.clone()),
        None => None,
    }
}

/// The further members of a request without those that have the name of a field.
fn without_fields(extra: TextMap<Json>) -> (rest: TextMap<Json>)
    ensures
        forall|key: Seq<char>|
            #[trigger] rest@.contains_key(key) <==> extra@.contains_key(key) && !is_request_field(key),
        forall|key: Seq<char>| #[trigger] rest@.contains_key(key) ==> rest@[key] == extra@[key],
        (forall|key: Seq<char>| #[trigger] extra@.contains_key(key) ==> !is_request_field(key)) ==> rest == extra,
{
    let names = list_request_fields();
    let ghost all = request_fields();
    let mut rest = extra;
    let mut i: usize = 0;
    let n = names.len();
    proof {
        assert(str_texts(names@).len() == names@.len());
    }
    while i < n
        invariant
            n == names@.len(),
            n == all.len(),
            all == request_fields(),
            str_texts(names@) == all,
            i <= n,
            forall|key: Seq<char>|
                #[trigger] rest@.contains_key(key) <==> extra@.contains_key(key) && !all.take(i as int).contains(key),
            forall|key: Seq<char>| #[trigger] rest@.contains_key(key) ==> rest@[key] == extra@[key],
            (forall|key: Seq<char>| #[trigger] extra@.contains_key(key) ==> !is_request_field(key)) ==> rest == extra,
        decreases n - i,
    {
        let ghost name = names@[i as int]@;
        proof {
            assert(str_texts(names@)[i as int] == name);
            assert(all[i as int] == name);
            assert(is_request_field(name));
        }
        let ghost before = rest@;
        let taken = rest.remove(names[i]);
        proof {
            let was = all.take(i as int);
            let now = all.take(i + 1);
            assert(now =~= was.push(name));
            assert forall|key: Seq<char>| #[trigger] now.contains(key) == (was.contains(key) || key == name) by {
                if was.contains(key) {
                    let k = choose|k: int| 0 <= k < was.len() && was[k] == key;
                    assert(now[k] == key);
                }
                if key == name {
                    assert(now[i as int] == key);
                }
                if now.contains(key) {
                    let k = choose|k: int| 0 <= k < now.len() && now[k] == key;
                    if k < was.len() {
                        assert(was[k] == key);
                    }
                }
            }
        }
        i += 1;
    }
    proof {
        assert(all.take(n as int) =~= all);
    }
    rest
}

/// Puts the augmentation into a request that was read into its fields. Nothing
/// but its messages changes, unless its further members hold the name of a
/// field: such a member takes the place of the field, as it does in JSON, and is
/// no further member then. Where it does not have the type of the field, or the
/// messages that it gives take no block, that is the error.
#[verifier::spinoff_prover]
#[verifier::rlimit(60)]
pub fn inject_augmentation(request: ChatCompletionRequest, request_prompt: &str, augmentation: &str) -> (result: Result<
    ChatCompletionRequest,
    String,
>)
    ensures
        ({
            let block = augmentation_block(request_prompt@, augmentation@);
            match typed_refusal(request, block) {
                Some(message) => result is Err && result->Err_0@ == message,
                None => {
                    &&& result is Ok
                    &&& fields_follow(request, result->Ok_0)
                    &&& messages_follow(request, block, result->Ok_0.messages@)
                    &&& forall|key: Seq<char>|
                        #[trigger] result->Ok_0.extra@.contains_key(key) <==> request.extra@.contains_key(key)
                            && !is_request_field(key)
                    &&& forall|key: Seq<char>|
                        #[trigger] result->Ok_0.extra@.contains_key(key) ==> result->Ok_0.extra@[key]
                            == request.extra@[key]
                },
            }
        }),
        (forall|key: Seq<char>| #[trigger] request.extra@.contains_key(key) ==> !is_request_field(key)) ==> result
            == Ok::<ChatCompletionRequest, String>(
            ChatCompletionRequest { messages: result->Ok_0.messages, ..request },
        ),
{
    let mut block = joined("\n\n", request_prompt);
    block.append("\n\n");
    block.append(augmentation);
    let given_model = copy_given(&request.extra, "model");
    let given_messages = copy_given(&request.extra, "messages");
    let given_temperature = copy_given(&request.extra, "temperature");
    let given_top_p = copy_given(&request.extra, "top_p");
    let given_max_tokens = copy_given(&request.extra, "max_tokens");
    let given_stream = copy_given(&request.extra, "stream");
    let given_tools = copy_given(&request.extra, "tools");
    let given_tool_choice = copy_given(&request.extra, "tool_choice");
    let given_stop = copy_given(&request.extra, "stop");
    let given_frequency_penalty = copy_given(&request.extra, "frequency_penalty");
    let given_presence_penalty = copy_given(&request.extra, "presence_penalty");
    let given_user = copy_given(&request.extra, "user");
    let given_reasoning_effort = copy_given(&request.extra, "reasoning_effort");
    let given_verbosity = copy_given(&request.extra, "verbosity");
    let given_thinking_budget = copy_given(&request.extra, "thinking_budget");
    let messages = match take_messages(given_messages, request.messages, block.as_str()) {
        Ok(messages) => messages,
        Err(e) => {
            return Err(e);
        },
    };
    let refused = "augment injection: a member with the name of a field does not have its type";
    let model = match take_text(given_model, request.model) {
        Some(v) => v,
        None => {
            return Err(refused.to_owned());
        },
    };
    let temperature = match take_number(given_temperature, request.temperature) {
        Ok(v) => v,
        Err(_) => {
            return Err(refused.to_owned());
        },
    };
    let top_p = match take_number(given_top_p, request.top_p) {
        Ok(v) => v,
        Err(_) => {
            return Err(refused.to_owned());
        },
    };
    let max_tokens = match take_u32(given_max_tokens, request.max_tokens) {
        Ok(v) => v,
        Err(_) => {
            return Err(refused.to_owned());
        },
    };
    let stream = match take_bool(given_stream, request.stream) {
        Ok(v) => v,
        Err(_) => {
            return Err(refused.to_owned());
        },
    };
    let tools = match take_tools(given_tools, request.tools) {
        Ok(v) => v,
        Err(_) => {
            return Err(refused.to_owned());
        },
    };
    let tool_choice = match take_choice(given_tool_choice, request.tool_choice) {
        Ok(v) => v,
        Err(_) => {
            return Err(refused.to_owned());
        },
    };
    let stop = match take_stop(given_stop, request.stop) {
        Ok(v) => v,
        Err(_) => {
            return Err(refused.to_owned());
        },
    };
    let frequency_penalty = match take_number(given_frequency_penalty, request.frequency_penalty) {
        Ok(v) => v,
        Err(_) => {
            return Err(refused.to_owned());
        },
    };
    let presence_penalty = match take_number(given_presence_penalty, request.presence_penalty) {
        Ok(v) => v,
        Err(_) => {
            return Err(refused.to_owned());
        },
    };
    let user = match take_opt_text(given_user, request.user) {
        Ok(v) => v,
        Err(_) => {
            return Err(refused.to_owned());
        },
    };
    let reasoning_effort = match take_opt_text(given_reasoning_effort, request.reasoning_effort) {
        Ok(v) => v,
        Err(_) => {
            return Err(refused.to_owned());
        },
    };
    let verbosity = match take_opt_text(given_verbosity, request.verbosity) {
        Ok(v) => v,
        Err(_) => {
            return Err(refused.to_owned());
        },
    };
    let thinking_budget = match take_u64(given_thinking_budget, request.thinking_budget) {
        Ok(v) => v,
        Err(_) => {
            return Err(refused.to_owned());
        },
    };
    Ok(
        ChatCompletionRequest {
            model,
            messages,
            temperature,
            top_p,
            max_tokens,
            stream,
            tools,
            tool_choice,
            stop,
            frequency_penalty,
            presence_penalty,
            user,
            reasoning_effort,
            verbosity,
            thinking_budget,
            extra: without_fields(request.extra),
        },
    )
}

/// The backend that requests are enriched by.
#[derive(Debug, PartialEq, Eq)]
pub struct AugmentBackend {
    /// The URL without trailing slashes.
    pub url: String,
    pub model: String,
    pub prompt_file: String,
    pub request_prompt_file: String,
    /// The timeout of a call, in seconds.
    pub timeout_secs: u64,
}

/// The body of a request to the enriching backend.
pub open spec fn augment_request(model: Seq<char>, prompt: Seq<char>, content: Seq<char>) -> JsonView {
    let message = JsonView::Object(
        seq![("content"@, JsonView::Str(prompt + "\n\n"@ + content)), ("role"@, JsonView::Str("user"@))],
    );
    JsonView::Object(
        seq![
            ("messages"@, JsonView::Array(seq![message])),
            ("model"@, JsonView::Str(model)),
            ("stream"@, JsonView::Bool(false)),
        ],
    )
}

impl AugmentBackend {
    /// The backend that a configuration names.
    pub fn from_config(config: &AugmentBackendConfig) -> (backend: AugmentBackend)
        ensures
            backend.url@ == trimmed_end(config.url@, '/'),
            backend.model == config.model,
            backend.prompt_file == config.prompt_file,
            backend.request_prompt_file == config.request_prompt_file,
            backend.timeout_secs == config.timeout_secs,
    {
        AugmentBackend {
            url: trim_end_char(config.url.as_str(), '/').to_owned(),
            model: config.model.clone(),
            prompt_file: config.prompt_file.clone(),
            request_prompt_file: config.request_prompt_file.clone(),
            timeout_secs: config.timeout_secs,
        }
    }

    /// The URL that is called.
    pub fn endpoint(&self) -> (url: String)
        ensures
            url@ == self.url@ + "/v1/chat/completions"@,
    {
        joined(self.url.as_str(), "/v1/chat/completions")
    }

    /// The body of the call: the prompt and, behind it, what the user wrote.
    pub fn request_body(&self, backend_prompt: &str, user_content: &str) -> (body: Json)
        ensures
            body@ == augment_request(self.model@, backend_prompt@, user_content@),
    {
        let mut combined = joined(backend_prompt, "\n\n");
        combined.append(user_content);
        let ghost text = combined@;
        let mut message: Vec<(String, Json)> = Vec::new();
        message.push(("content".to_owned(), Json::Str(combined)));
        message.push(("role".to_owned(), Json::Str("user".to_owned())));
        proof {
            assert(member_views(message@) =~= seq![("content"@, JsonView::Str(text)), ("role"@, JsonView::Str("user"@))]);
        }
        let mut messages: Vec<Json> = Vec::new();
        messages.push(Json::Object(message));
        proof {
            assert(views(messages@) =~= seq![messages@[0]@]);
        }
        let mut body: Vec<(String, Json)> = Vec::new();
        let ghost list = views(messages@);
        body.push(("messages".to_owned(), Json::Array(messages)));
        body.push(("model".to_owned(), Json::Str(self.model.clone())));
        body.push(("stream".to_owned(), Json::Bool(false)));
        proof {
            assert(member_views(body@) =~= seq![
                ("messages"@, JsonView::Array(list)),
                ("model"@, JsonView::Str(self.model@)),
                ("stream"@, JsonView::Bool(false)),
            ]);
        }
        Json::Object(body)
    }

    /// What is said of an answer that is no success.
    pub fn refused(status: &str, body: &str) -> (message: String)
        ensures
            message@ == "Augment backend returned "@ + status@ + ": "@ + body@,
    {
        let mut message = joined("Augment backend returned ", status);
        message.append(": ");
        message.append(body);
        message
    }
}

/// An injection touches `stop` and `messages` and no other member.
pub proof fn law_other_members_survive(request: JsonView, prompt: Seq<char>, augmentation: Seq<char>, key: Seq<char>)
    requires
        injected(request, prompt, augmentation) is Ok,
        key != "stop"@,
        key != "messages"@,
    ensures
        injected(request, prompt, augmentation)->Ok_0.get(key) == request.get(key),
{
    let listed = with_stop_list(request);
    lemma_stop_list(request, key);
    let messages = listed.get("messages"@)->0->Array_0;
    let done = messages_with_block(messages, augmentation_block(prompt, augmentation))->Ok_0;
    lemma_put(listed, "messages"@, JsonView::Array(done), key);
}

proof fn lemma_stop_list(request: JsonView, key: Seq<char>)
    requires
        request is Object,
    ensures
        with_stop_list(request) is Object,
        key != "stop"@ ==> with_stop_list(request).get(key) == request.get(key),
        with_stop_list(request).get("stop"@) == match request.get("stop"@) {
            Some(JsonView::Str(s)) => Some(JsonView::Array(seq![JsonView::Str(s)])),
            other => other,
        },
{
    if let Some(JsonView::Str(s)) = request.get("stop"@) {
        let list = JsonView::Array(seq![JsonView::Str(s)]);
        lemma_put(request, "stop"@, list, key);
        lemma_put(request, "stop"@, list, "stop"@);
    }
}

proof fn lemma_stop_is_not_messages()
    ensures
        "stop"@ != "messages"@,
{
    reveal_strlit("stop");
    reveal_strlit("messages");
    assert("stop"@.len() != "messages"@.len());
}

/// Whatever becomes of the messages, a `stop` that is a text becomes a list of
/// that text, and any other `stop` stays.
pub proof fn law_stop_becomes_a_list(request: JsonView, prompt: Seq<char>, augmentation: Seq<char>)
    requires
        injected(request, prompt, augmentation) is Ok,
    ensures
        injected(request, prompt, augmentation)->Ok_0.get("stop"@) == match request.get("stop"@) {
            Some(JsonView::Str(s)) => Some(JsonView::Array(seq![JsonView::Str(s)])),
            other => other,
        },
{
    let listed = with_stop_list(request);
    lemma_stop_list(request, "stop"@);
    lemma_stop_is_not_messages();
    let messages = listed.get("messages"@)->0->Array_0;
    let done = messages_with_block(messages, augmentation_block(prompt, augmentation))->Ok_0;
    lemma_put(listed, "messages"@, JsonView::Array(done), "stop"@);
}

/// The messages of a request that had the augmentation put in are those that
/// it had, with the block in them.
pub proof fn law_messages_carry_the_block(request: JsonView, prompt: Seq<char>, augmentation: Seq<char>)
    requires
        injected(request, prompt, augmentation) is Ok,
    ensures
        request.get("messages"@) is Some,
        request.get("messages"@)->0 is Array,
        ({
            let before = request.get("messages"@)->0->Array_0;
            let block = augmentation_block(prompt, augmentation);
            &&& messages_with_block(before, block) is Ok
            &&& injected(request, prompt, augmentation)->Ok_0.get("messages"@) == Some(
                JsonView::Array(messages_with_block(before, block)->Ok_0),
            )
        }),
{
    let listed = with_stop_list(request);
    lemma_stop_is_not_messages();
    lemma_stop_list(request, "messages"@);
    let messages = listed.get("messages"@)->0->Array_0;
    let done = messages_with_block(messages, augmentation_block(prompt, augmentation))->Ok_0;
    lemma_put(listed, "messages"@, JsonView::Array(done), "messages"@);
}

proof fn lemma_last_user(messages: Seq<JsonView>, n: nat)
    requires
        n <= messages.len(),
    ensures
        match last_user(messages, n) {
            Some(i) => 0 <= i < n && member_is(messages[i], "role"@, "user"@) && forall|k: int|
                i < k < n ==> !member_is(#[trigger] messages[k], "role"@, "user"@),
            None => forall|k: int| 0 <= k < n ==> !member_is(#[trigger] messages[k], "role"@, "user"@),
        },
    decreases n,
{
    if n > 0 {
        lemma_last_user(messages, (n - 1) as nat);
    }
}

/// No message changes but the last one of the user; where the user has none,
/// no message changes and one is added behind them.
pub proof fn law_only_the_last_user_message_changes(messages: Seq<JsonView>, block: Seq<char>, i: int)
    requires
        messages_with_block(messages, block) is Ok,
        0 <= i < messages.len(),
        member_is(messages[i], "role"@, "user"@) ==> exists|k: int|
            i < k < messages.len() && member_is(#[trigger] messages[k], "role"@, "user"@),
    ensures
        messages_with_block(messages, block)->Ok_0.len() >= messages.len(),
        messages_with_block(messages, block)->Ok_0[i] == messages[i],
{
    lemma_last_user(messages, messages.len());
}

/// Where no message is the user's, the block comes in a system message behind
/// the others; no message at all stays none.
pub proof fn law_no_user_message_means_a_system_message(messages: Seq<JsonView>, block: Seq<char>)
    requires
        forall|k: int| 0 <= k < messages.len() ==> !member_is(#[trigger] messages[k], "role"@, "user"@),
    ensures
        messages_with_block(messages, block) == Ok::<Seq<JsonView>, Seq<char>>(
            if messages.len() == 0 {
                messages
            } else {
                messages.push(system_message(block))
            },
        ),
{
    lemma_last_user(messages, messages.len());
}

/// A second injection adds a second block: nothing marks the first.
pub proof fn law_each_injection_adds_a_block(message: JsonView, text: Seq<char>, block: Seq<char>)
    requires
        message.get("content"@) == Some(JsonView::Str(text)),
    ensures
        message_with_block(message, block) is Ok,
        ({
            let once = message_with_block(message, block)->Ok_0;
            &&& once.get("content"@) == Some(JsonView::Str(text + block))
            &&& message_with_block(once, block) is Ok
            &&& message_with_block(once, block)->Ok_0.get("content"@) == Some(JsonView::Str(text + block + block))
        }),
{
    lemma_put(message, "content"@, JsonView::Str(text + block), "content"@);
    let once = message_with_block(message, block)->Ok_0;
    lemma_put(once, "content"@, JsonView::Str(text + block + block), "content"@);
}

/// A message keeps every member but its content.
pub proof fn law_message_keeps_other_members(message: JsonView, block: Seq<char>, key: Seq<char>)
    requires
        message is Object,
        message_with_block(message, block) is Ok,
        key != "content"@,
    ensures
        message_with_block(message, block)->Ok_0.get(key) == message.get(key),
{
    let done = message_with_block(message, block)->Ok_0;
    match message.get("content"@) {
        None => {
            lemma_put(message, "content"@, JsonView::Str(block), key);
        },
        Some(JsonView::Null) => {
            lemma_put(message, "content"@, JsonView::Str(block), key);
        },
        Some(JsonView::Str(s)) => {
            lemma_put(message, "content"@, JsonView::Str(s + block), key);
        },
        Some(JsonView::Array(parts)) => {
            lemma_put(message, "content"@, JsonView::Array(parts_with_block(parts, block)), key);
        },
        Some(_) => {},
    }
}

} // verus!
