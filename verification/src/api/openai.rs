//! The chat completion API of OpenAI, the messages API of Anthropic, and the
//! conversion of responses between them.
//!
//! A number that may be a float is held as the JSON number that it came as.

use vstd::prelude::*;
use vstd::string::*;
use crate::augment::{block_texts, collect_block_texts};
use crate::json::{is_plain, parsed, printed, Json, JsonView, MAX_NESTING};
use crate::text::{copy_opt, group_texts, join, join_texts, opt_text, same_text, texts};
use crate::text_map::TextMap;

verus! {

broadcast use {vstd::string::group_string_axioms, crate::json::group_json, crate::text::group_texts};

/// A chat completion request.
#[derive(Debug, PartialEq, Eq)]
pub struct ChatCompletionRequest {
    pub model: String,
    pub messages: Vec<Message>,
    pub temperature: Option<Json>,
    pub top_p: Option<Json>,
    pub max_tokens: Option<u32>,
    pub stream: Option<bool>,
    pub tools: Option<Vec<Tool>>,
    pub tool_choice: Option<ToolChoice>,
    pub stop: Option<Vec<String>>,
    pub frequency_penalty: Option<Json>,
    pub presence_penalty: Option<Json>,
    pub user: Option<String>,
    pub reasoning_effort: Option<String>,
    pub verbosity: Option<String>,
    pub thinking_budget: Option<u64>,
    /// Every other parameter, by its name.
    pub extra: TextMap<Json>,
}

/// A message of a request.
#[derive(Debug, PartialEq, Eq)]
pub struct Message {
    pub role: String,
    pub content: Option<MessageContent>,
    pub name: Option<String>,
    pub tool_calls: Option<Vec<ToolCall>>,
    pub tool_call_id: Option<String>,
}

/// The content of a message: a text, or a list of parts.
#[derive(Debug, PartialEq, Eq)]
pub enum MessageContent {
    Text(String),
    Parts(Vec<ContentPart>),
}

impl Default for MessageContent {
    fn default() -> (content: MessageContent)
        ensures
            content is Text,
            content->Text_0@ == Seq::<char>::empty(),
    {
        MessageContent::Text(String::new())
    }
}

/// A part of a message.
#[derive(Debug, PartialEq, Eq)]
pub struct ContentPart {
    pub content_type: String,
    pub text: Option<String>,
    pub image_url: Option<ImageUrl>,
}

/// An image in a message.
#[derive(Debug, PartialEq, Eq)]
pub struct ImageUrl {
    pub url: String,
    pub detail: Option<String>,
}

/// A tool that a model may call.
#[derive(Debug, PartialEq, Eq)]
pub struct Tool {
    pub tool_type: String,
    pub function: FunctionDef,
}

/// A function that a model may call.
#[derive(Debug, PartialEq, Eq)]
pub struct FunctionDef {
    pub name: String,
    pub description: Option<String>,
    pub parameters: Json,
}

/// Which tool a model is to call.
#[derive(Debug, PartialEq, Eq)]
pub enum ToolChoice {
    String(String),
    Object(ToolChoiceObject),
}

/// Which tool a model is to call.
#[derive(Debug, PartialEq, Eq)]
pub struct ToolChoiceObject {
    pub choice_type: String,
    pub function: Option<FunctionRef>,
}

/// A function by its name.
#[derive(Debug, PartialEq, Eq)]
pub struct FunctionRef {
    pub name: String,
}

/// A chat completion response.
#[derive(Debug, PartialEq, Eq)]
pub struct ChatCompletionResponse {
    pub id: String,
    pub object: String,
    pub created: i64,
    pub model: String,
    pub choices: Vec<Choice>,
    pub usage: Option<Usage>,
    pub timings: Option<Timings>,
}

/// A choice of a response.
#[derive(Debug, PartialEq, Eq)]
pub struct Choice {
    pub index: u32,
    pub message: Option<ResponseMessage>,
    pub delta: Option<Delta>,
    pub finish_reason: Option<String>,
}

/// The message of a choice.
#[derive(Debug, PartialEq, Eq)]
pub struct ResponseMessage {
    pub role: String,
    pub content: Option<String>,
    pub tool_calls: Option<Vec<ToolCall>>,
    pub reasoning_text: Option<String>,
    pub reasoning_opaque: Option<String>,
}

/// A call of a tool.
#[derive(Debug, PartialEq, Eq)]
pub struct ToolCall {
    pub id: Option<String>,
    pub call_type: Option<String>,
    pub index: Option<u32>,
    pub function: FunctionCall,
}

/// The function that is called, and its arguments as JSON text.
#[derive(Debug, PartialEq, Eq)]
pub struct FunctionCall {
    pub name: String,
    pub arguments: String,
}

/// What a chunk adds to a message.
#[derive(Debug, PartialEq, Eq)]
pub struct Delta {
    pub role: Option<String>,
    pub content: Option<String>,
    pub tool_calls: Option<Vec<ToolCall>>,
    pub reasoning_text: Option<String>,
    pub reasoning_opaque: Option<String>,
}

impl Default for Delta {
    fn default() -> (delta: Delta)
        ensures
            delta == (Delta {
                role: None,
                content: None,
                tool_calls: None,
                reasoning_text: None,
                reasoning_opaque: None,
            }),
    {
        Delta { role: None, content: None, tool_calls: None, reasoning_text: None, reasoning_opaque: None }
    }
}

/// How many tokens were used.
#[derive(Debug, PartialEq, Eq)]
pub struct Usage {
    pub prompt_tokens: u64,
    pub completion_tokens: u64,
    pub total_tokens: u64,
    pub completion_tokens_details: Option<CompletionTokensDetails>,
}

/// How many tokens of a completion were used for what.
#[derive(Debug, PartialEq, Eq)]
pub struct CompletionTokensDetails {
    pub reasoning_tokens: Option<u64>,
    pub accepted_prediction_tokens: Option<u64>,
    pub rejected_prediction_tokens: Option<u64>,
}

/// How long a backend took, in its own numbers.
#[derive(Debug, PartialEq, Eq)]
pub struct Timings {
    pub prompt_n: Option<u64>,
    pub prompt_ms: Option<Json>,
    pub prompt_per_token_ms: Option<Json>,
    pub prompt_per_second: Option<Json>,
    pub predicted_n: Option<u64>,
    pub predicted_ms: Option<Json>,
    pub predicted_per_token_ms: Option<Json>,
    pub predicted_per_second: Option<Json>,
    pub cache_n: Option<u64>,
}

/// A chunk of a streamed response.
#[derive(Debug, PartialEq, Eq)]
pub struct StreamChunk {
    pub id: String,
    pub object: String,
    pub created: i64,
    pub model: String,
    pub choices: Vec<StreamChoice>,
    pub usage: Option<Usage>,
}

/// A choice of a chunk.
#[derive(Debug, PartialEq, Eq)]
pub struct StreamChoice {
    pub index: u32,
    pub delta: Delta,
    pub finish_reason: Option<String>,
}

/// A request of the messages API.
#[derive(Debug, PartialEq, Eq)]
pub struct AnthropicMessageRequest {
    pub model: Option<String>,
    pub messages: Vec<AnthropicMessageContent>,
    pub system: Option<String>,
    pub max_tokens: u32,
    pub stream: Option<bool>,
    pub temperature: Option<Json>,
    pub top_p: Option<Json>,
    pub tools: Option<Vec<AnthropicTool>>,
    pub tool_choice: Option<Json>,
    pub extra: TextMap<Json>,
}

/// A message of a request of the messages API.
#[derive(Debug, PartialEq, Eq)]
pub struct AnthropicMessageContent {
    pub role: String,
    pub content: Vec<AnthropicContentBlock>,
}

/// A tool of the messages API.
#[derive(Debug, PartialEq, Eq)]
pub struct AnthropicTool {
    pub name: String,
    pub description: Option<String>,
    pub input_schema: Json,
}

/// A response of the messages API.
#[derive(Debug, PartialEq, Eq)]
pub struct AnthropicMessage {
    pub id: String,
    pub message_type: String,
    pub role: String,
    pub content: Vec<AnthropicContentBlock>,
    pub model: String,
    pub stop_reason: Option<String>,
    pub stop_sequence: Option<String>,
    pub usage: AnthropicUsage,
}

/// A block of content of the messages API. A block of any other shape is kept
/// whole.
#[derive(Debug, PartialEq, Eq)]
pub enum AnthropicContentBlock {
    Text { text: String },
    Thinking { thinking: String, signature: Option<String> },
    ToolUse { id: String, name: String, input: Json },
    ToolResult { tool_use_id: String, content: Json, is_error: Option<bool> },
    Other(Json),
}

/// How many tokens were used.
#[derive(Debug, PartialEq, Eq)]
pub struct AnthropicUsage {
    pub input_tokens: u64,
    pub output_tokens: u64,
}

impl Default for AnthropicUsage {
    fn default() -> (usage: AnthropicUsage)
        ensures
            usage.input_tokens == 0,
            usage.output_tokens == 0,
    {
        AnthropicUsage { input_tokens: 0, output_tokens: 0 }
    }
}

/// The arguments of a function for which none are given.
pub fn default_empty_args() -> (args: String)
    ensures
        args@ == "{}"@,
{
    "{}".to_owned()
}

/// The kind of object that a response is, where it does not say.
pub fn default_chat_completion_object() -> (object: String)
    ensures
        object@ == "chat.completion"@,
{
    "chat.completion".to_owned()
}

/// The text of arguments: a text is taken as it is, null stands for no
/// arguments, and any other value is printed.
pub open spec fn arguments_text(value: JsonView) -> Seq<char> {
    match value {
        JsonView::Str(s) => s,
        JsonView::Null => "{}"@,
        other => printed(other),
    }
}

/// The text of arguments that came as a JSON value.
pub fn normalize_arguments(value: Json) -> (args: String)
    ensures
        args@ == arguments_text(value@),
{
    match value {
        Json::Str(s) => s,
        Json::Null => default_empty_args(),
        other => other.print(),
    }
}

/// A block, as contracts see it.
pub enum BlockView {
    Text(Seq<char>),
    Thinking(Seq<char>, Option<Seq<char>>),
    ToolUse { id: Seq<char>, name: Seq<char>, input: JsonView },
    ToolResult { tool_use_id: Seq<char>, content: JsonView, is_error: Option<bool> },
    Other(JsonView),
}

impl View for AnthropicContentBlock {
    type V = BlockView;

    open spec fn view(&self) -> BlockView {
        match self {
            AnthropicContentBlock::Text { text } => BlockView::Text(text@),
            AnthropicContentBlock::Thinking { thinking, signature } => BlockView::Thinking(
                thinking@,
                opt_text(*signature),
            ),
            AnthropicContentBlock::ToolUse { id, name, input } => BlockView::ToolUse {
                id: id@,
                name: name@,
                input: input@,
            },
            AnthropicContentBlock::ToolResult { tool_use_id, content, is_error } => BlockView::ToolResult {
                tool_use_id: tool_use_id@,
                content: content@,
                is_error: *is_error,
            },
            AnthropicContentBlock::Other(value) => BlockView::Other(value@),
        }
    }
}

/// The views of a list of blocks.
pub open spec fn block_views(blocks: Seq<AnthropicContentBlock>) -> Seq<BlockView> {
    Seq::new(blocks.len(), |i: int| blocks[i]@)
}

/// A tool call, as contracts see it.
pub struct ToolCallView {
    pub id: Option<Seq<char>>,
    pub call_type: Option<Seq<char>>,
    pub index: Option<u32>,
    pub name: Seq<char>,
    pub arguments: Seq<char>,
}

impl View for ToolCall {
    type V = ToolCallView;

    open spec fn view(&self) -> ToolCallView {
        ToolCallView {
            id: opt_text(self.id),
            call_type: opt_text(self.call_type),
            index: self.index,
            name: self.function.name@,
            arguments: self.function.arguments@,
        }
    }
}

/// The views of a list of tool calls.
pub open spec fn call_views(calls: Seq<ToolCall>) -> Seq<ToolCallView> {
    Seq::new(calls.len(), |i: int| calls[i]@)
}

/// The views of tool calls that may be missing.
pub open spec fn opt_call_views(calls: Option<Vec<ToolCall>>) -> Option<Seq<ToolCallView>> {
    match calls {
        Some(c) => Some(call_views(c@)),
        None => None,
    }
}

/// The text that a tool result contributes: a text as it is, and of a list the
/// texts of its text parts on lines of their own.
pub open spec fn result_text(content: JsonView) -> Option<Seq<char>> {
    match content {
        JsonView::Str(s) => Some(s),
        JsonView::Array(parts) => {
            let found = block_texts(parts, parts.len());
            if found.len() > 0 {
                Some(join_texts(found, "\n"@))
            } else {
                None
            }
        },
        _ => None,
    }
}

/// The texts of the first `n` blocks that make up the content of a message.
pub open spec fn content_texts(blocks: Seq<BlockView>, n: nat) -> Seq<Seq<char>>
    decreases n,
{
    if n == 0 || n > blocks.len() {
        Seq::empty()
    } else {
        let before = content_texts(blocks, (n - 1) as nat);
        match blocks[n - 1] {
            BlockView::Text(t) => before.push(t),
            BlockView::ToolResult { content, .. } => match result_text(content) {
                Some(t) => before.push(t),
                None => before,
            },
            _ => before,
        }
    }
}

/// The texts of the first `n` blocks that are reasoning.
pub open spec fn reasoning_texts(blocks: Seq<BlockView>, n: nat) -> Seq<Seq<char>>
    decreases n,
{
    if n == 0 || n > blocks.len() {
        Seq::empty()
    } else {
        let before = reasoning_texts(blocks, (n - 1) as nat);
        match blocks[n - 1] {
            BlockView::Thinking(t, _) => before.push(t),
            _ => before,
        }
    }
}

/// The first signature of reasoning among the first `n` blocks.
pub open spec fn first_signature(blocks: Seq<BlockView>, n: nat) -> Option<Seq<char>>
    decreases n,
{
    if n == 0 || n > blocks.len() {
        None
    } else {
        match first_signature(blocks, (n - 1) as nat) {
            Some(s) => Some(s),
            None => match blocks[n - 1] {
                BlockView::Thinking(_, signature) => signature,
                _ => None,
            },
        }
    }
}

/// The tool calls that the first `n` blocks ask for, numbered from 0.
pub open spec fn calls_of(blocks: Seq<BlockView>, n: nat) -> Seq<ToolCallView>
    decreases n,
{
    if n == 0 || n > blocks.len() {
        Seq::empty()
    } else {
        let before = calls_of(blocks, (n - 1) as nat);
        match blocks[n - 1] {
            BlockView::ToolUse { id, name, input } => before.push(
                ToolCallView {
                    id: Some(id),
                    call_type: Some("function"@),
                    index: Some((before.len() as usize) as u32),
                    name,
                    arguments: printed(input),
                },
            ),
            _ => before,
        }
    }
}

/// Texts on lines of their own, or nothing where there are none.
pub open spec fn lines_or_none(parts: Seq<Seq<char>>) -> Option<Seq<char>> {
    if parts.len() == 0 {
        None
    } else {
        Some(join_texts(parts, "\n"@))
    }
}

/// The reason why a response of the messages API ended, in the words of the
/// chat completion API. An unknown reason stays.
pub open spec fn finish_reason_of(stop_reason: Seq<char>) -> Seq<char> {
    if stop_reason == "end_turn"@ {
        "stop"@
    } else if stop_reason == "max_tokens"@ {
        "length"@
    } else if stop_reason == "stop_sequence"@ {
        "stop"@
    } else if stop_reason == "tool_use"@ {
        "tool_calls"@
    } else {
        stop_reason
    }
}

/// The reason why a chat completion ended, in the words of the messages API.
/// An unknown reason stays.
pub open spec fn stop_reason_of(finish_reason: Seq<char>) -> Seq<char> {
    if finish_reason == "stop"@ {
        "end_turn"@
    } else if finish_reason == "length"@ {
        "max_tokens"@
    } else if finish_reason == "tool_calls"@ {
        "tool_use"@
    } else {
        finish_reason
    }
}

/// A function on optional texts.
pub open spec fn opt_map(t: Option<Seq<char>>, f: spec_fn(Seq<char>) -> Seq<char>) -> Option<Seq<char>> {
    match t {
        Some(s) => Some(f(s)),
        None => None,
    }
}

fn lines(parts: &Vec<String>) -> (text: Option<String>)
    ensures
        opt_text(text) == lines_or_none(texts(parts@)),
{
    if parts.len() == 0 {
        None
    } else {
        Some(join(parts, "\n"))
    }
}

fn finish_reason(stop_reason: &str) -> (reason: String)
    ensures
        reason@ == finish_reason_of(stop_reason@),
{
    if same_text(stop_reason, "end_turn") {
        "stop".to_owned()
    } else if same_text(stop_reason, "max_tokens") {
        "length".to_owned()
    } else if same_text(stop_reason, "stop_sequence") {
        "stop".to_owned()
    } else if same_text(stop_reason, "tool_use") {
        "tool_calls".to_owned()
    } else {
        stop_reason.to_owned()
    }
}

fn stop_reason(finish_reason: &str) -> (reason: String)
    ensures
        reason@ == stop_reason_of(finish_reason@),
{
    if same_text(finish_reason, "stop") {
        "end_turn".to_owned()
    } else if same_text(finish_reason, "length") {
        "max_tokens".to_owned()
    } else if same_text(finish_reason, "tool_calls") {
        "tool_use".to_owned()
    } else {
        finish_reason.to_owned()
    }
}

/// Whether a chat completion says what a response of the messages API says:
/// texts and tool results are its content, thinking is its reasoning, and tool
/// uses are its tool calls.
pub open spec fn says_the_same(msg: AnthropicMessage, r: ChatCompletionResponse) -> bool {
    let blocks = block_views(msg.content@);
    let n = blocks.len();
    &&& r.id@ == msg.id@
    &&& r.object@ == "chat.completion"@
    &&& r.created == 0
    &&& r.model@ == msg.model@
    &&& r.timings is None
    &&& r.usage == Some(
        Usage {
            prompt_tokens: msg.usage.input_tokens,
            completion_tokens: msg.usage.output_tokens,
            total_tokens: (msg.usage.input_tokens + msg.usage.output_tokens) as u64,
            completion_tokens_details: None,
        },
    )
    &&& r.choices@.len() == 1
    &&& r.choices@[0].index == 0
    &&& r.choices@[0].delta is None
    &&& opt_text(r.choices@[0].finish_reason) == opt_map(
        opt_text(msg.stop_reason),
        |s: Seq<char>| finish_reason_of(s),
    )
    &&& r.choices@[0].message is Some
    &&& ({
        let m = r.choices@[0].message->0;
        &&& m.role@ == msg.role@
        &&& opt_text(m.content) == lines_or_none(content_texts(blocks, n))
        &&& opt_text(m.reasoning_text) == lines_or_none(reasoning_texts(blocks, n))
        &&& opt_text(m.reasoning_opaque) == first_signature(blocks, n)
        &&& opt_call_views(m.tool_calls) == if calls_of(blocks, n).len() > 0 {
            Some(calls_of(blocks, n))
        } else {
            None
        }
    })
}

/// Whether the input of every tool use among the first `n` blocks that is plain
/// is read back from its text.
pub open spec fn inputs_are_read_back(blocks: Seq<BlockView>, n: nat) -> bool {
    forall|i: int|
        0 <= i < n && (#[trigger] blocks[i]) is ToolUse && is_plain(blocks[i]->input, MAX_NESTING as nat)
            ==> input_of(printed(blocks[i]->input)) == blocks[i]->input
}

impl ChatCompletionResponse {
    /// A response of the messages API as a chat completion. The arguments of a
    /// tool call are the text of the input of its tool use; a plain input is
    /// read back from them.
    pub fn from(msg: AnthropicMessage) -> (r: ChatCompletionResponse)
        requires
            msg.usage.input_tokens + msg.usage.output_tokens <= u64::MAX,
        ensures
            says_the_same(msg, r),
            inputs_are_read_back(block_views(msg.content@), msg.content@.len()),
    {
        let mut content_parts: Vec<String> = Vec::new();
        let mut reasoning_parts: Vec<String> = Vec::new();
        let mut reasoning_opaque: Option<String> = None;
        let mut tool_calls: Vec<ToolCall> = Vec::new();
        let ghost blocks = block_views(msg.content@);
        let mut i: usize = 0;
        proof {
            assert(texts(content_parts@) =~= Seq::empty());
            assert(texts(reasoning_parts@) =~= Seq::empty());
            assert(call_views(tool_calls@) =~= Seq::empty());
        }
        while i < msg.content.len()
            invariant
                i <= msg.content@.len(),
                blocks == block_views(msg.content@),
                texts(content_parts@) == content_texts(blocks, i as nat),
                texts(reasoning_parts@) == reasoning_texts(blocks, i as nat),
                opt_text(reasoning_opaque) == first_signature(blocks, i as nat),
                call_views(tool_calls@) == calls_of(blocks, i as nat),
                inputs_are_read_back(blocks, i as nat),
            decreases msg.content@.len() - i,
        {
            let block = &msg.content[i];
            proof {
                assert(blocks[i as int] == block@);
            }
            match block {
                AnthropicContentBlock::Text { text } => {
                    content_parts.push(text.clone());
                },
                AnthropicContentBlock::Thinking { thinking, signature } => {
                    reasoning_parts.push(thinking.clone());
                    if reasoning_opaque.is_none() {
                        reasoning_opaque = copy_opt(signature);
                    }
                },
                AnthropicContentBlock::ToolUse { id, name, input } => {
                    let at = tool_calls.len();
                    let call = ToolCall {
                        id: Some(id.clone()),
                        call_type: Some("function".to_owned()),
                        index: Some(#[verifier::truncate] (at as u32)),
                        function: FunctionCall { name: name.clone(), arguments: input.print() },
                    };
                    let ghost before = tool_calls@;
                    let ghost shown = call@;
                    tool_calls.push(call);
                    proof {
                        assert(call_views(before).len() == at);
                        assert(call_views(tool_calls@) =~= call_views(before).push(shown));
                    }
                },
                AnthropicContentBlock::ToolResult { content, .. } => match content {
                    Json::Str(s) => {
                        content_parts.push(s.clone());
                    },
                    Json::Array(parts) => {
                        let found = collect_block_texts(parts);
                        proof {
                            assert(texts(found@).len() == found@.len());
                        }
                        if found.len() > 0 {
                            content_parts.push(join(&found, "\n"));
                        }
                    },
                    _ => {},
                },
                AnthropicContentBlock::Other(_) => {},
            }
            i += 1;
        }
        proof {
            assert(call_views(tool_calls@).len() == tool_calls@.len());
        }
        let message = ResponseMessage {
            role: msg.role,
            content: lines(&content_parts),
            tool_calls: if tool_calls.len() == 0 {
                None
            } else {
                Some(tool_calls)
            },
            reasoning_text: lines(&reasoning_parts),
            reasoning_opaque,
        };
        let mut choices: Vec<Choice> = Vec::new();
        choices.push(
            Choice {
                index: 0,
                message: Some(message),
                delta: None,
                finish_reason: match &msg.stop_reason {
                    Some(reason) => Some(finish_reason(reason.as_str())),
                    None => None,
                },
            },
        );
        ChatCompletionResponse {
            id: msg.id,
            object: "chat.completion".to_owned(),
            created: 0,
            model: msg.model,
            choices,
            usage: Some(
                Usage {
                    prompt_tokens: msg.usage.input_tokens,
                    completion_tokens: msg.usage.output_tokens,
                    total_tokens: msg.usage.input_tokens + msg.usage.output_tokens,
                    completion_tokens_details: None,
                },
            ),
            timings: None,
        }
    }
}

/// A lower case hexadecimal digit.
pub open spec fn is_hex(c: char) -> bool {
    ('0' <= c <= '9') || ('a' <= c <= 'f')
}

/// The places of the hyphens of a UUID.
pub open spec fn is_hyphen_place(i: int) -> bool {
    i == 8 || i == 13 || i == 18 || i == 23
}

/// The text of a UUID: groups of 8, 4, 4, 4 and 12 hexadecimal digits with
/// hyphens between them.
pub open spec fn is_uuid_text(t: Seq<char>) -> bool {
    &&& t.len() == 36
    &&& forall|i: int|
        0 <= i < 36 ==> if is_hyphen_place(i) {
            #[trigger] t[i] == '-'
        } else {
            is_hex(t[i])
        }
}

/// `uuid::Uuid::new_v4` and its text. It is random: all that holds of every
/// one is its shape.
#[verifier::external_body]
fn random_uuid() -> (text: String)
    ensures
        is_uuid_text(text@),
{
    uuid::Uuid::new_v4().to_string()
}

/// An id that a tool use is given where its call has none: `toolu_` and 32
/// hexadecimal digits.
pub open spec fn is_fresh_id(id: Seq<char>) -> bool {
    &&& id.len() == "toolu_"@.len() + 32
    &&& id.take("toolu_"@.len() as int) == "toolu_"@
    &&& forall|i: int| "toolu_"@.len() <= i < id.len() ==> is_hex(#[trigger] id[i])
}

/// The id made of a UUID.
pub open spec fn id_of_uuid(uuid: Seq<char>) -> Seq<char> {
    "toolu_"@ + uuid.filter(|c: char| c != '-')
}

/// The id made of the text of a UUID: its digits without the hyphens.
pub fn tool_use_id(uuid: &str) -> (id: String)
    ensures
        id@ == id_of_uuid(uuid@),
{
    let chars = crate::text::chars_of(uuid);
    let mut id = "toolu_".to_owned();
    let ghost keep = |c: char| c != '-';
    let mut i: usize = 0;
    proof {
        reveal(Seq::filter);
        assert(chars@.take(0).filter(keep) =~= Seq::empty());
        assert("toolu_"@ + Seq::<char>::empty() =~= "toolu_"@);
    }
    while i < chars.len()
        invariant
            i <= chars@.len(),
            keep == (|c: char| c != '-'),
            id@ == "toolu_"@ + chars@.take(i as int).filter(keep),
        decreases chars@.len() - i,
    {
        let ghost before = id@;
        if chars[i] != '-' {
            id.push(chars[i]);
        }
        proof {
            reveal(Seq::filter);
            assert(chars@.take(i + 1).drop_last() =~= chars@.take(i as int));
            assert(id@ =~= "toolu_"@ + chars@.take(i + 1).filter(keep));
        }
        i += 1;
    }
    proof {
        assert(chars@.take(chars@.len() as int) =~= uuid@);
    }
    id
}

/// The input of a tool use: its arguments, or an empty object where they are
/// no JSON.
pub open spec fn input_of(arguments: Seq<char>) -> JsonView {
    match parsed(arguments) {
        Ok(v) => v,
        Err(_) => JsonView::Object(Seq::empty()),
    }
}

/// The tool uses of the first `n` calls. A call without an id gets the one
/// that stands ready for it.
pub open spec fn uses_of(calls: Seq<ToolCallView>, ids: Seq<Seq<char>>, n: nat) -> Seq<BlockView>
    decreases n,
{
    if n == 0 || n > calls.len() {
        Seq::empty()
    } else {
        let call = calls[n - 1];
        uses_of(calls, ids, (n - 1) as nat).push(
            BlockView::ToolUse {
                id: match call.id {
                    Some(id) => id,
                    None => ids[n - 1],
                },
                name: call.name,
                input: input_of(call.arguments),
            },
        )
    }
}

/// The blocks of a message: reasoning, text that is not empty, and tool uses.
pub open spec fn message_blocks(m: ResponseMessage, ids: Seq<Seq<char>>) -> Seq<BlockView> {
    let thinking = match opt_text(m.reasoning_text) {
        Some(t) => seq![BlockView::Thinking(t, None)],
        None => Seq::empty(),
    };
    let text = match opt_text(m.content) {
        Some(t) => if t.len() > 0 {
            seq![BlockView::Text(t)]
        } else {
            Seq::empty()
        },
        None => Seq::empty(),
    };
    let uses = match opt_call_views(m.tool_calls) {
        Some(calls) => uses_of(calls, ids, calls.len()),
        None => Seq::empty(),
    };
    thinking + text + uses
}

/// The blocks of a response: those of its first message, or one empty text
/// where that gives none.
pub open spec fn response_blocks(r: ChatCompletionResponse, ids: Seq<Seq<char>>) -> Seq<BlockView> {
    let empty = seq![BlockView::Text(Seq::empty())];
    match first_message(r) {
        Some(m) => if message_blocks(m, ids).len() > 0 {
            message_blocks(m, ids)
        } else {
            empty
        },
        None => empty,
    }
}

/// The message of the first choice.
pub open spec fn first_message(r: ChatCompletionResponse) -> Option<ResponseMessage> {
    if r.choices@.len() > 0 {
        r.choices@[0].message
    } else {
        None
    }
}

/// How many tool calls the first message asks for.
pub open spec fn call_count(r: ChatCompletionResponse) -> nat {
    match first_message(r) {
        Some(m) => match m.tool_calls {
            Some(calls) => calls@.len(),
            None => 0,
        },
        None => 0,
    }
}

/// Whether a response of the messages API says what a chat completion says,
/// with these ids for the calls that have none.
pub open spec fn says_it_back(r: ChatCompletionResponse, ids: Seq<Seq<char>>, msg: AnthropicMessage) -> bool {
    &&& msg.id@ == r.id@
    &&& msg.message_type@ == "message"@
    &&& msg.role@ == "assistant"@
    &&& msg.model@ == r.model@
    &&& msg.stop_sequence is None
    &&& block_views(msg.content@) == response_blocks(r, ids)
    &&& opt_text(msg.stop_reason) == if r.choices@.len() > 0 {
        opt_map(opt_text(r.choices@[0].finish_reason), |s: Seq<char>| stop_reason_of(s))
    } else {
        None
    }
    &&& msg.usage == match r.usage {
        Some(u) => AnthropicUsage { input_tokens: u.prompt_tokens, output_tokens: u.completion_tokens },
        None => AnthropicUsage { input_tokens: 0, output_tokens: 0 },
    }
}

/// The tool use that a call asks for.
fn tool_use(call: &ToolCall, fresh: &str) -> (block: AnthropicContentBlock)
    ensures
        block@ == (BlockView::ToolUse {
            id: match call@.id {
                Some(id) => id,
                None => fresh@,
            },
            name: call@.name,
            input: input_of(call@.arguments),
        }),
{
    let input = match Json::parse(call.function.arguments.as_str()) {
        Ok(v) => v,
        Err(_) => {
            let members: Vec<(String, Json)> = Vec::new();
            proof {
                assert(crate::json::member_views(members@) =~= Seq::empty());
            }
            Json::Object(members)
        },
    };
    AnthropicContentBlock::ToolUse {
        id: match &call.id {
            Some(id) => id.clone(),
            None => fresh.to_owned(),
        },
        name: call.function.name.clone(),
        input,
    }
}

impl AnthropicMessage {
    /// A chat completion as a response of the messages API, with an id at hand
    /// for each tool call.
    pub fn from_with_ids(resp: ChatCompletionResponse, ids: &[String]) -> (msg: AnthropicMessage)
        requires
            ids@.len() >= call_count(resp),
        ensures
            says_it_back(resp, texts(ids@), msg),
    {
        let mut blocks: Vec<AnthropicContentBlock> = Vec::new();
        let mut reason: Option<String> = None;
        let ghost fresh = texts(ids@);
        proof {
            assert(block_views(blocks@) =~= Seq::empty());
        }
        if resp.choices.len() > 0 {
            if let Some(r) = &resp.choices[0].finish_reason {
                reason = Some(stop_reason(r.as_str()));
            }
            if let Some(m) = &resp.choices[0].message {
                if let Some(t) = &m.reasoning_text {
                    blocks.push(AnthropicContentBlock::Thinking { thinking: t.clone(), signature: None });
                }
                if let Some(t) = &m.content {
                    if !t.as_str().is_empty() {
                        blocks.push(AnthropicContentBlock::Text { text: t.clone() });
                    }
                }
                let ghost head = block_views(blocks@);
                proof {
                    let thinking = match opt_text(m.reasoning_text) {
                        Some(t) => seq![BlockView::Thinking(t, None)],
                        None => Seq::empty(),
                    };
                    let text = match opt_text(m.content) {
                        Some(t) => if t.len() > 0 {
                            seq![BlockView::Text(t)]
                        } else {
                            Seq::empty()
                        },
                        None => Seq::empty(),
                    };
                    assert(head =~= thinking + text);
                    assert(head + Seq::<BlockView>::empty() =~= head);
                }
                if let Some(calls) = &m.tool_calls {
                    let mut i: usize = 0;
                    while i < calls.len()
                        invariant
                            i <= calls@.len() <= ids@.len(),
                            fresh == texts(ids@),
                            block_views(blocks@) == head + uses_of(call_views(calls@), fresh, i as nat),
                        decreases calls@.len() - i,
                    {
                        let block = tool_use(&calls[i], ids[i].as_str());
                        let ghost before = blocks@;
                        let ghost shown = block@;
                        blocks.push(block);
                        proof {
                            assert(call_views(calls@)[i as int] == calls@[i as int]@);
                            assert(fresh[i as int] == ids@[i as int]@);
                            assert(block_views(blocks@) =~= block_views(before).push(shown));
                            assert(block_views(blocks@) =~= head + uses_of(call_views(calls@), fresh, (i + 1) as nat));
                        }
                        i += 1;
                    }
                }
                proof {
                    assert(block_views(blocks@) =~= message_blocks(*m, fresh));
                }
            }
        }
        proof {
            assert(block_views(blocks@).len() == blocks@.len());
        }
        if blocks.len() == 0 {
            blocks.push(AnthropicContentBlock::Text { text: String::new() });
            proof {
                assert(block_views(blocks@) =~= seq![BlockView::Text(Seq::empty())]);
            }
        }
        let usage = match &resp.usage {
            Some(u) => AnthropicUsage { input_tokens: u.prompt_tokens, output_tokens: u.completion_tokens },
            None => AnthropicUsage { input_tokens: 0, output_tokens: 0 },
        };
        AnthropicMessage {
            id: resp.id,
            message_type: "message".to_owned(),
            role: "assistant".to_owned(),
            content: blocks,
            model: resp.model,
            stop_reason: reason,
            stop_sequence: None,
            usage,
        }
    }

    /// A chat completion as a response of the messages API. A tool call
    /// without an id gets a random one.
    pub fn from(resp: ChatCompletionResponse) -> (msg: AnthropicMessage)
        ensures
            exists|ids: Seq<Seq<char>>|
                {
                    &&& ids.len() == call_count(resp)
                    &&& forall|i: int|
                        0 <= i < ids.len() && first_message(resp)->0.tool_calls->0@[i].id is None ==> is_fresh_id(
                            #[trigger] ids[i],
                        )
                    &&& #[trigger] says_it_back(resp, ids, msg)
                },
    {
        let mut ids: Vec<String> = Vec::new();
        if resp.choices.len() > 0 {
            if let Some(m) = &resp.choices[0].message {
                if let Some(calls) = &m.tool_calls {
                    let mut i: usize = 0;
                    while i < calls.len()
                        invariant
                            i <= calls@.len(),
                            ids@.len() == i,
                            forall|k: int| 0 <= k < i && calls@[k].id is None ==> is_fresh_id((#[trigger] ids@[k])@),
                        decreases calls@.len() - i,
                    {
                        if calls[i].id.is_some() {
                            ids.push(String::new());
                        } else {
                            let uuid = random_uuid();
                            let id = tool_use_id(uuid.as_str());
                            proof {
                                lemma_fresh_id(uuid@);
                            }
                            ids.push(id);
                        }
                        i += 1;
                    }
                }
            }
        }
        proof {
            assert forall|k: int|
                0 <= k < texts(ids@).len() && first_message(resp)->0.tool_calls->0@[k].id is None implies is_fresh_id(
                #[trigger] texts(ids@)[k],
            ) by {
                assert(texts(ids@)[k] == ids@[k]@);
            }
        }
        AnthropicMessage::from_with_ids(resp, ids.as_slice())
    }
}

/// Without its hyphens a UUID is 32 digits.
proof fn lemma_fresh_id(uuid: Seq<char>)
    requires
        is_uuid_text(uuid),
    ensures
        is_fresh_id(id_of_uuid(uuid)),
{
    let keep = |c: char| c != '-';
    lemma_digits(uuid, 36);
    assert(uuid.take(36) =~= uuid);
    let id = id_of_uuid(uuid);
    let digits = uuid.filter(keep);
    assert(id.take("toolu_"@.len() as int) =~= "toolu_"@);
    assert forall|i: int| "toolu_"@.len() <= i < id.len() implies is_hex(#[trigger] id[i]) by {
        assert(id[i] == digits[i - "toolu_"@.len()]);
    }
}

proof fn lemma_digits(uuid: Seq<char>, n: int)
    requires
        is_uuid_text(uuid),
        0 <= n <= 36,
    ensures
        ({
            let digits = uuid.take(n).filter(|c: char| c != '-');
            let hyphens: int = if n > 23 { 4 } else if n > 18 { 3 } else if n > 13 { 2 } else if n > 8 { 1 } else { 0 };
            &&& digits.len() == n - hyphens
            &&& forall|i: int| 0 <= i < digits.len() ==> is_hex(#[trigger] digits[i])
        }),
    decreases n,
{
    let keep = |c: char| c != '-';
    reveal(Seq::filter);
    if n > 0 {
        lemma_digits(uuid, n - 1);
        assert(uuid.take(n).drop_last() =~= uuid.take(n - 1));
        assert(uuid.take(n).last() == uuid[n - 1]);
    }
}

/// The tool calls of a converted message are numbered from 0.
pub proof fn law_tool_calls_are_numbered(blocks: Seq<BlockView>, n: nat, k: int)
    requires
        n <= blocks.len(),
        0 <= k < calls_of(blocks, n).len() <= u32::MAX,
    ensures
        calls_of(blocks, n)[k].index == Some(k as u32),
    decreases n,
{
    let before = calls_of(blocks, (n - 1) as nat);
    if k < before.len() {
        law_tool_calls_are_numbered(blocks, (n - 1) as nat, k);
    }
}

/// Reasoning is no content: it contributes nothing to the text of a message.
pub proof fn law_reasoning_is_not_content(blocks: Seq<BlockView>, n: nat)
    requires
        n <= blocks.len(),
        forall|i: int| 0 <= i < n ==> (#[trigger] blocks[i]) is Thinking,
    ensures
        content_texts(blocks, n) == Seq::<Seq<char>>::empty(),
        reasoning_texts(blocks, n).len() == n,
    decreases n,
{
    if n > 0 {
        law_reasoning_is_not_content(blocks, (n - 1) as nat);
        assert(blocks[n - 1] is Thinking);
    }
}

/// A reason for ending survives the way to the chat completion API and back,
/// but for `stop_sequence`, and for the words that the chat completion API
/// itself uses.
pub proof fn law_reasons_survive_the_round_trip(reason: Seq<char>)
    requires
        reason != "stop_sequence"@,
        reason != "stop"@,
        reason != "length"@,
        reason != "tool_calls"@,
    ensures
        stop_reason_of(finish_reason_of(reason)) == reason,
{
    reveal_strlit("stop");
    reveal_strlit("length");
    reveal_strlit("tool_calls");
    assert("stop"@.len() == 4 && "length"@.len() == 6 && "tool_calls"@.len() == 10);
}

/// What was used, the id and the model survive the way to the chat completion
/// API and back.
pub proof fn law_usage_survives_the_round_trip(
    msg: AnthropicMessage,
    r: ChatCompletionResponse,
    ids: Seq<Seq<char>>,
    back: AnthropicMessage,
)
    requires
        says_the_same(msg, r),
        says_it_back(r, ids, back),
    ensures
        back.usage == msg.usage,
        back.id@ == msg.id@,
        back.model@ == msg.model@,
{
}

/// A converted chat completion is never without content.
pub proof fn law_content_is_never_empty(r: ChatCompletionResponse, ids: Seq<Seq<char>>)
    ensures
        response_blocks(r, ids).len() > 0,
{
}

/// The tool uses among blocks.
pub open spec fn tool_uses(blocks: Seq<BlockView>) -> Seq<BlockView> {
    blocks.filter(|b: BlockView| b is ToolUse)
}

proof fn lemma_uses_of_calls(blocks: Seq<BlockView>, ids: Seq<Seq<char>>, n: nat)
    requires
        n <= blocks.len(),
        forall|i: int|
            0 <= i < n && (#[trigger] blocks[i]) is ToolUse ==> input_of(printed(blocks[i]->input)) == blocks[i]->input,
    ensures
        uses_of(calls_of(blocks, n), ids, calls_of(blocks, n).len()) == tool_uses(blocks.take(n as int)),
    decreases n,
{
    reveal(Seq::filter);
    if n > 0 {
        let calls = calls_of(blocks, n);
        let before = calls_of(blocks, (n - 1) as nat);
        lemma_uses_of_calls(blocks, ids, (n - 1) as nat);
        assert(blocks.take(n as int).drop_last() =~= blocks.take(n - 1));
        assert(blocks.take(n as int).last() == blocks[n - 1]);
        if blocks[n - 1] is ToolUse {
            lemma_uses_prefix(before, calls, ids, before.len());
        }
    }
}

proof fn lemma_uses_prefix(a: Seq<ToolCallView>, b: Seq<ToolCallView>, ids: Seq<Seq<char>>, n: nat)
    requires
        n <= a.len(),
        n <= b.len(),
        forall|i: int| 0 <= i < n ==> a[i] == b[i],
    ensures
        uses_of(a, ids, n) == uses_of(b, ids, n),
    decreases n,
{
    if n > 0 {
        lemma_uses_prefix(a, b, ids, (n - 1) as nat);
    }
}

proof fn lemma_uses_are_uses(calls: Seq<ToolCallView>, ids: Seq<Seq<char>>, n: nat)
    ensures
        tool_uses(uses_of(calls, ids, n)) == uses_of(calls, ids, n),
    decreases n,
{
    reveal(Seq::filter);
    if n > 0 && n <= calls.len() {
        lemma_uses_are_uses(calls, ids, (n - 1) as nat);
        assert(uses_of(calls, ids, n).drop_last() =~= uses_of(calls, ids, (n - 1) as nat));
    }
}

/// At most one block that is no tool use holds no tool use.
proof fn lemma_no_uses(blocks: Seq<BlockView>)
    requires
        blocks.len() <= 1,
        blocks.len() == 1 ==> !(blocks[0] is ToolUse),
    ensures
        tool_uses(blocks) == Seq::<BlockView>::empty(),
{
    reveal(Seq::filter);
    if blocks.len() == 1 {
        assert(blocks.drop_last() =~= Seq::empty());
        assert(blocks.drop_last().filter(|b: BlockView| b is ToolUse) =~= Seq::empty());
    }
    assert(tool_uses(blocks) =~= Seq::empty());
}

/// The tool uses of a message are those of its calls.
proof fn lemma_message_uses(m: ResponseMessage, ids: Seq<Seq<char>>)
    ensures
        tool_uses(message_blocks(m, ids)) == match opt_call_views(m.tool_calls) {
            Some(calls) => uses_of(calls, ids, calls.len()),
            None => Seq::empty(),
        },
{
    let is_use = |b: BlockView| b is ToolUse;
    let thinking = match opt_text(m.reasoning_text) {
        Some(t) => seq![BlockView::Thinking(t, None)],
        None => Seq::empty(),
    };
    let text = match opt_text(m.content) {
        Some(t) => if t.len() > 0 {
            seq![BlockView::Text(t)]
        } else {
            Seq::empty()
        },
        None => Seq::empty(),
    };
    let uses = match opt_call_views(m.tool_calls) {
        Some(calls) => uses_of(calls, ids, calls.len()),
        None => Seq::empty(),
    };
    lemma_no_uses(thinking);
    lemma_no_uses(text);
    if let Some(calls) = opt_call_views(m.tool_calls) {
        lemma_uses_are_uses(calls, ids, calls.len());
    } else {
        lemma_no_uses(uses);
    }
    Seq::filter_distributes_over_add(thinking + text, uses, is_use);
    Seq::filter_distributes_over_add(thinking, text, is_use);
    assert(message_blocks(m, ids) == thinking + text + uses);
    assert(tool_uses(message_blocks(m, ids)) =~= uses);
}

/// Tool uses survive the way to the chat completion API and back, in their
/// order, where their inputs are read back from their texts. Plain inputs are.
pub proof fn law_tool_uses_survive_the_round_trip(
    msg: AnthropicMessage,
    r: ChatCompletionResponse,
    ids: Seq<Seq<char>>,
    back: AnthropicMessage,
)
    requires
        says_the_same(msg, r),
        says_it_back(r, ids, back),
        inputs_are_read_back(block_views(msg.content@), msg.content@.len()),
        forall|i: int|
            0 <= i < msg.content@.len() && (#[trigger] block_views(msg.content@)[i]) is ToolUse ==> is_plain(
                block_views(msg.content@)[i]->input,
                MAX_NESTING as nat,
            ),
    ensures
        tool_uses(block_views(back.content@)) == tool_uses(block_views(msg.content@)),
{
    let blocks = block_views(msg.content@);
    let n = blocks.len();
    let m = first_message(r)->0;
    let calls = calls_of(blocks, n);
    assert forall|i: int| 0 <= i < n && (#[trigger] blocks[i]) is ToolUse implies input_of(printed(blocks[i]->input))
        == blocks[i]->input by {
        assert(is_plain(blocks[i]->input, MAX_NESTING as nat));
    }
    lemma_uses_of_calls(blocks, ids, n);
    assert(blocks.take(n as int) =~= blocks);
    lemma_message_uses(m, ids);
    lemma_no_uses(seq![BlockView::Text(Seq::empty())]);
}

/// The id made of a UUID holds its five groups one behind the other, without the hyphens.
pub proof fn law_ids_are_the_groups_of_a_uuid(
    a: Seq<char>,
    b: Seq<char>,
    c: Seq<char>,
    d: Seq<char>,
    e: Seq<char>,
)
    requires
        !a.contains('-'),
        !b.contains('-'),
        !c.contains('-'),
        !d.contains('-'),
        !e.contains('-'),
    ensures
        id_of_uuid(a + seq!['-'] + b + seq!['-'] + c + seq!['-'] + d + seq!['-'] + e) == "toolu_"@ + a + b + c + d + e,
{
    let keep = |c: char| c != '-';
    let h = seq!['-'];
    reveal(Seq::filter);
    assert(h.drop_last() =~= Seq::<char>::empty());
    assert(h.drop_last().filter(keep) =~= Seq::<char>::empty());
    assert(!keep(h.last()));
    assert(h.filter(keep) =~= Seq::<char>::empty());
    lemma_no_hyphens(a);
    lemma_no_hyphens(b);
    lemma_no_hyphens(c);
    lemma_no_hyphens(d);
    lemma_no_hyphens(e);
    let p1 = a + h;
    let p2 = p1 + b;
    let p3 = p2 + h;
    let p4 = p3 + c;
    let p5 = p4 + h;
    let p6 = p5 + d;
    let p7 = p6 + h;
    Seq::filter_distributes_over_add(a, h, keep);
    Seq::filter_distributes_over_add(p1, b, keep);
    Seq::filter_distributes_over_add(p2, h, keep);
    Seq::filter_distributes_over_add(p3, c, keep);
    Seq::filter_distributes_over_add(p4, h, keep);
    Seq::filter_distributes_over_add(p5, d, keep);
    Seq::filter_distributes_over_add(p6, h, keep);
    Seq::filter_distributes_over_add(p7, e, keep);
    assert((p7 + e).filter(keep) =~= a + b + c + d + e);
    assert("toolu_"@ + (a + b + c + d + e) =~= "toolu_"@ + a + b + c + d + e);
}

proof fn lemma_no_hyphens(s: Seq<char>)
    requires
        !s.contains('-'),
    ensures
        s.filter(|c: char| c != '-') == s,
    decreases s.len(),
{
    reveal(Seq::filter);
    if s.len() > 0 {
        let front = s.drop_last();
        assert(s.last() != '-') by {
            assert(s.contains(s.last()));
        }
        assert(!front.contains('-')) by {
            if front.contains('-') {
                let i = choose|i: int| 0 <= i < front.len() && front[i] == '-';
                assert(s[i] == '-');
            }
        }
        lemma_no_hyphens(front);
        assert(front.push(s.last()) =~= s);
    }
}

/// A random id is `toolu_` and 32 hexadecimal digits, whatever the UUID.
pub proof fn law_random_ids_have_their_shape(uuid: Seq<char>)
    requires
        is_uuid_text(uuid),
    ensures
        is_fresh_id(id_of_uuid(uuid)),
        id_of_uuid(uuid).len() == 38,
{
    lemma_fresh_id(uuid);
    reveal_strlit("toolu_");
}

} // verus!
