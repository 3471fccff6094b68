//! The parts of a request, read from JSON.
//!
//! A part is an object, or a list of its fields in their order. A field that may
//! be missing may be null as well; members that are not fields are passed over.

use vstd::prelude::*;
use vstd::string::*;
use crate::api::blocks::{
    field, find_field, find_text_field, is_listed_within, lists_at_most, maybe_text_field, text_field,
};
use crate::api::openai::{
    arguments_text, call_views, default_empty_args, normalize_arguments, ContentPart, FunctionCall, FunctionDef,
    FunctionRef, ImageUrl, Message, MessageContent, Tool, ToolCall, ToolCallView, ToolChoice, ToolChoiceObject,
};
use crate::json::{views, Json, JsonView};
use crate::text::{group_texts, opt_text, texts};

verus! {

broadcast use {vstd::string::group_string_axioms, crate::json::group_json, crate::text::group_texts};

/// An image, as contracts see it.
pub struct ImageUrlView {
    pub url: Seq<char>,
    pub detail: Option<Seq<char>>,
}

impl View for ImageUrl {
    type V = ImageUrlView;

    open spec fn view(&self) -> ImageUrlView {
        ImageUrlView { url: self.url@, detail: opt_text(self.detail) }
    }
}

/// A part of a content, as contracts see it.
pub struct ContentPartView {
    pub content_type: Seq<char>,
    pub text: Option<Seq<char>>,
    pub image_url: Option<ImageUrlView>,
}

impl View for ContentPart {
    type V = ContentPartView;

    open spec fn view(&self) -> ContentPartView {
        ContentPartView {
            content_type: self.content_type@,
            text: opt_text(self.text),
            image_url: match self.image_url {
                Some(i) => Some(i@),
                None => None,
            },
        }
    }
}

/// The views of a list of parts.
pub open spec fn part_views(parts: Seq<ContentPart>) -> Seq<ContentPartView> {
    Seq::new(parts.len(), |i: int| parts[i]@)
}

/// A content, as contracts see it.
pub enum ContentView {
    Text(Seq<char>),
    Parts(Seq<ContentPartView>),
}

impl View for MessageContent {
    type V = ContentView;

    open spec fn view(&self) -> ContentView {
        match self {
            MessageContent::Text(t) => ContentView::Text(t@),
            MessageContent::Parts(p) => ContentView::Parts(part_views(p@)),
        }
    }
}

/// A message, as contracts see it.
pub struct MessageView {
    pub role: Seq<char>,
    pub content: Option<ContentView>,
    pub name: Option<Seq<char>>,
    pub tool_calls: Option<Seq<ToolCallView>>,
    pub tool_call_id: Option<Seq<char>>,
}

impl View for Message {
    type V = MessageView;

    open spec fn view(&self) -> MessageView {
        MessageView {
            role: self.role@,
            content: match self.content {
                Some(c) => Some(c@),
                None => None,
            },
            name: opt_text(self.name),
            tool_calls: match self.tool_calls {
                Some(c) => Some(call_views(c@)),
                None => None,
            },
            tool_call_id: opt_text(self.tool_call_id),
        }
    }
}

/// The views of a list of messages.
pub open spec fn message_views(messages: Seq<Message>) -> Seq<MessageView> {
    Seq::new(messages.len(), |i: int| messages[i]@)
}

/// A tool, as contracts see it.
pub struct ToolView {
    pub tool_type: Seq<char>,
    pub name: Seq<char>,
    pub description: Option<Seq<char>>,
    pub parameters: JsonView,
}

impl View for Tool {
    type V = ToolView;

    open spec fn view(&self) -> ToolView {
        ToolView {
            tool_type: self.tool_type@,
            name: self.function.name@,
            description: opt_text(self.function.description),
            parameters: self.function.parameters@,
        }
    }
}

/// The views of a list of tools.
pub open spec fn tool_views(tools: Seq<Tool>) -> Seq<ToolView> {
    Seq::new(tools.len(), |i: int| tools[i]@)
}

/// A choice of tools, as contracts see it.
pub enum ToolChoiceView {
    Text(Seq<char>),
    Object { choice_type: Seq<char>, function: Option<Seq<char>> },
}

impl View for ToolChoice {
    type V = ToolChoiceView;

    open spec fn view(&self) -> ToolChoiceView {
        match self {
            ToolChoice::String(s) => ToolChoiceView::Text(s@),
            ToolChoice::Object(o) => ToolChoiceView::Object {
                choice_type: o.choice_type@,
                function: match o.function {
                    Some(f) => Some(f.name@),
                    None => None,
                },
            },
        }
    }
}

/// Whether a field stands for nothing: it is missing, or null.
pub open spec fn is_nothing(v: Option<JsonView>) -> bool {
    v is None || v->0 is Null
}

/// The image that a value is.
pub open spec fn image_of(raw: JsonView) -> Option<ImageUrlView> {
    match (text_field(raw, "url"@, 0), maybe_text_field(raw, "detail"@, 1)) {
        (Some(url), Some(detail)) => if lists_at_most(raw, 2) {
            Some(ImageUrlView { url, detail })
        } else {
            None
        },
        _ => None,
    }
}

/// The part of a content that a value is.
pub open spec fn part_of(raw: JsonView) -> Option<ContentPartView> {
    let image = field(raw, "image_url"@, 2);
    match (text_field(raw, "type"@, 0), maybe_text_field(raw, "text"@, 1)) {
        (Some(content_type), Some(text)) => if !lists_at_most(raw, 3) {
            None
        } else if is_nothing(image) {
            Some(ContentPartView { content_type, text, image_url: None })
        } else {
            match image_of(image->0) {
                Some(i) => Some(ContentPartView { content_type, text, image_url: Some(i) }),
                None => None,
            }
        },
        _ => None,
    }
}

/// The parts that the first `n` values are, where each of them is one.
pub open spec fn parts_of(raw: Seq<JsonView>, n: nat) -> Option<Seq<ContentPartView>>
    decreases n,
{
    if n == 0 || n > raw.len() {
        Some(Seq::empty())
    } else {
        match (parts_of(raw, (n - 1) as nat), part_of(raw[n - 1])) {
            (Some(before), Some(part)) => Some(before.push(part)),
            _ => None,
        }
    }
}

/// The content that a value is: a text, or a list of parts.
pub open spec fn content_of(raw: JsonView) -> Option<ContentView> {
    match raw {
        JsonView::Str(s) => Some(ContentView::Text(s)),
        JsonView::Array(a) => match parts_of(a, a.len()) {
            Some(parts) => Some(ContentView::Parts(parts)),
            None => None,
        },
        _ => None,
    }
}

/// A number of 32 bits that may be missing. Outside it stands whether a field
/// has that shape.
pub open spec fn maybe_u32_of(v: Option<JsonView>) -> Option<Option<u32>> {
    match v {
        None => Some(None),
        Some(JsonView::Null) => Some(None),
        Some(JsonView::Unsigned(n)) => if n <= u32::MAX {
            Some(Some(n as u32))
        } else {
            None
        },
        Some(_) => None,
    }
}

/// The name and the arguments of the function that a value calls. Arguments that
/// are missing are those of an empty object.
pub open spec fn function_of(raw: JsonView) -> Option<(Seq<char>, Seq<char>)> {
    match text_field(raw, "name"@, 0) {
        Some(name) => if lists_at_most(raw, 2) {
            Some(
                (
                    name,
                    match field(raw, "arguments"@, 1) {
                        Some(v) => arguments_text(v),
                        None => "{}"@,
                    },
                ),
            )
        } else {
            None
        },
        None => None,
    }
}

/// The tool call that a value is.
pub open spec fn call_of(raw: JsonView) -> Option<ToolCallView> {
    match (
        maybe_text_field(raw, "id"@, 0),
        maybe_text_field(raw, "type"@, 1),
        maybe_u32_of(field(raw, "index"@, 2)),
        field(raw, "function"@, 3),
    ) {
        (Some(id), Some(call_type), Some(index), Some(function)) => match function_of(function) {
            Some((name, arguments)) => if lists_at_most(raw, 4) {
                Some(ToolCallView { id, call_type, index, name, arguments })
            } else {
                None
            },
            None => None,
        },
        _ => None,
    }
}

/// The tool calls that the first `n` values are, where each of them is one.
pub open spec fn calls_of(raw: Seq<JsonView>, n: nat) -> Option<Seq<ToolCallView>>
    decreases n,
{
    if n == 0 || n > raw.len() {
        Some(Seq::empty())
    } else {
        match (calls_of(raw, (n - 1) as nat), call_of(raw[n - 1])) {
            (Some(before), Some(call)) => Some(before.push(call)),
            _ => None,
        }
    }
}

/// A content that may be missing. Outside it stands whether a field has that
/// shape.
pub open spec fn maybe_content_of(v: Option<JsonView>) -> Option<Option<ContentView>> {
    if is_nothing(v) {
        Some(None)
    } else {
        match content_of(v->0) {
            Some(c) => Some(Some(c)),
            None => None,
        }
    }
}

/// Tool calls that may be missing. Outside it stands whether a field has that
/// shape.
pub open spec fn maybe_calls_of(v: Option<JsonView>) -> Option<Option<Seq<ToolCallView>>> {
    if is_nothing(v) {
        Some(None)
    } else {
        match v->0 {
            JsonView::Array(a) => match calls_of(a, a.len()) {
                Some(c) => Some(Some(c)),
                None => None,
            },
            _ => None,
        }
    }
}

/// The message that a value is.
pub open spec fn message_of(raw: JsonView) -> Option<MessageView> {
    match (
        text_field(raw, "role"@, 0),
        maybe_content_of(field(raw, "content"@, 1)),
        maybe_text_field(raw, "name"@, 2),
        maybe_calls_of(field(raw, "tool_calls"@, 3)),
        maybe_text_field(raw, "tool_call_id"@, 4),
    ) {
        (Some(role), Some(content), Some(name), Some(tool_calls), Some(tool_call_id)) => if lists_at_most(raw, 5) {
            Some(MessageView { role, content, name, tool_calls, tool_call_id })
        } else {
            None
        },
        _ => None,
    }
}

/// The messages that the first `n` values are, where each of them is one.
pub open spec fn messages_of(raw: Seq<JsonView>, n: nat) -> Option<Seq<MessageView>>
    decreases n,
{
    if n == 0 || n > raw.len() {
        Some(Seq::empty())
    } else {
        match (messages_of(raw, (n - 1) as nat), message_of(raw[n - 1])) {
            (Some(before), Some(message)) => Some(before.push(message)),
            _ => None,
        }
    }
}

/// The tool that a value is.
pub open spec fn tool_of(raw: JsonView) -> Option<ToolView> {
    match (text_field(raw, "type"@, 0), field(raw, "function"@, 1)) {
        (Some(tool_type), Some(f)) => match (
            text_field(f, "name"@, 0),
            maybe_text_field(f, "description"@, 1),
            field(f, "parameters"@, 2),
        ) {
            (Some(name), Some(description), Some(parameters)) => if lists_at_most(raw, 2) && lists_at_most(f, 3) {
                Some(ToolView { tool_type, name, description, parameters })
            } else {
                None
            },
            _ => None,
        },
        _ => None,
    }
}

/// The tools that the first `n` values are, where each of them is one.
pub open spec fn tools_of(raw: Seq<JsonView>, n: nat) -> Option<Seq<ToolView>>
    decreases n,
{
    if n == 0 || n > raw.len() {
        Some(Seq::empty())
    } else {
        match (tools_of(raw, (n - 1) as nat), tool_of(raw[n - 1])) {
            (Some(before), Some(tool)) => Some(before.push(tool)),
            _ => None,
        }
    }
}

/// The choice of tools that a value is: a word, or a kind with the name of a
/// function that may be missing. In a list of fields it may be null, but not
/// missing.
pub open spec fn choice_of(raw: JsonView) -> Option<ToolChoiceView> {
    let function = field(raw, "function"@, 1);
    match raw {
        JsonView::Str(s) => Some(ToolChoiceView::Text(s)),
        _ => match text_field(raw, "type"@, 0) {
            Some(choice_type) => if !lists_at_most(raw, 2) || (raw is Array && function is None) {
                None
            } else if is_nothing(function) {
                Some(ToolChoiceView::Object { choice_type, function: None })
            } else {
                match text_field(function->0, "name"@, 0) {
                    Some(name) => if lists_at_most(function->0, 1) {
                        Some(ToolChoiceView::Object { choice_type, function: Some(name) })
                    } else {
                        None
                    },
                    None => None,
                }
            },
            None => None,
        },
    }
}

/// Looks a field up that is a text and may be missing. `Err` where it is
/// something else.
fn find_maybe_text(raw: &Json, key: &str, place: usize) -> (found: Result<Option<String>, ()>)
    ensures
        match found {
            Ok(t) => maybe_text_field(raw@, key@, place as int) == Some(opt_text(t)),
            Err(_) => maybe_text_field(raw@, key@, place as int) is None,
        },
{
    match find_field(raw, key, place) {
        None => Ok(None),
        Some(Json::Null) => Ok(None),
        Some(Json::Str(s)) => Ok(Some(s.clone())),
        Some(_) => Err(()),
    }
}

fn read_image(raw: &Json) -> (image: Option<ImageUrl>)
    ensures
        match image {
            Some(i) => image_of(raw@) == Some(i@),
            None => image_of(raw@) is None,
        },
{
    let url = find_text_field(raw, "url", 0)?;
    match find_maybe_text(raw, "detail", 1) {
        Ok(detail) => if is_listed_within(raw, 2) {
            Some(ImageUrl { url, detail })
        } else {
            None
        },
        Err(_) => None,
    }
}

fn read_part(raw: &Json) -> (part: Option<ContentPart>)
    ensures
        match part {
            Some(p) => part_of(raw@) == Some(p@),
            None => part_of(raw@) is None,
        },
{
    let content_type = find_text_field(raw, "type", 0)?;
    let text = match find_maybe_text(raw, "text", 1) {
        Ok(text) => text,
        Err(_) => {
            return None;
        },
    };
    if !is_listed_within(raw, 3) {
        return None;
    }
    match find_field(raw, "image_url", 2) {
        None => Some(ContentPart { content_type, text, image_url: None }),
        Some(Json::Null) => Some(ContentPart { content_type, text, image_url: None }),
        Some(image) => {
            let image_url = read_image(image)?;
            Some(ContentPart { content_type, text, image_url: Some(image_url) })
        },
    }
}

fn read_parts(raw: &Vec<Json>) -> (parts: Option<Vec<ContentPart>>)
    ensures
        match parts {
            Some(p) => parts_of(views(raw@), raw@.len()) == Some(part_views(p@)),
            None => parts_of(views(raw@), raw@.len()) is None,
        },
{
    let mut parts: Vec<ContentPart> = Vec::new();
    let mut i: usize = 0;
    proof {
        assert(part_views(parts@) =~= Seq::empty());
    }
    while i < raw.len()
        invariant
            i <= raw@.len(),
            parts_of(views(raw@), i as nat) == Some(part_views(parts@)),
        decreases raw@.len() - i,
    {
        match read_part(&raw[i]) {
            Some(part) => {
                let ghost before = parts@;
                let ghost shown = part@;
                parts.push(part);
                proof {
                    assert(part_views(parts@) =~= part_views(before).push(shown));
                }
            },
            None => {
                proof {
                    lemma_parts_stop(views(raw@), (i + 1) as nat, raw@.len());
                }
                return None;
            },
        }
        i += 1;
    }
    Some(parts)
}

proof fn lemma_parts_stop(raw: Seq<JsonView>, i: nat, n: nat)
    requires
        i <= n <= raw.len(),
        parts_of(raw, i) is None,
    ensures
        parts_of(raw, n) is None,
    decreases n - i,
{
    if i < n {
        lemma_parts_stop(raw, i, (n - 1) as nat);
    }
}

fn read_content(raw: &Json) -> (content: Option<MessageContent>)
    ensures
        match content {
            Some(c) => content_of(raw@) == Some(c@),
            None => content_of(raw@) is None,
        },
{
    match raw {
        Json::Str(s) => Some(MessageContent::Text(s.clone())),
        Json::Array(a) => {
            let parts = read_parts(a)?;
            Some(MessageContent::Parts(parts))
        },
        _ => None,
    }
}

fn read_function(raw: &Json) -> (function: Option<FunctionCall>)
    ensures
        match function {
            Some(f) => function_of(raw@) == Some((f.name@, f.arguments@)),
            None => function_of(raw@) is None,
        },
{
    let name = find_text_field(raw, "name", 0)?;
    if !is_listed_within(raw, 2) {
        return None;
    }
    let arguments = match find_field(raw, "arguments", 1) {
        Some(v) => normalize_arguments(v.clone()),
        None => default_empty_args(),
    };
    Some(FunctionCall { name, arguments })
}

fn read_call(raw: &Json) -> (call: Option<ToolCall>)
    ensures
        match call {
            Some(c) => call_of(raw@) == Some(c@),
            None => call_of(raw@) is None,
        },
{
    let id = match find_maybe_text(raw, "id", 0) {
        Ok(id) => id,
        Err(_) => {
            return None;
        },
    };
    let call_type = match find_maybe_text(raw, "type", 1) {
        Ok(t) => t,
        Err(_) => {
            return None;
        },
    };
    let index: Option<u32> = match find_field(raw, "index", 2) {
        None => None,
        Some(Json::Null) => None,
        Some(Json::Unsigned(n)) => if *n <= u32::MAX as u64 {
            Some(*n as u32)
        } else {
            return None;
        },
        Some(_) => {
            return None;
        },
    };
    let function = match find_field(raw, "function", 3) {
        Some(f) => read_function(f)?,
        None => {
            return None;
        },
    };
    if is_listed_within(raw, 4) {
        Some(ToolCall { id, call_type, index, function })
    } else {
        None
    }
}

fn read_calls(raw: &Vec<Json>) -> (calls: Option<Vec<ToolCall>>)
    ensures
        match calls {
            Some(c) => calls_of(views(raw@), raw@.len()) == Some(call_views(c@)),
            None => calls_of(views(raw@), raw@.len()) is None,
        },
{
    let mut calls: Vec<ToolCall> = Vec::new();
    let mut i: usize = 0;
    proof {
        assert(call_views(calls@) =~= Seq::empty());
    }
    while i < raw.len()
        invariant
            i <= raw@.len(),
            calls_of(views(raw@), i as nat) == Some(call_views(calls@)),
        decreases raw@.len() - i,
    {
        match read_call(&raw[i]) {
            Some(call) => {
                let ghost before = calls@;
                let ghost shown = call@;
                calls.push(call);
                proof {
                    assert(call_views(calls@) =~= call_views(before).push(shown));
                }
            },
            None => {
                proof {
                    lemma_calls_stop(views(raw@), (i + 1) as nat, raw@.len());
                }
                return None;
            },
        }
        i += 1;
    }
    Some(calls)
}

proof fn lemma_calls_stop(raw: Seq<JsonView>, i: nat, n: nat)
    requires
        i <= n <= raw.len(),
        calls_of(raw, i) is None,
    ensures
        calls_of(raw, n) is None,
    decreases n - i,
{
    if i < n {
        lemma_calls_stop(raw, i, (n - 1) as nat);
    }
}

/// The message that a value is, if it is one.
pub fn read_message(raw: &Json) -> (message: Option<Message>)
    ensures
        match message {
            Some(m) => message_of(raw@) == Some(m@),
            None => message_of(raw@) is None,
        },
{
    let role = find_text_field(raw, "role", 0)?;
    let content = match find_field(raw, "content", 1) {
        None => None,
        Some(Json::Null) => None,
        Some(c) => Some(read_content(c)?),
    };
    let name = match find_maybe_text(raw, "name", 2) {
        Ok(name) => name,
        Err(_) => {
            return None;
        },
    };
    let tool_calls = match find_field(raw, "tool_calls", 3) {
        None => None,
        Some(Json::Null) => None,
        Some(Json::Array(a)) => Some(read_calls(a)?),
        Some(_) => {
            return None;
        },
    };
    let tool_call_id = match find_maybe_text(raw, "tool_call_id", 4) {
        Ok(id) => id,
        Err(_) => {
            return None;
        },
    };
    if is_listed_within(raw, 5) {
        Some(Message { role, content, name, tool_calls, tool_call_id })
    } else {
        None
    }
}

/// The messages that values are, if each of them is one.
pub fn read_messages(raw: &Vec<Json>) -> (messages: Option<Vec<Message>>)
    ensures
        match messages {
            Some(m) => messages_of(views(raw@), raw@.len()) == Some(message_views(m@)),
            None => messages_of(views(raw@), raw@.len()) is None,
        },
{
    let mut messages: Vec<Message> = Vec::new();
    let mut i: usize = 0;
    proof {
        assert(message_views(messages@) =~= Seq::empty());
    }
    while i < raw.len()
        invariant
            i <= raw@.len(),
            messages_of(views(raw@), i as nat) == Some(message_views(messages@)),
        decreases raw@.len() - i,
    {
        match read_message(&raw[i]) {
            Some(message) => {
                let ghost before = messages@;
                let ghost shown = message@;
                messages.push(message);
                proof {
                    assert(message_views(messages@) =~= message_views(before).push(shown));
                }
            },
            None => {
                proof {
                    lemma_messages_stop(views(raw@), (i + 1) as nat, raw@.len());
                }
                return None;
            },
        }
        i += 1;
    }
    Some(messages)
}

proof fn lemma_messages_stop(raw: Seq<JsonView>, i: nat, n: nat)
    requires
        i <= n <= raw.len(),
        messages_of(raw, i) is None,
    ensures
        messages_of(raw, n) is None,
    decreases n - i,
{
    if i < n {
        lemma_messages_stop(raw, i, (n - 1) as nat);
    }
}

fn read_tool(raw: &Json) -> (tool: Option<Tool>)
    ensures
        match tool {
            Some(t) => tool_of(raw@) == Some(t@),
            None => tool_of(raw@) is None,
        },
{
    let tool_type = find_text_field(raw, "type", 0)?;
    let f = match find_field(raw, "function", 1) {
        Some(f) => f,
        None => {
            return None;
        },
    };
    let name = find_text_field(f, "name", 0)?;
    let description = match find_maybe_text(f, "description", 1) {
        Ok(d) => d,
        Err(_) => {
            return None;
        },
    };
    let parameters = match find_field(f, "parameters", 2) {
        Some(p) => p.clone(),
        None => {
            return None;
        },
    };
    if is_listed_within(raw, 2) && is_listed_within(f, 3) {
        Some(Tool { tool_type, function: FunctionDef { name, description, parameters } })
    } else {
        None
    }
}

/// The tools that values are, if each of them is one.
pub fn read_tools(raw: &Vec<Json>) -> (tools: Option<Vec<Tool>>)
    ensures
        match tools {
            Some(t) => tools_of(views(raw@), raw@.len()) == Some(tool_views(t@)),
            None => tools_of(views(raw@), raw@.len()) is None,
        },
{
    let mut tools: Vec<Tool> = Vec::new();
    let mut i: usize = 0;
    proof {
        assert(tool_views(tools@) =~= Seq::empty());
    }
    while i < raw.len()
        invariant
            i <= raw@.len(),
            tools_of(views(raw@), i as nat) == Some(tool_views(tools@)),
        decreases raw@.len() - i,
    {
        match read_tool(&raw[i]) {
            Some(tool) => {
                let ghost before = tools@;
                let ghost shown = tool@;
                tools.push(tool);
                proof {
                    assert(tool_views(tools@) =~= tool_views(before).push(shown));
                }
            },
            None => {
                proof {
                    lemma_tools_stop(views(raw@), (i + 1) as nat, raw@.len());
                }
                return None;
            },
        }
        i += 1;
    }
    Some(tools)
}

proof fn lemma_tools_stop(raw: Seq<JsonView>, i: nat, n: nat)
    requires
        i <= n <= raw.len(),
        tools_of(raw, i) is None,
    ensures
        tools_of(raw, n) is None,
    decreases n - i,
{
    if i < n {
        lemma_tools_stop(raw, i, (n - 1) as nat);
    }
}

/// The choice of tools that a value is, if it is one.
pub fn read_choice(raw: &Json) -> (choice: Option<ToolChoice>)
    ensures
        match choice {
            Some(c) => choice_of(raw@) == Some(c@),
            None => choice_of(raw@) is None,
        },
{
    if let Json::Str(s) = raw {
        return Some(ToolChoice::String(s.clone()));
    }
    let choice_type = find_text_field(raw, "type", 0)?;
    let in_list = match raw {
        Json::Array(_) => true,
        _ => false,
    };
    if !is_listed_within(raw, 2) {
        return None;
    }
    match find_field(raw, "function", 1) {
        None => if in_list {
            None
        } else {
            Some(ToolChoice::Object(ToolChoiceObject { choice_type, function: None }))
        },
        Some(Json::Null) => Some(ToolChoice::Object(ToolChoiceObject { choice_type, function: None })),
        Some(f) => {
            let name = find_text_field(f, "name", 0)?;
            if is_listed_within(f, 1) {
                Some(ToolChoice::Object(ToolChoiceObject { choice_type, function: Some(FunctionRef { name }) }))
            } else {
                None
            }
        },
    }
}

/// The texts that the first `n` values are, where each of them is one.
pub open spec fn strings_of(raw: Seq<JsonView>, n: nat) -> Option<Seq<Seq<char>>>
    decreases n,
{
    if n == 0 || n > raw.len() {
        Some(Seq::empty())
    } else {
        match (strings_of(raw, (n - 1) as nat), raw[n - 1].as_str()) {
            (Some(before), Some(s)) => Some(before.push(s)),
            _ => None,
        }
    }
}

/// The texts that values are, if each of them is one.
pub fn read_strings(raw: &Vec<Json>) -> (strings: Option<Vec<String>>)
    ensures
        match strings {
            Some(s) => strings_of(views(raw@), raw@.len()) == Some(texts(s@)),
            None => strings_of(views(raw@), raw@.len()) is None,
        },
{
    let mut strings: Vec<String> = Vec::new();
    let mut i: usize = 0;
    proof {
        assert(texts(strings@) =~= Seq::empty());
    }
    while i < raw.len()
        invariant
            i <= raw@.len(),
            strings_of(views(raw@), i as nat) == Some(texts(strings@)),
        decreases raw@.len() - i,
    {
        match raw[i].as_str() {
            Some(s) => {
                strings.push(s.to_owned());
            },
            None => {
                proof {
                    lemma_strings_stop(views(raw@), (i + 1) as nat, raw@.len());
                }
                return None;
            },
        }
        i += 1;
    }
    Some(strings)
}

proof fn lemma_strings_stop(raw: Seq<JsonView>, i: nat, n: nat)
    requires
        i <= n <= raw.len(),
        strings_of(raw, i) is None,
    ensures
        strings_of(raw, n) is None,
    decreases n - i,
{
    if i < n {
        lemma_strings_stop(raw, i, (n - 1) as nat);
    }
}

} // verus!
