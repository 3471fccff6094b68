//! The formats of the APIs that the proxy speaks.

pub mod blocks;
pub mod laws;
pub mod openai;
pub mod requests;
pub mod wire_laws;

pub use openai::{
    AnthropicContentBlock, AnthropicMessage, AnthropicUsage, ChatCompletionRequest, ChatCompletionResponse, Choice,
    ContentPart, Delta, FunctionCall, Message, MessageContent, ResponseMessage, ToolCall, Usage,
};
