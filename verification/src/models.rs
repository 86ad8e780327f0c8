use vstd::prelude::*;
use crate::json::{JsonTree, JsonValue};

verus! {

/// One message of an OpenAI-style chat conversation.
#[derive(Debug, PartialEq)]
pub struct ChatMessage {
    pub role: String,
    pub content: Option<JsonValue>,
    pub name: Option<String>,
    pub tool_calls: Option<JsonValue>,
    pub tool_call_id: Option<String>,
}

/// The mathematical content of a chat message.
pub struct MessageView {
    pub role: Seq<char>,
    pub content: Option<JsonTree>,
    pub name: Option<Seq<char>>,
    pub tool_calls: Option<JsonTree>,
    pub tool_call_id: Option<Seq<char>>,
}

/// An optional string as an optional character sequence.
pub open spec fn opt_text(s: Option<String>) -> Option<Seq<char>> {
    match s {
        Some(t) => Some(t@),
        None => None,
    }
}

impl View for ChatMessage {
    type V = MessageView;

    open spec fn view(&self) -> MessageView {
        MessageView {
            role: self.role@,
            content: content_tree(self.content),
            name: opt_text(self.name),
            tool_calls: content_tree(self.tool_calls),
            tool_call_id: opt_text(self.tool_call_id),
        }
    }
}

/// A list of messages, message by message.
pub open spec fn messages_view(ms: Seq<ChatMessage>) -> Seq<MessageView> {
    ms.map_values(|m: ChatMessage| m@)
}

/// The content of a message, as a JSON tree.
pub open spec fn content_tree(content: Option<JsonValue>) -> Option<JsonTree> {
    match content {
        Some(v) => Some(v@),
        None => None,
    }
}

/// A chat-completion request as the gateway receives and forwards it.
#[derive(Debug, PartialEq)]
pub struct ChatCompletionRequest {
    pub model: String,
    pub messages: Vec<ChatMessage>,
    pub prompt: Option<JsonValue>,
    pub input: Option<JsonValue>,
    /// Fields of the request that the gateway does not know by name.
    pub extra_fields: Vec<(String, JsonValue)>,
}

/// The detail of an error answer.
#[derive(Debug, PartialEq)]
pub struct ErrorDetails {
    pub message: String,
    pub error_type: String,
    pub code: String,
}

/// An OpenAI-style error answer.
#[derive(Debug, PartialEq)]
pub struct ErrorResponse {
    pub error: ErrorDetails,
}

} // verus!
