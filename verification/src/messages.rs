//! The conversation data model: message roles, chat messages, requests,
//! responses and tool-call records exchanged with a model provider.
use vstd::prelude::*;

verus! {

/// The role a message plays in a conversation.
#[derive(Clone, Copy, Debug, PartialEq, Eq, Structural)]
pub enum Role {
    System,
    User,
    Assistant,
    Tool,
}

/// One conversation message. A conversation is an ordered, append-only
/// sequence of these; the first message, when its role is `System`, is the
/// pinned message that context trimming never drops.
#[derive(Debug)]
pub struct ChatMessage {
    pub role: Role,
    pub content: String,
    pub name: Option<String>,
    pub tool_call_id: Option<String>,
}

/// The mathematical shape of a message.
pub struct MessageView {
    pub role: Role,
    pub content: Seq<char>,
    pub name: Option<Seq<char>>,
    pub tool_call_id: Option<Seq<char>>,
}

/// The view of an optional text.
pub open spec fn opt_text(o: Option<String>) -> Option<Seq<char>> {
    match o {
        Some(s) => Some(s@),
        None => None,
    }
}

impl View for ChatMessage {
    type V = MessageView;

    open spec fn view(&self) -> MessageView {
        MessageView {
            role: self.role,
            content: self.content@,
            name: opt_text(self.name),
            tool_call_id: opt_text(self.tool_call_id),
        }
    }
}

/// The views of a message sequence.
pub open spec fn views(h: Seq<ChatMessage>) -> Seq<MessageView> {
    h.map_values(|m: ChatMessage| m@)
}

/// Clones an optional string, preserving the value exactly.
pub fn clone_opt_string(o: &Option<String>) -> (r: Option<String>)
    ensures
        r == *o,
{
    match o {
        Some(s) => Some(s.clone()),
        None => None,
    }
}

impl Clone for ChatMessage {
    fn clone(&self) -> (r: Self)
        ensures
            r == *self,
    {
        ChatMessage {
            role: self.role,
            content: self.content.clone(),
            name: clone_opt_string(&self.name),
            tool_call_id: clone_opt_string(&self.tool_call_id),
        }
    }
}

impl ChatMessage {
    pub fn user(content: String) -> (m: ChatMessage)
        ensures
            m.role == Role::User,
            m.content == content,
            m.name is None,
            m.tool_call_id is None,
    {
        ChatMessage { role: Role::User, content, name: None, tool_call_id: None }
    }

    pub fn system(content: String) -> (m: ChatMessage)
        ensures
            m.role == Role::System,
            m.content == content,
            m.name is None,
            m.tool_call_id is None,
    {
        ChatMessage { role: Role::System, content, name: None, tool_call_id: None }
    }
}

/// Token counts reported by a provider for one exchange.
#[derive(Clone, Copy, Debug, PartialEq, Eq, Structural, Default)]
pub struct Usage {
    pub input_tokens: u32,
    pub output_tokens: u32,
    pub total_tokens: u32,
}

/// A model-issued request to invoke a registered tool. `arguments` holds the
/// call's argument object as JSON text.
#[derive(Debug)]
pub struct ToolCall {
    pub id: Option<String>,
    pub name: String,
    pub arguments: String,
}

impl Clone for ToolCall {
    fn clone(&self) -> (r: Self)
        ensures
            r == *self,
    {
        ToolCall {
            id: clone_opt_string(&self.id),
            name: self.name.clone(),
            arguments: self.arguments.clone(),
        }
    }
}

/// What one (non-streaming) provider exchange produced.
#[derive(Debug)]
pub struct ChatResponse {
    pub content: Option<String>,
    pub tool_calls: Option<Vec<ToolCall>>,
    pub usage: Option<Usage>,
}

/// One streamed fragment: an optional text delta, and a flag set when the
/// stream signals that a tool invocation has been triggered mid-flight.
#[derive(Debug)]
pub struct ChatDelta {
    pub delta: Option<String>,
    pub tool_trigger: bool,
}

/// The shape of one stored session: the conversation it holds.
#[derive(Debug)]
pub struct SessionFile {
    pub messages: Vec<ChatMessage>,
}

/// A provider request. `temperature_bits` carries the sampling temperature as
/// the bit pattern of its 32-bit float, so the cache key can be derived from
/// it without floating-point arithmetic.
#[derive(Debug)]
pub struct ChatRequest {
    pub model: String,
    pub system: Option<String>,
    pub messages: Vec<ChatMessage>,
    pub stream: bool,
    pub temperature_bits: Option<u32>,
    pub max_tokens: Option<u32>,
    pub tools: Option<Vec<crate::tools::ToolSpec>>,
    pub session_id: Option<String>,
}

} // verus!
