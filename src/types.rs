//! Plain data exchanged with a chat-completion service.

use vstd::prelude::*;

verus! {

/// A specific format for the model's output.
#[derive(Debug, Clone, PartialEq)]
pub struct ResponseFormat {
    /// The type of response format, for example `json_object`.
    pub format_type: String,
}

/// A specific tool function to be called by the model.
#[derive(Debug, Clone, Default, PartialEq)]
pub struct ToolChoiceFunction {
    /// The name of the function to be called.
    pub name: String,
}

/// An object naming a particular tool to be called.
#[derive(Debug, Clone, Default, PartialEq)]
pub struct ToolChoiceObject {
    /// The type of the tool; only `function` is supported.
    pub tool_type: String,
    /// The function to be called.
    pub function: ToolChoiceFunction,
}

/// Which tool, if any, the model calls.
#[derive(Debug, Clone, PartialEq)]
pub enum ToolChoice {
    /// One of `none`, `auto` or `required`.
    String(String),
    /// An object forcing a specific tool.
    Object(ToolChoiceObject),
}

/// The type of a response object.
#[derive(Debug, Clone, Copy, PartialEq, Eq, Structural)]
pub enum CompletionObject {
    /// A whole completion.
    ChatCompletion,
    /// One chunk of a streamed completion.
    ChatCompletionChunk,
}

/// Token counts of a completion.
#[derive(Debug, Clone, Copy, PartialEq, Eq, Structural)]
pub struct ResponseUsage {
    /// Tokens in the prompt.
    pub prompt_tokens: u32,
    /// Tokens in the generated completion.
    pub completion_tokens: u32,
    /// Tokens used in all.
    pub total_tokens: u32,
}

/// The message of a non-streaming response.
#[derive(Debug, Clone, PartialEq)]
pub struct ResponseMessage {
    /// The content, if any.
    pub content: Option<String>,
    /// The role of the author, for example `assistant`.
    pub role: String,
    /// The tool calls the model made, if any.
    pub tool_calls: Option<Vec<ToolCall>>,
}

/// The content fragment of one streamed chunk.
#[derive(Debug, Clone, PartialEq)]
pub struct Delta {
    /// A content fragment.
    pub content: Option<String>,
    /// The role of the author, usually only in the first chunk.
    pub role: Option<String>,
    /// Tool calls, possibly in fragments across chunks.
    pub tool_calls: Option<Vec<ToolCall>>,
}

/// A tool call requested by the model.
#[derive(Debug, Clone, PartialEq)]
pub struct ToolCall {
    /// The id of the call.
    pub id: String,
    /// The type of the tool; only `function` is supported.
    pub tool_type: String,
    /// The function to call.
    pub function: FunctionCall,
}

/// The function of a tool call.
#[derive(Debug, Clone, PartialEq)]
pub struct FunctionCall {
    /// The name of the function.
    pub name: String,
    /// The arguments, as JSON text.
    pub arguments: String,
}

} // verus!
