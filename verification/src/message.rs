//! The messages of a model conversation, as far as the runtime reads them.

use vstd::prelude::*;

verus! {

/// Who a message speaks for.
#[derive(Debug, Clone, Copy, PartialEq, Eq, Structural)]
pub enum MessageRole {
    System,
    User,
    Assistant,
    Tool,
}

/// One tool invocation that a model asked for. `arguments` is JSON text.
#[derive(Debug, Clone, PartialEq, Eq)]
pub struct ToolCall {
    pub tool_id: String,
    pub tool_name: String,
    pub arguments: String,
    pub raw_arguments: Option<String>,
    pub is_error: bool,
    pub recovered_from_truncation: bool,
}

/// The body of a message.
#[derive(Debug, Clone, PartialEq, Eq)]
pub enum MessageContent {
    Text(String),
    /// An assistant turn: its text, the tools it calls and the reasoning behind it.
    Mixed { reasoning_content: Option<String>, text: String, tool_calls: Vec<ToolCall> },
    /// Any other body, kept as JSON text.
    Other(String),
}

#[derive(Debug, Clone, PartialEq, Eq)]
pub struct Message {
    pub role: MessageRole,
    pub content: MessageContent,
    /// Whatever else a stored message holds, as the JSON text of an object; empty for
    /// nothing.
    pub rest: String,
}

/// The body of a message, with its texts as character sequences.
pub enum ContentView {
    Text(Seq<char>),
    Mixed { reasoning_content: Option<Seq<char>>, text: Seq<char>, tool_calls: Seq<ToolCall> },
    Other(Seq<char>),
}

pub struct MessageView {
    pub role: MessageRole,
    pub content: ContentView,
    pub rest: Seq<char>,
}

impl View for Message {
    type V = MessageView;

    open spec fn view(&self) -> MessageView {
        MessageView {
            role: self.role,
            content: match self.content {
                MessageContent::Text(text) => ContentView::Text(text@),
                MessageContent::Mixed { reasoning_content, text, tool_calls } => ContentView::Mixed {
                    reasoning_content: match reasoning_content {
                        Some(reasoning) => Some(reasoning@),
                        None => None,
                    },
                    text: text@,
                    tool_calls: tool_calls@,
                },
                MessageContent::Other(json) => ContentView::Other(json@),
            },
            rest: self.rest@,
        }
    }
}

impl Message {
    /// A plain message from the user.
    pub fn user(text: String) -> (message: Self)
        ensures
            message@ == (MessageView {
                role: MessageRole::User,
                content: ContentView::Text(text@),
                rest: Seq::empty(),
            }),
    {
        Message {
            role: MessageRole::User,
            content: MessageContent::Text(text),
            rest: String::new(),
        }
    }

    /// An assistant turn with its reasoning, if the model sent any.
    pub fn assistant_with_reasoning(
        reasoning_content: Option<String>,
        text: String,
        tool_calls: Vec<ToolCall>,
    ) -> (message: Self)
        ensures
            message@.role == MessageRole::Assistant,
            message.content == (MessageContent::Mixed { reasoning_content, text, tool_calls }),
            message@.rest == Seq::<char>::empty(),
    {
        Message {
            role: MessageRole::Assistant,
            content: MessageContent::Mixed { reasoning_content, text, tool_calls },
            rest: String::new(),
        }
    }
}

} // verus!
