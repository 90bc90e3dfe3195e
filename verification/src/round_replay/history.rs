//! Adapting the message history to the model that a round is routed to.

use crate::message::{ContentView, Message, MessageContent, MessageRole, MessageView};
use crate::text::to_chars;
use vstd::prelude::*;

verus! {

/// The part of a model id that marks the models whose history needs adapting.
pub const REASONING_MODEL_FAMILY: &'static str = "deepseek";

/// `c` with an ASCII capital letter turned into the small one.
pub open spec fn ascii_lower(c: char) -> char {
    if 'A' <= c <= 'Z' {
        (c as u32 + 32) as char
    } else {
        c
    }
}

/// `pattern` occurs in `text` at `start` when the case of ASCII letters in `text` is ignored.
pub open spec fn occurs_at(text: Seq<char>, pattern: Seq<char>, start: int) -> bool {
    &&& 0 <= start <= text.len() - pattern.len()
    &&& forall|i: int|
        0 <= i < pattern.len() ==> ascii_lower(text[start + i]) == #[trigger] pattern[i]
}

/// The model belongs to the family that expects reasoning beside every tool call.
pub open spec fn expects_reasoning(model_id: Seq<char>) -> bool {
    exists|start: int| occurs_at(model_id, REASONING_MODEL_FAMILY@, start)
}

/// A message with an empty reasoning in place of a missing one, if it is an
/// assistant turn that calls tools.
pub open spec fn with_reasoning(message: MessageView) -> MessageView {
    match message.content {
        ContentView::Mixed { reasoning_content: None, text, tool_calls } => if message.role
            == MessageRole::Assistant && tool_calls.len() > 0 {
            MessageView {
                role: message.role,
                content: ContentView::Mixed {
                    reasoning_content: Some(Seq::empty()),
                    text,
                    tool_calls,
                },
                rest: message.rest,
            }
        } else {
            message
        },
        _ => message,
    }
}

/// The history that is sent to `model_id` in place of `messages`.
pub open spec fn routed_history(messages: Seq<MessageView>, model_id: Seq<char>) -> Seq<
    MessageView,
> {
    if expects_reasoning(model_id) {
        messages.map_values(|message: MessageView| with_reasoning(message))
    } else {
        messages
    }
}

pub open spec fn history_view(messages: Seq<Message>) -> Seq<MessageView> {
    messages.map_values(|message: Message| message@)
}

fn to_ascii_lower(c: char) -> (lower: char)
    ensures
        lower == ascii_lower(c),
{
    if 'A' <= c && c <= 'Z' {
        let code: u8 = c as u8;
        (code + 32) as char
    } else {
        c
    }
}

/// Whether `pattern` occurs in `text` when the case of ASCII letters in `text` is ignored.
fn contains_ignoring_case(text: &str, pattern: &str) -> (found: bool)
    ensures
        found == exists|start: int| occurs_at(text@, pattern@, start),
{
    let chars = to_chars(text);
    let expected = to_chars(pattern);
    if chars.len() < expected.len() {
        return false;
    }
    let last: usize = chars.len() - expected.len();
    let mut start: usize = 0;
    loop
        invariant
            chars@ == text@,
            expected@ == pattern@,
            last == chars.len() - expected.len(),
            start <= last,
            forall|s: int| s < start ==> !occurs_at(text@, pattern@, s),
        decreases last - start,
    {
        let mut i: usize = 0;
        while i < expected.len() && to_ascii_lower(chars[start + i]) == expected[i]
            invariant
                chars@ == text@,
                expected@ == pattern@,
                last == chars.len() - expected.len(),
                start <= last,
                i <= expected.len(),
                forall|j: int|
                    0 <= j < i ==> ascii_lower(text@[start + j]) == #[trigger] pattern@[j],
            decreases expected.len() - i,
        {
            i += 1;
        }
        if i == expected.len() {
            assert(occurs_at(text@, pattern@, start as int));
            return true;
        }
        assert(!occurs_at(text@, pattern@, start as int)) by {
            assert(ascii_lower(text@[start + i]) != pattern@[i as int]);
        }
        if start == last {
            assert forall|s: int| !occurs_at(text@, pattern@, s) by {}
            return false;
        }
        start += 1;
    }
}

/// Gives every assistant turn that calls tools a reasoning, an empty one where the
/// model sent none, if the routed model expects reasoning beside tool calls.
pub fn normalize_routed_model_history(messages: &mut [Message], routed_model_id: &str)
    ensures
        history_view(final(messages)@) == routed_history(
            history_view(old(messages)@),
            routed_model_id@,
        ),
{
    if !contains_ignoring_case(routed_model_id, REASONING_MODEL_FAMILY) {
        return ;
    }
    let ghost before = messages@;
    let mut i: usize = 0;
    while i < messages.len()
        invariant
            i <= messages.len(),
            messages.len() == before.len(),
            forall|j: int| 0 <= j < i ==> (#[trigger] messages[j])@ == with_reasoning(before[j]@),
            forall|j: int| i <= j < before.len() ==> #[trigger] messages[j] == before[j],
        decreases messages.len() - i,
    {
        if messages[i].role == MessageRole::Assistant {
            let message = &mut messages[i];
            if let MessageContent::Mixed { reasoning_content, tool_calls, .. } = &mut message.content {
                if !tool_calls.is_empty() && reasoning_content.is_none() {
                    *reasoning_content = Some(String::new());
                }
            }
        }
        i += 1;
    }
    assert(history_view(messages@) =~= routed_history(history_view(before), routed_model_id@));
}

/// Adapting a history a second time changes nothing.
pub proof fn lemma_routed_history_idempotent(messages: Seq<MessageView>, model_id: Seq<char>)
    ensures
        routed_history(routed_history(messages, model_id), model_id) == routed_history(
            messages,
            model_id,
        ),
{
    assert(routed_history(routed_history(messages, model_id), model_id) =~= routed_history(
        messages,
        model_id,
    ));
}

/// In a history sent to a model that expects reasoning, every assistant turn that
/// calls tools carries a reasoning.
pub proof fn lemma_routed_history_has_reasoning(
    messages: Seq<MessageView>,
    model_id: Seq<char>,
    index: int,
)
    requires
        expects_reasoning(model_id),
        0 <= index < messages.len(),
        messages[index].role == MessageRole::Assistant,
    ensures
        routed_history(messages, model_id)[index].content matches ContentView::Mixed {
            reasoning_content,
            tool_calls,
            ..
        } ==> tool_calls.len() > 0 ==> reasoning_content is Some,
{
}

/// Adapting a history touches nothing but the missing reasoning: roles, texts, tool
/// calls and the reasoning that a model did send all stay.
pub proof fn lemma_routed_history_keeps_the_rest(
    messages: Seq<MessageView>,
    model_id: Seq<char>,
    index: int,
)
    requires
        0 <= index < messages.len(),
    ensures
        routed_history(messages, model_id).len() == messages.len(),
        routed_history(messages, model_id)[index].role == messages[index].role,
        match (messages[index].content, routed_history(messages, model_id)[index].content) {
            (
                ContentView::Mixed { reasoning_content: before, text: text_before, tool_calls: calls_before },
                ContentView::Mixed { reasoning_content: after, text: text_after, tool_calls: calls_after },
            ) => {
                &&& text_before == text_after
                &&& calls_before == calls_after
                &&& before is Some ==> after == before
            },
            (before, after) => before == after,
        },
{
}

} // verus!
