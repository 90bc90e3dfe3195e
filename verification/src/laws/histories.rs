//! Promises about adapting a history to the model that a round is routed to.

use crate::message::{ContentView, Message, MessageContent, MessageRole, MessageView};
use crate::round_replay::history;
use vstd::prelude::*;

verus! {

/// The name of the model family stands at `start`, each letter small or capital.
pub open spec fn names_family_at(model_id: Seq<char>, start: int) -> bool {
    &&& 0 <= start
    &&& start + 8 <= model_id.len()
    &&& forall|i: int|
        0 <= i < 8 ==> (#[trigger] "deepseek"@[i]) == model_id[start + i] || "DEEPSEEK"@[i]
            == model_id[start + i]
}

/// A model is adapted to exactly if its id holds the name of the family somewhere.
pub proof fn lemma_family_is_found_anywhere(model_id: Seq<char>)
    ensures
        history::expects_reasoning(model_id) <==> exists|start: int| #[trigger]
            names_family_at(model_id, start),
{
    reveal_strlit("deepseek");
    reveal_strlit("DEEPSEEK");
    let name = "deepseek"@;
    assert forall|start: int| #[trigger]
        names_family_at(model_id, start) <==> history::occurs_at(model_id, name, start) by {
        if names_family_at(model_id, start) {
            assert forall|i: int| 0 <= i < 8 implies history::ascii_lower(model_id[start + i])
                == #[trigger] name[i] by {
                assert(name[i] == model_id[start + i] || "DEEPSEEK"@[i] == model_id[start + i]);
            }
        }
        if history::occurs_at(model_id, name, start) {
            assert forall|i: int| 0 <= i < 8 implies (#[trigger] name[i]) == model_id[start + i]
                || "DEEPSEEK"@[i] == model_id[start + i] by {
                assert(history::ascii_lower(model_id[start + i]) == name[i]);
                let c = model_id[start + i];
                if 'A' <= c <= 'Z' {
                    assert(c as int + 32 == name[i] as int);
                }
            }
        }
    }
    if history::expects_reasoning(model_id) {
        let start = choose|start: int| history::occurs_at(model_id, name, start);
        assert(names_family_at(model_id, start));
    }
    if exists|start: int| #[trigger] names_family_at(model_id, start) {
        let start = choose|start: int| #[trigger] names_family_at(model_id, start);
        assert(history::occurs_at(model_id, name, start));
    }
}

/// A message is its role, its content and whatever else it holds.
pub proof fn lemma_messages_keep_everything(message: Message, messages: Seq<Message>)
    ensures
        message@.role == message.role,
        message@.rest == message.rest@,
        message.content matches MessageContent::Text(text) ==> message@.content
            == ContentView::Text(text@),
        message.content matches MessageContent::Other(json) ==> message@.content
            == ContentView::Other(json@),
        message.content matches MessageContent::Mixed { reasoning_content, text, tool_calls }
            ==> message@.content == (ContentView::Mixed {
            reasoning_content: if reasoning_content is Some {
                Some(reasoning_content->0@)
            } else {
                None
            },
            text: text@,
            tool_calls: tool_calls@,
        }),
        history::history_view(messages).len() == messages.len(),
        forall|i: int|
            0 <= i < messages.len() ==> #[trigger] history::history_view(messages)[i]
                == messages[i]@,
{
}

/// For a model outside the family a history stays as it is.
pub proof fn lemma_other_models_get_the_history_as_it_is(
    messages: Seq<MessageView>,
    model_id: Seq<char>,
)
    requires
        forall|start: int| !(#[trigger] names_family_at(model_id, start)),
    ensures
        history::routed_history(messages, model_id) == messages,
{
    lemma_family_is_found_anywhere(model_id);
}

/// For a model of the family an assistant turn that calls tools and came without a
/// reasoning gets an empty one, with all else as it was; every other message stays.
pub proof fn lemma_missing_reasoning_is_filled_in(
    messages: Seq<MessageView>,
    model_id: Seq<char>,
    start: int,
    index: int,
)
    requires
        names_family_at(model_id, start),
        0 <= index < messages.len(),
    ensures
        ({
            let before = messages[index];
            let after = history::routed_history(messages, model_id)[index];
            let lacks = before.role == MessageRole::Assistant && before.content is Mixed
                && before.content->tool_calls.len() > 0 && before.content->reasoning_content
                is None;
            &&& history::routed_history(messages, model_id).len() == messages.len()
            &&& after.role == before.role
            &&& after.rest == before.rest
            &&& !lacks ==> after == before
            &&& lacks ==> {
                &&& after.content is Mixed
                &&& after.content->reasoning_content == Some(Seq::<char>::empty())
                &&& after.content->Mixed_text == before.content->Mixed_text
                &&& after.content->tool_calls == before.content->tool_calls
            }
        }),
{
    lemma_family_is_found_anywhere(model_id);
}

} // verus!
