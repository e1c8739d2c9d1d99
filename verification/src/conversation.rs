//! The turns of a conversation, as they are handed on to the model.

use vstd::prelude::*;

use crate::gemini::{self, Content, ContentView, GeminiRequest, Tool};
use crate::text;

verus! {

/// What was said earlier, by the user or by the assistant.
#[derive(Debug)]
pub struct ConversationTurn {
    /// `user` or `assistant`.
    pub role: String,
    pub content: String,
}

impl ConversationTurn {
    /// A turn of the user.
    pub fn user(content: &str) -> (res: Self)
        ensures
            res.role@ == "user"@,
            res.content@ == content@,
    {
        ConversationTurn { role: text::copy("user"), content: text::copy(content) }
    }

    /// A turn of the assistant.
    pub fn assistant(content: &str) -> (res: Self)
        ensures
            res.role@ == "assistant"@,
            res.content@ == content@,
    {
        ConversationTurn { role: text::copy("assistant"), content: text::copy(content) }
    }

    /// The turn as the model knows it: it calls itself the model, and every
    /// other side the user.
    pub open spec fn as_content(self) -> ContentView {
        gemini::text_content(
            Some(
                if self.role@ == "assistant"@ {
                    "model"@
                } else {
                    "user"@
                },
            ),
            self.content@,
        )
    }
}

/// The turn as the model knows it.
pub fn turn_to_content(turn: &ConversationTurn) -> (res: Content)
    ensures
        res@ == turn.as_content(),
{
    if text::same(turn.role.as_str(), "assistant") {
        Content::said("model", turn.content.as_str())
    } else {
        Content::said("user", turn.content.as_str())
    }
}

/// The turns of a request: what was said earlier, in order, and then the
/// current message of the user.
pub open spec fn turns(history: Seq<ConversationTurn>, message: Seq<char>) -> Seq<ContentView> {
    history.map_values(|t: ConversationTurn| t.as_content()).push(
        gemini::text_content(Some("user"@), message),
    )
}

/// A request with the history of a conversation.
pub fn request_with_history(
    history: &Vec<ConversationTurn>,
    message: &str,
    system_prompt: &str,
    tools: Option<Vec<Tool>>,
) -> (res: GeminiRequest)
    ensures
        gemini::contents_view(res.contents@) == turns(history@, message@),
        res.system_instruction is Some,
        res.system_instruction->Some_0@ == gemini::text_content(None, system_prompt@),
        res.tools == tools,
{
    let mut contents: Vec<Content> = Vec::new();
    let mut i: usize = 0;
    while i < history.len()
        invariant
            i <= history@.len(),
            contents@.len() == i,
            forall|k: int| 0 <= k < i ==> (#[trigger] contents@[k])@ == history@[k].as_content(),
        decreases history.len() - i,
    {
        contents.push(turn_to_content(&history[i]));
        i += 1;
    }
    contents.push(Content::said("user", message));
    assert(gemini::contents_view(contents@) =~= turns(history@, message@));
    GeminiRequest {
        contents,
        system_instruction: Some(Content::instruction(system_prompt)),
        tools,
    }
}

/// A request has every earlier turn in its place, with its own words, and the
/// message of the user at the end; what the assistant said is said by the model
/// and everything else by the user.
pub proof fn lemma_turns(history: Seq<ConversationTurn>, message: Seq<char>)
    ensures
        turns(history, message).len() == history.len() + 1,
        forall|k: int|
            0 <= k < history.len() ==> (#[trigger] turns(history, message)[k]).role == Some(
                if history[k].role@ == "assistant"@ {
                    "model"@
                } else {
                    "user"@
                },
            ) && turns(history, message)[k].parts.len() == 1 && turns(
                history,
                message,
            )[k].parts[0].text == Some(history[k].content@),
        turns(history, message).last().role == Some("user"@),
        turns(history, message).last().parts.len() == 1,
        turns(history, message).last().parts[0].text == Some(message),
{
}

/// A request without history is one user turn.
pub proof fn lemma_no_history(message: Seq<char>)
    ensures
        turns(seq![], message) == seq![gemini::text_content(Some("user"@), message)],
{
    assert(turns(seq![], message) =~= seq![gemini::text_content(Some("user"@), message)]);
}

} // verus!
