//! The request for a next step, and what is made of the reply.

use vstd::prelude::*;

use crate::gemini::{self, GeminiError, GeminiRequest, GeminiResponse};
use crate::text;

verus! {

/// What the model is told when it suggests a next step.
pub const SUGGEST_SYSTEM_PROMPT: &'static str = "You are a senior quant analyst. The user just received a risk analysis result. Suggest the single most important follow-up action \u{2014} not question \u{2014} they should take given what was found.

Rules:
- Frame it as an action, not a question: 'Run a stress test for the IL&FS scenario' not 'Would you like to see...'
- Make it specific to what was found, not generic.
- Under 15 words.
- If the result showed a breach or a risk, the suggestion should address it directly.
- Never suggest something already shown in this result.";

/// What can go wrong with a suggestion.
#[derive(Debug)]
pub enum SuggestError {
    Gemini(GeminiError),
    NoCandidates,
    NoText,
}

impl SuggestError {
    /// The sentence shown to a reader.
    pub open spec fn sentence(self) -> Seq<char> {
        match self {
            SuggestError::Gemini(e) => "gemini error: "@ + e.sentence(),
            SuggestError::NoCandidates => "gemini response had no candidates"@,
            SuggestError::NoText => "gemini response had no text part"@,
        }
    }

    /// The sentence shown to a reader.
    pub fn message(&self) -> (res: String)
        ensures
            res@ == self.sentence(),
    {
        match self {
            SuggestError::Gemini(e) => {
                let cause = e.message();
                text::join2("gemini error: ", cause.as_str())
            },
            SuggestError::NoCandidates => text::copy("gemini response had no candidates"),
            SuggestError::NoText => text::copy("gemini response had no text part"),
        }
    }
}

/// The request for a next step, given a summary of what was found.
pub fn suggestion_request(summary: &str) -> (res: GeminiRequest)
    ensures
        gemini::contents_view(res.contents@) == seq![
            gemini::text_content(Some("user"@), summary@),
        ],
        res.system_instruction is Some,
        res.system_instruction->Some_0@ == gemini::text_content(None, SUGGEST_SYSTEM_PROMPT@),
        res.tools is None,
{
    GeminiRequest::user_turn(SUGGEST_SYSTEM_PROMPT, summary)
}

/// The text of a reply to a request for a next step, also where it is empty.
pub fn suggestion_of(response: &GeminiResponse) -> (res: Result<String, SuggestError>)
    ensures
        match response.first_text() {
            None => res == Err::<String, SuggestError>(SuggestError::NoCandidates),
            Some(None) => res == Err::<String, SuggestError>(SuggestError::NoText),
            Some(Some(s)) => res is Ok && res->Ok_0@ == s,
        },
{
    match response.first_part() {
        Some(part) => match &part.text {
            Some(s) => Ok(text::copy(s.as_str())),
            None => Err(SuggestError::NoText),
        },
        None => Err(SuggestError::NoCandidates),
    }
}

} // verus!
