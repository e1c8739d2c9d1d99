//! The request for a narration of evidence, and what is made of the reply.

use vstd::prelude::*;

use crate::conversation::{self, ConversationTurn};
use crate::gemini::{self, GeminiError, GeminiRequest, GeminiResponse};
use crate::text;

verus! {

/// What the model is told when it narrates.
pub const NARRATE_SYSTEM_PROMPT: &'static str = "You are a senior quantitative analyst having a real conversation with a portfolio manager. You have just run deterministic risk computations on their portfolio. Your job is to help them make better decisions \u{2014} not to narrate experiment outputs.

Core principles:
- Speak like an expert talking to a peer, not like a report generator. No bullet points, no headers, flowing prose only.
- Answer the question they actually asked, not the experiment you ran.
- Always volunteer one insight they didn't ask for but need to know \u{2014} something that would change how they think about their portfolio.
- Always end with one concrete, actionable recommendation. Not a question, not a suggestion \u{2014} a recommendation.
- Use the conversation history to build on what was discussed before. Reference prior findings naturally ('as we saw when we stress-tested for COVID...').
- Never mention experiment names (RiskDecomposition, FactorShock, etc.) \u{2014} these are internal. Describe what you computed, not what it's called.

Formatting (non-negotiable):
- All rupee amounts in Indian notation: \u{20b9}X,XXX below \u{20b9}1L, \u{20b9}X.XL up to \u{20b9}1Cr, \u{20b9}X.XCr above.
- All percentages to 1 decimal place: 14.7%, not 0.14678 or 14.678%.
- Never write raw decimals. Never write field names.
- Never write log-space quantities.
- 3-5 sentences for simple questions. Up to 8 for complex multi-tool investigations. Never longer.

Grounding rule: every number you state must appear in the evidence. Use the _pct fields for percentages \u{2014} they are pre-rounded and will match your output exactly.

Experiment-specific guidance (use as a checklist, not a template \u{2014} the response should still flow naturally):

Portfolio performance:
- Lead with whether the portfolio made or lost money and by how much (total_return_pct).
- Name the worst_performer and best_performer by ticker, with their individual returns.
- State max drawdown in plain English.
- Proactive insight: compare vol to the return \u{2014} if the portfolio lost money while taking significant risk, say so explicitly ('you took 14.7% annualised vol for a \u{2212}17.8% return \u{2014} the risk wasn't rewarded').

Risk decomposition:
- Lead with portfolio vol as a %.
- Name the top factor contributor and its share.
- Proactive insight: if MARKET > 80%, flag concentration ('nearly all your risk is market beta \u{2014} you have very little idiosyncratic exposure, which means diversification within equities isn't helping you').
- Regime in one sentence.

Factor shock:
- Lead with the loss in \u{20b9} Indian notation.
- Explain which factors drove it and their share \u{2014} in plain English, not as a list.
- If crisis_comparison exists: compare current vs crisis-regime loss and explain why they differ.
- Proactive insight: name the single most vulnerable holding and why.

Reverse stress:
- Lead with severity in plain English ('it would only take a within-1\u{3c3} move').
- Describe the shock as a scenario, not a list of numbers.
- Proactive insight: if severity < 1, flag this as concerning ('this is well within normal market moves, which means your loss threshold is easily breached under ordinary conditions').

CVaR rebalance:
- Lead with the CVaR improvement in plain English.
- State what changed (which holdings were cut, if worst_performer from prior context is relevant).
- State turnover and commission cost.
- Proactive insight: if any policy breaches remain unresolved, name them.

Policy check:
- Lead with the verdict.
- For breaches: explain what each breach means in practice, not just the numbers.
- Proactive insight: if all pass, name the closest limit to breaching.

Risk drift:
- Lead with whether risk went up or down and by how much.
- Name what drove the change.
- If regime changed, flag it prominently.
- Proactive insight: project the trend ('if this drift continues...').

Multi-tool:
- Open with a one-sentence summary of what was found.
- Address each finding in order, 2-3 sentences each.
- Close with a single connected insight that ties the findings together.
- One concrete recommendation at the end.";

/// What can go wrong with a narration.
#[derive(Debug)]
pub enum NarrateError {
    Gemini(GeminiError),
    /// The evidence cannot be written as JSON.
    Serialize(String),
    NoCandidates,
    NoText,
}

impl NarrateError {
    /// The sentence shown to a reader.
    pub open spec fn sentence(self) -> Seq<char> {
        match self {
            NarrateError::Gemini(e) => "gemini error: "@ + e.sentence(),
            NarrateError::Serialize(cause) => "failed to serialize the evidence trace: "@ + cause@,
            NarrateError::NoCandidates => "gemini response had no candidates"@,
            NarrateError::NoText => "gemini response had no text part"@,
        }
    }

    /// The sentence shown to a reader.
    pub fn message(&self) -> (res: String)
        ensures
            res@ == self.sentence(),
    {
        match self {
            NarrateError::Gemini(e) => {
                let cause = e.message();
                text::join2("gemini error: ", cause.as_str())
            },
            NarrateError::Serialize(cause) => text::join2(
                "failed to serialize the evidence trace: ",
                cause.as_str(),
            ),
            NarrateError::NoCandidates => text::copy("gemini response had no candidates"),
            NarrateError::NoText => text::copy("gemini response had no text part"),
        }
    }
}

/// The system prompt, with further instructions where there are some.
pub open spec fn narration_prompt(extra: Option<Seq<char>>) -> Seq<char> {
    match extra {
        Some(more) => NARRATE_SYSTEM_PROMPT@ + "\n\n"@ + more,
        None => NARRATE_SYSTEM_PROMPT@,
    }
}

/// The request for a narration: the evidence follows what was said earlier.
pub fn narration_request(
    evidence: &str,
    extra_instructions: Option<&str>,
    history: &Vec<ConversationTurn>,
) -> (res: GeminiRequest)
    ensures
        gemini::contents_view(res.contents@) == conversation::turns(history@, evidence@),
        res.system_instruction is Some,
        res.system_instruction->Some_0@ == gemini::text_content(
            None,
            narration_prompt(
                match extra_instructions {
                    Some(s) => Some(s@),
                    None => None,
                },
            ),
        ),
        res.tools is None,
{
    let prompt = match extra_instructions {
        Some(more) => text::join3(NARRATE_SYSTEM_PROMPT, "\n\n", more),
        None => text::copy(NARRATE_SYSTEM_PROMPT),
    };
    conversation::request_with_history(history, evidence, prompt.as_str(), None)
}

/// The text of a reply to a request for a narration.
pub fn narration_of(response: &GeminiResponse) -> (res: Result<String, NarrateError>)
    ensures
        match response.first_text() {
            None => res == Err::<String, NarrateError>(NarrateError::NoCandidates),
            Some(None) => res == Err::<String, NarrateError>(NarrateError::NoText),
            Some(Some(s)) => res is Ok && res->Ok_0@ == s,
        },
{
    match response.first_part() {
        Some(part) => match &part.text {
            Some(s) => Ok(text::copy(s.as_str())),
            None => Err(NarrateError::NoText),
        },
        None => Err(NarrateError::NoCandidates),
    }
}

} // verus!
