//! From a message to one experiment: the extraction request, and what is made
//! of the reply.

use vstd::prelude::*;

use crate::conversation::{self, ConversationTurn};
use crate::experiments::Portfolio;
use crate::gemini::{self, FunctionCall, GeminiError, GeminiRequest, GeminiResponse, Part, Tool};
use crate::json::{self, Json, JsonView};
use crate::schema;
use crate::text;

verus! {

/// What the model is told when it extracts an experiment.
pub const PARSE_SYSTEM_PROMPT: &'static str = "You are a parameter extraction engine. Your only job is \
to call the correct function -- run_factor_shock, run_risk_decomposition, or run_cvar_rebalance \
-- with the parameters extracted from the user's message. Do not add explanation. Do not ask \
clarifying questions. If the user's intent clearly maps to one of the three experiment types, \
call the function. If it does not, return a text response with one sentence explaining what you \
cannot extract. For CvarRebalance: if the user does not mention a per-name cap, omit \
per_name_cap from the function call.";

/// Why no experiment could be extracted.
#[derive(Debug)]
pub enum ParseError {
    Gemini(GeminiError),
    /// The model answered in words instead.
    Unrecognised(String),
    NoCandidates,
    EmptyResponse,
    UnexpectedFunction(String),
    /// The arguments do not make up an experiment.
    InvalidArgs(String),
}

impl ParseError {
    /// The sentence shown to a reader.
    pub open spec fn sentence(self) -> Seq<char> {
        match self {
            ParseError::Gemini(e) => "gemini error: "@ + e.sentence(),
            ParseError::Unrecognised(words) => "could not extract an experiment from the message: "@
                + words@,
            ParseError::NoCandidates => "gemini returned no candidates"@,
            ParseError::EmptyResponse => "gemini returned neither a function call nor text"@,
            ParseError::UnexpectedFunction(name) => "gemini called an unexpected function: "@
                + name@,
            ParseError::InvalidArgs(cause) => "failed to deserialize function-call args into an Experiment: "@
                + cause@,
        }
    }

    /// The sentence shown to a reader.
    pub fn message(&self) -> (res: String)
        ensures
            res@ == self.sentence(),
    {
        match self {
            ParseError::Gemini(e) => {
                let cause = e.message();
                text::join2("gemini error: ", cause.as_str())
            },
            ParseError::Unrecognised(words) => text::join2(
                "could not extract an experiment from the message: ",
                words.as_str(),
            ),
            ParseError::NoCandidates => text::copy("gemini returned no candidates"),
            ParseError::EmptyResponse => text::copy(
                "gemini returned neither a function call nor text",
            ),
            ParseError::UnexpectedFunction(name) => text::join2(
                "gemini called an unexpected function: ",
                name.as_str(),
            ),
            ParseError::InvalidArgs(cause) => text::join2(
                "failed to deserialize function-call args into an Experiment: ",
                cause.as_str(),
            ),
        }
    }
}

/// The request for an experiment: what was said earlier, then the message,
/// with the functions that the model may call.
pub fn parse_request(
    message: &str,
    history: &Vec<ConversationTurn>,
    declarations: Vec<gemini::FunctionDeclaration>,
) -> (res: GeminiRequest)
    ensures
        gemini::contents_view(res.contents@) == conversation::turns(history@, message@),
        res.system_instruction is Some,
        res.system_instruction->Some_0@ == gemini::text_content(None, PARSE_SYSTEM_PROMPT@),
        res.tools is Some,
        res.tools->Some_0@ == seq![Tool { function_declarations: declarations }],
{
    let mut tools: Vec<Tool> = Vec::new();
    tools.push(Tool { function_declarations: declarations });
    assert(tools@ =~= seq![Tool { function_declarations: declarations }]);
    conversation::request_with_history(history, message, PARSE_SYSTEM_PROMPT, Some(tools))
}

/// The experiment that a function stands for.
pub open spec fn function_experiment(name: Seq<char>) -> Option<Seq<char>> {
    if name == schema::FACTOR_SHOCK_FUNCTION@ {
        Some("FactorShock"@)
    } else if name == schema::RISK_DECOMPOSITION_FUNCTION@ {
        Some("RiskDecomposition"@)
    } else if name == schema::CVAR_REBALANCE_FUNCTION@ {
        Some("CvarRebalance"@)
    } else if name == schema::PORTFOLIO_PERFORMANCE_FUNCTION@ {
        Some("PortfolioPerformance"@)
    } else if name == schema::RISK_DRIFT_FUNCTION@ {
        Some("RiskDrift"@)
    } else {
        None
    }
}

fn experiment_of(name: &str) -> (res: Option<&'static str>)
    ensures
        match res {
            Some(s) => function_experiment(name@) == Some(s@),
            None => function_experiment(name@) is None,
        },
{
    if text::same(name, schema::FACTOR_SHOCK_FUNCTION) {
        Some("FactorShock")
    } else if text::same(name, schema::RISK_DECOMPOSITION_FUNCTION) {
        Some("RiskDecomposition")
    } else if text::same(name, schema::CVAR_REBALANCE_FUNCTION) {
        Some("CvarRebalance")
    } else if text::same(name, schema::PORTFOLIO_PERFORMANCE_FUNCTION) {
        Some("PortfolioPerformance")
    } else if text::same(name, schema::RISK_DRIFT_FUNCTION) {
        Some("RiskDrift")
    } else {
        None
    }
}

/// An experiment that the model asked for: its name, and the arguments that
/// its parameters are read from.
#[derive(Debug)]
pub struct ParsedCall {
    pub experiment: String,
    pub args: Json,
}

/// The place of the first of `parts`, from `from` on, that says anything.
pub open spec fn first_said(parts: Seq<Part>, from: nat) -> Option<nat>
    decreases parts.len() - from,
{
    if from >= parts.len() {
        None
    } else if parts[from as int].function_call is Some || parts[from as int].text is Some {
        Some(from)
    } else {
        first_said(parts, from + 1)
    }
}

/// What decides a reply is a part that says something, and no part before it
/// says anything; where none is found no part says anything.
pub proof fn lemma_first_said(parts: Seq<Part>, from: nat)
    ensures
        match first_said(parts, from) {
            Some(p) => from <= p < parts.len() && (parts[p as int].function_call is Some
                || parts[p as int].text is Some) && forall|k: int|
                from <= k < p ==> (#[trigger] parts[k]).function_call is None
                    && parts[k].text is None,
            None => forall|k: int|
                from <= k < parts.len() ==> (#[trigger] parts[k]).function_call is None
                    && parts[k].text is None,
        },
    decreases parts.len() - from,
{
    if from < parts.len() {
        lemma_first_said(parts, from + 1);
    }
}

/// Each function of the model stands for its own experiment, and no other name
/// for any.
pub proof fn lemma_function_experiments(name: Seq<char>)
    ensures
        function_experiment("run_factor_shock"@) == Some("FactorShock"@),
        function_experiment("run_risk_decomposition"@) == Some("RiskDecomposition"@),
        function_experiment("run_cvar_rebalance"@) == Some("CvarRebalance"@),
        function_experiment("run_portfolio_performance"@) == Some("PortfolioPerformance"@),
        function_experiment("run_risk_drift"@) == Some("RiskDrift"@),
        name != "run_factor_shock"@ && name != "run_risk_decomposition"@ && name
            != "run_cvar_rebalance"@ && name != "run_portfolio_performance"@ && name
            != "run_risk_drift"@ ==> function_experiment(name) is None,
{
    reveal_strlit("run_factor_shock");
    reveal_strlit("run_risk_decomposition");
    reveal_strlit("run_cvar_rebalance");
    reveal_strlit("run_portfolio_performance");
    reveal_strlit("run_risk_drift");
    assert("run_factor_shock"@.len() == 16 && "run_risk_decomposition"@.len() == 22);
    assert("run_cvar_rebalance"@.len() == 18 && "run_portfolio_performance"@.len() == 25);
    assert("run_risk_drift"@.len() == 14);
}

/// Arguments with the portfolio of the request, whatever portfolio they name.
pub open spec fn args_with_portfolio(args: JsonView, portfolio: Portfolio) -> JsonView {
    args.with("portfolio"@, portfolio.json())
}

/// What a reply comes to: the first of its parts that says anything decides.
pub open spec fn is_reading(
    response: GeminiResponse,
    portfolio: Portfolio,
    res: Result<ParsedCall, ParseError>,
) -> bool {
    if response.candidates@.len() == 0 {
        res == Err::<ParsedCall, ParseError>(ParseError::NoCandidates)
    } else {
        let parts = response.candidates@[0].content.parts@;
        match first_said(parts, 0) {
            None => res == Err::<ParsedCall, ParseError>(ParseError::EmptyResponse),
            Some(p) => match parts[p as int].function_call {
                Some(call) => is_call_reading(call, portfolio, res),
                None => {
                    &&& res is Err
                    &&& res->Err_0 is Unrecognised
                    &&& res->Err_0->Unrecognised_0@ == parts[p as int].text->Some_0@
                },
            },
        }
    }
}

/// What a function call comes to.
pub open spec fn is_call_reading(
    call: FunctionCall,
    portfolio: Portfolio,
    res: Result<ParsedCall, ParseError>,
) -> bool {
    match function_experiment(call.name@) {
        Some(tag) => {
            &&& res is Ok
            &&& res->Ok_0.experiment@ == tag
            &&& res->Ok_0.args@ == args_with_portfolio(call.args@, portfolio)
        },
        None => {
            &&& res is Err
            &&& res->Err_0 is UnexpectedFunction
            &&& res->Err_0->UnexpectedFunction_0@ == call.name@
        },
    }
}

fn read_call(call: &FunctionCall, portfolio: &Portfolio) -> (res: Result<ParsedCall, ParseError>)
    ensures
        is_call_reading(*call, *portfolio, res),
{
    match experiment_of(call.name.as_str()) {
        Some(tag) => Ok(
            ParsedCall {
                experiment: text::copy(tag),
                args: call.args.duplicate().with("portfolio", portfolio.to_json()),
            },
        ),
        None => Err(ParseError::UnexpectedFunction(text::copy(call.name.as_str()))),
    }
}

/// Reads a reply: a function call is an experiment, with the portfolio of the
/// request; words say that there is none.
pub fn parse_experiment(response: &GeminiResponse, portfolio: &Portfolio) -> (res: Result<
    ParsedCall,
    ParseError,
>)
    ensures
        is_reading(*response, *portfolio, res),
{
    if response.candidates.len() == 0 {
        return Err(ParseError::NoCandidates);
    }
    let parts = &response.candidates[0].content.parts;
    let mut p: usize = 0;
    while p < parts.len()
        invariant
            response.candidates@.len() > 0,
            *parts == response.candidates@[0].content.parts,
            p <= parts@.len(),
            first_said(parts@, 0) == first_said(parts@, p as nat),
        decreases parts.len() - p,
    {
        if let Some(call) = &parts[p].function_call {
            return read_call(call, portfolio);
        }
        if let Some(words) = &parts[p].text {
            return Err(ParseError::Unrecognised(text::copy(words.as_str())));
        }
        p += 1;
    }
    Err(ParseError::EmptyResponse)
}

/// The portfolio of the request always wins over one that the model made up.
pub proof fn lemma_caller_portfolio_wins(args: JsonView, portfolio: Portfolio)
    requires
        args is Object,
    ensures
        args_with_portfolio(args, portfolio).field("portfolio"@) == Some(portfolio.json()),
{
    json::lemma_lookup_inserted(
        args->Object_0,
        "portfolio"@,
        portfolio.json(),
        "portfolio"@,
    );
}

} // verus!
