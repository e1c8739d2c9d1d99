//! From a message to the tools that answer it: the planning request, what is
//! made of the reply, what each tool is run with, and how several are run one
//! after the other.

use vstd::prelude::*;

use crate::conversation::{self, ConversationTurn};
use crate::drift::RiskDriftInput;
use crate::execution_trace::ToolResult;
use crate::experiments::Portfolio;
use crate::gemini::{self, GeminiError, GeminiRequest, GeminiResponse};
use crate::json::{self, Field, Fields, Json, JsonView};
use crate::policy::RiskPolicy;
use crate::scenarios;
use crate::text;
use crate::trace::EvidenceTrace;

verus! {

/// What a plan can ask for.
#[derive(Clone, Copy, Debug, PartialEq, Eq, Structural)]
pub enum RiskTool {
    CurrentRisk,
    RiskDrift,
    FactorShock,
    ReverseStress,
    /// A factor shock with the moves of a historical scenario.
    HistoricalStress,
    CvarRebalance,
    PolicyCheck,
    PortfolioPerformance,
}

/// The tool with the given name.
pub open spec fn tool_named(name: Seq<char>) -> Option<RiskTool> {
    if name == "current_risk"@ {
        Some(RiskTool::CurrentRisk)
    } else if name == "risk_drift"@ {
        Some(RiskTool::RiskDrift)
    } else if name == "factor_shock"@ {
        Some(RiskTool::FactorShock)
    } else if name == "reverse_stress"@ {
        Some(RiskTool::ReverseStress)
    } else if name == "historical_stress"@ {
        Some(RiskTool::HistoricalStress)
    } else if name == "cvar_rebalance"@ {
        Some(RiskTool::CvarRebalance)
    } else if name == "policy_check"@ {
        Some(RiskTool::PolicyCheck)
    } else if name == "portfolio_performance"@ {
        Some(RiskTool::PortfolioPerformance)
    } else {
        None
    }
}

/// Each tool has its own name and runs its own experiment, but that a stress by
/// a historical scenario runs a factor shock; any other name is that of none.
pub proof fn lemma_tools(name: Seq<char>)
    ensures
        tool_named("current_risk"@) == Some(RiskTool::CurrentRisk),
        tool_named("risk_drift"@) == Some(RiskTool::RiskDrift),
        tool_named("factor_shock"@) == Some(RiskTool::FactorShock),
        tool_named("reverse_stress"@) == Some(RiskTool::ReverseStress),
        tool_named("historical_stress"@) == Some(RiskTool::HistoricalStress),
        tool_named("cvar_rebalance"@) == Some(RiskTool::CvarRebalance),
        tool_named("policy_check"@) == Some(RiskTool::PolicyCheck),
        tool_named("portfolio_performance"@) == Some(RiskTool::PortfolioPerformance),
        RiskTool::CurrentRisk.experiment_tag() == "RiskDecomposition"@,
        RiskTool::RiskDrift.experiment_tag() == "RiskDrift"@,
        RiskTool::FactorShock.experiment_tag() == "FactorShock"@,
        RiskTool::ReverseStress.experiment_tag() == "ReverseStress"@,
        RiskTool::HistoricalStress.experiment_tag() == "FactorShock"@,
        RiskTool::CvarRebalance.experiment_tag() == "CvarRebalance"@,
        RiskTool::PolicyCheck.experiment_tag() == "PolicyCheck"@,
        RiskTool::PortfolioPerformance.experiment_tag() == "PortfolioPerformance"@,
        tool_named(name) is Some ==> name == "current_risk"@ || name == "risk_drift"@ || name
            == "factor_shock"@ || name == "reverse_stress"@ || name == "historical_stress"@ || name
            == "cvar_rebalance"@ || name == "policy_check"@ || name == "portfolio_performance"@,
{
    reveal_strlit("current_risk");
    reveal_strlit("risk_drift");
    reveal_strlit("factor_shock");
    reveal_strlit("reverse_stress");
    reveal_strlit("historical_stress");
    reveal_strlit("cvar_rebalance");
    reveal_strlit("policy_check");
    reveal_strlit("portfolio_performance");
    assert("current_risk"@.len() == 12 && "risk_drift"@.len() == 10);
    assert("factor_shock"@.len() == 12 && "reverse_stress"@.len() == 14);
    assert("historical_stress"@.len() == 17 && "cvar_rebalance"@.len() == 14);
    assert("policy_check"@.len() == 12 && "portfolio_performance"@.len() == 21);
    assert("current_risk"@[0] == 'c' && "factor_shock"@[0] == 'f' && "policy_check"@[0] == 'p');
    assert("reverse_stress"@[0] == 'r' && "cvar_rebalance"@[0] == 'c');
}

impl RiskTool {
    /// The tool with the given name.
    pub fn parse(name: &str) -> (res: Option<Self>)
        ensures
            res == tool_named(name@),
    {
        if text::same(name, "current_risk") {
            Some(RiskTool::CurrentRisk)
        } else if text::same(name, "risk_drift") {
            Some(RiskTool::RiskDrift)
        } else if text::same(name, "factor_shock") {
            Some(RiskTool::FactorShock)
        } else if text::same(name, "reverse_stress") {
            Some(RiskTool::ReverseStress)
        } else if text::same(name, "historical_stress") {
            Some(RiskTool::HistoricalStress)
        } else if text::same(name, "cvar_rebalance") {
            Some(RiskTool::CvarRebalance)
        } else if text::same(name, "policy_check") {
            Some(RiskTool::PolicyCheck)
        } else if text::same(name, "portfolio_performance") {
            Some(RiskTool::PortfolioPerformance)
        } else {
            None
        }
    }

    /// The name of the experiment that a tool runs.
    pub open spec fn experiment_tag(self) -> Seq<char> {
        match self {
            RiskTool::CurrentRisk => "RiskDecomposition"@,
            RiskTool::RiskDrift => "RiskDrift"@,
            RiskTool::FactorShock => "FactorShock"@,
            RiskTool::ReverseStress => "ReverseStress"@,
            RiskTool::HistoricalStress => "FactorShock"@,
            RiskTool::CvarRebalance => "CvarRebalance"@,
            RiskTool::PolicyCheck => "PolicyCheck"@,
            RiskTool::PortfolioPerformance => "PortfolioPerformance"@,
        }
    }

    /// The name of the experiment that a tool runs.
    pub fn experiment(&self) -> (res: &'static str)
        ensures
            res@ == self.experiment_tag(),
    {
        match self {
            RiskTool::CurrentRisk => "RiskDecomposition",
            RiskTool::RiskDrift => "RiskDrift",
            RiskTool::FactorShock => "FactorShock",
            RiskTool::ReverseStress => "ReverseStress",
            RiskTool::HistoricalStress => "FactorShock",
            RiskTool::CvarRebalance => "CvarRebalance",
            RiskTool::PolicyCheck => "PolicyCheck",
            RiskTool::PortfolioPerformance => "PortfolioPerformance",
        }
    }
}

/// One planned use of a tool.
#[derive(Debug)]
pub struct ToolPlan {
    pub tool: String,
    pub params: Json,
    pub reason: String,
}

/// What the model is told when it plans.
pub const PLANNING_SYSTEM_PROMPT: &'static str = "You are a planning engine for a portfolio risk copilot. \
Given the user's message, decide which risk tools to run, in what order, and with what \
parameters. Available tools and their params:
- current_risk: current portfolio volatility and risk decomposition. params: {frequency?, window?}
- risk_drift: how portfolio risk has changed since a prior snapshot. params: {baseline_snapshot_id?, frequency?, window?}
- factor_shock: apply a hypothetical shock to one or more factors (MARKET, USDINR, BRENT, GOLD_USD, RATES_PROXY). params: {shocks_pct: {FACTOR: percent}, propagate?}
- historical_stress: replay a named historical scenario. params: {scenario_id} where scenario_id is one of covid_crash, ilfs_contagion, taper_tantrum_2013
- reverse_stress: find the smallest shock that would breach a loss threshold. params: {loss_threshold_inr, factor_bounds?}
- cvar_rebalance: propose a rebalance that reduces tail risk (CVaR) within a turnover budget. params: {turnover_limit, confidence_level?, per_name_cap?, commission_bps?}
- policy_check: check the portfolio against risk limits. params: {policy: {max_vol_annualized?, max_cvar_95?, max_factor_contribution_share?, max_position_weight?}}
- portfolio_performance: realized historical performance over a trailing window. params: {frequency?, window?}
- decline: the message has nothing to do with this portfolio's risk, performance, or a market \
scenario (e.g. small talk, general knowledge, something unrelated like the weather). params: {}. \
reason must be exactly the one-sentence, polite decline to show the user directly (not a note to \
yourself) -- e.g. \"I can only help with questions about your portfolio's risk and performance.\" \
This must be the only entry in the array when used.

- If the user asks about a specific stock, best/worst performer, or individual holding returns, use \
portfolio_performance -- it includes per-holding data.
- If the user asks a follow-up that references a prior result ('now reduce it', 'what about a bigger \
crash', 'which stock is dragging me down'), infer the experiment from context -- do not ask for \
clarification.
- If the user asks what to do, what action to take, or how to fix their portfolio, select \
cvar_rebalance.
- If the user expresses concern about a market event ('what if RBI raises rates', 'what about the US \
election', 'crude is spiking'), select factor_shock with the relevant factor shocked.

Respond with ONLY a JSON array, no prose, no markdown code fences: \
[{\"tool\": <tool name>, \"params\": <object>, \"reason\": <one short sentence>}, ...]. \
Plan exactly one tool unless the user's message clearly asks for more than one distinct thing \
(e.g. both a hypothetical shock and a policy check, or both current risk and how it has changed \
since last time). When a later tool depends on an earlier one's result, order the earlier one \
first (e.g. current_risk before risk_drift, if both are needed). Never invent a parameter value \
the user's message does not support -- omit it and let the tool use its own default. \
Portfolio holdings and weights are supplied separately; never include a \"portfolio\" field.";

/// What can go wrong between a message and its tools.
#[derive(Debug)]
pub enum OrchestratorError {
    Gemini(GeminiError),
    /// The parameters of a tool cannot be read.
    Serialize(String),
    /// The message has nothing to do with the portfolio: the decline to show.
    Unrecognised(String),
}

impl OrchestratorError {
    /// The sentence shown to a reader.
    pub open spec fn sentence(self) -> Seq<char> {
        match self {
            OrchestratorError::Gemini(e) => "gemini error: "@ + e.sentence(),
            OrchestratorError::Serialize(cause) => "failed to (de)serialize tool params: "@ + cause@,
            OrchestratorError::Unrecognised(decline) => decline@,
        }
    }

    /// The sentence shown to a reader.
    pub fn message(&self) -> (res: String)
        ensures
            res@ == self.sentence(),
    {
        match self {
            OrchestratorError::Gemini(e) => {
                let cause = e.message();
                text::join2("gemini error: ", cause.as_str())
            },
            OrchestratorError::Serialize(cause) => text::join2(
                "failed to (de)serialize tool params: ",
                cause.as_str(),
            ),
            OrchestratorError::Unrecognised(decline) => text::copy(decline.as_str()),
        }
    }
}

// ---------------------------------------------------------------------------
// Planning
// ---------------------------------------------------------------------------

/// The request for a plan.
pub fn planning_request(message: &str, history: &Vec<ConversationTurn>) -> (res: GeminiRequest)
    ensures
        gemini::contents_view(res.contents@) == conversation::turns(history@, message@),
        res.system_instruction is Some,
        res.system_instruction->Some_0@ == gemini::text_content(None, PLANNING_SYSTEM_PROMPT@),
        res.tools is None,
{
    conversation::request_with_history(history, message, PLANNING_SYSTEM_PROMPT, None)
}

/// The text of a reply to a planning request, empty where it has none.
pub fn planning_text(response: &GeminiResponse) -> (res: String)
    ensures
        res@ == (match response.first_text() {
            Some(Some(s)) => s,
            _ => seq![],
        }),
{
    match response.first_part() {
        Some(part) => match &part.text {
            Some(s) => text::copy(s.as_str()),
            None => String::new(),
        },
        None => String::new(),
    }
}

/// A reply without the code fence that it may stand in.
pub open spec fn unfenced(raw: Seq<char>) -> Seq<char> {
    let all = text::trimmed(raw);
    let opened = if "```json"@.is_prefix_of(all) {
        all.skip("```json"@.len() as int)
    } else if "```"@.is_prefix_of(all) {
        all.skip("```"@.len() as int)
    } else {
        all
    };
    let closed = if "```"@.is_suffix_of(opened) {
        opened.take(opened.len() - "```"@.len())
    } else {
        opened
    };
    text::trimmed(closed)
}

proof fn lemma_trimmed_stays(text: Seq<char>)
    requires
        text.len() > 0,
        !text::is_white(text[0]),
        !text::is_white(text.last()),
    ensures
        text::trimmed(text) == text,
{
}

/// A reply between fences is what stands between them, the mark of the language
/// left out, without the white space around it; a reply without a fence is the
/// reply itself without the white space around it.
pub proof fn lemma_unfenced(inner: Seq<char>, plain: Seq<char>)
    requires
        plain.len() > 0,
        text::trimmed(plain)[0] != '`',
        text::trimmed(plain).last() != '`',
        text::trimmed(plain).len() > 0,
    ensures
        unfenced("```json"@ + inner + "```"@) == text::trimmed(inner),
        inner.len() > 0 && inner[0] != 'j' ==> unfenced("```"@ + inner + "```"@) == text::trimmed(
            inner,
        ),
        unfenced(plain) == text::trimmed(plain),
{
    reveal_strlit("```json");
    reveal_strlit("```");
    assert("```json"@.len() == 7 && "```json"@[0] == '`' && "```json"@[3] == 'j');
    assert("```"@.len() == 3 && "```"@[0] == '`' && "```"@[2] == '`');
    let marked = "```json"@ + inner + "```"@;
    lemma_trimmed_stays(marked);
    assert(marked.subrange(0, 7) =~= "```json"@);
    assert("```json"@.is_prefix_of(marked));
    let opened = marked.skip(7);
    assert(opened =~= inner + "```"@);
    assert(opened.subrange(opened.len() - 3, opened.len() as int) =~= "```"@);
    assert("```"@.is_suffix_of(opened));
    assert(opened.take(opened.len() - 3) =~= inner);
    if inner.len() > 0 && inner[0] != 'j' {
        let bare = "```"@ + inner + "```"@;
        lemma_trimmed_stays(bare);
        if "```json"@.is_prefix_of(bare) {
            assert(bare.subrange(0, 7)[3] == bare[3]);
            assert(bare[3] == inner[0]);
        }
        assert(bare.subrange(0, 3) =~= "```"@);
        assert("```"@.is_prefix_of(bare));
        let rest = bare.skip(3);
        assert(rest =~= inner + "```"@);
        assert(rest.subrange(rest.len() - 3, rest.len() as int) =~= "```"@);
        assert("```"@.is_suffix_of(rest));
        assert(rest.take(rest.len() - 3) =~= inner);
    }
    let all = text::trimmed(plain);
    if "```json"@.is_prefix_of(all) {
        assert(all.subrange(0, 7)[0] == all[0]);
    }
    if "```"@.is_prefix_of(all) {
        assert(all.subrange(0, 3)[0] == all[0]);
    }
    if "```"@.is_suffix_of(all) {
        assert(all.subrange(all.len() - 3, all.len() as int)[2] == all.last());
    }
    text::lemma_trimmed_ends(plain);
    lemma_trimmed_stays(all);
}

/// Takes a reply out of the code fence that it may stand in.
pub fn without_fence(raw: &str) -> (res: String)
    ensures
        res@ == unfenced(raw@),
{
    let all = text::trim(raw);
    let size = text::chars_of(all.as_str()).len();
    let opened = if text::starts_with(all.as_str(), "```json") {
        text::part(all.as_str(), text::chars_of("```json").len(), size)
    } else if text::starts_with(all.as_str(), "```") {
        text::part(all.as_str(), text::chars_of("```").len(), size)
    } else {
        all
    };
    let rest = text::chars_of(opened.as_str()).len();
    let closed = if text::ends_with(opened.as_str(), "```") {
        text::part(opened.as_str(), 0, rest - text::chars_of("```").len())
    } else {
        opened
    };
    text::trim(closed.as_str())
}

/// What a planning reply comes to.
#[derive(Debug)]
pub enum Planned {
    /// Nothing is run; this is shown instead.
    Declined(String),
    Run(Vec<ToolPlan>),
}

/// The reason of the plan that stands in for an unreadable reply.
pub const FALLBACK_REASON: &'static str = "fallback: planning response could not be parsed";

/// Decides what a planning reply comes to: a single decline declines; a reply
/// that could not be read, or that plans nothing, means a look at the current
/// risk.
pub fn decide_plans(parsed: Option<Vec<ToolPlan>>) -> (res: Planned)
    ensures
        match parsed {
            Some(plans) => if plans@.len() == 1 && plans@[0].tool@ == "decline"@ {
                res is Declined && res->Declined_0@ == plans@[0].reason@
            } else if plans@.len() > 0 {
                res == Planned::Run(plans)
            } else {
                is_fallback(res)
            },
            None => is_fallback(res),
        },
{
    match parsed {
        Some(plans) => {
            if plans.len() == 1 && text::same(plans[0].tool.as_str(), "decline") {
                Planned::Declined(text::copy(plans[0].reason.as_str()))
            } else if plans.len() > 0 {
                Planned::Run(plans)
            } else {
                fallback()
            }
        },
        None => fallback(),
    }
}

/// Whether this is the plan that stands in for an unreadable reply.
pub open spec fn is_fallback(planned: Planned) -> bool {
    &&& planned is Run
    &&& planned->Run_0@.len() == 1
    &&& planned->Run_0@[0].tool@ == "current_risk"@
    &&& planned->Run_0@[0].params@ == JsonView::empty()
    &&& planned->Run_0@[0].reason@ == FALLBACK_REASON@
}

fn fallback() -> (res: Planned)
    ensures
        is_fallback(res),
{
    let mut plans: Vec<ToolPlan> = Vec::new();
    plans.push(
        ToolPlan {
            tool: text::copy("current_risk"),
            params: Json::object(),
            reason: text::copy(FALLBACK_REASON),
        },
    );
    Planned::Run(plans)
}

// ---------------------------------------------------------------------------
// Parameters
// ---------------------------------------------------------------------------

/// The fields of an object, none for any other value.
pub open spec fn fields_of(value: JsonView) -> Fields {
    match value {
        JsonView::Object(fields) => fields,
        _ => seq![],
    }
}

fn own_fields(value: &Json) -> (res: Vec<Field>)
    ensures
        json::fields_view(res@) == fields_of(value@),
{
    broadcast use {json::lemma_object_view, json::lemma_array_view};

    match value.duplicate() {
        Json::Object(fields) => fields,
        _ => {
            let none: Vec<Field> = Vec::new();
            assert(json::fields_view(none@) =~= seq![]);
            none
        },
    }
}

/// Parameters with the portfolio of the request, whatever portfolio they
/// name.
pub open spec fn with_portfolio(params: JsonView, portfolio: Portfolio) -> JsonView {
    JsonView::Object(json::inserted(fields_of(params), "portfolio"@, portfolio.json()))
}

/// Puts the portfolio of the request into parameters.
pub fn inject_portfolio(params: &Json, portfolio: &Portfolio) -> (res: Json)
    ensures
        res@ == with_portfolio(params@, *portfolio),
{
    broadcast use json::lemma_object_view;

    let mut fields = own_fields(params);
    json::insert(&mut fields, "portfolio", portfolio.to_json());
    Json::Object(fields)
}

/// The portfolio of the request always wins, and the other parameters stay as
/// they are.
pub proof fn lemma_portfolio_wins(params: JsonView, portfolio: Portfolio, other: Seq<char>)
    ensures
        with_portfolio(params, portfolio).field("portfolio"@) == Some(portfolio.json()),
        other != "portfolio"@ ==> with_portfolio(params, portfolio).field(other) == json::lookup(
            fields_of(params),
            other,
        ),
{
    json::lemma_lookup_inserted(fields_of(params), "portfolio"@, portfolio.json(), other);
}

/// The scenario that parameters name, empty where they name none.
pub open spec fn scenario_id(params: JsonView) -> Seq<char> {
    match params.field("scenario_id"@) {
        Some(JsonView::Text(id)) => id,
        _ => seq![],
    }
}

fn named_scenario(params: &Json) -> (res: String)
    ensures
        res@ == scenario_id(params@),
{
    let found = match params.get("scenario_id") {
        Some(v) => v.as_text(),
        None => None,
    };
    match found {
        Some(id) => text::copy(id),
        None => String::new(),
    }
}

/// The moves that parameters for a historical stress come to: those of the
/// named scenario, as they are, or none, to be propagated.
pub open spec fn scenario_moves(params: JsonView) -> (JsonView, bool) {
    match scenarios::place_of(scenario_id(params)) {
        Some(place) => (
            crate::table::numbers_json(scenarios::shock_rows(place)),
            false,
        ),
        None => (JsonView::empty(), true),
    }
}

/// Parameters for a factor shock with the moves of a historical scenario.
pub open spec fn stress_params(params: JsonView) -> JsonView {
    let (moves, propagate) = scenario_moves(params);
    JsonView::Object(
        json::inserted(
            json::inserted(fields_of(params), "shocks_pct"@, moves),
            "propagate"@,
            JsonView::Bool(propagate),
        ),
    )
}

fn historical_params(params: &Json) -> (res: Json)
    ensures
        res@ == stress_params(params@),
{
    broadcast use json::lemma_object_view;

    let id = named_scenario(params);
    let (moves, propagate) = match scenarios::find_scenario(id.as_str()) {
        Ok(scenario) => (scenario.shocks_pct.to_json(), scenario.propagate),
        Err(_) => (Json::object(), true),
    };
    let mut fields = own_fields(params);
    json::insert(&mut fields, "shocks_pct", moves);
    json::insert(&mut fields, "propagate", Json::Bool(propagate));
    Json::Object(fields)
}

/// Parameters for a policy check: with the policy of the request where they
/// name none, and with one that limits nothing where the request has none.
pub open spec fn policy_params(params: JsonView, policy: Option<RiskPolicy>) -> JsonView {
    let fields = fields_of(params);
    if json::lookup(fields, "policy"@) is Some {
        JsonView::Object(fields)
    } else {
        JsonView::Object(
            json::inserted(
                fields,
                "policy"@,
                match policy {
                    Some(p) => p.json(),
                    None => crate::policy::no_limits().json(),
                },
            ),
        )
    }
}

fn check_params(params: &Json, policy: &Option<RiskPolicy>) -> (res: Json)
    ensures
        res@ == policy_params(params@, *policy),
{
    broadcast use json::lemma_object_view;

    let mut fields = own_fields(params);
    if json::find(&fields, "policy").is_none() {
        let limits = match policy {
            Some(p) => p.to_json(),
            None => RiskPolicy::default().to_json(),
        };
        json::insert(&mut fields, "policy", limits);
    }
    Json::Object(fields)
}

/// What the parameters of a tool's experiment are read from.
pub open spec fn experiment_params(
    tool: RiskTool,
    params: JsonView,
    portfolio: Portfolio,
    policy: Option<RiskPolicy>,
) -> JsonView {
    match tool {
        RiskTool::CurrentRisk => with_portfolio(params, portfolio),
        RiskTool::FactorShock => with_portfolio(params, portfolio),
        RiskTool::CvarRebalance => with_portfolio(params, portfolio),
        RiskTool::PortfolioPerformance => with_portfolio(params, portfolio),
        RiskTool::HistoricalStress => with_portfolio(stress_params(params), portfolio),
        RiskTool::RiskDrift => params,
        RiskTool::ReverseStress => params,
        RiskTool::PolicyCheck => policy_params(params, policy),
    }
}

proof fn lemma_parameter_names()
    ensures
        "portfolio"@ != "shocks_pct"@,
        "portfolio"@ != "propagate"@,
        "shocks_pct"@ != "propagate"@,
{
    reveal_strlit("portfolio");
    reveal_strlit("shocks_pct");
    reveal_strlit("propagate");
    assert("portfolio"@.len() == 9 && "shocks_pct"@.len() == 10 && "propagate"@.len() == 9);
    assert("portfolio"@[1] == 'o' && "propagate"@[1] == 'r');
}

/// What a tool is run with. The tools that look at the portfolio get that of
/// the request; a historical stress gets the moves of the scenario it names, as
/// they are, and where it names none no moves, to be propagated; a policy check
/// keeps a policy of its own, and else gets that of the request or one without
/// limits; the other two run with what was planned.
pub proof fn lemma_tool_params(
    tool: RiskTool,
    params: JsonView,
    portfolio: Portfolio,
    policy: Option<RiskPolicy>,
    other: Seq<char>,
)
    requires
        other != "portfolio"@ && other != "shocks_pct"@ && other != "propagate"@ && other
            != "policy"@,
    ensures
        ({
            let made = experiment_params(tool, params, portfolio, policy);
            &&& tool == RiskTool::RiskDrift || tool == RiskTool::ReverseStress ==> made == params
            &&& tool == RiskTool::CurrentRisk || tool == RiskTool::FactorShock || tool
                == RiskTool::CvarRebalance || tool == RiskTool::PortfolioPerformance || tool
                == RiskTool::HistoricalStress ==> made.field("portfolio"@) == Some(
                portfolio.json(),
            )
            &&& tool == RiskTool::HistoricalStress ==> match scenarios::place_of(
                scenario_id(params),
            ) {
                Some(place) => made.field("propagate"@) == Some(JsonView::Bool(false))
                    && made.field("shocks_pct"@) == Some(
                    crate::table::numbers_json(scenarios::shock_rows(place)),
                ),
                None => made.field("propagate"@) == Some(JsonView::Bool(true)) && made.field(
                    "shocks_pct"@,
                ) == Some(JsonView::empty()),
            }
            &&& tool == RiskTool::PolicyCheck ==> match params.field("policy"@) {
                Some(own) => made == params,
                None => made.field("policy"@) == Some(
                    match policy {
                        Some(p) => p.json(),
                        None => crate::policy::no_limits().json(),
                    },
                ),
            }
            &&& params is Object ==> made.field(other) == params.field(other)
        }),
{
    lemma_parameter_names();
    let fields = fields_of(params);
    let (moves, propagate) = scenario_moves(params);
    let moved = json::inserted(fields, "shocks_pct"@, moves);
    let stressed = json::inserted(moved, "propagate"@, JsonView::Bool(propagate));
    lemma_portfolio_wins(params, portfolio, other);
    json::lemma_lookup_inserted(fields, "shocks_pct"@, moves, other);
    json::lemma_lookup_inserted(moved, "propagate"@, JsonView::Bool(propagate), other);
    json::lemma_lookup_inserted(moved, "propagate"@, JsonView::Bool(propagate), "shocks_pct"@);
    json::lemma_lookup_inserted(fields, "shocks_pct"@, moves, "shocks_pct"@);
    assert(fields_of(stress_params(params)) == stressed);
    lemma_portfolio_wins(stress_params(params), portfolio, other);
    lemma_portfolio_wins(stress_params(params), portfolio, "shocks_pct"@);
    lemma_portfolio_wins(stress_params(params), portfolio, "propagate"@);
    let limits = match policy {
        Some(p) => p.json(),
        None => crate::policy::no_limits().json(),
    };
    json::lemma_lookup_inserted(fields, "policy"@, limits, other);
}

/// Makes the value that the parameters of a tool's experiment are read from.
pub fn build_experiment(
    tool: RiskTool,
    params: &Json,
    portfolio: &Portfolio,
    policy: &Option<RiskPolicy>,
) -> (res: Json)
    ensures
        res@ == experiment_params(tool, params@, *portfolio, *policy),
{
    match tool {
        RiskTool::CurrentRisk => inject_portfolio(params, portfolio),
        RiskTool::FactorShock => inject_portfolio(params, portfolio),
        RiskTool::CvarRebalance => inject_portfolio(params, portfolio),
        RiskTool::PortfolioPerformance => inject_portfolio(params, portfolio),
        RiskTool::HistoricalStress => {
            let stressed = historical_params(params);
            inject_portfolio(&stressed, portfolio)
        },
        RiskTool::RiskDrift => params.duplicate(),
        RiskTool::ReverseStress => params.duplicate(),
        RiskTool::PolicyCheck => check_params(params, policy),
    }
}

/// A question for the change since a snapshot, with the snapshot of the same
/// request as the baseline where it names none.
pub fn with_baseline(input: RiskDriftInput, snapshot_id: Option<String>) -> (res: RiskDriftInput)
    ensures
        res == (if input.baseline_snapshot_id is Some {
            input
        } else {
            RiskDriftInput { baseline_snapshot_id: snapshot_id, ..input }
        }),
{
    match input.baseline_snapshot_id {
        Some(id) => RiskDriftInput {
            baseline_snapshot_id: Some(id),
            window: input.window,
            frequency: input.frequency,
        },
        None => RiskDriftInput {
            baseline_snapshot_id: snapshot_id,
            window: input.window,
            frequency: input.frequency,
        },
    }
}

/// Records on a trace which historical scenario its shocks come from.
pub fn attach_provenance(trace: EvidenceTrace, tool: RiskTool, params: &Json) -> (res: EvidenceTrace)
    ensures
        match (tool, scenarios::place_of(scenario_id(params@))) {
            (RiskTool::HistoricalStress, Some(place)) => {
                &&& res == (EvidenceTrace { scenario_provenance: res.scenario_provenance, ..trace })
                &&& res.scenario_provenance is Some
                &&& res.scenario_provenance->Some_0.scenario_id@ == scenarios::id_of(place)
                &&& res.scenario_provenance->Some_0.scenario_name@ == scenarios::name_of(place)
                &&& res.scenario_provenance->Some_0.date_range@ == scenarios::date_range_of(place)
                &&& res.scenario_provenance->Some_0.description@ == scenarios::description_of(place)
            },
            _ => res == trace,
        },
{
    match tool {
        RiskTool::HistoricalStress => {
            let id = named_scenario(params);
            match scenarios::find_scenario(id.as_str()) {
                Ok(scenario) => {
                    let mut trace = trace;
                    trace.scenario_provenance = Some(scenarios::provenance(&scenario));
                    trace
                },
                Err(_) => trace,
            }
        },
        _ => trace,
    }
}

// ---------------------------------------------------------------------------
// Running a plan
// ---------------------------------------------------------------------------

/// How one tool came out.
#[derive(Debug)]
pub enum ToolOutcome {
    Trace(Box<EvidenceTrace>),
    Error(String),
}

/// The outcome for a name that is no tool.
pub fn unknown_tool(name: &str) -> (res: ToolOutcome)
    ensures
        res is Error,
        res->Error_0@ == "unknown tool "@ + text::quoted(name@),
{
    let shown = text::quote(name);
    ToolOutcome::Error(text::join2("unknown tool ", shown.as_str()))
}

/// How far a plan has been run.
#[derive(Debug)]
pub struct ToolRun {
    pub traces: Vec<EvidenceTrace>,
    pub results: Vec<ToolResult>,
    /// The snapshot of the current risk that was stored along the way.
    pub current_risk_snapshot_id: Option<String>,
}

/// Whether a snapshot of the current risk is stored once the plan at `i` has
/// run: where the very next one asks how the risk has changed.
pub open spec fn keeps_snapshot(plans: Seq<ToolPlan>, i: int) -> bool {
    &&& plans[i].tool@ == "current_risk"@
    &&& i + 1 < plans.len()
    &&& plans[i + 1].tool@ == "risk_drift"@
}

/// A snapshot is stored for a look at the current risk that is followed at once
/// by a question how the risk has changed, and for nothing else: not for the
/// last plan.
pub proof fn lemma_kept_snapshots(plans: Seq<ToolPlan>, i: int)
    requires
        0 <= i < plans.len(),
    ensures
        i == plans.len() - 1 ==> !keeps_snapshot(plans, i),
        i < plans.len() - 1 ==> (keeps_snapshot(plans, i) <==> plans[i].tool@ == "current_risk"@
            && plans[i + 1].tool@ == "risk_drift"@),
{
}

/// Finds out whether a snapshot of the current risk is stored once the plan at
/// `i` has run.
pub fn stores_snapshot(plans: &Vec<ToolPlan>, i: usize) -> (res: bool)
    requires
        i < plans@.len(),
    ensures
        res == keeps_snapshot(plans@, i as int),
{
    text::same(plans[i].tool.as_str(), "current_risk") && plans.len() - i > 1 && text::same(
        plans[i + 1].tool.as_str(),
        "risk_drift",
    )
}

/// The first `n` outcomes that are traces.
pub open spec fn traces_of(outcomes: Seq<ToolOutcome>, n: int) -> Seq<EvidenceTrace>
    decreases n,
{
    if n <= 0 {
        seq![]
    } else {
        match outcomes[n - 1] {
            ToolOutcome::Trace(trace) => traces_of(outcomes, n - 1).push(*trace),
            ToolOutcome::Error(_) => traces_of(outcomes, n - 1),
        }
    }
}

/// Whether a result records an outcome of a plan.
pub open spec fn records(result: ToolResult, tool: Seq<char>, outcome: ToolOutcome, latency_ms: u64) -> bool {
    &&& result.tool@ == tool
    &&& result.latency_ms == latency_ms
    &&& match outcome {
        ToolOutcome::Trace(trace) => {
            &&& result.success
            &&& result.trace_id@ == trace.id@
            &&& result.error is None
        },
        ToolOutcome::Error(error) => {
            &&& !result.success
            &&& result.trace_id@.len() == 0
            &&& result.error == Some(error)
        },
    }
}

impl ToolRun {
    /// A run at its start.
    pub fn new() -> (res: ToolRun)
        ensures
            res.traces@.len() == 0,
            res.results@.len() == 0,
            res.current_risk_snapshot_id is None,
    {
        ToolRun { traces: Vec::new(), results: Vec::new(), current_risk_snapshot_id: None }
    }

    /// The baseline that a plan is run with: the snapshot stored along the way,
    /// for a plan that asks how the risk has changed.
    pub fn baseline_override(&self, plan: &ToolPlan) -> (res: Option<String>)
        ensures
            match (plan.tool@ == "risk_drift"@, self.current_risk_snapshot_id) {
                (true, Some(id)) => res is Some && res->Some_0@ == id@,
                _ => res is None,
            },
    {
        if text::same(plan.tool.as_str(), "risk_drift") {
            match &self.current_risk_snapshot_id {
                Some(id) => Some(text::copy(id.as_str())),
                None => None,
            }
        } else {
            None
        }
    }

    /// Records how a plan came out, and the snapshot that was stored for it,
    /// where there is one. A failed plan leaves no trace and stops nothing.
    pub fn finish(
        &mut self,
        plan: &ToolPlan,
        outcome: ToolOutcome,
        latency_ms: u64,
        stored: Option<String>,
    )
        ensures
            is_step(*old(self), *final(self), plan.tool@, outcome, latency_ms, stored),
    {
        if stored.is_some() {
            self.current_risk_snapshot_id = stored;
        }
        match outcome {
            ToolOutcome::Trace(trace) => {
                self.results.push(
                    ToolResult {
                        tool: text::copy(plan.tool.as_str()),
                        trace_id: text::copy(trace.id.as_str()),
                        latency_ms,
                        success: true,
                        error: None,
                    },
                );
                self.traces.push(*trace);
            },
            ToolOutcome::Error(error) => {
                self.results.push(
                    ToolResult {
                        tool: text::copy(plan.tool.as_str()),
                        trace_id: String::new(),
                        latency_ms,
                        success: false,
                        error: Some(error),
                    },
                );
            },
        }
        assert(self.results@.drop_last() =~= old(self).results@);
    }
}

/// Whether `after` is the run `before` once one more plan has come out.
pub open spec fn is_step(
    before: ToolRun,
    after: ToolRun,
    tool: Seq<char>,
    outcome: ToolOutcome,
    latency_ms: u64,
    stored: Option<String>,
) -> bool {
    &&& after.results@.len() == before.results@.len() + 1
    &&& after.results@.drop_last() == before.results@
    &&& records(after.results@.last(), tool, outcome, latency_ms)
    &&& after.traces@ == (match outcome {
        ToolOutcome::Trace(trace) => before.traces@.push(*trace),
        ToolOutcome::Error(_) => before.traces@,
    })
    &&& after.current_risk_snapshot_id == (if stored is Some {
        stored
    } else {
        before.current_risk_snapshot_id
    })
}

/// A run records every plan in its order, whether it failed or not, and holds
/// the traces of those that did not fail, in the same order.
pub proof fn lemma_run_records_every_plan(
    states: Seq<ToolRun>,
    tools: Seq<Seq<char>>,
    outcomes: Seq<ToolOutcome>,
    latencies: Seq<u64>,
    stored: Seq<Option<String>>,
    n: int,
)
    requires
        0 <= n < states.len(),
        states[0].results@.len() == 0,
        states[0].traces@.len() == 0,
        forall|i: int|
            0 <= i < n ==> is_step(
                #[trigger] states[i],
                states[i + 1],
                tools[i],
                outcomes[i],
                latencies[i],
                stored[i],
            ),
    ensures
        states[n].results@.len() == n,
        forall|i: int|
            0 <= i < n ==> records(
                #[trigger] states[n].results@[i],
                tools[i],
                outcomes[i],
                latencies[i],
            ),
        states[n].traces@ == traces_of(outcomes, n),
    decreases n,
{
    if n > 0 {
        lemma_run_records_every_plan(states, tools, outcomes, latencies, stored, n - 1);
        let before = states[n - 1];
        let after = states[n];
        assert(is_step(before, after, tools[n - 1], outcomes[n - 1], latencies[n - 1], stored[n - 1]));
        assert forall|i: int| 0 <= i < n implies records(
            #[trigger] after.results@[i],
            tools[i],
            outcomes[i],
            latencies[i],
        ) by {
            if i < n - 1 {
                assert(after.results@.drop_last()[i] == before.results@[i]);
            }
        }
    } else {
        assert(states[0].traces@ =~= seq![]);
    }
}

/// The errors of the first `n` results.
pub open spec fn errors_of(results: Seq<ToolResult>, n: int) -> Seq<Seq<char>>
    decreases n,
{
    if n <= 0 {
        seq![]
    } else {
        match results[n - 1].error {
            Some(e) => errors_of(results, n - 1).push(e@),
            None => errors_of(results, n - 1),
        }
    }
}

/// Each error of a run is told, and nothing is told of a plan that did not
/// fail.
pub proof fn lemma_errors_are_told(results: Seq<ToolResult>, n: int, i: int)
    requires
        0 <= i < n <= results.len(),
    ensures
        results[i].error is Some ==> errors_of(results, n).contains(results[i].error->Some_0@),
        results[i].error is None ==> errors_of(results, n).len() < n,
        errors_of(results, n).len() <= n,
    decreases n,
{
    let (before, all) = (errors_of(results, n - 1), errors_of(results, n));
    if n == 1 {
        assert(before.len() == 0);
    }
    if i < n - 1 {
        lemma_errors_are_told(results, n - 1, i);
        if results[i].error is Some {
            let own = results[i].error->Some_0@;
            let k = choose|k: int| 0 <= k < before.len() && before[k] == own;
            assert(all[k] == own);
        }
    } else {
        if n > 1 {
            lemma_errors_are_told(results, n - 1, n - 2);
        }
        if results[i].error is Some {
            assert(all[before.len() as int] == results[i].error->Some_0@);
        }
    }
}

/// The errors of a run, in the order of its plans.
pub fn run_errors(results: &Vec<ToolResult>) -> (res: Vec<String>)
    ensures
        text::views(res@) == errors_of(results@, results@.len() as int),
{
    let mut out: Vec<String> = Vec::new();
    let mut i: usize = 0;
    assert(text::views(out@) =~= seq![]);
    while i < results.len()
        invariant
            i <= results@.len(),
            text::views(out@) == errors_of(results@, i as int),
        decreases results.len() - i,
    {
        let ghost before = out@;
        if let Some(e) = &results[i].error {
            out.push(text::copy(e.as_str()));
            assert(text::views(out@) =~= text::views(before).push(e@));
        }
        i += 1;
    }
    out
}

} // verus!
