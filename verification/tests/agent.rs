//! Grounding, planning, parsing and conversation.

use drift_risk::conversation::ConversationTurn;
use drift_risk::data::{DataQuality, SeriesQuality};
use drift_risk::double::Double;
use drift_risk::execution_trace::{execution_trace, gemini_calls, GroundingStatus};
use drift_risk::experiments::{Holding, Portfolio};
use drift_risk::gemini::{
    after_reply, endpoint, Candidate, Content, FunctionCall, GeminiError, GeminiRequest,
    GeminiResponse, NextStep, Part,
};
use drift_risk::format::group_indian;
use drift_risk::grounding::{
    after_check, check_grounding, evidence_numbers, extract_numbers, numeric_leaves, number_tokens,
    parse_digits, AfterCheck, ExtractedNumber, GroundedNarration, GroundingCheck, Notation,
};
use drift_risk::json::{Json, JsonNumber};
use drift_risk::model::Frequency;
use drift_risk::narrate::{narration_of, narration_request, NarrateError};
use drift_risk::orchestrator::{
    attach_provenance, build_experiment, decide_plans, inject_portfolio, planning_request,
    planning_text, run_errors, stores_snapshot, unknown_tool, with_baseline, without_fence,
    OrchestratorError, Planned, RiskTool, ToolOutcome, ToolPlan, ToolRun, FALLBACK_REASON,
};
use drift_risk::pipeline::{tools_outcome, PipelineError};
use drift_risk::parse::{parse_experiment, parse_request, ParseError, ParsedCall};
use drift_risk::schema::{
    CVAR_REBALANCE_FUNCTION, FACTOR_SHOCK_FUNCTION, PORTFOLIO_PERFORMANCE_FUNCTION,
    RISK_DECOMPOSITION_FUNCTION, RISK_DRIFT_FUNCTION,
};
use drift_risk::suggest::{suggestion_of, suggestion_request, SuggestError};
use drift_risk::trace::{evidence_trace, DataWindow, EvidenceTrace, ModelParams};

fn d(x: f64) -> Double {
    Double { bits: x.to_bits() }
}

fn f(x: Double) -> f64 {
    f64::from_bits(x.bits)
}

fn json_of(value: &serde_json::Value) -> Json {
    match value {
        serde_json::Value::Null => Json::Null,
        serde_json::Value::Bool(b) => Json::Bool(*b),
        serde_json::Value::Number(n) => Json::Number(JsonNumber {
            double: d(n.as_f64().unwrap()),
            integer: n.as_i64().map(i128::from),
        }),
        serde_json::Value::String(s) => Json::of_text(s),
        serde_json::Value::Array(items) => Json::Array(items.iter().map(json_of).collect()),
        serde_json::Value::Object(fields) => fields
            .iter()
            .fold(Json::object(), |object, (name, value)| object.with(name, json_of(value))),
    }
}

fn json(text: &str) -> Json {
    json_of(&serde_json::from_str::<serde_json::Value>(text).unwrap())
}

fn numbers_in(text: &str) -> Vec<ExtractedNumber> {
    let tokens = number_tokens(text);
    let values: Vec<Option<Double>> = tokens
        .iter()
        .map(|t| {
            t.digits.parse::<f64>().ok().map(|x| match t.notation {
                Notation::Lakh => d(x * 100_000.0),
                Notation::Percent => d(x / 100.0),
                Notation::Plain => d(x),
            })
        })
        .collect();
    extract_numbers(&tokens, &values)
}

fn checked(narration: &str, evidence: &[f64]) -> GroundingCheck {
    let numbers = numbers_in(narration);
    let distances: Vec<Vec<Double>> = numbers
        .iter()
        .map(|n| {
            evidence
                .iter()
                .map(|&t| {
                    let a = f(n.value);
                    d((a - t).abs() / a.abs().max(t.abs()).max(1e-9))
                })
                .collect()
        })
        .collect();
    check_grounding(&numbers, &distances)
}

#[test]
fn lakh_notation_is_normalised_to_absolute_rupees() {
    let numbers = numbers_in("The portfolio lost \u{20b9}11.7 lakh this week.");
    assert_eq!(numbers.len(), 1);
    assert!((f(numbers[0].value) - 1_170_000.0).abs() < 1e-6);
    assert_eq!(numbers[0].raw_text, "\u{20b9}11.7 lakh");
    assert_eq!(numbers[0].position, 19);
}

#[test]
fn percent_and_negative_sign_are_normalised_to_a_decimal_fraction() {
    let numbers = numbers_in("Market shock: \u{2212}12% implied a portfolio loss.");
    assert_eq!(numbers.len(), 1);
    assert!((f(numbers[0].value) - (-0.12)).abs() < 1e-9);
}

#[test]
fn plain_number_with_thousands_separators_is_normalised() {
    let numbers = numbers_in("Portfolio P&L: -1,175,389 INR.");
    assert_eq!(numbers.len(), 1);
    assert!((f(numbers[0].value) - (-1_175_389.0)).abs() < 1e-6);
}

#[test]
fn numbers_are_slices_of_the_text_that_follow_one_another() {
    let text = "\u{20b9}11.7 lakh is 4.5% of \u{20b9}2,60,00,000 up \u{2212}3 since 1";
    let tokens = number_tokens(text);
    let kinds: Vec<Notation> = tokens.iter().map(|t| t.notation).collect();
    assert_eq!(kinds[..2], [Notation::Lakh, Notation::Percent]);
    assert!(kinds[2..].iter().all(|k| *k == Notation::Plain));
    let mut end = 0;
    for token in &tokens {
        assert!(end <= token.position);
        end = token.position + token.raw_text.len();
        assert_eq!(&text[token.position..end], token.raw_text);
        assert!(!token.raw_text.is_empty());
    }
    let digits: Vec<&str> = tokens.iter().map(|t| t.digits.as_str()).collect();
    assert_eq!(digits, vec!["11.7", "4.5", "26000000", "-3", "1"]);
}

#[test]
fn lone_commas_are_no_number() {
    let tokens = number_tokens("first, then 3");
    assert_eq!(tokens.len(), 2);
    assert_eq!(tokens[0].digits, "");
    assert_eq!(tokens[1].digits, "3");
    assert_eq!(numbers_in("first, then 3").len(), 1);
}

#[test]
fn numeric_leaves_flattens_nested_trace_json() {
    let value = json(
        r#"{"a": 1.5, "b": {"c": -2.0, "d": [3, 4.25]}, "e": "not a number", "f": null, "g": true}"#,
    );
    let mut leaves: Vec<f64> = numeric_leaves(&value).into_iter().map(f).collect();
    leaves.sort_by(|a, b| a.partial_cmp(b).unwrap());
    assert_eq!(leaves, vec![-2.0, 1.5, 3.0, 4.25]);
    let twice = evidence_numbers(&vec![json("[1, 2]"), json("3")]);
    assert_eq!(twice.into_iter().map(f).collect::<Vec<f64>>(), vec![1.0, 2.0, 3.0]);
}

#[test]
fn narration_with_all_matching_numbers_passes() {
    let trace_numbers = vec![-0.12, 0.20, -1_175_389.13, 252.0];
    let narration =
        "Given shocks of -12% and 20% imply a portfolio loss of -1,175,389 over the 252-day window.";
    let check = checked(narration, &trace_numbers);
    assert!(check.passed(), "unmatched: {:?}", check.unmatched);
    assert_eq!(check.matched.len(), 4);
}

#[test]
fn injected_unmatched_number_fails_and_is_recorded_with_its_token() {
    let trace_numbers = vec![-0.12, 0.20];
    let narration = "Given a -12% shock, the portfolio loses 47% -- a number nowhere in the trace.";
    let check = checked(narration, &trace_numbers);
    assert!(!check.passed());
    assert_eq!(check.unmatched.len(), 1);
    assert_eq!(check.unmatched[0].raw_text, "47%");
    assert!((f(check.unmatched[0].value) - 0.47).abs() < 1e-9);
}

#[test]
fn every_number_is_either_matched_or_unmatched() {
    let narration = "1, 2, 3 and 50% of 4 lakh";
    let numbers = numbers_in(narration);
    let check = checked(narration, &[1.0, 0.5]);
    assert_eq!(check.matched.len() + check.unmatched.len(), numbers.len());
    assert_eq!(check.matched.len(), 2);
}

fn day(year: i32, month: u32, date: u32) -> i32 {
    let found = chrono::NaiveDate::from_ymd_opt(year, month, date).unwrap();
    chrono::Datelike::num_days_from_ce(&found)
}

fn sample_trace() -> EvidenceTrace {
    evidence_trace(
        "RiskDecomposition",
        Json::object(),
        DataWindow {
            frequency: Frequency::Daily,
            window_periods: 252,
            start: day(2025, 9, 16),
            end: day(2026, 9, 24),
        },
        DataQuality {
            date_range_start: day(2021, 9, 27),
            date_range_end: day(2026, 9, 24),
            trading_days: 1234,
            per_series: vec![],
        },
        ModelParams {
            frequency: Frequency::Daily,
            window_periods: 252,
            factor_names: vec!["MARKET".to_string()],
            shrinkage_intensity: d(0.0374),
            annualization_factor: 252,
            regime_state: None,
            regime_fallback_warnings: vec![],
            cap_source: None,
        },
        json(r#"{"result": {"portfolio_vol_annualized": 0.1552}}"#),
        vec![],
        None,
    )
}

/// Narrates from a list of replies, as long as the checks ask for another one.
fn narrate_from(replies: &[&str], evidence: &[f64]) -> (GroundedNarration, usize) {
    let mut retries: u32 = 0;
    let mut used = 0;
    loop {
        let reply = replies[used];
        used += 1;
        let check = checked(reply, evidence);
        match after_check(reply.to_string(), &check, retries) {
            AfterCheck::Deliver(done) => return (done, used),
            AfterCheck::Retry(instructions) => {
                assert!(instructions.contains("99%"));
                retries += 1;
            }
        }
    }
}

fn sample_numbers() -> Vec<f64> {
    numeric_leaves(&sample_trace().to_json()).into_iter().map(f).collect()
}

#[test]
fn retry_path_is_invoked_exactly_once_on_a_single_failure() {
    let trace_numbers = sample_numbers();
    assert!(trace_numbers.iter().any(|&n| (n - 0.1552).abs() < 1e-9));
    let (result, calls) = narrate_from(
        &["Vol is 0.1552, but also 99% which is not grounded.", "Vol is 0.1552 annualised."],
        &trace_numbers,
    );
    assert_eq!(calls, 2, "expected exactly one retry (2 calls total)");
    assert!(result.grounding_warnings.is_empty());
    assert_eq!(result.narration, "Vol is 0.1552 annualised.");
}

#[test]
fn still_failing_after_max_retries_surfaces_warnings_without_suppressing_the_narration() {
    let (result, calls) = narrate_from(
        &["Vol is 99% (attempt 1).", "Vol is 99% (attempt 2).", "Vol is 99% (attempt 3)."],
        &sample_numbers(),
    );
    assert_eq!(calls, 3, "1 initial + 2 retries = 3 calls");
    assert!(!result.grounding_warnings.is_empty());
    assert_eq!(
        result.grounding_warnings[0],
        "unverified number '99%' at byte position 7 in the narration"
    );
    assert_eq!(result.narration, "Vol is 99% (attempt 3).");
}

fn text_response(text: &str) -> GeminiResponse {
    GeminiResponse {
        candidates: vec![Candidate { content: Content::said("model", text), finish_reason: None }],
    }
}

fn function_call_response(name: &str, args: Json) -> GeminiResponse {
    GeminiResponse {
        candidates: vec![Candidate {
            content: Content {
                role: Some("model".to_string()),
                parts: vec![Part {
                    text: None,
                    function_call: Some(FunctionCall { name: name.to_string(), args }),
                }],
            },
            finish_reason: None,
        }],
    }
}

fn no_candidates() -> GeminiResponse {
    GeminiResponse { candidates: vec![] }
}

fn parsed_plans(text: &str) -> Option<Vec<ToolPlan>> {
    let value: serde_json::Value = serde_json::from_str(text).ok()?;
    value
        .as_array()?
        .iter()
        .map(|plan| {
            Some(ToolPlan {
                tool: plan.get("tool")?.as_str()?.to_string(),
                params: plan.get("params").map_or(Json::Null, json_of),
                reason: plan.get("reason").and_then(|r| r.as_str()).unwrap_or("").to_string(),
            })
        })
        .collect()
}

fn plan_tools(reply: &str) -> (Vec<ToolPlan>, String) {
    let raw = planning_text(&text_response(reply));
    match decide_plans(parsed_plans(&without_fence(&raw))) {
        Planned::Run(plans) => (plans, raw),
        Planned::Declined(reason) => panic!("declined: {reason}"),
    }
}

#[test]
fn single_tool_plan_is_parsed_as_is() {
    let (plans, raw) = plan_tools(
        r#"[{"tool": "current_risk", "params": {}, "reason": "user asked about current risk"}]"#,
    );
    assert_eq!(plans.len(), 1);
    assert_eq!(plans[0].tool, "current_risk");
    assert_eq!(plans[0].reason, "user asked about current risk");
    assert!(raw.contains("current_risk"));
}

#[test]
fn two_tool_plan_for_a_shock_and_rebalance_request_is_parsed_in_order() {
    let (plans, _raw) = plan_tools(
        r#"[
            {"tool": "factor_shock", "params": {"shocks_pct": {"MARKET": -15.0}}, "reason": "hypothetical crash"},
            {"tool": "cvar_rebalance", "params": {"turnover_limit": 0.2}, "reason": "reduce tail risk after the shock"}
        ]"#,
    );
    assert_eq!(plans.len(), 2);
    assert_eq!(plans[0].tool, "factor_shock");
    assert_eq!(plans[1].tool, "cvar_rebalance");
    assert_eq!(f(plans[1].params.get("turnover_limit").unwrap().as_double().unwrap()), 0.2);
}

#[test]
fn current_risk_then_risk_drift_preserves_plan_order() {
    let (plans, _raw) = plan_tools(
        r#"[
            {"tool": "current_risk", "params": {}, "reason": "establish current risk"},
            {"tool": "risk_drift", "params": {}, "reason": "compare against the last snapshot"}
        ]"#,
    );
    assert_eq!(plans.len(), 2);
    assert_eq!(plans[0].tool, "current_risk");
    assert_eq!(plans[1].tool, "risk_drift");
}

#[test]
fn a_markdown_fenced_json_array_is_still_parsed() {
    let (plans, _raw) = plan_tools(
        "```json\n[{\"tool\": \"portfolio_performance\", \"params\": {}, \"reason\": \"asked about returns\"}]\n```",
    );
    assert_eq!(plans.len(), 1);
    assert_eq!(plans[0].tool, "portfolio_performance");
}

#[test]
fn invalid_json_falls_back_to_a_single_current_risk_plan_and_keeps_the_raw_response() {
    let (plans, raw) = plan_tools("not valid json at all");
    assert_eq!(plans.len(), 1);
    assert_eq!(plans[0].tool, "current_risk");
    assert_eq!(plans[0].reason, FALLBACK_REASON);
    assert_eq!(raw, "not valid json at all");
}

#[test]
fn an_empty_array_response_also_falls_back_to_current_risk() {
    let (plans, _raw) = plan_tools("[]");
    assert_eq!(plans.len(), 1);
    assert_eq!(plans[0].tool, "current_risk");
}

#[test]
fn planning_asks_for_no_functions() {
    let request = planning_request("hello", &vec![ConversationTurn::user("before")]);
    assert_eq!(request.contents.len(), 2);
    assert!(request.tools.is_none());
    assert_eq!(planning_text(&no_candidates()), "");
}

fn two_stock_portfolio() -> Portfolio {
    Portfolio {
        holdings: vec![
            Holding { ticker: "RELIANCE.NS".to_string(), weight: d(0.6) },
            Holding { ticker: "TCS.NS".to_string(), weight: d(0.4) },
        ],
        total_value_inr: d(1_000_000.0),
    }
}

fn tickers_in(args: &Json) -> Vec<String> {
    match args.at_path(&["portfolio", "holdings"]) {
        Some(Json::Array(items)) => items.iter().map(|h| h.text_at(&["ticker"]).unwrap()).collect(),
        _ => panic!("no holdings"),
    }
}

fn parsed(function: &str, args: &str) -> ParsedCall {
    parse_experiment(&function_call_response(function, json(args)), &two_stock_portfolio()).unwrap()
}

#[test]
fn parses_factor_shock_function_call() {
    let call = parsed(
        FACTOR_SHOCK_FUNCTION,
        r#"{"shocks_pct": {"MARKET": -12.0, "BRENT": 20.0}, "propagate": true}"#,
    );
    assert_eq!(call.experiment, "FactorShock");
    assert_eq!(f(call.args.double_at(&["shocks_pct", "MARKET"]).unwrap()), -12.0);
    assert_eq!(f(call.args.double_at(&["shocks_pct", "BRENT"]).unwrap()), 20.0);
    assert!(matches!(call.args.get("propagate"), Some(Json::Bool(true))));
    assert_eq!(tickers_in(&call.args), two_stock_portfolio().tickers());
}

#[test]
fn parses_risk_decomposition_function_call() {
    let call = parsed(RISK_DECOMPOSITION_FUNCTION, "{}");
    assert_eq!(call.experiment, "RiskDecomposition");
    assert_eq!(tickers_in(&call.args), two_stock_portfolio().tickers());
}

#[test]
fn parses_portfolio_performance_function_call() {
    let call = parsed(PORTFOLIO_PERFORMANCE_FUNCTION, "{}");
    assert_eq!(call.experiment, "PortfolioPerformance");
    assert_eq!(tickers_in(&call.args), two_stock_portfolio().tickers());
}

#[test]
fn parses_risk_drift_function_call_with_null_baseline_snapshot_id() {
    let call = parsed(RISK_DRIFT_FUNCTION, r#"{"baseline_snapshot_id": null}"#);
    assert_eq!(call.experiment, "RiskDrift");
    assert!(matches!(call.args.get("baseline_snapshot_id"), Some(Json::Null)));
}

#[test]
fn parses_risk_drift_function_call_with_a_specific_baseline_snapshot_id() {
    let call = parsed(RISK_DRIFT_FUNCTION, r#"{"baseline_snapshot_id": "abc-123"}"#);
    assert_eq!(call.experiment, "RiskDrift");
    assert_eq!(call.args.text_at(&["baseline_snapshot_id"]).as_deref(), Some("abc-123"));
}

#[test]
fn parses_cvar_rebalance_function_call() {
    let call = parsed(
        CVAR_REBALANCE_FUNCTION,
        r#"{"per_name_cap": 0.2, "turnover_limit": 0.3, "confidence_level": 0.95}"#,
    );
    assert_eq!(call.experiment, "CvarRebalance");
    assert_eq!(f(call.args.double_at(&["per_name_cap"]).unwrap()), 0.2);
    assert_eq!(f(call.args.double_at(&["turnover_limit"]).unwrap()), 0.3);
    assert_eq!(tickers_in(&call.args), two_stock_portfolio().tickers());
}

#[test]
fn caller_portfolio_overrides_any_portfolio_in_the_function_call_args() {
    let call = parsed(
        RISK_DECOMPOSITION_FUNCTION,
        r#"{"portfolio": {"holdings": [{"ticker": "MADE_UP.NS", "weight": 1.0}], "total_value_inr": 1.0}}"#,
    );
    assert_eq!(call.experiment, "RiskDecomposition");
    assert_eq!(tickers_in(&call.args), two_stock_portfolio().tickers());
}

#[test]
fn conversation_history_is_passed_as_prior_turns_in_order() {
    let history = vec![
        ConversationTurn::user("what's my portfolio risk?"),
        ConversationTurn::assistant("Vol is 15.5% annualised."),
    ];
    let request = parse_request("now try with 25% turnover", &history, vec![]);
    assert_eq!(request.contents.len(), 3, "2 prior turns + current message");
    assert_eq!(request.contents[0].role.as_deref(), Some("user"));
    assert_eq!(request.contents[0].parts[0].text.as_deref(), Some("what's my portfolio risk?"));
    assert_eq!(request.contents[1].role.as_deref(), Some("model"));
    assert_eq!(request.contents[1].parts[0].text.as_deref(), Some("Vol is 15.5% annualised."));
    assert_eq!(request.contents[2].role.as_deref(), Some("user"));
    assert_eq!(request.contents[2].parts[0].text.as_deref(), Some("now try with 25% turnover"));
}

#[test]
fn empty_conversation_history_matches_pre_existing_request_shape() {
    let request = parse_request("what's my portfolio risk?", &vec![], vec![]);
    assert_eq!(request.contents.len(), 1);
    assert_eq!(request.contents[0].role.as_deref(), Some("user"));
    assert_eq!(
        request.contents[0].parts[0].text.as_deref(),
        Some("what's my portfolio risk?")
    );
}

#[test]
fn text_response_is_unrecognised() {
    let err = parse_experiment(
        &text_response("I cannot map this message to a supported experiment."),
        &two_stock_portfolio(),
    )
    .unwrap_err();
    match err {
        ParseError::Unrecognised(text) => {
            assert_eq!(text, "I cannot map this message to a supported experiment.");
        }
        other => panic!("expected Unrecognised, got {other:?}"),
    }
}

#[test]
fn other_replies_are_refused_with_their_reason() {
    let portfolio = two_stock_portfolio();
    assert!(matches!(
        parse_experiment(&no_candidates(), &portfolio),
        Err(ParseError::NoCandidates)
    ));
    let empty = GeminiResponse {
        candidates: vec![Candidate {
            content: Content { role: None, parts: vec![Part { text: None, function_call: None }] },
            finish_reason: None,
        }],
    };
    assert!(matches!(parse_experiment(&empty, &portfolio), Err(ParseError::EmptyResponse)));
    match parse_experiment(&function_call_response("run_nothing", json("{}")), &portfolio) {
        Err(ParseError::UnexpectedFunction(name)) => assert_eq!(name, "run_nothing"),
        other => panic!("{other:?}"),
    }
    assert!(matches!(narration_of(&no_candidates()), Err(NarrateError::NoCandidates)));
    assert!(matches!(suggestion_of(&no_candidates()), Err(SuggestError::NoCandidates)));
    let call = function_call_response("f", Json::Null);
    assert!(matches!(narration_of(&call), Err(NarrateError::NoText)));
    assert!(matches!(suggestion_of(&call), Err(SuggestError::NoText)));
}

#[test]
fn suggest_returns_the_mocks_text_response_as_is() {
    let suggestion =
        suggestion_of(&text_response("What if I cut my turnover budget to 20% instead?")).unwrap();
    assert_eq!(suggestion, "What if I cut my turnover budget to 20% instead?");
    let request = suggestion_request("Vol is 15.5% annualised.");
    assert_eq!(request.contents.len(), 1);
    assert_eq!(request.contents[0].parts[0].text.as_deref(), Some("Vol is 15.5% annualised."));
}

#[test]
fn empty_text_response_produces_an_empty_suggestion_without_erroring() {
    assert_eq!(suggestion_of(&text_response("")).unwrap(), "");
}

#[test]
fn narration_requests_hold_the_evidence_and_the_instructions() {
    let request: GeminiRequest = narration_request("{}", Some("Be brief."), &vec![]);
    let system = request.system_instruction.unwrap();
    assert!(system.parts[0].text.as_deref().unwrap().contains("Be brief."));
    assert!(request.contents[0].parts[0].text.as_deref().unwrap().contains("{}"));
    assert_eq!(narration_of(&text_response("All is well.")).unwrap(), "All is well.");
}

#[test]
fn replies_are_tried_again_after_growing_pauses() {
    assert!(matches!(after_reply(1, 503), NextStep::Wait(250)));
    assert!(matches!(after_reply(2, 503), NextStep::Wait(500)));
    assert!(matches!(after_reply(3, 503), NextStep::Fail));
    assert!(matches!(after_reply(1, 400), NextStep::Fail));
    assert!(matches!(after_reply(1, 200), NextStep::Accept));
    assert_eq!(
        endpoint("gemini-3.8-flash"),
        "https://generativelanguage.googleapis.com/v1beta/models/gemini-3.8-flash:generateContent"
    );
    assert!(!GeminiError::MissingApiKey.message().is_empty());
    let status = GeminiError::Status { status: 429, body: "slow down".to_string() };
    assert!(status.message().contains("429") && status.message().contains("slow down"));
}

#[test]
fn tools_have_names_and_experiments() {
    assert_eq!(RiskTool::parse("current_risk").unwrap().experiment(), "RiskDecomposition");
    assert_eq!(RiskTool::parse("historical_stress").unwrap().experiment(), "FactorShock");
    assert!(RiskTool::parse("weather").is_none());
    match unknown_tool("weather") {
        ToolOutcome::Error(reason) => assert!(reason.contains("weather")),
        ToolOutcome::Trace(_) => panic!("no such tool"),
    }
}

#[test]
fn the_callers_portfolio_replaces_the_planned_one() {
    let params = json(r#"{"portfolio": 1, "window": 60}"#);
    let injected = inject_portfolio(&params, &two_stock_portfolio());
    assert_eq!(tickers_in(&injected), two_stock_portfolio().tickers());
    assert_eq!(f(injected.double_at(&["window"]).unwrap()), 60.0);
    let built = build_experiment(RiskTool::CurrentRisk, &params, &two_stock_portfolio(), &None);
    assert_eq!(tickers_in(&built), two_stock_portfolio().tickers());
    assert_eq!(f(built.double_at(&["window"]).unwrap()), 60.0);
}

#[test]
fn a_historical_stress_takes_its_shocks_from_the_scenario() {
    let params = json(r#"{"scenario_id": "covid_crash"}"#);
    let built =
        build_experiment(RiskTool::HistoricalStress, &params, &two_stock_portfolio(), &None);
    assert_eq!(f(built.double_at(&["shocks_pct", "MARKET"]).unwrap()), -38.0);
    assert_eq!(tickers_in(&built), two_stock_portfolio().tickers());
    let trace = attach_provenance(sample_trace(), RiskTool::HistoricalStress, &params);
    assert!(trace.scenario_provenance.is_some());
    let plain = attach_provenance(sample_trace(), RiskTool::CurrentRisk, &params);
    assert!(plain.scenario_provenance.is_none());
}

fn plan(tool: &str) -> ToolPlan {
    ToolPlan { tool: tool.to_string(), params: Json::object(), reason: String::new() }
}

#[test]
fn a_run_records_every_plan_and_hands_the_snapshot_on() {
    let plans = vec![plan("current_risk"), plan("risk_drift"), plan("weather")];
    let mut run = ToolRun::new();
    assert!(stores_snapshot(&plans, 0));
    assert!(!stores_snapshot(&plans, 1));
    run.finish(
        &plans[0],
        ToolOutcome::Trace(Box::new(sample_trace())),
        5,
        Some("snapshot-1".to_string()),
    );
    let baseline = run.baseline_override(&plans[1]);
    assert_eq!(baseline.as_deref(), Some("snapshot-1"));
    let input = drift_risk::drift::RiskDriftInput {
        baseline_snapshot_id: None,
        window: None,
        frequency: None,
    };
    assert_eq!(with_baseline(input, baseline).baseline_snapshot_id.as_deref(), Some("snapshot-1"));
    run.finish(&plans[1], ToolOutcome::Error("no data".to_string()), 7, None);
    run.finish(&plans[2], unknown_tool("weather"), 0, None);
    assert_eq!(run.traces.len(), 1);
    assert_eq!(run.results.len(), 3);
    assert!(run.results[0].success && !run.results[1].success);
    assert_eq!(run_errors(&run.results).len(), 2);
    let run = tools_outcome(run).unwrap();
    assert_eq!(run.traces.len(), 1);

    let mut failed = ToolRun::new();
    failed.finish(&plans[1], ToolOutcome::Error("no data".to_string()), 7, None);
    failed.finish(&plans[0], ToolOutcome::Error("no model".to_string()), 7, None);
    match tools_outcome(failed) {
        Err(PipelineError::AllToolsFailed(errors)) => assert_eq!(errors, ["no data", "no model"]),
        _ => panic!("a run without a trace has failed"),
    }
}

#[test]
fn execution_traces_count_the_calls_that_were_made() {
    assert_eq!(gemini_calls(0), 3);
    assert_eq!(gemini_calls(2), 5);
    let narration =
        GroundedNarration { narration: "Fine.".to_string(), grounding_warnings: vec![] };
    let record = execution_trace(
        "2026-09-24T00:00:00+00:00".to_string(),
        "how am I doing?",
        "[]".to_string(),
        vec![plan("current_risk")],
        vec![],
        &narration,
        1,
        "Hedge.",
        12,
    );
    assert_eq!(record.user_message, "how am I doing?");
    assert_eq!(record.gemini_calls, 4);
    assert!(record.grounding_status.passed);
    assert_eq!(record.grounding_status.retry_count, 1);
    assert_eq!(record.id.len(), 36);
    let fresh = GroundingStatus::default();
    assert_eq!(fresh.retry_count, 0);
    assert!(OrchestratorError::Unrecognised("x".to_string()).message().contains('x'));
}

#[test]
fn requests_are_written_in_the_wire_format() {
    let request = planning_request("hello", &vec![]);
    let wire = request.to_json();
    let text = match wire.at_path(&["contents"]) {
        Some(Json::Array(turns)) => turns[0].text_at(&["role"]),
        _ => None,
    };
    assert_eq!(text.as_deref(), Some("user"));
    assert!(wire.get("systemInstruction").is_some());
    assert!(wire.get("tools").is_none());
}

#[test]
fn a_trace_accounts_for_each_series() {
    let quality = SeriesQuality {
        ticker: "TCS.NS".to_string(),
        raw_observations: 3,
        forward_filled_days: 1,
        dropped_days: 0,
    };
    assert_eq!(f(quality.to_json().double_at(&["forward_filled_days"]).unwrap()), 1.0);
}

#[test]
fn digits_are_read_however_they_are_grouped() {
    assert_eq!(parse_digits("1,175,389"), "1175389");
    assert_eq!(parse_digits("11,75,389"), "1175389");
    assert_eq!(parse_digits("\u{2212}12.5"), "-12.5");
    assert_eq!(parse_digits(&group_indian("1175389")), "1175389");
}
