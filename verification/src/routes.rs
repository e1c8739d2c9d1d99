//! What the HTTP surface decides around an answer: how a request is put
//! together, what is stored of an answer, and what is sent back.

use vstd::prelude::*;

use crate::api::{self, ApiError, ApiErrorView};
use crate::conversation::ConversationTurn;
use crate::double::Double;
use crate::experiments::Portfolio;
use crate::grounding::GroundedNarration;
use crate::json::{self, Json, JsonView};
use crate::message::{self, Message};
use crate::pipeline;
use crate::scenarios;
use crate::store::RiskSnapshot;
use crate::text;
use crate::trace::EvidenceTrace;

verus! {

// ---------------------------------------------------------------------------
// The request
// ---------------------------------------------------------------------------

/// What is wrong with an experiment that is no object.
pub const NOT_AN_OBJECT: &'static str = "experiment must be a JSON object with a \"type\" field";

/// Puts the portfolio of a request into its experiment, so that it need not be
/// repeated there.
pub fn splice_portfolio(experiment: Json, portfolio: &Portfolio) -> (res: Result<Json, ApiError>)
    ensures
        match experiment@ {
            JsonView::Object(fields) => {
                &&& res is Ok
                &&& res->Ok_0@ == JsonView::Object(
                    json::inserted(fields, "portfolio"@, portfolio.json()),
                )
            },
            _ => {
                &&& res is Err
                &&& res->Err_0@ == api::wrong_request(
                    "invalid_experiment"@,
                    message::plain(NOT_AN_OBJECT@),
                )
            },
        },
{
    broadcast use {json::lemma_object_view, json::lemma_array_view};

    match experiment {
        Json::Object(fields) => {
            let mut fields = fields;
            json::insert(&mut fields, "portfolio", portfolio.to_json());
            Ok(Json::Object(fields))
        },
        _ => Err(ApiError::bad_request("invalid_experiment", Message::of(NOT_AN_OBJECT))),
    }
}

/// The report on an experiment whose parameters cannot be read.
pub fn invalid_experiment(cause: &str) -> (res: ApiError)
    ensures
        res@ == api::wrong_request(
            "invalid_experiment"@,
            message::plain("invalid experiment: "@ + cause@),
        ),
{
    let words = text::join2("invalid experiment: ", cause);
    ApiError::bad_request("invalid_experiment", Message::of(words.as_str()))
}

// ---------------------------------------------------------------------------
// What is stored
// ---------------------------------------------------------------------------

/// The name of the regime of a trace.
pub open spec fn regime_label(state: Option<Json>) -> Option<Seq<char>> {
    match state {
        Some(s) => match s@.field("current_label"@) {
            Some(v) => v.text(),
            None => None,
        },
        None => None,
    }
}

/// The three numbers of a list of three numbers.
pub open spec fn three_numbers(value: JsonView) -> Option<Seq<Double>> {
    match value {
        JsonView::Array(items) => if items.len() == 3 && items[0] is Number && items[1] is Number
            && items[2] is Number {
            Some(
                seq![
                    items[0]->Number_0.double,
                    items[1]->Number_0.double,
                    items[2]->Number_0.double,
                ],
            )
        } else {
            None
        },
        _ => None,
    }
}

/// The probabilities of the regimes of a trace.
pub open spec fn regime_probabilities(state: Option<Json>) -> Option<Seq<Double>> {
    match state {
        Some(s) => match s@.field("smoothed_probs"@) {
            Some(v) => three_numbers(v),
            None => None,
        },
        None => None,
    }
}

/// The name of the regime of a trace.
pub fn label_in(state: &Option<Json>) -> (res: Option<String>)
    ensures
        match res {
            Some(s) => regime_label(*state) == Some(s@),
            None => regime_label(*state) is None,
        },
{
    match state {
        Some(s) => match s.get("current_label") {
            Some(v) => match v.as_text() {
                Some(label) => Some(text::copy(label)),
                None => None,
            },
            None => None,
        },
        None => None,
    }
}

fn numbers_in(value: &Json) -> (res: Option<[Double; 3]>)
    ensures
        match res {
            Some(p) => three_numbers(value@) == Some(p@),
            None => three_numbers(value@) is None,
        },
{
    broadcast use json::lemma_array_view;

    match value {
        Json::Array(items) => {
            if items.len() != 3 {
                return None;
            }
            assert(json::items_view(items@)[0] == items@[0]@);
            assert(json::items_view(items@)[1] == items@[1]@);
            assert(json::items_view(items@)[2] == items@[2]@);
            match (items[0].as_double(), items[1].as_double(), items[2].as_double()) {
                (Some(a), Some(b), Some(c)) => {
                    let probs: [Double; 3] = [a, b, c];
                    assert(probs@ =~= seq![a, b, c]);
                    Some(probs)
                },
                _ => None,
            }
        },
        _ => None,
    }
}

fn probabilities_in(state: &Option<Json>) -> (res: Option<[Double; 3]>)
    ensures
        match res {
            Some(p) => regime_probabilities(*state) == Some(p@),
            None => regime_probabilities(*state) is None,
        },
{
    match state {
        Some(s) => match s.get("smoothed_probs") {
            Some(v) => numbers_in(v),
            None => None,
        },
        None => None,
    }
}

/// The tail loss that is stored of a trace: that of the proposed portfolio, or
/// else of the current one.
pub open spec fn stored_cvar(outputs: JsonView) -> Option<Double> {
    match pipeline::result_number(outputs, seq!["stats_after"@, "historical_cvar"@]) {
        Some(x) => Some(x),
        None => pipeline::result_number(outputs, seq!["stats_before"@, "historical_cvar"@]),
    }
}

/// The tail loss of the proposed portfolio is stored where there is one, and
/// that of the current one where there is no proposal.
pub proof fn lemma_stored_cvar(outputs: JsonView, after: Double, before: Double)
    requires
        outputs.field("result"@) is Some,
    ensures
        ({
            let result = outputs.field("result"@)->Some_0;
            &&& result.field("stats_after"@) is Some && result.field("stats_after"@)->Some_0.field(
                "historical_cvar"@,
            ) is Some && result.field("stats_after"@)->Some_0.field(
                "historical_cvar"@,
            )->Some_0.double() == Some(after) ==> stored_cvar(outputs) == Some(after)
            &&& result.field("stats_after"@) is Some && result.field("stats_after"@)->Some_0.field(
                "historical_cvar"@,
            ) is None && result.field("stats_before"@) is Some && result.field(
                "stats_before"@,
            )->Some_0.field("historical_cvar"@) is Some && result.field(
                "stats_before"@,
            )->Some_0.field("historical_cvar"@)->Some_0.double() == Some(before) ==> stored_cvar(
                outputs,
            ) == Some(before)
        }),
{
    let result = outputs.field("result"@)->Some_0;
    if result.field("stats_after"@) is Some {
        json::lemma_two_steps(result, "stats_after"@, "historical_cvar"@);
    }
    if result.field("stats_before"@) is Some {
        json::lemma_two_steps(result, "stats_before"@, "historical_cvar"@);
    }
}

/// The regime of a trace is read off its state: its name from the current
/// label, and its probabilities from the three smoothed ones in their order.
pub proof fn lemma_regime_of_a_state(state: Json, items: Seq<JsonView>, label: Seq<char>)
    requires
        state@.field("smoothed_probs"@) == Some(JsonView::Array(items)),
        items.len() == 3,
        items[0] is Number && items[1] is Number && items[2] is Number,
    ensures
        regime_probabilities(Some(state)) is Some,
        regime_probabilities(Some(state))->Some_0.len() == 3,
        forall|k: int|
            0 <= k < 3 ==> (#[trigger] regime_probabilities(Some(state))->Some_0[k])
                == items[k]->Number_0.double,
        state@.field("current_label"@) == Some(JsonView::Text(label)) ==> regime_label(
            Some(state),
        ) == Some(label),
        regime_label(None) is None && regime_probabilities(None) is None,
{
}

/// The tail loss that is stored of a trace.
pub fn historical_cvar(trace: &EvidenceTrace) -> (res: Option<Double>)
    ensures
        res == stored_cvar(trace.outputs@),
{
    let after: [&str; 2] = ["stats_after", "historical_cvar"];
    let before: [&str; 2] = ["stats_before", "historical_cvar"];
    assert(json::path_view(after@) =~= seq!["stats_after"@, "historical_cvar"@]);
    assert(json::path_view(before@) =~= seq!["stats_before"@, "historical_cvar"@]);
    match pipeline::number_in_result(&trace.outputs, &after) {
        Some(x) => Some(x),
        None => pipeline::number_in_result(&trace.outputs, &before),
    }
}

/// What is stored of a trace. The identifier and the time are given to it when
/// it is stored; a narration may be added before.
pub fn snapshot_from_trace(
    trace: &EvidenceTrace,
    portfolio_hash: &str,
    cvar_historical: Option<Double>,
    trace_json: String,
) -> (res: RiskSnapshot)
    ensures
        res.id@.len() == 0,
        res.created_at@.len() == 0,
        res.portfolio_hash@ == portfolio_hash@,
        res.experiment_type@ == trace.experiment@,
        res.engine_version@ == trace.engine_version@,
        match res.regime_label {
            Some(s) => regime_label(trace.model_params.regime_state) == Some(s@),
            None => regime_label(trace.model_params.regime_state) is None,
        },
        match res.smoothed_probs {
            Some(p) => regime_probabilities(trace.model_params.regime_state) == Some(p@),
            None => regime_probabilities(trace.model_params.regime_state) is None,
        },
        res.portfolio_vol_annualized == pipeline::result_number(
            trace.outputs@,
            seq!["portfolio_vol_annualized"@],
        ),
        res.cvar_historical == cvar_historical,
        res.trace_json == trace_json,
        res.narration is None,
        res.suggestion is None,
        res.grounding_warnings is None,
{
    let path: [&str; 1] = ["portfolio_vol_annualized"];
    assert(json::path_view(path@) =~= seq!["portfolio_vol_annualized"@]);
    RiskSnapshot {
        id: String::new(),
        created_at: String::new(),
        portfolio_hash: text::copy(portfolio_hash),
        experiment_type: text::copy(trace.experiment.as_str()),
        engine_version: text::copy(trace.engine_version.as_str()),
        regime_label: label_in(&trace.model_params.regime_state),
        smoothed_probs: probabilities_in(&trace.model_params.regime_state),
        portfolio_vol_annualized: pipeline::number_in_result(&trace.outputs, &path),
        cvar_historical,
        trace_json,
        narration: None,
        suggestion: None,
        grounding_warnings: None,
    }
}

/// What `serde_json` reads in a text as a list of strings: the strings, or what
/// is wrong with it.
pub uninterp spec fn texts_of_json(text: Seq<char>) -> Result<Seq<Seq<char>>, Seq<char>>;

/// What `serde_json` writes for a list of strings.
pub uninterp spec fn json_of_texts(texts: Seq<Seq<char>>) -> Seq<char>;

/// What came of reading strings.
pub open spec fn texts_view(read: Result<Vec<String>, String>) -> Result<
    Seq<Seq<char>>,
    Seq<char>,
> {
    match read {
        Ok(texts) => Ok(text::views(texts@)),
        Err(e) => Err(e@),
    }
}

/// Whether strings were read, and which.
pub open spec fn reads_as(
    read: Result<Seq<Seq<char>>, Seq<char>>,
    texts: Seq<Seq<char>>,
) -> bool {
    read is Ok && read->Ok_0 == texts
}

/// Calls `serde_json::to_string` on a list of strings. Claimed: it succeeds,
/// what it writes depends on the strings alone, and
/// `serde_json::from_str::<Vec<String>>` reads the same strings in it.
#[verifier::external_body]
fn write_texts(texts: &Vec<String>) -> (res: Result<String, String>)
    ensures
        res is Ok,
        res->Ok_0@ == json_of_texts(text::views(texts@)),
        reads_as(texts_of_json(res->Ok_0@), text::views(texts@)),
{
    serde_json::to_string(texts).map_err(|e| e.to_string())
}

/// Calls `serde_json::from_str::<Vec<String>>` and writes an error with its
/// `Display`. Claimed: what comes out depends on the text alone.
#[verifier::external_body]
fn read_texts(text: &str) -> (res: Result<Vec<String>, String>)
    ensures
        texts_view(res) == texts_of_json(text@),
{
    serde_json::from_str::<Vec<String>>(text).map_err(|e| e.to_string())
}

/// The warnings of a snapshot, of which none are stored where there are none.
pub open spec fn warnings_in(stored: Option<String>) -> Result<Seq<Seq<char>>, Seq<char>> {
    match stored {
        Some(s) => texts_of_json(s@),
        None => Ok(seq![]),
    }
}

/// Adds to a snapshot what was said; warnings, written as JSON, only where
/// there are some.
pub fn with_answer(snapshot: RiskSnapshot, narration: &GroundedNarration, suggestion: &str) -> (res:
    RiskSnapshot)
    ensures
        res == (RiskSnapshot {
            narration: res.narration,
            suggestion: res.suggestion,
            grounding_warnings: res.grounding_warnings,
            ..snapshot
        }),
        res.narration is Some && res.narration->Some_0@ == narration.narration@,
        res.suggestion is Some && res.suggestion->Some_0@ == suggestion@,
        match res.grounding_warnings {
            Some(s) => narration.grounding_warnings@.len() > 0 && s@ == json_of_texts(
                text::views(narration.grounding_warnings@),
            ),
            None => narration.grounding_warnings@.len() == 0,
        },
        reads_as(
            warnings_in(res.grounding_warnings),
            text::views(narration.grounding_warnings@),
        ),
{
    let mut snapshot = snapshot;
    snapshot.narration = Some(text::copy(narration.narration.as_str()));
    snapshot.suggestion = Some(text::copy(suggestion));
    snapshot.grounding_warnings =
    if narration.grounding_warnings.len() == 0 {
        assert(text::views(narration.grounding_warnings@) =~= seq![]);
        None
    } else {
        write_texts(&narration.grounding_warnings).ok()
    };
    snapshot
}

/// What warnings that were read come to.
pub open spec fn warnings_outcome(read: Result<Seq<Seq<char>>, Seq<char>>) -> Result<
    Seq<Seq<char>>,
    ApiErrorView,
> {
    match read {
        Ok(warnings) => Ok(warnings),
        Err(cause) => Err(
            api::internal_error(
                message::plain("stored grounding_warnings is invalid"@ + ": "@ + cause),
            ),
        ),
    }
}

/// Decides on warnings that were read.
pub fn accept_warnings(read: Result<Vec<String>, String>) -> (res: Result<Vec<String>, ApiError>)
    ensures
        match read {
            Ok(warnings) => res == Ok::<Vec<String>, ApiError>(warnings),
            Err(cause) => res is Err && Err::<Seq<Seq<char>>, ApiErrorView>(res->Err_0@)
                == warnings_outcome(Err(cause@)),
        },
{
    match read {
        Ok(warnings) => Ok(warnings),
        Err(cause) => Err(storage_failure("stored grounding_warnings is invalid", cause.as_str())),
    }
}

/// The warnings of a stored snapshot.
pub fn stored_warnings(snapshot: &RiskSnapshot) -> (res: Result<Vec<String>, ApiError>)
    ensures
        match warnings_outcome(warnings_in(snapshot.grounding_warnings)) {
            Ok(warnings) => res is Ok && text::views(res->Ok_0@) == warnings,
            Err(e) => res is Err && res->Err_0@ == e,
        },
{
    match &snapshot.grounding_warnings {
        Some(s) => accept_warnings(read_texts(s.as_str())),
        None => {
            let none: Vec<String> = Vec::new();
            assert(text::views(none@) =~= seq![]);
            Ok(none)
        },
    }
}

// ---------------------------------------------------------------------------
// What is sent back
// ---------------------------------------------------------------------------

/// The report on an identifier that nothing is stored under.
pub open spec fn unknown_result(id: Seq<char>) -> ApiErrorView {
    ApiErrorView {
        status: api::NOT_FOUND,
        code: "result_not_found"@,
        message: message::plain("no stored result for id "@ + id),
    }
}

/// The snapshot that a report is made from.
pub fn found_snapshot(result_id: &str, found: Option<RiskSnapshot>) -> (res: Result<
    RiskSnapshot,
    ApiError,
>)
    ensures
        match found {
            Some(snapshot) => res == Ok::<RiskSnapshot, ApiError>(snapshot),
            None => res is Err && res->Err_0@ == unknown_result(result_id@),
        },
{
    match found {
        Some(snapshot) => Ok(snapshot),
        None => {
            let words = text::join2("no stored result for id ", result_id);
            Err(ApiError::not_found("result_not_found", Message::of(words.as_str())))
        },
    }
}

/// The report on an identifier that no record of an answer is stored under.
pub open spec fn unknown_execution_trace(id: Seq<char>) -> ApiErrorView {
    ApiErrorView {
        status: api::NOT_FOUND,
        code: "result_not_found"@,
        message: message::plain("no stored execution trace for id "@ + id),
    }
}

/// The record of how a question was answered, as it was stored.
pub fn found_execution_trace(id: &str, found: Option<String>) -> (res: Result<String, ApiError>)
    ensures
        match found {
            Some(record) => res == Ok::<String, ApiError>(record),
            None => res is Err && res->Err_0@ == unknown_execution_trace(id@),
        },
{
    match found {
        Some(record) => Ok(record),
        None => {
            let words = text::join2("no stored execution trace for id ", id);
            Err(ApiError::not_found("result_not_found", Message::of(words.as_str())))
        },
    }
}

/// The report on a failure of what is stored.
pub fn storage_failure(what: &str, cause: &str) -> (res: ApiError)
    ensures
        res@ == api::internal_error(message::plain(what@ + ": "@ + cause@)),
{
    let words = text::join3(what, ": ", cause);
    ApiError::internal(Message::of(words.as_str()))
}

/// The scenarios as a JSON list.
pub fn scenarios_json() -> (res: Json)
    ensures
        res@ == JsonView::Array(
            Seq::new(
                scenarios::SCENARIO_COUNT as nat,
                |place: int| scenarios::scenario_json(place),
            ),
        ),
{
    broadcast use json::lemma_array_view;

    let all = scenarios::all_scenarios();
    let mut out: Vec<Json> = Vec::new();
    let mut i: usize = 0;
    while i < all.len()
        invariant
            i <= all@.len(),
            all@.len() == scenarios::SCENARIO_COUNT,
            forall|k: int| 0 <= k < all@.len() ==> scenarios::is_scenario(#[trigger] all@[k], k),
            out@.len() == i,
            forall|k: int| 0 <= k < i ==> (#[trigger] out@[k])@ == scenarios::scenario_json(k),
        decreases all.len() - i,
    {
        assert(scenarios::is_scenario(all@[i as int], i as int));
        out.push(all[i].to_json());
        i += 1;
    }
    assert(json::items_view(out@) =~= Seq::new(
        scenarios::SCENARIO_COUNT as nat,
        |place: int| scenarios::scenario_json(place),
    ));
    Json::Array(out)
}

impl ConversationTurn {
    /// The turn as a JSON object.
    pub open spec fn json(self) -> JsonView {
        JsonView::empty().with("role"@, JsonView::Text(self.role@)).with(
            "content"@,
            JsonView::Text(self.content@),
        )
    }

    /// Each field of the object holds the figure that it is named after.
    pub proof fn lemma_json_fields(self)
        ensures
            self.json().field("role"@) == Some(JsonView::Text(self.role@)),
            self.json().field("content"@) == Some(JsonView::Text(self.content@)),
    {
        broadcast use crate::json::group_fields;

        reveal_strlit("role");
        reveal_strlit("content");
        assert("role"@.len() == 4);
        assert("content"@.len() == 7);
    }

    /// The turn as a JSON object.
    pub fn to_json(&self) -> (res: Json)
        ensures
            res@ == self.json(),
    {
        Json::object().with("role", Json::of_text(self.role.as_str())).with(
            "content",
            Json::of_text(self.content.as_str()),
        )
    }
}

/// The answer to a question. Its narration comes along as a turn of the
/// assistant, for the next request.
pub fn ask_response(
    experiment: Json,
    trace: &EvidenceTrace,
    narration: &GroundedNarration,
    suggestion: &str,
    result_id: &str,
) -> (res: Json)
    requires
        trace.valid(),
    ensures
        res@ == JsonView::empty().with("experiment"@, experiment@).with("trace"@, trace.json()).with(
            "narration"@,
            JsonView::Text(narration.narration@),
        ).with(
            "grounding_warnings"@,
            JsonView::of_texts(text::views(narration.grounding_warnings@)),
        ).with(
            "assistant_turn"@,
            JsonView::empty().with("role"@, JsonView::Text("assistant"@)).with(
                "content"@,
                JsonView::Text(narration.narration@),
            ),
        ).with("suggestion"@, JsonView::Text(suggestion@)).with(
            "result_id"@,
            JsonView::Text(result_id@),
        ),
{
    let turn = ConversationTurn::assistant(narration.narration.as_str());
    Json::object().with("experiment", experiment).with("trace", trace.to_json()).with(
        "narration",
        Json::of_text(narration.narration.as_str()),
    ).with("grounding_warnings", Json::of_texts(&narration.grounding_warnings)).with(
        "assistant_turn",
        turn.to_json(),
    ).with("suggestion", Json::of_text(suggestion)).with("result_id", Json::of_text(result_id))
}

} // verus!
