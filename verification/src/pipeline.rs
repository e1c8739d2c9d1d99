//! What surrounds the answer to a question: the summary of what was found that
//! a next step is suggested from, and what can go wrong on the way.

use vstd::prelude::*;

use crate::dispatch::Experiment;
use crate::double::Double;
use crate::error::ComputeError;
use crate::json::{self, Json, JsonView};
use crate::message::{self, Message, PieceView, Style};
use crate::narrate::NarrateError;
use crate::orchestrator::{self, OrchestratorError, ToolRun};
use crate::suggest::SuggestError;
use crate::text;
use crate::trace::EvidenceTrace;

verus! {

/// Why a question could not be answered.
#[derive(Debug)]
pub enum PipelineError {
    Orchestrator(OrchestratorError),
    Compute(ComputeError),
    Narrate(NarrateError),
    Suggest(SuggestError),
    /// No planned tool produced a trace: the errors of all of them.
    AllToolsFailed(Vec<String>),
}

/// Goes on with a run that has a trace. One without has failed as a whole, for
/// the reasons that its tools failed for.
pub fn tools_outcome(run: ToolRun) -> (res: Result<ToolRun, PipelineError>)
    ensures
        run.traces@.len() > 0 ==> res == Ok::<ToolRun, PipelineError>(run),
        run.traces@.len() == 0 ==> {
            &&& res is Err
            &&& res->Err_0 is AllToolsFailed
            &&& text::views(res->Err_0->AllToolsFailed_0@) == orchestrator::errors_of(
                run.results@,
                run.results@.len() as int,
            )
        },
{
    if run.traces.len() == 0 {
        return Err(PipelineError::AllToolsFailed(orchestrator::run_errors(&run.results)));
    }
    Ok(run)
}

/// A list of texts as it is written for debugging.
pub open spec fn debug_list(texts: Seq<Seq<char>>) -> Seq<char> {
    "["@ + text::joined(texts.map_values(|t: Seq<char>| text::quoted(t)), ", "@) + "]"@
}

/// Writes a list of texts for debugging.
pub fn debug_texts(texts: &Vec<String>) -> (res: String)
    ensures
        res@ == debug_list(text::views(texts@)),
{
    let mut pieces: Vec<String> = Vec::new();
    let mut i: usize = 0;
    while i < texts.len()
        invariant
            i <= texts@.len(),
            pieces@.len() == i,
            forall|k: int|
                0 <= k < i ==> (#[trigger] pieces@[k])@ == text::quoted(texts@[k]@),
        decreases texts.len() - i,
    {
        pieces.push(text::quote(texts[i].as_str()));
        i += 1;
    }
    assert(text::views(pieces@) =~= text::views(texts@).map_values(
        |t: Seq<char>| text::quoted(t),
    ));
    let list = text::join(&pieces, ", ");
    text::join3("[", list.as_str(), "]")
}

/// What is said where every tool failed.
pub open spec fn all_failed(errors: Seq<Seq<char>>) -> Seq<char> {
    "every planned tool failed: "@ + debug_list(errors)
}

impl PipelineError {
    /// The sentence shown to a reader.
    pub open spec fn sentence(self) -> Seq<PieceView> {
        match self {
            PipelineError::Orchestrator(e) => message::plain("planning error: "@ + e.sentence()),
            PipelineError::Compute(e) => message::plain("compute error: "@) + e@.sentence(),
            PipelineError::Narrate(e) => message::plain("narration error: "@ + e.sentence()),
            PipelineError::Suggest(e) => message::plain("suggestion error: "@ + e.sentence()),
            PipelineError::AllToolsFailed(errors) => message::plain(
                all_failed(text::views(errors@)),
            ),
        }
    }

    /// The sentence shown to a reader.
    pub fn message(&self) -> (res: Message)
        ensures
            res@ == self.sentence(),
    {
        match self {
            PipelineError::Orchestrator(e) => {
                let cause = e.message();
                let words = text::join2("planning error: ", cause.as_str());
                Message::of(words.as_str())
            },
            PipelineError::Compute(e) => {
                let mut m = Message::of("compute error: ");
                let cause = e.message();
                m.append(&cause);
                m
            },
            PipelineError::Narrate(e) => {
                let cause = e.message();
                let words = text::join2("narration error: ", cause.as_str());
                Message::of(words.as_str())
            },
            PipelineError::Suggest(e) => {
                let cause = e.message();
                let words = text::join2("suggestion error: ", cause.as_str());
                Message::of(words.as_str())
            },
            PipelineError::AllToolsFailed(errors) => {
                let list = debug_texts(errors);
                let words = text::join2("every planned tool failed: ", list.as_str());
                Message::of(words.as_str())
            },
        }
    }
}

// ---------------------------------------------------------------------------
// The summary
// ---------------------------------------------------------------------------

/// The number at the end of a chain of names inside the result of a trace.
pub open spec fn result_number(outputs: JsonView, path: Seq<Seq<char>>) -> Option<Double> {
    match outputs.field("result"@) {
        Some(result) => json::double_at(result, path),
        None => None,
    }
}

/// The number at the end of a chain of names inside the result of a trace.
pub fn number_in_result(outputs: &Json, path: &[&str]) -> (res: Option<Double>)
    ensures
        res == result_number(outputs@, json::path_view(path@)),
{
    match outputs.get("result") {
        Some(result) => result.double_at(path),
        None => None,
    }
}

/// A sentence with one number, or a shorter one where the number is missing.
pub open spec fn number_sentence(
    value: Option<Double>,
    head: Seq<char>,
    style: Style,
    tail: Seq<char>,
    without: Seq<char>,
) -> Seq<PieceView> {
    match value {
        Some(x) => seq![
            PieceView::Text(head),
            PieceView::Number(x, style),
            PieceView::Text(tail),
        ],
        None => message::plain(without),
    }
}

fn sentence_with(value: Option<Double>, head: &str, style: Style, tail: &str, without: &str) -> (res:
    Message)
    ensures
        res@ == number_sentence(value, head@, style, tail@, without@),
{
    match value {
        Some(x) => {
            let mut m = Message::of(head);
            m.number(x, style);
            m.text(tail);
            assert(m@ =~= seq![
                PieceView::Text(head@),
                PieceView::Number(x, style),
                PieceView::Text(tail@),
            ]);
            m
        },
        None => Message::of(without),
    }
}

/// The verdict in the result of a policy check.
pub open spec fn verdict(outputs: JsonView) -> Option<bool> {
    match outputs.at(seq!["result"@, "policy_result"@, "all_passed"@]) {
        Some(JsonView::Bool(b)) => Some(b),
        _ => None,
    }
}

/// A trace in one sentence: which experiment it is and its key number.
pub open spec fn summary(experiment: Seq<char>, outputs: JsonView) -> Seq<PieceView> {
    if experiment == "FactorShock"@ {
        number_sentence(
            result_number(outputs, seq!["portfolio_pnl_inr"@]),
            "FactorShock experiment result: portfolio P&L is "@,
            Style::Fixed(2),
            " INR."@,
            "FactorShock experiment result."@,
        )
    } else if experiment == "RiskDecomposition"@ {
        number_sentence(
            result_number(outputs, seq!["portfolio_vol_annualized"@]),
            "RiskDecomposition experiment result: annualised portfolio vol is "@,
            Style::Fixed(6),
            "."@,
            "RiskDecomposition experiment result."@,
        )
    } else if experiment == "CvarRebalance"@ {
        match (
            result_number(outputs, seq!["stats_before"@, "historical_cvar"@]),
            result_number(outputs, seq!["stats_after"@, "historical_cvar"@]),
        ) {
            (Some(before), Some(after)) => seq![
                PieceView::Text("CvarRebalance experiment result: historical CVaR went from "@),
                PieceView::Number(before, Style::Fixed(6)),
                PieceView::Text(" to "@),
                PieceView::Number(after, Style::Fixed(6)),
                PieceView::Text("."@),
            ],
            _ => message::plain("CvarRebalance experiment result."@),
        }
    } else if experiment == "PortfolioPerformance"@ {
        number_sentence(
            result_number(outputs, seq!["total_return"@]),
            "PortfolioPerformance experiment result: total return over the window is "@,
            Style::Fixed(4),
            "."@,
            "PortfolioPerformance experiment result."@,
        )
    } else if experiment == "RiskDrift"@ {
        number_sentence(
            result_number(outputs, seq!["vol_change_pct"@]),
            "RiskDrift experiment result: portfolio vol changed by "@,
            Style::Fixed(2),
            "%."@,
            "RiskDrift experiment result."@,
        )
    } else if experiment == "ReverseStress"@ {
        number_sentence(
            result_number(outputs, seq!["mahalanobis_severity"@]),
            "ReverseStress experiment result: minimum-severity breaching shock has Mahalanobis severity "@,
            Style::Fixed(2),
            "."@,
            "ReverseStress experiment result."@,
        )
    } else if experiment == "PolicyCheck"@ {
        match verdict(outputs) {
            Some(true) => message::plain(
                "PolicyCheck experiment result: portfolio passes all policy checks."@,
            ),
            Some(false) => message::plain(
                "PolicyCheck experiment result: portfolio breaches at least one policy check."@,
            ),
            None => message::plain("PolicyCheck experiment result."@),
        }
    } else {
        message::plain(experiment + " experiment result."@)
    }
}

proof fn lemma_experiment_names()
    ensures
        "RiskDecomposition"@ != "FactorShock"@,
        "CvarRebalance"@ != "FactorShock"@ && "CvarRebalance"@ != "RiskDecomposition"@,
        "PortfolioPerformance"@ != "FactorShock"@ && "PortfolioPerformance"@
            != "RiskDecomposition"@ && "PortfolioPerformance"@ != "CvarRebalance"@,
        "RiskDrift"@ != "FactorShock"@ && "RiskDrift"@ != "RiskDecomposition"@ && "RiskDrift"@
            != "CvarRebalance"@ && "RiskDrift"@ != "PortfolioPerformance"@,
        "ReverseStress"@ != "FactorShock"@ && "ReverseStress"@ != "RiskDecomposition"@
            && "ReverseStress"@ != "CvarRebalance"@ && "ReverseStress"@ != "PortfolioPerformance"@
            && "ReverseStress"@ != "RiskDrift"@,
        "PolicyCheck"@ != "FactorShock"@ && "PolicyCheck"@ != "RiskDecomposition"@
            && "PolicyCheck"@ != "CvarRebalance"@ && "PolicyCheck"@ != "PortfolioPerformance"@
            && "PolicyCheck"@ != "RiskDrift"@ && "PolicyCheck"@ != "ReverseStress"@,
{
    reveal_strlit("FactorShock");
    reveal_strlit("RiskDecomposition");
    reveal_strlit("CvarRebalance");
    reveal_strlit("PortfolioPerformance");
    reveal_strlit("RiskDrift");
    reveal_strlit("ReverseStress");
    reveal_strlit("PolicyCheck");
    assert("FactorShock"@.len() == 11 && "RiskDecomposition"@.len() == 17);
    assert("CvarRebalance"@.len() == 13 && "PortfolioPerformance"@.len() == 20);
    assert("RiskDrift"@.len() == 9 && "ReverseStress"@.len() == 13 && "PolicyCheck"@.len() == 11);
    assert("FactorShock"@[0] == 'F' && "PolicyCheck"@[0] == 'P');
    assert("CvarRebalance"@[0] == 'C' && "ReverseStress"@[0] == 'R');
}

/// The number that stands for an experiment in its sentence: the result of a
/// shock, the volatility of a decomposition, the return of a performance, the
/// change of volatility of a drift, the severity of a stress.
pub open spec fn key_number(experiment: Seq<char>) -> Option<Seq<char>> {
    if experiment == "FactorShock"@ {
        Some("portfolio_pnl_inr"@)
    } else if experiment == "RiskDecomposition"@ {
        Some("portfolio_vol_annualized"@)
    } else if experiment == "PortfolioPerformance"@ {
        Some("total_return"@)
    } else if experiment == "RiskDrift"@ {
        Some("vol_change_pct"@)
    } else if experiment == "ReverseStress"@ {
        Some("mahalanobis_severity"@)
    } else {
        None
    }
}

/// An experiment with a key number is told by that number; a rebalance by the
/// tail loss before and after, in this order; a policy check by its verdict.
pub proof fn lemma_summary_shows(
    experiment: Seq<char>,
    outputs: JsonView,
    x: Double,
    before: Double,
    after: Double,
)
    requires
        outputs.field("result"@) is Some,
    ensures
        ({
            let result = outputs.field("result"@)->Some_0;
            &&& key_number(experiment) is Some && result.field(
                key_number(experiment)->Some_0,
            ) is Some && result.field(key_number(experiment)->Some_0)->Some_0.double() == Some(x)
                ==> summary(experiment, outputs).len() == 3 && summary(
                experiment,
                outputs,
            )[1] is Number && summary(experiment, outputs)[1]->Number_0 == x
            &&& experiment == "CvarRebalance"@ && result.field("stats_before"@) is Some
                && result.field("stats_before"@)->Some_0.field("historical_cvar"@) is Some
                && result.field("stats_before"@)->Some_0.field("historical_cvar"@)->Some_0.double()
                == Some(before) && result.field("stats_after"@) is Some && result.field(
                "stats_after"@,
            )->Some_0.field("historical_cvar"@) is Some && result.field(
                "stats_after"@,
            )->Some_0.field("historical_cvar"@)->Some_0.double() == Some(after) ==> summary(
                experiment,
                outputs,
            )[1] == PieceView::Number(before, Style::Fixed(6)) && summary(experiment, outputs)[3]
                == PieceView::Number(after, Style::Fixed(6))
        }),
{
    lemma_experiment_names();
    let result = outputs.field("result"@)->Some_0;
    if key_number(experiment) is Some {
        json::lemma_one_step(result, key_number(experiment)->Some_0);
    }
    if result.field("stats_before"@) is Some {
        json::lemma_two_steps(result, "stats_before"@, "historical_cvar"@);
    }
    if result.field("stats_after"@) is Some {
        json::lemma_two_steps(result, "stats_after"@, "historical_cvar"@);
    }
}

/// Puts a trace into one sentence.
pub fn experiment_summary(trace: &EvidenceTrace) -> (res: Message)
    ensures
        res@ == summary(trace.experiment@, trace.outputs@),
{
    let name = trace.experiment.as_str();
    let outputs = &trace.outputs;
    if text::same(name, "FactorShock") {
        let path: [&str; 1] = ["portfolio_pnl_inr"];
        assert(json::path_view(path@) =~= seq!["portfolio_pnl_inr"@]);
        sentence_with(
            number_in_result(outputs, &path),
            "FactorShock experiment result: portfolio P&L is ",
            Style::Fixed(2),
            " INR.",
            "FactorShock experiment result.",
        )
    } else if text::same(name, "RiskDecomposition") {
        let path: [&str; 1] = ["portfolio_vol_annualized"];
        assert(json::path_view(path@) =~= seq!["portfolio_vol_annualized"@]);
        sentence_with(
            number_in_result(outputs, &path),
            "RiskDecomposition experiment result: annualised portfolio vol is ",
            Style::Fixed(6),
            ".",
            "RiskDecomposition experiment result.",
        )
    } else if text::same(name, "CvarRebalance") {
        let first: [&str; 2] = ["stats_before", "historical_cvar"];
        let second: [&str; 2] = ["stats_after", "historical_cvar"];
        assert(json::path_view(first@) =~= seq!["stats_before"@, "historical_cvar"@]);
        assert(json::path_view(second@) =~= seq!["stats_after"@, "historical_cvar"@]);
        match (number_in_result(outputs, &first), number_in_result(outputs, &second)) {
            (Some(before), Some(after)) => {
                let mut m = Message::of(
                    "CvarRebalance experiment result: historical CVaR went from ",
                );
                m.number(before, Style::Fixed(6));
                m.text(" to ");
                m.number(after, Style::Fixed(6));
                m.text(".");
                assert(m@ =~= seq![
                    PieceView::Text("CvarRebalance experiment result: historical CVaR went from "@),
                    PieceView::Number(before, Style::Fixed(6)),
                    PieceView::Text(" to "@),
                    PieceView::Number(after, Style::Fixed(6)),
                    PieceView::Text("."@),
                ]);
                m
            },
            _ => Message::of("CvarRebalance experiment result."),
        }
    } else if text::same(name, "PortfolioPerformance") {
        let path: [&str; 1] = ["total_return"];
        assert(json::path_view(path@) =~= seq!["total_return"@]);
        sentence_with(
            number_in_result(outputs, &path),
            "PortfolioPerformance experiment result: total return over the window is ",
            Style::Fixed(4),
            ".",
            "PortfolioPerformance experiment result.",
        )
    } else if text::same(name, "RiskDrift") {
        let path: [&str; 1] = ["vol_change_pct"];
        assert(json::path_view(path@) =~= seq!["vol_change_pct"@]);
        sentence_with(
            number_in_result(outputs, &path),
            "RiskDrift experiment result: portfolio vol changed by ",
            Style::Fixed(2),
            "%.",
            "RiskDrift experiment result.",
        )
    } else if text::same(name, "ReverseStress") {
        let path: [&str; 1] = ["mahalanobis_severity"];
        assert(json::path_view(path@) =~= seq!["mahalanobis_severity"@]);
        sentence_with(
            number_in_result(outputs, &path),
            "ReverseStress experiment result: minimum-severity breaching shock has Mahalanobis severity ",
            Style::Fixed(2),
            ".",
            "ReverseStress experiment result.",
        )
    } else if text::same(name, "PolicyCheck") {
        let path: [&str; 3] = ["result", "policy_result", "all_passed"];
        assert(json::path_view(path@) =~= seq!["result"@, "policy_result"@, "all_passed"@]);
        match outputs.at_path(&path) {
            Some(Json::Bool(true)) => Message::of(
                "PolicyCheck experiment result: portfolio passes all policy checks.",
            ),
            Some(Json::Bool(false)) => Message::of(
                "PolicyCheck experiment result: portfolio breaches at least one policy check.",
            ),
            _ => Message::of("PolicyCheck experiment result."),
        }
    } else {
        let words = text::join2(name, " experiment result.");
        Message::of(words.as_str())
    }
}

/// The sentences of the first `n` traces, with spaces between them.
pub open spec fn summaries(traces: Seq<EvidenceTrace>, n: int) -> Seq<PieceView>
    decreases n,
{
    if n <= 0 {
        seq![]
    } else if n == 1 {
        summary(traces[0].experiment@, traces[0].outputs@)
    } else {
        summaries(traces, n - 1).push(PieceView::Text(" "@)) + summary(
            traces[n - 1].experiment@,
            traces[n - 1].outputs@,
        )
    }
}

/// What was found begins with the sentence on the first trace, and each further
/// trace adds a space and its own sentence.
pub proof fn lemma_summaries(traces: Seq<EvidenceTrace>, n: int)
    requires
        1 <= n < traces.len(),
    ensures
        summaries(traces, 0).len() == 0,
        summaries(traces, 1) == summary(traces[0].experiment@, traces[0].outputs@),
        summaries(traces, n + 1) == summaries(traces, n) + seq![PieceView::Text(" "@)] + summary(
            traces[n].experiment@,
            traces[n].outputs@,
        ),
{
    assert(summaries(traces, n).push(PieceView::Text(" "@)) =~= summaries(traces, n) + seq![
        PieceView::Text(" "@),
    ]);
}

/// What was found, as a next step is suggested from it.
pub fn combined_summary(traces: &Vec<EvidenceTrace>) -> (res: Message)
    ensures
        res@ == summaries(traces@, traces@.len() as int),
{
    let mut out = Message::new();
    let mut i: usize = 0;
    while i < traces.len()
        invariant
            i <= traces@.len(),
            out@ == summaries(traces@, i as int),
        decreases traces.len() - i,
    {
        if i > 0 {
            out.text(" ");
        }
        let sentence = experiment_summary(&traces[i]);
        out.append(&sentence);
        i += 1;
        assert(out@ =~= summaries(traces@, i as int));
    }
    out
}

/// The experiment that a trace records: its parameters and its name.
pub open spec fn recorded_experiment(trace: EvidenceTrace) -> JsonView {
    JsonView::Object(
        json::inserted(
            orchestrator::fields_of(trace.inputs@),
            "type"@,
            JsonView::Text(trace.experiment@),
        ),
    )
}

/// The value that the experiment recorded by a trace is read from.
pub fn experiment_from_trace(trace: &EvidenceTrace) -> (res: Json)
    ensures
        res@ == recorded_experiment(*trace),
{
    broadcast use {json::lemma_object_view, json::lemma_array_view};

    let mut fields = match trace.inputs.duplicate() {
        Json::Object(fields) => fields,
        _ => {
            let none: Vec<json::Field> = Vec::new();
            assert(json::fields_view(none@) =~= seq![]);
            none
        },
    };
    json::insert(&mut fields, "type", Json::of_text(trace.experiment.as_str()));
    Json::Object(fields)
}

/// The experiment that a trace records is the one that was run: its parameters
/// and its name, as they were requested.
pub proof fn lemma_experiment_reads_back(experiment: Experiment, trace: EvidenceTrace)
    requires
        trace.inputs@ == experiment.inputs(),
        trace.experiment@ == experiment.tag(),
    ensures
        recorded_experiment(trace) == experiment.inputs().with(
            "type"@,
            JsonView::Text(experiment.tag()),
        ),
{
    assert(experiment.inputs() is Object);
}

} // verus!
