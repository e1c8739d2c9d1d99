//! Rebalancing for the smallest tail loss: what surrounds the linear program.
//! Which scenarios it runs on, whether it can have a solution at all, what is
//! reported when it has none, and how a policy that is still broken is
//! remedied.

use vstd::prelude::*;

use crate::data::MarketData;
use crate::double::Double;
use crate::error::{ComputeError, ComputeErrorView};
use crate::experiments::{Holding, Portfolio};
use crate::json::{Json, JsonView};
use crate::message::{self, Message, PieceView, Style};
use crate::model::{self, Frequency};
use crate::performance;
use crate::policy::{self, PolicyResult, RiskPolicy};
use crate::select;
use crate::table::{self, Rows, Table};
use crate::text;
use crate::trace::InvariantCheck;

verus! {

/// Most attempts to remedy a broken policy.
pub const MAX_REMEDIATION_ITERATIONS: u32 = 5;

/// The bit pattern of `0.01`, by which the confidence level is tightened in
/// each attempt.
pub const REMEDIATION_CONFIDENCE_STEP_BITS: u64 = 0x3f84_7ae1_47ae_147b;

/// The bit pattern of `0.999`, above which the confidence level is not
/// tightened.
pub const MAX_CONFIDENCE_BITS: u64 = 0x3fef_f7ce_d916_872b;

/// The bit pattern of `0.95`, the confidence level where none is asked for.
pub const DEFAULT_CONFIDENCE_BITS: u64 = 0x3fee_6666_6666_6666;

/// The bit pattern of `0.20`, the cap on a name where none is asked for.
pub const DEFAULT_PER_NAME_CAP_BITS: u64 = 0x3fc9_9999_9999_999a;

/// The bit pattern of `1.0 - 1e-9`, which the caps have to add up to.
pub const FULL_CAPACITY_BITS: u64 = 0x3fef_ffff_ff76_8fa1;

/// The bit pattern of `1e-9`.
pub const FINE_TOLERANCE_BITS: u64 = 0x3e11_2e0b_e826_d695;

/// The bit pattern of `1e-6`.
pub const TOLERANCE_BITS: u64 = 0x3eb0_c6f7_a0b5_ed8d;

/// Basis points of commission where none are asked for.
pub const DEFAULT_COMMISSION_BPS: u32 = 10;

/// A question how to rebalance.
#[derive(Debug)]
pub struct CvarRebalanceInput {
    pub portfolio: Portfolio,
    pub confidence_level: Double,
    pub per_name_cap: Option<Double>,
    pub turnover_limit: Double,
    pub commission_bps: Double,
    pub frequency: Frequency,
    pub window: Option<usize>,
    pub policy: Option<RiskPolicy>,
}

/// The tail of a loss distribution.
#[derive(Clone, Copy, Debug)]
pub struct CvarPortfolioStats {
    pub historical_var: Double,
    pub historical_cvar: Double,
}

/// A rebalance, or why there is none.
#[derive(Debug)]
pub struct CvarRebalanceOutput {
    /// `optimal`, `infeasible` or `solver_error`.
    pub status: String,
    pub diagnostics: Option<Message>,
    /// The level that the reported solution was solved at; without one, the
    /// level asked for.
    pub confidence_level: Double,
    pub scenario_count: usize,
    /// How many of the worst scenarios make up the tail at `confidence_level`.
    pub tail_scenario_count: usize,
    pub weights_before: Table<Double>,
    pub weights_after: Option<Table<Double>>,
    /// The tail before, at `confidence_level`.
    pub stats_before: CvarPortfolioStats,
    /// The tail after, at `confidence_level`.
    pub stats_after: Option<CvarPortfolioStats>,
    pub turnover: Option<Double>,
    pub commission_cost_inr: Option<Double>,
    pub lp_objective_cvar: Option<Double>,
    pub regime_portfolio_vol_annualized_before: Option<Double>,
    pub regime_portfolio_vol_annualized_after: Option<Double>,
    pub policy_result_before: Option<PolicyResult>,
    pub policy_result_after: Option<PolicyResult>,
    pub policy_breaches_resolved: Vec<String>,
    pub policy_breaches_remaining: Vec<String>,
    pub remediation_iterations: u32,
}

/// What is said of a rebalance.
pub const CVAR_NOTE: &'static str = "Scenarios are simple returns (exp(log) - 1) of the holdings' own historical log returns, not factor-model-simulated. model_params' factor_names/shrinkage_intensity do not apply to this experiment.";

// ---------------------------------------------------------------------------
// Scenarios
// ---------------------------------------------------------------------------

/// The number of scenarios: the window asked for, at most the whole history
/// and at least one.
pub open spec fn scenario_window(window: Option<usize>, available: int) -> int {
    let asked = match window {
        Some(w) => w as int,
        None => available,
    };
    let bounded = if asked > available {
        available
    } else {
        asked
    };
    if bounded < 1 {
        1
    } else {
        bounded
    }
}

/// Whether a confidence level lies in `[0, 1)`.
pub open spec fn is_confidence(level: Double) -> bool {
    (Double { bits: 0 }).at_most(level) && level.below(Double { bits: crate::double::ONE_BITS })
}

/// The message for a confidence level outside `[0, 1)`.
pub open spec fn bad_confidence(level: Double) -> Seq<PieceView> {
    seq![
        PieceView::Text("confidence_level must be in [0, 1), got "@),
        PieceView::Number(level, Style::Plain),
    ]
}

/// A confidence level is a number from zero to below one; a cap is not zero or
/// less and not above one, and twenty percent where none is given.
pub proof fn lemma_levels_and_caps(level: Double, cap: Double)
    ensures
        is_confidence(level) <==> !level.nan() && 0 <= level.rank() < (Double {
            bits: 0x3ff0_0000_0000_0000,
        }).rank(),
        !cap.nan() ==> (is_cap(cap) <==> 0 < cap.rank() <= (Double {
            bits: 0x3ff0_0000_0000_0000,
        }).rank()),
        resolved_cap(Some(cap)).0 == cap && resolved_cap(Some(cap)).1 == "user-specified"@,
        resolved_cap(None).0.bits == 0x3fc9_9999_9999_999a && resolved_cap(None).1
            == "server-default-0.20"@,
{
}

/// What keeps a rebalance from being looked at.
pub open spec fn cvar_fault(market: MarketData, input: CvarRebalanceInput) -> Option<ComputeErrorView> {
    let tickers = input.portfolio.tickers_view();
    if tickers.len() == 0 {
        Some(ComputeErrorView::InvalidInput(message::plain(performance::NO_HOLDINGS@)))
    } else {
        match policy::first_without_series(market.stock_returns@, tickers, tickers.len() as int) {
            Some(t) => Some(ComputeErrorView::Model(policy::missing_series(t))),
            None => if is_confidence(input.confidence_level) {
                None
            } else {
                Some(ComputeErrorView::InvalidInput(bad_confidence(input.confidence_level)))
            },
        }
    }
}

/// Whether `planned` holds the trailing window of every holding.
pub open spec fn are_scenarios(
    market: MarketData,
    input: CvarRebalanceInput,
    planned: Seq<Vec<Double>>,
) -> bool {
    let window = scenario_window(
        input.window,
        performance::holding_series(market, input.portfolio, 0).len() as int,
    );
    &&& planned.len() == input.portfolio.holdings@.len()
    &&& forall|i: int|
        0 <= i < input.portfolio.holdings@.len() ==> (#[trigger] planned[i])@ == model::trailing(
            performance::holding_series(market, input.portfolio, i),
            window,
        )
}

/// The scenarios of a holding are the last returns of its own series: as many
/// as the window asks for, where the series has that many, and all of them
/// where no window or a longer one is asked for.
pub proof fn lemma_scenarios_are_the_last_returns(
    market: MarketData,
    input: CvarRebalanceInput,
    planned: Seq<Vec<Double>>,
    i: int,
)
    requires
        cvar_fault(market, input) is None,
        performance::series_even(market, input.portfolio),
        performance::holding_series(market, input.portfolio, 0).len() > 0,
        are_scenarios(market, input, planned),
        0 <= i < input.portfolio.holdings@.len(),
    ensures
        exists|p: int|
            {
                let series = (#[trigger] market.stock_returns@[p]).values@;
                let scenarios = planned[i]@;
                &&& 0 <= p < market.stock_returns@.len()
                &&& market.stock_returns@[p].name@ == input.portfolio.holdings@[i].ticker@
                &&& scenarios.len() == (match input.window {
                    Some(w) => if 1 <= w <= series.len() {
                        w as int
                    } else if w == 0 {
                        1
                    } else {
                        series.len() as int
                    },
                    None => series.len() as int,
                })
                &&& forall|k: int|
                    0 <= k < scenarios.len() ==> (#[trigger] scenarios[k]) == series[series.len()
                        - scenarios.len() + k]
            },
{
    let tickers = input.portfolio.tickers_view();
    let stocks = market.stock_returns@;
    policy::lemma_no_missing_series(stocks, tickers, tickers.len() as int, i);
    policy::lemma_no_missing_series(stocks, tickers, tickers.len() as int, 0);
    model::lemma_series_named(stocks, tickers[i]);
    model::lemma_series_named(stocks, tickers[0]);
    let p = model::series_named(stocks, tickers[i])->Some_0;
    assert(performance::has_series(market, input.portfolio, i));
    assert(performance::has_series(market, input.portfolio, 0));
    let series = performance::holding_series(market, input.portfolio, i);
    assert(series.len() == performance::holding_series(market, input.portfolio, 0).len());
    assert(stocks[p].values@ == series);
    assert(tickers[i] == input.portfolio.holdings@[i].ticker@);
    assert(planned[i]@.len() == scenario_window(input.window, series.len() as int));
}

/// The log returns that the scenarios are made from: the trailing window of
/// every holding. Fails as [`cvar_fault`] says.
pub fn plan_scenarios(market: &MarketData, input: &CvarRebalanceInput) -> (res: Result<
    Vec<Vec<Double>>,
    ComputeError,
>)
    requires
        performance::series_even(*market, input.portfolio),
        cvar_fault(*market, *input) is None ==> performance::holding_series(
            *market,
            input.portfolio,
            0,
        ).len() > 0,
    ensures
        match cvar_fault(*market, *input) {
            Some(fault) => res is Err && res->Err_0@ == fault,
            None => res is Ok && are_scenarios(*market, *input, res->Ok_0@),
        },
{
    if input.portfolio.holdings.len() == 0 {
        return Err(ComputeError::InvalidInput(Message::of(performance::NO_HOLDINGS)));
    }
    match policy::portfolio_series(&input.portfolio, market) {
        Err(e) => Err(e),
        Ok(places) => {
            if !confidence_valid(input.confidence_level) {
                let mut message = Message::of("confidence_level must be in [0, 1), got ");
                message.number(input.confidence_level, Style::Plain);
                assert(message@ =~= bad_confidence(input.confidence_level));
                return Err(ComputeError::InvalidInput(message));
            }
            assert(Some(places@[0] as int) == model::series_named(
                market.stock_returns@,
                input.portfolio.tickers_view()[0],
            ));
            let available: usize = market.stock_returns[places[0]].values.len();
            let window: usize = bounded_window(input.window, available);
            performance::plan_performance(market, &input.portfolio, window)
        },
    }
}

fn confidence_valid(level: Double) -> (res: bool)
    ensures
        res == is_confidence(level),
{
    Double::zero().le(level) && level.lt(Double { bits: crate::double::ONE_BITS })
}

/// The number of scenarios (see [`scenario_window`]).
pub fn bounded_window(window: Option<usize>, available: usize) -> (res: usize)
    ensures
        res == scenario_window(window, available as int),
{
    let asked: usize = match window {
        Some(w) => w,
        None => available,
    };
    let bounded: usize = if asked > available {
        available
    } else {
        asked
    };
    if bounded < 1 {
        1
    } else {
        bounded
    }
}

/// Whether `var` is the smallest of the `count` largest losses.
pub open spec fn is_value_at_risk(losses: Seq<Double>, count: int, var: Double) -> bool {
    exists|order: Seq<usize>| #[trigger]
        select::is_sorted_order(losses, true, order) && var == losses[order[policy::tail_size(
            losses.len() as int,
            count,
        ) - 1] as int]
}

/// The value at risk parts the losses: as many as the tail has are at least as
/// large, itself among them, and all others are at most as large.
pub proof fn lemma_value_at_risk(losses: Seq<Double>, count: int, var: Double)
    requires
        is_value_at_risk(losses, count, var),
        losses.len() > 0,
    ensures
        exists|tail: Seq<usize>|
            {
                &&& 1 <= count <= losses.len() ==> tail.len() == count
                &&& count < 1 ==> tail.len() == 1
                &&& count > losses.len() ==> tail.len() == losses.len()
                &&& forall|a: int, b: int| 0 <= a < b < tail.len() ==> tail[a] != tail[b]
                &&& forall|a: int|
                    0 <= a < tail.len() ==> (#[trigger] tail[a]) < losses.len() && var.rank()
                        <= losses[tail[a] as int].rank()
                &&& forall|i: int|
                    0 <= i < losses.len() && !select::is_listed(tail, i) ==> (
                    #[trigger] losses[i]).rank() <= var.rank()
                &&& tail.len() > 0 && losses[tail.last() as int] == var
            },
{
    let order = choose|order: Seq<usize>| #[trigger]
        select::is_sorted_order(losses, true, order) && var == losses[order[policy::tail_size(
            losses.len() as int,
            count,
        ) - 1] as int];
    let size = policy::tail_size(losses.len() as int, count);
    select::lemma_sorted_order(losses, true, order);
    policy::lemma_tail_is_worst(losses, count, order);
    let tail = order.take(size);
    assert forall|a: int, b: int| 0 <= a < b < tail.len() implies tail[a] != tail[b] by {
        assert(order[a] != order[b]);
    }
    assert forall|a: int| 0 <= a < tail.len() implies (#[trigger] tail[a]) < losses.len()
        && var.rank() <= losses[tail[a] as int].rank() by {
        assert(tail[a] == order[a]);
        if a < size - 1 {
            assert(losses[order[size - 1] as int].rank() <= losses[order[a] as int].rank());
        }
    }
    assert forall|i: int| 0 <= i < losses.len() && !select::is_listed(tail, i) implies (
    #[trigger] losses[i]).rank() <= var.rank() by {
        assert(select::is_listed(order, i));
        let p = choose|p: int| 0 <= p < order.len() && #[trigger] order[p] == i;
        if p < size {
            assert(tail[p] == i);
        }
        assert(losses[order[p] as int].rank() <= losses[order[size - 1] as int].rank());
    }
    assert(tail.last() == order[size - 1]);
}

/// The value at risk: the smallest of the `count` largest losses.
pub fn value_at_risk(losses: &Vec<Double>, count: usize) -> (res: Double)
    requires
        losses@.len() > 0,
        select::comparable(losses@),
    ensures
        exists|order: Seq<usize>| #[trigger]
            select::is_sorted_order(losses@, true, order) && res == losses@[order[policy::tail_size(
                losses@.len() as int,
                count as int,
            ) - 1] as int],
        is_value_at_risk(losses@, count as int, res),
{
    let tail = policy::worst_losses(losses, count);
    tail[tail.len() - 1]
}

// ---------------------------------------------------------------------------
// Feasibility
// ---------------------------------------------------------------------------

/// The cap on a name, and where it comes from.
pub open spec fn resolved_cap(per_name_cap: Option<Double>) -> (Double, Seq<char>) {
    match per_name_cap {
        Some(cap) => (cap, "user-specified"@),
        None => (Double { bits: DEFAULT_PER_NAME_CAP_BITS }, "server-default-0.20"@),
    }
}

/// The cap on a name, and where it comes from.
pub fn resolve_cap(per_name_cap: Option<Double>) -> (res: (Double, &'static str))
    ensures
        (res.0, res.1@) == resolved_cap(per_name_cap),
{
    match per_name_cap {
        Some(cap) => (cap, "user-specified"),
        None => (Double { bits: DEFAULT_PER_NAME_CAP_BITS }, "server-default-0.20"),
    }
}

/// Whether a cap lies in `(0, 1]`.
pub open spec fn is_cap(cap: Double) -> bool {
    !cap.at_most(Double { bits: 0 }) && !(Double { bits: crate::double::ONE_BITS }).below(cap)
}

/// The message for a cap outside `(0, 1]`.
pub open spec fn bad_cap(cap: Double) -> Seq<PieceView> {
    seq![
        PieceView::Text("per_name_cap must be in (0, 1], got "@),
        PieceView::Number(cap, Style::Plain),
    ]
}

/// Accepts a cap in `(0, 1]`.
pub fn check_cap(cap: Double) -> (res: Result<(), ComputeError>)
    ensures
        res is Ok <==> is_cap(cap),
        res is Err ==> res->Err_0@ == ComputeErrorView::InvalidInput(bad_cap(cap)),
{
    let one = Double { bits: crate::double::ONE_BITS };
    if cap.le(Double::zero()) || one.lt(cap) {
        let mut message = Message::of("per_name_cap must be in (0, 1], got ");
        message.number(cap, Style::Plain);
        assert(message@ =~= bad_cap(cap));
        return Err(ComputeError::InvalidInput(message));
    }
    Ok(())
}

/// What keeps a rebalance from being run: what keeps it from being looked at,
/// or else a cap outside `(0, 1]`.
pub open spec fn rebalance_fault(market: MarketData, input: CvarRebalanceInput) -> Option<
    ComputeErrorView,
> {
    match cvar_fault(market, input) {
        Some(fault) => Some(fault),
        None => cap_fault(input),
    }
}

/// What is wrong with the cap of a rebalance.
pub open spec fn cap_fault(input: CvarRebalanceInput) -> Option<ComputeErrorView> {
    let cap = resolved_cap(input.per_name_cap).0;
    if is_cap(cap) {
        None
    } else {
        Some(ComputeErrorView::InvalidInput(bad_cap(cap)))
    }
}

/// Where every holding has a series, a rebalance is refused exactly for its
/// confidence level or its cap, and then as invalid input.
pub proof fn lemma_only_level_and_cap_are_refused(market: MarketData, input: CvarRebalanceInput)
    requires
        input.portfolio.holdings@.len() > 0,
        policy::first_without_series(
            market.stock_returns@,
            input.portfolio.tickers_view(),
            input.portfolio.holdings@.len() as int,
        ) is None,
    ensures
        rebalance_fault(market, input) is Some <==> !is_confidence(input.confidence_level)
            || !is_cap(resolved_cap(input.per_name_cap).0),
        rebalance_fault(market, input) is Some ==> rebalance_fault(market, input)->Some_0
            is InvalidInput,
{
}

/// The figures that a rebalance is looked at with before it is solved.
#[derive(Clone, Copy, Debug)]
pub struct FeasibilityFigures {
    /// The cap times the number of names.
    pub capacity: Double,
    /// What names above the cap have to give up.
    pub required_sells: Double,
    /// Twice that: it has to be bought back elsewhere.
    pub required_turnover: Double,
    /// The turnover limit with a billionth added.
    pub lenient_limit: Double,
}

/// Why a rebalance cannot have a solution.
#[derive(Debug)]
pub struct Obstacle {
    pub diagnostics: Message,
    pub check: String,
}

/// The name of the check that the caps leave room.
pub const CAPACITY_CHECK: &'static str = "pre-solve: per_name_cap * n_stocks >= 1";

/// The name of the check that the turnover suffices.
pub const TURNOVER_CHECK: &'static str = "pre-solve: minimum turnover to satisfy caps <= turnover_limit";

/// The name of the check on the solver.
pub const SOLVER_CHECK: &'static str = "solver status == optimal";

/// What is said where the caps leave no room.
pub open spec fn capacity_sentence(input: CvarRebalanceInput, f: FeasibilityFigures) -> Seq<
    PieceView,
> {
    seq![
        PieceView::Text("per_name_cap ("@),
        PieceView::Number(resolved_cap(input.per_name_cap).0, Style::Plain),
        PieceView::Text(") * n_stocks ("@),
        PieceView::Text(text::decimal(input.portfolio.holdings@.len())),
        PieceView::Text(") = "@),
        PieceView::Number(f.capacity, Style::Fixed(4)),
        PieceView::Text(
            " < 1: even at every name's cap, weights cannot sum to 1 under a long-only portfolio."@,
        ),
    ]
}

/// What is said where the turnover does not suffice.
pub open spec fn turnover_sentence(input: CvarRebalanceInput, f: FeasibilityFigures) -> Seq<
    PieceView,
> {
    seq![
        PieceView::Text("names over per_name_cap ("@),
        PieceView::Number(resolved_cap(input.per_name_cap).0, Style::Plain),
        PieceView::Text(") require selling at least "@),
        PieceView::Number(f.required_sells, Style::Fixed(4)),
        PieceView::Text(
            " of portfolio value, which must be redeployed elsewhere to keep weights summing to 1 -- a minimum turnover of "@,
        ),
        PieceView::Number(f.required_turnover, Style::Fixed(4)),
        PieceView::Text(", exceeding turnover_limit ("@),
        PieceView::Number(input.turnover_limit, Style::Plain),
        PieceView::Text(")."@),
    ]
}

/// Whether the caps leave too little room.
pub open spec fn lacks_capacity(f: FeasibilityFigures) -> bool {
    f.capacity.below(Double { bits: FULL_CAPACITY_BITS })
}

/// Whether the caps force more turnover than is allowed.
pub open spec fn lacks_turnover(f: FeasibilityFigures) -> bool {
    f.lenient_limit.below(f.required_turnover)
}

/// What stands in the way of a solution, first the room and then the turnover:
/// what is said, and the check that fails.
pub open spec fn obstacle(input: CvarRebalanceInput, f: FeasibilityFigures) -> Option<
    (Seq<PieceView>, Seq<char>),
> {
    if lacks_capacity(f) {
        Some((capacity_sentence(input, f), CAPACITY_CHECK@))
    } else if lacks_turnover(f) {
        Some((turnover_sentence(input, f), TURNOVER_CHECK@))
    } else {
        None
    }
}

/// A rebalance is given up before it is solved where the caps add up to less
/// than one but for a billionth, or where the turnover they force is above the
/// limit; the first reason is told where both hold.
pub proof fn lemma_obstacles(input: CvarRebalanceInput, f: FeasibilityFigures)
    ensures
        obstacle(input, f) is Some <==> f.capacity.below(Double { bits: 0x3fef_ffff_ff76_8fa1 })
            || f.lenient_limit.below(f.required_turnover),
        f.capacity.below(Double { bits: 0x3fef_ffff_ff76_8fa1 }) ==> obstacle(input, f)->Some_0.1
            == CAPACITY_CHECK@ && obstacle(input, f)->Some_0.0[5] == PieceView::Number(
            f.capacity,
            Style::Fixed(4),
        ),
        !f.capacity.below(Double { bits: 0x3fef_ffff_ff76_8fa1 }) && f.lenient_limit.below(
            f.required_turnover,
        ) ==> obstacle(input, f)->Some_0.1 == TURNOVER_CHECK@ && obstacle(input, f)->Some_0.0[3]
            == PieceView::Number(f.required_sells, Style::Fixed(4)) && obstacle(
            input,
            f,
        )->Some_0.0[5] == PieceView::Number(f.required_turnover, Style::Fixed(4)),
{
}

/// Looks for a reason why a rebalance cannot have a solution: the caps leave
/// too little room, or they force more turnover than is allowed.
pub fn presolve(input: &CvarRebalanceInput, f: &FeasibilityFigures) -> (res: Option<Obstacle>)
    ensures
        match obstacle(*input, *f) {
            Some((sentence, check)) => {
                &&& res is Some
                &&& res->Some_0.diagnostics@ == sentence
                &&& res->Some_0.check@ == check
            },
            None => res is None,
        },
{
    let (cap, _) = resolve_cap(input.per_name_cap);
    if f.capacity.lt(Double { bits: FULL_CAPACITY_BITS }) {
        let mut m = Message::of("per_name_cap (");
        m.number(cap, Style::Plain);
        m.text(") * n_stocks (");
        m.count(input.portfolio.holdings.len());
        m.text(") = ");
        m.number(f.capacity, Style::Fixed(4));
        m.text(
            " < 1: even at every name's cap, weights cannot sum to 1 under a long-only portfolio.",
        );
        assert(m@ =~= capacity_sentence(*input, *f));
        return Some(Obstacle { diagnostics: m, check: text::copy(CAPACITY_CHECK) });
    }
    if f.lenient_limit.lt(f.required_turnover) {
        let mut m = Message::of("names over per_name_cap (");
        m.number(cap, Style::Plain);
        m.text(") require selling at least ");
        m.number(f.required_sells, Style::Fixed(4));
        m.text(
            " of portfolio value, which must be redeployed elsewhere to keep weights summing to 1 -- a minimum turnover of ",
        );
        m.number(f.required_turnover, Style::Fixed(4));
        m.text(", exceeding turnover_limit (");
        m.number(input.turnover_limit, Style::Plain);
        m.text(").");
        assert(m@ =~= turnover_sentence(*input, *f));
        return Some(Obstacle { diagnostics: m, check: text::copy(TURNOVER_CHECK) });
    }
    None
}

/// How a solver fails.
#[derive(Debug)]
pub enum SolverFailure {
    Infeasible,
    Other(String),
}

/// The status and the explanation of a failed solve.
pub open spec fn failure_view(failure: SolverFailure) -> (Seq<char>, Seq<PieceView>) {
    match failure {
        SolverFailure::Infeasible => (
            "infeasible"@,
            message::plain("solver reported the problem as infeasible"@),
        ),
        SolverFailure::Other(reason) => (
            "solver_error"@,
            seq![PieceView::Text("solver error: "@), PieceView::Text(reason@)],
        ),
    }
}

/// A problem without a solution is told as such, and any other failure of a
/// solver with the reason it gave.
pub proof fn lemma_solver_failures(reason: String)
    ensures
        failure_view(SolverFailure::Infeasible).0 == "infeasible"@,
        failure_view(SolverFailure::Other(reason)).0 == "solver_error"@,
        failure_view(SolverFailure::Other(reason)).1.last() == PieceView::Text(reason@),
{
}

/// Tells an infeasible problem from any other failure of a solver.
pub fn classify_resolution_error(failure: &SolverFailure) -> (res: (String, Message))
    ensures
        (res.0@, res.1@) == failure_view(*failure),
{
    match failure {
        SolverFailure::Infeasible => (
            text::copy("infeasible"),
            Message::of("solver reported the problem as infeasible"),
        ),
        SolverFailure::Other(reason) => {
            let mut m = Message::of("solver error: ");
            m.text(reason.as_str());
            assert(m@ =~= seq![PieceView::Text("solver error: "@), PieceView::Text(reason@)]);
            (text::copy("solver_error"), m)
        },
    }
}

/// A failed check that a trace reports.
pub fn failed_check(name: &str, tolerance: Double, detail: &Message) -> (res: InvariantCheck)
    ensures
        res.name@ == name@,
        !res.passed,
        res.tolerance == tolerance,
        res.detail@ == detail@,
{
    InvariantCheck {
        name: text::copy(name),
        passed: false,
        tolerance,
        detail: detail.duplicate(),
    }
}

// ---------------------------------------------------------------------------
// Remedies
// ---------------------------------------------------------------------------

/// A solved rebalance, with all that depends on the confidence level it was
/// solved at.
#[derive(Debug)]
pub struct Solved {
    pub confidence_level: Double,
    /// How many of the worst scenarios make up the tail at that level.
    pub tail_scenario_count: usize,
    /// The tail of the portfolio as it was, at that level.
    pub stats_before: CvarPortfolioStats,
    /// One weight per holding.
    pub weights: Vec<Double>,
    /// The tail of the solution, at that level.
    pub stats: CvarPortfolioStats,
    pub turnover: Double,
    pub commission_cost_inr: Double,
    pub lp_objective_cvar: Double,
    pub regime_vol: Option<Double>,
}

/// The rules that the first `n` checks break, in the order of their names.
pub open spec fn broken_rules(checks: Seq<policy::PolicyCheckView>, n: int) -> Rows<()>
    decreases n,
{
    if n <= 0 {
        seq![]
    } else if checks[n - 1].passed {
        broken_rules(checks, n - 1)
    } else {
        table::with_row(broken_rules(checks, n - 1), checks[n - 1].rule, ())
    }
}

/// The rules that a result finds broken.
pub open spec fn broken(result: PolicyResult) -> Rows<()> {
    let checks = policy::checks_view(result.checks@);
    broken_rules(checks, checks.len() as int)
}

fn broken_table(result: &PolicyResult) -> (res: Table<()>)
    ensures
        res@ == broken(*result),
{
    let ghost view = policy::checks_view(result.checks@);
    let mut out: Table<()> = Table::new();
    let mut i: usize = 0;
    while i < result.checks.len()
        invariant
            i <= result.checks@.len(),
            view == policy::checks_view(result.checks@),
            out@ == broken_rules(view, i as int),
        decreases result.checks.len() - i,
    {
        assert(view[i as int] == result.checks@[i as int]@);
        if !result.checks[i].passed {
            out.set(result.checks[i].rule.as_str(), ());
        }
        i += 1;
    }
    out
}

/// The names among the first `n` of `before` that are not in `after`.
pub open spec fn dropped_names(before: Rows<()>, after: Rows<()>, n: int) -> Seq<Seq<char>>
    decreases n,
{
    if n <= 0 {
        seq![]
    } else if table::value_of(after, before[n - 1].0) is None {
        dropped_names(before, after, n - 1).push(before[n - 1].0)
    } else {
        dropped_names(before, after, n - 1)
    }
}

/// The names of a table, in order.
pub open spec fn row_names(rows: Rows<()>) -> Seq<Seq<char>> {
    rows.map_values(|r: (Seq<char>, ())| r.0)
}

fn names_dropped(before: &Table<()>, after: &Table<()>) -> (res: Vec<String>)
    ensures
        text::views(res@) == dropped_names(before@, after@, before@.len() as int),
{
    let mut out: Vec<String> = Vec::new();
    let mut i: usize = 0;
    assert(text::views(out@) =~= seq![]);
    while i < before.entries.len()
        invariant
            i <= before.entries@.len(),
            text::views(out@) == dropped_names(before@, after@, i as int),
        decreases before.entries.len() - i,
    {
        let ghost was = out@;
        if after.find(before.entries[i].name.as_str()).is_none() {
            out.push(text::copy(before.entries[i].name.as_str()));
            assert(text::views(out@) =~= text::views(was).push(before@[i as int].0));
        }
        i += 1;
    }
    out
}

fn names_of(rows: &Table<()>) -> (res: Vec<String>)
    ensures
        text::views(res@) == row_names(rows@),
{
    let mut out: Vec<String> = Vec::new();
    let mut i: usize = 0;
    while i < rows.entries.len()
        invariant
            i <= rows.entries@.len(),
            out@.len() == i,
            forall|k: int| 0 <= k < i ==> (#[trigger] out@[k])@ == rows@[k].0,
        decreases rows.entries.len() - i,
    {
        out.push(text::copy(rows.entries[i].name.as_str()));
        i += 1;
    }
    assert(text::views(out@) =~= row_names(rows@));
    out
}

/// The course of remedying a broken policy: re-solve at a tighter confidence
/// level until the policy is kept, a solve fails, or all attempts are used.
#[derive(Debug)]
pub struct Remediation {
    /// The rules that the first solution broke.
    pub initial: Table<()>,
    /// The last solution.
    pub solved: Solved,
    /// What the policy says of it.
    pub result: PolicyResult,
    /// Attempts made.
    pub iterations: u32,
    /// Whether an attempt failed.
    pub stopped: bool,
}

impl Remediation {
    /// Whether another attempt is due.
    pub open spec fn due(self) -> bool {
        !self.stopped && !self.result.all_passed && self.iterations < MAX_REMEDIATION_ITERATIONS
    }

    /// Whether no more attempts than allowed were made.
    pub open spec fn within_bounds(self) -> bool {
        self.iterations <= MAX_REMEDIATION_ITERATIONS
    }

    /// The course before any attempt.
    pub fn start(solved: Solved, result: PolicyResult) -> (res: Remediation)
        ensures
            res.initial@ == broken(result),
            res.solved == solved,
            res.result == result,
            res.iterations == 0,
            !res.stopped,
            res.within_bounds(),
    {
        Remediation {
            initial: broken_table(&result),
            solved,
            result,
            iterations: 0,
            stopped: false,
        }
    }

    /// Whether another attempt is due.
    pub fn wants_retry(&self) -> (res: bool)
        ensures
            res == self.due(),
    {
        !self.stopped && !self.result.all_passed && self.iterations < MAX_REMEDIATION_ITERATIONS
    }

    /// The confidence level of the next attempt, given the present one with a
    /// step added: at most [`MAX_CONFIDENCE_BITS`].
    pub fn next_confidence(&self, stepped: Double) -> (res: Double)
        ensures
            res == stepped.smaller(Double { bits: MAX_CONFIDENCE_BITS }),
    {
        stepped.min(Double { bits: MAX_CONFIDENCE_BITS })
    }

    /// An attempt gave a solution, and `result` is what the policy says of it.
    pub fn retry_solved(&mut self, solved: Solved, result: PolicyResult)
        requires
            old(self).due(),
        ensures
            final(self).solved == solved,
            final(self).result == result,
            final(self).iterations == old(self).iterations + 1,
            final(self).initial == old(self).initial,
            !final(self).stopped,
            final(self).within_bounds(),
    {
        self.solved = solved;
        self.result = result;
        self.iterations = self.iterations + 1;
    }

    /// An attempt gave no solution: the last one stands.
    pub fn retry_failed(&mut self)
        requires
            old(self).due(),
        ensures
            final(self).solved == old(self).solved,
            final(self).result == old(self).result,
            final(self).iterations == old(self).iterations + 1,
            final(self).initial == old(self).initial,
            final(self).stopped,
            final(self).within_bounds(),
            !final(self).due(),
    {
        self.iterations = self.iterations + 1;
        self.stopped = true;
    }

    /// The rules that were broken at first and are kept now.
    pub fn resolved(&self) -> (res: Vec<String>)
        ensures
            text::views(res@) == dropped_names(
                self.initial@,
                broken(self.result),
                self.initial@.len() as int,
            ),
    {
        let now = broken_table(&self.result);
        names_dropped(&self.initial, &now)
    }

    /// The rules that are broken now.
    pub fn remaining(&self) -> (res: Vec<String>)
        ensures
            text::views(res@) == row_names(broken(self.result)),
    {
        let now = broken_table(&self.result);
        names_of(&now)
    }
}

/// Another attempt is due exactly where the last one found a solution, a rule
/// is still broken, and fewer than five were made.
pub proof fn lemma_when_another_attempt_is_due(course: Remediation)
    ensures
        course.due() <==> !course.stopped && !course.result.all_passed && course.iterations < 5,
        course.within_bounds() <==> course.iterations <= 5,
{
}

proof fn lemma_dropped(before: Rows<()>, after: Rows<()>, n: int, name: Seq<char>)
    requires
        0 <= n <= before.len(),
    ensures
        dropped_names(before, after, n).contains(name) <==> table::value_of(after, name) is None
            && exists|i: int| 0 <= i < n && (#[trigger] before[i]).0 == name,
    decreases n,
{
    let names = dropped_names(before, after, n);
    if n > 0 {
        lemma_dropped(before, after, n - 1, name);
        let fewer = dropped_names(before, after, n - 1);
        if fewer.contains(name) {
            let k = choose|k: int| 0 <= k < fewer.len() && fewer[k] == name;
            assert(names[k] == name);
        }
        if names.contains(name) {
            let k = choose|k: int| 0 <= k < names.len() && names[k] == name;
            if k < fewer.len() {
                assert(fewer[k] == name);
            } else {
                assert(before[n - 1].0 == name);
            }
        }
        if before[n - 1].0 == name && table::value_of(after, name) is None {
            assert(names[fewer.len() as int] == name);
        }
    }
}

/// The rules reported as resolved are those that were broken before and no
/// check breaks now; the rules reported as remaining are those that some check
/// breaks now.
pub proof fn lemma_resolved_and_remaining(before: Rows<()>, now: PolicyResult, rule: Seq<char>)
    ensures
        dropped_names(before, broken(now), before.len() as int).contains(rule) <==> (exists|i: int|
            0 <= i < before.len() && (#[trigger] before[i]).0 == rule) && (forall|i: int|
            0 <= i < now.checks@.len() && (#[trigger] now.checks@[i]).rule@ == rule
                ==> now.checks@[i].passed),
        row_names(broken(now)).contains(rule) <==> exists|i: int|
            0 <= i < now.checks@.len() && (#[trigger] now.checks@[i]).rule@ == rule
                && !now.checks@[i].passed,
{
    let checks = policy::checks_view(now.checks@);
    let rows = broken(now);
    lemma_dropped(before, rows, before.len() as int, rule);
    lemma_broken_rule(checks, checks.len() as int, rule);
    lemma_named_row(rows, rule);
    assert forall|i: int| 0 <= i < checks.len() implies (#[trigger] checks[i]).rule
        == now.checks@[i].rule@ && checks[i].passed == now.checks@[i].passed by {}
    if exists|i: int| 0 <= i < checks.len() && !(#[trigger] checks[i]).passed && checks[i].rule
        == rule {
        let i = choose|i: int|
            0 <= i < checks.len() && !(#[trigger] checks[i]).passed && checks[i].rule == rule;
        assert(now.checks@[i].rule@ == rule && !now.checks@[i].passed);
    }
    if exists|i: int|
        0 <= i < now.checks@.len() && (#[trigger] now.checks@[i]).rule@ == rule
            && !now.checks@[i].passed {
        let i = choose|i: int|
            0 <= i < now.checks@.len() && (#[trigger] now.checks@[i]).rule@ == rule
                && !now.checks@[i].passed;
        assert(!checks[i].passed && checks[i].rule == rule);
    }
}

proof fn lemma_named_row(rows: Rows<()>, name: Seq<char>)
    ensures
        row_names(rows).contains(name) <==> table::value_of(rows, name) is Some,
    decreases rows.len(),
{
    let names = row_names(rows);
    if rows.len() > 0 {
        let rest = rows.drop_first();
        lemma_named_row(rest, name);
        if row_names(rest).contains(name) {
            let k = choose|k: int| 0 <= k < rest.len() && row_names(rest)[k] == name;
            assert(names[k + 1] == name);
        }
        if rows[0].0 == name {
            assert(names[0] == name);
        } else if names.contains(name) {
            let k = choose|k: int| 0 <= k < names.len() && names[k] == name;
            assert(row_names(rest)[k - 1] == name);
        }
    }
}

/// A rule reported as resolved is not reported as remaining.
pub proof fn lemma_resolved_not_remaining(before: Rows<()>, after: Rows<()>, n: int, i: int)
    requires
        0 <= n <= before.len(),
        0 <= i < dropped_names(before, after, n).len(),
    ensures
        table::value_of(after, dropped_names(before, after, n)[i]) is None,
    decreases n,
{
    if n > 0 {
        if i < dropped_names(before, after, n - 1).len() {
            lemma_resolved_not_remaining(before, after, n - 1, i);
        }
    }
}

/// What a broken rule is: one that some check does not pass.
pub proof fn lemma_broken_rule(checks: Seq<policy::PolicyCheckView>, n: int, rule: Seq<char>)
    requires
        0 <= n <= checks.len(),
    ensures
        table::value_of(broken_rules(checks, n), rule) is Some <==> exists|i: int|
            0 <= i < n && !(#[trigger] checks[i]).passed && checks[i].rule == rule,
    decreases n,
{
    if n > 0 {
        lemma_broken_rule(checks, n - 1, rule);
        if !checks[n - 1].passed {
            table::lemma_value_of_with_row(
                broken_rules(checks, n - 1),
                checks[n - 1].rule,
                (),
                rule,
            );
        }
        if table::value_of(broken_rules(checks, n - 1), rule) is Some {
            let i = choose|i: int|
                0 <= i < n - 1 && !(#[trigger] checks[i]).passed && checks[i].rule == rule;
            assert(0 <= i < n && !checks[i].passed && checks[i].rule == rule);
        }
    }
}

// ---------------------------------------------------------------------------
// Results
// ---------------------------------------------------------------------------

/// What a rebalance starts from.
#[derive(Debug)]
pub struct CvarStart {
    pub scenario_count: usize,
    /// How many of the worst scenarios make up the tail at the level asked
    /// for.
    pub tail_scenario_count: usize,
    /// The tail of the portfolio at the level asked for.
    pub stats_before: CvarPortfolioStats,
    pub regime_vol_before: Option<Double>,
    pub policy_result_before: Option<PolicyResult>,
}

/// The weights of a portfolio under its tickers.
pub open spec fn weight_rows(portfolio: Portfolio, weights: Seq<Double>) -> Rows<Double> {
    table::rows_of(portfolio.tickers_view(), weights, portfolio.holdings@.len() as int)
}

fn weight_table(portfolio: &Portfolio, weights: &Vec<Double>) -> (res: Table<Double>)
    requires
        weights@.len() == portfolio.holdings@.len(),
    ensures
        res@ == weight_rows(*portfolio, weights@),
{
    let tickers = portfolio.tickers();
    Table::of(&tickers, weights)
}

/// A portfolio with other weights: its holdings keep their order, whatever the
/// order of their names, and each has the weight that stands under its ticker.
pub fn reweighted(portfolio: &Portfolio, weights: &Vec<Double>) -> (res: Portfolio)
    requires
        weights@.len() == portfolio.holdings@.len(),
    ensures
        res.tickers_view() == portfolio.tickers_view(),
        res.total_value_inr == portfolio.total_value_inr,
        forall|i: int|
            0 <= i < res.holdings@.len() ==> Some((#[trigger] res.holdings@[i]).weight)
                == table::value_of(
                weight_rows(*portfolio, weights@),
                portfolio.tickers_view()[i],
            ),
{
    let by_name = weight_table(portfolio, weights);
    let mut holdings: Vec<Holding> = Vec::new();
    let mut i: usize = 0;
    while i < portfolio.holdings.len()
        invariant
            i <= portfolio.holdings@.len(),
            by_name@ == weight_rows(*portfolio, weights@),
            holdings@.len() == i,
            forall|k: int|
                0 <= k < i ==> (#[trigger] holdings@[k]).ticker@ == portfolio.holdings@[k].ticker@
                    && Some(holdings@[k].weight) == table::value_of(
                    weight_rows(*portfolio, weights@),
                    portfolio.tickers_view()[k],
                ),
        decreases portfolio.holdings.len() - i,
    {
        proof {
            table::lemma_rows_of_has(
                portfolio.tickers_view(),
                weights@,
                portfolio.holdings@.len() as int,
                i as int,
            );
        }
        let ticker = text::copy(portfolio.holdings[i].ticker.as_str());
        match by_name.get(ticker.as_str()) {
            Some(weight) => holdings.push(Holding { ticker, weight }),
            None => {},
        }
        i += 1;
    }
    let res = Portfolio { holdings, total_value_inr: portfolio.total_value_inr };
    assert(res.tickers_view() =~= portfolio.tickers_view());
    res
}

/// What every outcome of a rebalance reports of its start. The tail is left
/// out: it goes by the confidence level that is reported.
pub open spec fn reports_start(
    out: CvarRebalanceOutput,
    input: CvarRebalanceInput,
    start: CvarStart,
) -> bool {
    &&& out.scenario_count == start.scenario_count
    &&& out.weights_before@ == weight_rows(input.portfolio, input.portfolio.weights_view())
    &&& out.regime_portfolio_vol_annualized_before == start.regime_vol_before
    &&& out.policy_result_before == start.policy_result_before
}

/// What an outcome without a solution reports: the status, the explanation,
/// the tail at the level asked for, and nothing after the start.
pub open spec fn no_solution(
    out: CvarRebalanceOutput,
    input: CvarRebalanceInput,
    start: CvarStart,
    status: Seq<char>,
    diagnostics: Seq<PieceView>,
) -> bool {
    &&& reports_start(out, input, start)
    &&& out.status@ == status
    &&& out.diagnostics is Some
    &&& out.diagnostics->Some_0@ == diagnostics
    &&& out.confidence_level == input.confidence_level
    &&& out.tail_scenario_count == start.tail_scenario_count
    &&& out.stats_before == start.stats_before
    &&& out.weights_after is None
    &&& out.stats_after is None
    &&& out.turnover is None
    &&& out.commission_cost_inr is None
    &&& out.lp_objective_cvar is None
    &&& out.regime_portfolio_vol_annualized_after is None
    &&& out.policy_result_after is None
    &&& out.policy_breaches_resolved@.len() == 0
    &&& out.policy_breaches_remaining@.len() == 0
    &&& out.remediation_iterations == 0
}

/// Whether a status goes with what an outcome reports: it is one of three, and
/// an explanation is given, and the solution left out, exactly where it is not
/// `optimal`.
pub open spec fn coherent(out: CvarRebalanceOutput) -> bool {
    &&& out.status@ == "optimal"@ || out.status@ == "infeasible"@ || out.status@
        == "solver_error"@
    &&& out.diagnostics is Some <==> out.status@ != "optimal"@
    &&& out.weights_after is None <==> out.status@ != "optimal"@
    &&& out.stats_after is None <==> out.status@ != "optimal"@
    &&& out.turnover is None <==> out.status@ != "optimal"@
    &&& out.commission_cost_inr is None <==> out.status@ != "optimal"@
    &&& out.lp_objective_cvar is None <==> out.status@ != "optimal"@
}

proof fn lemma_statuses_differ()
    ensures
        "infeasible"@ != "optimal"@,
        "solver_error"@ != "optimal"@,
{
    reveal_strlit("optimal");
    reveal_strlit("infeasible");
    reveal_strlit("solver_error");
    assert("optimal"@.len() == 7 && "infeasible"@.len() == 10 && "solver_error"@.len() == 12);
}

/// Every outcome of a rebalance is coherent, whether an obstacle stood in the
/// way, the solver failed, or there is a solution.
pub proof fn lemma_every_outcome_is_coherent(
    out: CvarRebalanceOutput,
    input: CvarRebalanceInput,
    start: CvarStart,
    sentence: Seq<PieceView>,
    failure: SolverFailure,
    solved: Solved,
)
    requires
        no_solution(out, input, start, "infeasible"@, sentence) || no_solution(
            out,
            input,
            start,
            failure_view(failure).0,
            failure_view(failure).1,
        ) || reports_solution(out, input, solved),
    ensures
        coherent(out),
{
    lemma_statuses_differ();
}

fn infeasible_output(
    input: &CvarRebalanceInput,
    start: CvarStart,
    status: &str,
    diagnostics: &Message,
) -> (res: CvarRebalanceOutput)
    requires
        status@ == "infeasible"@ || status@ == "solver_error"@,
    ensures
        no_solution(res, *input, start, status@, diagnostics@),
        coherent(res),
{
    proof {
        lemma_statuses_differ();
    }
    let weights = input.portfolio.weights();
    CvarRebalanceOutput {
        status: text::copy(status),
        diagnostics: Some(diagnostics.duplicate()),
        confidence_level: input.confidence_level,
        scenario_count: start.scenario_count,
        tail_scenario_count: start.tail_scenario_count,
        weights_before: weight_table(&input.portfolio, &weights),
        weights_after: None,
        stats_before: start.stats_before,
        stats_after: None,
        turnover: None,
        commission_cost_inr: None,
        lp_objective_cvar: None,
        regime_portfolio_vol_annualized_before: start.regime_vol_before,
        regime_portfolio_vol_annualized_after: None,
        policy_result_before: start.policy_result_before,
        policy_result_after: None,
        policy_breaches_resolved: Vec::new(),
        policy_breaches_remaining: Vec::new(),
        remediation_iterations: 0,
    }
}

/// Whether `checks` is the one failed check that goes with an outcome without
/// a solution.
pub open spec fn one_failed(
    checks: Seq<InvariantCheck>,
    name: Seq<char>,
    tolerance: Double,
    detail: Seq<PieceView>,
) -> bool {
    &&& checks.len() == 1
    &&& checks[0].name@ == name
    &&& !checks[0].passed
    &&& checks[0].tolerance == tolerance
    &&& checks[0].detail@ == detail
}

fn only(check: InvariantCheck) -> (res: Vec<InvariantCheck>)
    ensures
        res@ == seq![check],
{
    let mut out: Vec<InvariantCheck> = Vec::new();
    out.push(check);
    assert(out@ =~= seq![check]);
    out
}

/// Where a rebalance stands before it is solved.
#[derive(Debug)]
pub enum Presolved {
    /// An obstacle was found: the outcome and the checks of its trace.
    Stopped(CvarRebalanceOutput, Vec<InvariantCheck>),
    /// The programme is to be solved.
    Go(CvarStart),
}

/// Decides, before a solve, whether there will be one. A cap outside `(0, 1]`
/// is refused. An obstacle is reported as `infeasible`, with the one check
/// that fails; without one the programme is to be solved.
pub fn presolve_outcome(input: &CvarRebalanceInput, start: CvarStart, f: &FeasibilityFigures) -> (res:
    Result<Presolved, ComputeError>)
    ensures
        match cap_fault(*input) {
            Some(fault) => res is Err && res->Err_0@ == fault,
            None => match obstacle(*input, *f) {
                Some((sentence, check)) => {
                    &&& res is Ok
                    &&& res->Ok_0 is Stopped
                    &&& no_solution(res->Ok_0->Stopped_0, *input, start, "infeasible"@, sentence)
                    &&& coherent(res->Ok_0->Stopped_0)
                    &&& one_failed(
                        res->Ok_0->Stopped_1@,
                        check,
                        Double { bits: FINE_TOLERANCE_BITS },
                        sentence,
                    )
                },
                None => res == Ok::<Presolved, ComputeError>(Presolved::Go(start)),
            },
        },
{
    let (cap, _) = resolve_cap(input.per_name_cap);
    match check_cap(cap) {
        Ok(_) => {},
        Err(e) => {
            return Err(e);
        },
    }
    match presolve(input, f) {
        Some(found) => {
            let tolerance = Double { bits: FINE_TOLERANCE_BITS };
            let check = failed_check(found.check.as_str(), tolerance, &found.diagnostics);
            let output = infeasible_output(input, start, "infeasible", &found.diagnostics);
            Ok(Presolved::Stopped(output, only(check)))
        },
        None => Ok(Presolved::Go(start)),
    }
}

/// The outcome of a solve that failed: its status and explanation, with the
/// one check that fails.
pub fn failed_outcome(input: &CvarRebalanceInput, start: CvarStart, failure: &SolverFailure) -> (res:
    (CvarRebalanceOutput, Vec<InvariantCheck>))
    ensures
        no_solution(
            res.0,
            *input,
            start,
            failure_view(*failure).0,
            failure_view(*failure).1,
        ),
        coherent(res.0),
        one_failed(
            res.1@,
            SOLVER_CHECK@,
            Double { bits: 0 },
            failure_view(*failure).1,
        ),
{
    let (status, diagnostics) = classify_resolution_error(failure);
    let check = failed_check(SOLVER_CHECK, Double::zero(), &diagnostics);
    (infeasible_output(input, start, status.as_str(), &diagnostics), only(check))
}

/// What an optimal outcome reports of its solution: the confidence level it
/// was solved at, the size of the tail and the tail before at that level, and
/// what the solution is.
pub open spec fn reports_solution(
    out: CvarRebalanceOutput,
    input: CvarRebalanceInput,
    solved: Solved,
) -> bool {
    &&& out.status@ == "optimal"@
    &&& out.diagnostics is None
    &&& out.confidence_level == solved.confidence_level
    &&& out.tail_scenario_count == solved.tail_scenario_count
    &&& out.stats_before == solved.stats_before
    &&& out.weights_after is Some
    &&& out.weights_after->Some_0@ == weight_rows(input.portfolio, solved.weights@)
    &&& out.stats_after == Some(solved.stats)
    &&& out.turnover == Some(solved.turnover)
    &&& out.commission_cost_inr == Some(solved.commission_cost_inr)
    &&& out.lp_objective_cvar == Some(solved.lp_objective_cvar)
    &&& out.regime_portfolio_vol_annualized_after == solved.regime_vol
}

fn optimal_output(input: &CvarRebalanceInput, start: CvarStart, solved: &Solved) -> (res:
    CvarRebalanceOutput)
    requires
        solved.weights@.len() == input.portfolio.holdings@.len(),
    ensures
        reports_start(res, *input, start),
        reports_solution(res, *input, *solved),
        res.policy_result_after is None,
        res.policy_breaches_resolved@.len() == 0,
        res.policy_breaches_remaining@.len() == 0,
        res.remediation_iterations == 0,
{
    let weights = input.portfolio.weights();
    CvarRebalanceOutput {
        status: text::copy("optimal"),
        diagnostics: None,
        confidence_level: solved.confidence_level,
        scenario_count: start.scenario_count,
        tail_scenario_count: solved.tail_scenario_count,
        weights_before: weight_table(&input.portfolio, &weights),
        weights_after: Some(weight_table(&input.portfolio, &solved.weights)),
        stats_before: solved.stats_before,
        stats_after: Some(solved.stats),
        turnover: Some(solved.turnover),
        commission_cost_inr: Some(solved.commission_cost_inr),
        lp_objective_cvar: Some(solved.lp_objective_cvar),
        regime_portfolio_vol_annualized_before: start.regime_vol_before,
        regime_portfolio_vol_annualized_after: solved.regime_vol,
        policy_result_before: start.policy_result_before,
        policy_result_after: None,
        policy_breaches_resolved: Vec::new(),
        policy_breaches_remaining: Vec::new(),
        remediation_iterations: 0,
    }
}

/// A solution is reported with the weight of each holding under its own
/// ticker, before and after, and with the figures that it was solved to.
pub proof fn lemma_solution_by_ticker(
    out: CvarRebalanceOutput,
    input: CvarRebalanceInput,
    start: CvarStart,
    solved: Solved,
    i: int,
)
    requires
        reports_start(out, input, start),
        reports_solution(out, input, solved),
        solved.weights@.len() == input.portfolio.holdings@.len(),
        0 <= i < input.portfolio.holdings@.len(),
        forall|a: int, b: int|
            0 <= a < b < input.portfolio.holdings@.len() ==> (
            #[trigger] input.portfolio.holdings@[a]).ticker@ != (
            #[trigger] input.portfolio.holdings@[b]).ticker@,
    ensures
        table::value_of(out.weights_before@, input.portfolio.holdings@[i].ticker@) == Some(
            input.portfolio.holdings@[i].weight,
        ),
        out.weights_after is Some && table::value_of(
            out.weights_after->Some_0@,
            input.portfolio.holdings@[i].ticker@,
        ) == Some(solved.weights@[i]),
        out.scenario_count == start.scenario_count,
        out.policy_result_before == start.policy_result_before,
        out.stats_after == Some(solved.stats) && out.stats_before == solved.stats_before,
        out.turnover == Some(solved.turnover),
        out.commission_cost_inr == Some(solved.commission_cost_inr),
        out.lp_objective_cvar == Some(solved.lp_objective_cvar),
        out.regime_portfolio_vol_annualized_before == start.regime_vol_before,
        out.regime_portfolio_vol_annualized_after == solved.regime_vol,
        out.confidence_level == solved.confidence_level,
        out.tail_scenario_count == solved.tail_scenario_count,
{
    let tickers = input.portfolio.tickers_view();
    let n = tickers.len() as int;
    assert forall|a: int, b: int| 0 <= a < b < n implies tickers[a] != tickers[b] by {
        assert(input.portfolio.holdings@[a].ticker@ != input.portfolio.holdings@[b].ticker@);
    }
    table::lemma_value_of_rows_of(tickers, input.portfolio.weights_view(), n, i);
    table::lemma_value_of_rows_of(tickers, solved.weights@, n, i);
}

/// A solution is checked by its own figures: the gap of the weights at a
/// billionth, the turnover at the limit, the gap of the objective at a
/// millionth.
pub proof fn lemma_solution_checks(
    checks: Seq<InvariantCheck>,
    input: CvarRebalanceInput,
    solved: Solved,
    f: SolutionFigures,
)
    requires
        checks_solution(checks, input, solved, f),
    ensures
        checks.len() == 3,
        checks[0].passed <==> f.weight_gap.at_most(Double { bits: 0x3e11_2e0b_e826_d695 }),
        checks[1].passed <==> solved.turnover.at_most(f.lenient_limit),
        checks[2].passed <==> f.objective_gap.at_most(Double { bits: 0x3eb0_c6f7_a0b5_ed8d }),
        checks[0].tolerance.bits == 0x3e11_2e0b_e826_d695,
        checks[1].tolerance.bits == 0x3eb0_c6f7_a0b5_ed8d,
        checks[2].tolerance.bits == 0x3eb0_c6f7_a0b5_ed8d,
{
}

/// The outcome of a solution that no policy was held against, with the checks
/// of the solution.
pub fn optimal_outcome(
    input: &CvarRebalanceInput,
    start: CvarStart,
    solved: &Solved,
    f: &SolutionFigures,
) -> (res: (CvarRebalanceOutput, Vec<InvariantCheck>))
    requires
        solved.weights@.len() == input.portfolio.holdings@.len(),
    ensures
        reports_start(res.0, *input, start),
        reports_solution(res.0, *input, *solved),
        coherent(res.0),
        res.0.policy_result_after is None,
        res.0.policy_breaches_resolved@.len() == 0,
        res.0.policy_breaches_remaining@.len() == 0,
        res.0.remediation_iterations == 0,
        checks_solution(res.1@, *input, *solved, *f),
{
    (optimal_output(input, start, solved), solution_checks(input, solved, f))
}

/// The outcome of a solution whose policy was remedied as far as possible,
/// with the checks of that solution.
pub fn run_cvar_rebalance(
    input: &CvarRebalanceInput,
    start: CvarStart,
    course: Remediation,
    f: &SolutionFigures,
) -> (res: (CvarRebalanceOutput, Vec<InvariantCheck>))
    requires
        course.solved.weights@.len() == input.portfolio.holdings@.len(),
        course.within_bounds(),
        !course.due(),
    ensures
        reports_start(res.0, *input, start),
        reports_solution(res.0, *input, course.solved),
        coherent(res.0),
        res.0.policy_result_after == Some(course.result),
        text::views(res.0.policy_breaches_resolved@) == dropped_names(
            course.initial@,
            broken(course.result),
            course.initial@.len() as int,
        ),
        text::views(res.0.policy_breaches_remaining@) == row_names(broken(course.result)),
        res.0.remediation_iterations == course.iterations,
        res.0.remediation_iterations <= MAX_REMEDIATION_ITERATIONS,
        checks_solution(res.1@, *input, course.solved, *f),
{
    let checks = solution_checks(input, &course.solved, f);
    let mut out = optimal_output(input, start, &course.solved);
    out.policy_breaches_resolved = course.resolved();
    out.policy_breaches_remaining = course.remaining();
    out.remediation_iterations = course.iterations;
    out.policy_result_after = Some(course.result);
    (out, checks)
}

/// The name of the check on the weights.
pub const WEIGHTS_CHECK: &'static str = "sum(weights_after) == 1";

/// The name of the check on the turnover.
pub const TURNOVER_LIMIT_CHECK: &'static str = "turnover <= turnover_limit + tolerance";

/// The name of the check on the objective.
pub const OBJECTIVE_CHECK: &'static str = "LP objective == directly-computed historical CVaR of the solution";

/// What a solution is checked with.
#[derive(Clone, Copy, Debug)]
pub struct SolutionFigures {
    pub weight_sum: Double,
    /// The magnitude of the difference between that sum and one.
    pub weight_gap: Double,
    /// The turnover limit with a millionth added.
    pub lenient_limit: Double,
    /// The magnitude of the difference between the objective and the tail
    /// loss of the solution.
    pub objective_gap: Double,
}

/// What is said of the turnover of a solution.
pub open spec fn turnover_detail(input: CvarRebalanceInput, solved: Solved) -> Seq<PieceView> {
    seq![
        PieceView::Text("turnover="@),
        PieceView::Number(solved.turnover, Style::Fixed(6)),
        PieceView::Text(" turnover_limit="@),
        PieceView::Number(input.turnover_limit, Style::Plain),
    ]
}

/// Whether `checks` are the checks of a solution: its weights add up to one,
/// it keeps the turnover limit, and its objective is the tail loss that it has.
pub open spec fn checks_solution(
    checks: Seq<InvariantCheck>,
    input: CvarRebalanceInput,
    solved: Solved,
    f: SolutionFigures,
) -> bool {
    &&& checks.len() == 3
    &&& checks[0].name@ == WEIGHTS_CHECK@
    &&& checks[0].passed == f.weight_gap.at_most(Double { bits: FINE_TOLERANCE_BITS })
    &&& checks[0].tolerance == (Double { bits: FINE_TOLERANCE_BITS })
    &&& checks[0].detail@ == crate::trace::comparison_detail(
        f.weight_sum,
        Double { bits: crate::double::ONE_BITS },
        f.weight_gap,
    )
    &&& checks[1].name@ == TURNOVER_LIMIT_CHECK@
    &&& checks[1].passed == solved.turnover.at_most(f.lenient_limit)
    &&& checks[1].tolerance == (Double { bits: TOLERANCE_BITS })
    &&& checks[1].detail@ == turnover_detail(input, solved)
    &&& checks[2].name@ == OBJECTIVE_CHECK@
    &&& checks[2].passed == f.objective_gap.at_most(Double { bits: TOLERANCE_BITS })
    &&& checks[2].tolerance == (Double { bits: TOLERANCE_BITS })
    &&& checks[2].detail@ == crate::trace::comparison_detail(
        solved.lp_objective_cvar,
        solved.stats.historical_cvar,
        f.objective_gap,
    )
}

/// Checks a solution.
pub fn solution_checks(input: &CvarRebalanceInput, solved: &Solved, f: &SolutionFigures) -> (res:
    Vec<InvariantCheck>)
    ensures
        checks_solution(res@, *input, *solved, *f),
{
    let mut detail = Message::of("turnover=");
    detail.number(solved.turnover, Style::Fixed(6));
    detail.text(" turnover_limit=");
    detail.number(input.turnover_limit, Style::Plain);
    assert(detail@ =~= turnover_detail(*input, *solved));
    let mut out: Vec<InvariantCheck> = Vec::new();
    out.push(
        InvariantCheck::approx_eq(
            WEIGHTS_CHECK,
            f.weight_sum,
            Double { bits: crate::double::ONE_BITS },
            f.weight_gap,
            Double { bits: FINE_TOLERANCE_BITS },
        ),
    );
    out.push(
        InvariantCheck {
            name: text::copy(TURNOVER_LIMIT_CHECK),
            passed: solved.turnover.le(f.lenient_limit),
            tolerance: Double { bits: TOLERANCE_BITS },
            detail,
        },
    );
    out.push(
        InvariantCheck::approx_eq(
            OBJECTIVE_CHECK,
            solved.lp_objective_cvar,
            solved.stats.historical_cvar,
            f.objective_gap,
            Double { bits: TOLERANCE_BITS },
        ),
    );
    out
}

// ---------------------------------------------------------------------------
// JSON
// ---------------------------------------------------------------------------

/// A number, or `null` where there is none.
pub open spec fn optional_number(x: Option<Double>) -> JsonView {
    match x {
        Some(v) => JsonView::of_double(v),
        None => JsonView::Null,
    }
}

/// A number, or `null` where there is none.
pub fn optional_number_json(x: Option<Double>) -> (res: Json)
    ensures
        res@ == optional_number(x),
{
    match x {
        Some(v) => Json::of_double(v),
        None => Json::Null,
    }
}

impl CvarPortfolioStats {
    /// The tail as a JSON object.
    pub open spec fn json(self) -> JsonView {
        JsonView::empty().with("historical_var"@, JsonView::of_double(self.historical_var)).with(
            "historical_cvar"@,
            JsonView::of_double(self.historical_cvar),
        )
    }

    /// Each field of the object holds the figure that it is named after.
    pub proof fn lemma_json_fields(self)
        ensures
            self.json().field("historical_var"@) == Some(JsonView::of_double(self.historical_var)),
            self.json().field("historical_cvar"@) == Some(JsonView::of_double(self.historical_cvar)),
    {
        broadcast use crate::json::group_fields;

        reveal_strlit("historical_var");
        reveal_strlit("historical_cvar");
        assert("historical_var"@.len() == 14);
        assert("historical_cvar"@.len() == 15);
    }

    /// The tail as a JSON object.
    pub fn to_json(&self) -> (res: Json)
        ensures
            res@ == self.json(),
    {
        Json::object().with("historical_var", Json::of_double(self.historical_var)).with(
            "historical_cvar",
            Json::of_double(self.historical_cvar),
        )
    }
}

impl CvarRebalanceOutput {
    /// Whether the policy results sum up their checks.
    pub open spec fn consistent(self) -> bool {
        &&& self.policy_result_before is Some ==> policy::sums_up(
            self.policy_result_before->Some_0,
        )
        &&& self.policy_result_after is Some ==> policy::sums_up(self.policy_result_after->Some_0)
    }

    /// The outcome as a JSON object.
    pub open spec fn json(self) -> JsonView {
        JsonView::empty().with("status"@, JsonView::Text(self.status@)).with(
            "diagnostics"@,
            match self.diagnostics {
                Some(m) => JsonView::Sentence(m@),
                None => JsonView::Null,
            },
        ).with("confidence_level"@, JsonView::of_double(self.confidence_level)).with(
            "scenario_count"@,
            JsonView::of_integer(self.scenario_count as int),
        ).with(
            "tail_scenario_count"@,
            JsonView::of_integer(self.tail_scenario_count as int),
        ).with("weights_before"@, table::numbers_json(self.weights_before@)).with(
            "weights_after"@,
            match self.weights_after {
                Some(w) => table::numbers_json(w@),
                None => JsonView::Null,
            },
        ).with("stats_before"@, self.stats_before.json()).with(
            "stats_after"@,
            match self.stats_after {
                Some(s) => s.json(),
                None => JsonView::Null,
            },
        ).with("turnover"@, optional_number(self.turnover)).with(
            "commission_cost_inr"@,
            optional_number(self.commission_cost_inr),
        ).with("lp_objective_cvar"@, optional_number(self.lp_objective_cvar)).with(
            "regime_portfolio_vol_annualized_before"@,
            optional_number(self.regime_portfolio_vol_annualized_before),
        ).with(
            "regime_portfolio_vol_annualized_after"@,
            optional_number(self.regime_portfolio_vol_annualized_after),
        ).with(
            "policy_result_before"@,
            match self.policy_result_before {
                Some(r) => r.json(),
                None => JsonView::Null,
            },
        ).with(
            "policy_result_after"@,
            match self.policy_result_after {
                Some(r) => r.json(),
                None => JsonView::Null,
            },
        ).with(
            "policy_breaches_resolved"@,
            JsonView::of_texts(text::views(self.policy_breaches_resolved@)),
        ).with(
            "policy_breaches_remaining"@,
            JsonView::of_texts(text::views(self.policy_breaches_remaining@)),
        ).with(
            "remediation_iterations"@,
            JsonView::of_integer(self.remediation_iterations as int),
        )
    }

    /// Each field of the object holds the figure that it is named after.
    pub proof fn lemma_json_fields(self)
        ensures
            self.json().field("status"@) == Some(JsonView::Text(self.status@)),
            self.json().field("diagnostics"@) == Some(match self.diagnostics {
                Some(m) => JsonView::Sentence(m@),
                None => JsonView::Null,
            }),
            self.json().field("confidence_level"@) == Some(JsonView::of_double(self.confidence_level)),
            self.json().field("scenario_count"@) == Some(JsonView::of_integer(self.scenario_count as int)),
            self.json().field("tail_scenario_count"@) == Some(JsonView::of_integer(self.tail_scenario_count as int)),
            self.json().field("weights_before"@) == Some(table::numbers_json(self.weights_before@)),
            self.json().field("weights_after"@) == Some(match self.weights_after {
                Some(w) => table::numbers_json(w@),
                None => JsonView::Null,
            }),
            self.json().field("stats_before"@) == Some(self.stats_before.json()),
            self.json().field("stats_after"@) == Some(match self.stats_after {
                Some(s) => s.json(),
                None => JsonView::Null,
            }),
            self.json().field("turnover"@) == Some(optional_number(self.turnover)),
            self.json().field("commission_cost_inr"@) == Some(optional_number(self.commission_cost_inr)),
            self.json().field("lp_objective_cvar"@) == Some(optional_number(self.lp_objective_cvar)),
            self.json().field("regime_portfolio_vol_annualized_before"@) == Some(optional_number(self.regime_portfolio_vol_annualized_before)),
            self.json().field("regime_portfolio_vol_annualized_after"@) == Some(optional_number(self.regime_portfolio_vol_annualized_after)),
            self.json().field("policy_result_before"@) == Some(match self.policy_result_before {
                Some(r) => r.json(),
                None => JsonView::Null,
            }),
            self.json().field("policy_result_after"@) == Some(match self.policy_result_after {
                Some(r) => r.json(),
                None => JsonView::Null,
            }),
            self.json().field("policy_breaches_resolved"@) == Some(JsonView::of_texts(text::views(self.policy_breaches_resolved@))),
            self.json().field("policy_breaches_remaining"@) == Some(JsonView::of_texts(text::views(self.policy_breaches_remaining@))),
            self.json().field("remediation_iterations"@) == Some(JsonView::of_integer(self.remediation_iterations as int)),
    {
        broadcast use crate::json::group_fields;

        reveal_strlit("status");
        reveal_strlit("diagnostics");
        reveal_strlit("confidence_level");
        reveal_strlit("scenario_count");
        reveal_strlit("tail_scenario_count");
        reveal_strlit("weights_before");
        reveal_strlit("weights_after");
        reveal_strlit("stats_before");
        reveal_strlit("stats_after");
        reveal_strlit("turnover");
        reveal_strlit("commission_cost_inr");
        reveal_strlit("lp_objective_cvar");
        reveal_strlit("regime_portfolio_vol_annualized_before");
        reveal_strlit("regime_portfolio_vol_annualized_after");
        reveal_strlit("policy_result_before");
        reveal_strlit("policy_result_after");
        reveal_strlit("policy_breaches_resolved");
        reveal_strlit("policy_breaches_remaining");
        reveal_strlit("remediation_iterations");
        assert("status"@.len() == 6);
        assert("diagnostics"@.len() == 11);
        assert("confidence_level"@.len() == 16);
        assert("scenario_count"@.len() == 14);
        assert("tail_scenario_count"@.len() == 19);
        assert("weights_before"@.len() == 14);
        assert("weights_after"@.len() == 13);
        assert("stats_before"@.len() == 12);
        assert("stats_after"@.len() == 11);
        assert("turnover"@.len() == 8);
        assert("commission_cost_inr"@.len() == 19);
        assert("lp_objective_cvar"@.len() == 17);
        assert("regime_portfolio_vol_annualized_before"@.len() == 38);
        assert("regime_portfolio_vol_annualized_after"@.len() == 37);
        assert("policy_result_before"@.len() == 20);
        assert("policy_result_after"@.len() == 19);
        assert("policy_breaches_resolved"@.len() == 24);
        assert("policy_breaches_remaining"@.len() == 25);
        assert("remediation_iterations"@.len() == 22);
        assert("diagnostics"@[0] == 'd');
        assert("stats_after"@[0] == 's');
        assert("scenario_count"@[0] == 's');
        assert("weights_before"@[0] == 'w');
        assert("tail_scenario_count"@[0] == 't');
        assert("commission_cost_inr"@[0] == 'c');
        assert("policy_result_after"@[0] == 'p');
    }

    /// The outcome as a JSON object.
    pub fn to_json(&self) -> (res: Json)
        requires
            self.consistent(),
        ensures
            res@ == self.json(),
    {
        let diagnostics = match &self.diagnostics {
            Some(m) => Json::Sentence(m.duplicate()),
            None => Json::Null,
        };
        let weights_after = match &self.weights_after {
            Some(w) => w.to_json(),
            None => Json::Null,
        };
        let stats_after = match &self.stats_after {
            Some(s) => s.to_json(),
            None => Json::Null,
        };
        let before = match &self.policy_result_before {
            Some(r) => r.to_json(),
            None => Json::Null,
        };
        let after = match &self.policy_result_after {
            Some(r) => r.to_json(),
            None => Json::Null,
        };
        Json::object().with("status", Json::of_text(self.status.as_str())).with(
            "diagnostics",
            diagnostics,
        ).with("confidence_level", Json::of_double(self.confidence_level)).with(
            "scenario_count",
            Json::of_count(self.scenario_count),
        ).with("tail_scenario_count", Json::of_count(self.tail_scenario_count)).with(
            "weights_before",
            self.weights_before.to_json(),
        ).with("weights_after", weights_after).with(
            "stats_before",
            self.stats_before.to_json(),
        ).with("stats_after", stats_after).with(
            "turnover",
            optional_number_json(self.turnover),
        ).with("commission_cost_inr", optional_number_json(self.commission_cost_inr)).with(
            "lp_objective_cvar",
            optional_number_json(self.lp_objective_cvar),
        ).with(
            "regime_portfolio_vol_annualized_before",
            optional_number_json(self.regime_portfolio_vol_annualized_before),
        ).with(
            "regime_portfolio_vol_annualized_after",
            optional_number_json(self.regime_portfolio_vol_annualized_after),
        ).with("policy_result_before", before).with("policy_result_after", after).with(
            "policy_breaches_resolved",
            Json::of_texts(&self.policy_breaches_resolved),
        ).with(
            "policy_breaches_remaining",
            Json::of_texts(&self.policy_breaches_remaining),
        ).with("remediation_iterations", Json::of_integer(self.remediation_iterations as i64))
    }
}

} // verus!
