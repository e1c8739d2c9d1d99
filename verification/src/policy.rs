//! Risk policies: limits on a portfolio, and the check of a portfolio against
//! them.

use vstd::prelude::*;

use crate::data::{self, MarketData, NamedSeries};
use crate::double::Double;
use crate::error::{ComputeError, ComputeErrorView};
use crate::experiments::{self, Portfolio};
use crate::json::{self, Json, JsonView};
use crate::message::{self, Message, PieceView, Style};
use crate::model;
use crate::scenarios;
use crate::select;
use crate::table::{self, Rows, Table};
use crate::text;
use crate::trace::InvariantCheck;

verus! {

/// The loss that is accepted under a historical scenario.
#[derive(Debug)]
pub struct ScenarioLimit {
    pub scenario_id: String,
    /// As a fraction of the portfolio value.
    pub max_loss_pct: Double,
}

/// Limits on a portfolio; those left out are not checked.
#[derive(Debug)]
pub struct RiskPolicy {
    pub max_vol_annualized: Option<Double>,
    pub max_cvar_95: Option<Double>,
    pub max_factor_contribution_share: Option<Double>,
    pub max_position_weight: Option<Double>,
    /// What a rebalance may trade; no check looks at it.
    pub max_turnover: Option<Double>,
    pub max_loss_under_scenarios: Option<Vec<ScenarioLimit>>,
}

/// The policy that limits nothing.
pub open spec fn no_limits() -> RiskPolicy {
    RiskPolicy {
        max_vol_annualized: None,
        max_cvar_95: None,
        max_factor_contribution_share: None,
        max_position_weight: None,
        max_turnover: None,
        max_loss_under_scenarios: None,
    }
}

impl Default for RiskPolicy {
    fn default() -> (res: RiskPolicy)
        ensures
            res == no_limits(),
    {
        RiskPolicy {
            max_vol_annualized: None,
            max_cvar_95: None,
            max_factor_contribution_share: None,
            max_position_weight: None,
            max_turnover: None,
            max_loss_under_scenarios: None,
        }
    }
}

/// The outcome of one rule.
#[derive(Debug)]
pub struct PolicyCheck {
    pub rule: String,
    pub limit: Double,
    pub actual: Double,
    pub passed: bool,
    pub breach_magnitude: Double,
    pub evidence: Message,
}

/// What a [`PolicyCheck`] says.
pub struct PolicyCheckView {
    pub rule: Seq<char>,
    pub limit: Double,
    pub actual: Double,
    pub passed: bool,
    pub breach_magnitude: Double,
    pub evidence: Seq<PieceView>,
}

impl View for PolicyCheck {
    type V = PolicyCheckView;

    open spec fn view(&self) -> PolicyCheckView {
        PolicyCheckView {
            rule: self.rule@,
            limit: self.limit,
            actual: self.actual,
            passed: self.passed,
            breach_magnitude: self.breach_magnitude,
            evidence: self.evidence@,
        }
    }
}

/// The outcome of all rules.
#[derive(Debug)]
pub struct PolicyResult {
    pub checks: Vec<PolicyCheck>,
    pub all_passed: bool,
    pub breach_count: usize,
    /// The place of the breach with the largest magnitude.
    pub most_severe_breach: Option<usize>,
}

/// A measured quantity, and how far it is from its limit.
#[derive(Clone, Copy, Debug)]
pub struct Measured {
    pub actual: Double,
    /// The magnitude of the difference between `actual` and the limit.
    pub distance: Double,
}

/// What is measured of a portfolio for a policy. A figure whose limit is left
/// out is not looked at.
#[derive(Debug)]
pub struct PolicyFigures {
    pub vol: Measured,
    pub cvar_95: Measured,
    /// The share of each factor in the volatility.
    pub factor_shares: Vec<Double>,
    /// How far the largest share is from its limit.
    pub share_distance: Double,
    /// How far the largest weight is from its limit.
    pub weight_distance: Double,
    /// One per scenario limit.
    pub scenario_losses: Vec<Measured>,
}

// ---------------------------------------------------------------------------
// What has to hold before anything is measured
// ---------------------------------------------------------------------------

/// The first ticker among the first `n` without a return series.
pub open spec fn first_without_series(stocks: Seq<NamedSeries>, tickers: Seq<Seq<char>>, n: int) -> Option<
    Seq<char>,
>
    decreases n,
{
    if n <= 0 {
        None
    } else {
        match first_without_series(stocks, tickers, n - 1) {
            Some(t) => Some(t),
            None => if model::series_named(stocks, tickers[n - 1]) is None {
                Some(tickers[n - 1])
            } else {
                None
            },
        }
    }
}

/// Where no ticker is without a series, each has a series of its name; one
/// that is named as missing has none.
pub proof fn lemma_no_missing_series(
    stocks: Seq<NamedSeries>,
    tickers: Seq<Seq<char>>,
    n: int,
    i: int,
)
    requires
        0 <= i < n <= tickers.len(),
    ensures
        match first_without_series(stocks, tickers, n) {
            None => model::series_named(stocks, tickers[i]) is Some && exists|p: int|
                0 <= p < stocks.len() && (#[trigger] stocks[p]).name@ == tickers[i],
            Some(t) => tickers.contains(t) && forall|p: int|
                0 <= p < stocks.len() ==> (#[trigger] stocks[p]).name@ != t,
        },
    decreases n,
{
    let before = first_without_series(stocks, tickers, n - 1);
    if i < n - 1 {
        lemma_no_missing_series(stocks, tickers, n - 1, i);
    } else if n > 1 {
        lemma_no_missing_series(stocks, tickers, n - 1, 0);
    }
    model::lemma_series_named(stocks, tickers[n - 1]);
    if before is None && model::series_named(stocks, tickers[n - 1]) is None {
        assert(tickers.contains(tickers[n - 1]));
    }
}

proof fn lemma_missing_stays(stocks: Seq<NamedSeries>, tickers: Seq<Seq<char>>, n: int, m: int)
    requires
        first_without_series(stocks, tickers, n) is Some,
        n <= m,
    ensures
        first_without_series(stocks, tickers, m) == first_without_series(stocks, tickers, n),
    decreases m - n,
{
    if n < m {
        lemma_missing_stays(stocks, tickers, n, m - 1);
    }
}

/// The message for a ticker without a return series.
pub open spec fn missing_series(ticker: Seq<char>) -> Seq<PieceView> {
    seq![PieceView::Text("missing return series for "@), PieceView::Text(ticker)]
}

/// The places of the return series of a portfolio, in the order of its
/// holdings. Fails on the first ticker without one.
pub fn portfolio_series(portfolio: &Portfolio, market: &MarketData) -> (res: Result<
    Vec<usize>,
    ComputeError,
>)
    ensures
        ({
            let stocks = market.stock_returns@;
            let tickers = portfolio.tickers_view();
            match first_without_series(stocks, tickers, tickers.len() as int) {
                Some(t) => res is Err && res->Err_0@ == ComputeErrorView::Model(missing_series(t)),
                None => {
                    &&& res is Ok
                    &&& res->Ok_0@.len() == tickers.len()
                    &&& forall|i: int|
                        0 <= i < tickers.len() ==> Some((#[trigger] res->Ok_0@[i]) as int)
                            == model::series_named(stocks, tickers[i]) && res->Ok_0@[i]
                            < stocks.len()
                },
            }
        }),
{
    let ghost stocks = market.stock_returns@;
    let ghost tickers = portfolio.tickers_view();
    let mut places: Vec<usize> = Vec::new();
    let mut i: usize = 0;
    while i < portfolio.holdings.len()
        invariant
            i <= portfolio.holdings@.len(),
            stocks == market.stock_returns@,
            tickers == portfolio.tickers_view(),
            first_without_series(stocks, tickers, i as int) is None,
            places@.len() == i,
            forall|k: int|
                0 <= k < i ==> Some((#[trigger] places@[k]) as int) == model::series_named(
                    stocks,
                    tickers[k],
                ) && places@[k] < stocks.len(),
        decreases portfolio.holdings.len() - i,
    {
        let ticker = portfolio.holdings[i].ticker.as_str();
        match model::find_series(&market.stock_returns, ticker) {
            Some(place) => places.push(place),
            None => {
                proof {
                    lemma_missing_stays(stocks, tickers, i as int + 1, tickers.len() as int);
                }
                let mut message = Message::of("missing return series for ");
                message.text(ticker);
                assert(message@ =~= missing_series(ticker@));
                return Err(ComputeError::Model(message));
            },
        }
        i += 1;
    }
    Ok(places)
}

/// What is wrong with the first `n` scenario limits.
pub open spec fn scenario_fault(limits: Seq<ScenarioLimit>, tickers_match: bool, n: int) -> Option<
    Seq<PieceView>,
>
    decreases n,
{
    if n <= 0 {
        None
    } else {
        match scenario_fault(limits, tickers_match, n - 1) {
            Some(fault) => Some(fault),
            None => if scenarios::place_of(limits[n - 1].scenario_id@) is None {
                Some(scenarios::unknown_scenario(limits[n - 1].scenario_id@))
            } else if !tickers_match {
                Some(message::plain(experiments::TICKER_MISMATCH@))
            } else {
                None
            },
        }
    }
}

proof fn lemma_scenario_fault_stays(limits: Seq<ScenarioLimit>, tickers_match: bool, n: int, m: int)
    requires
        scenario_fault(limits, tickers_match, n) is Some,
        n <= m,
    ensures
        scenario_fault(limits, tickers_match, m) == scenario_fault(limits, tickers_match, n),
    decreases m - n,
{
    if n < m {
        lemma_scenario_fault_stays(limits, tickers_match, n, m - 1);
    }
}

/// What keeps a policy from being evaluated: a ticker without returns where
/// the tail loss is limited, then a scenario limit that cannot be measured.
pub open spec fn policy_fault(
    policy: RiskPolicy,
    portfolio: Portfolio,
    model_tickers: Seq<String>,
    stocks: Seq<NamedSeries>,
) -> Option<ComputeErrorView> {
    let tickers = portfolio.tickers_view();
    let missing = first_without_series(stocks, tickers, tickers.len() as int);
    if policy.max_cvar_95 is Some && missing is Some {
        Some(ComputeErrorView::Model(missing_series(missing->Some_0)))
    } else {
        match policy.max_loss_under_scenarios {
            None => None,
            Some(limits) => match scenario_fault(
                limits@,
                tickers == text::views(model_tickers),
                limits@.len() as int,
            ) {
                Some(fault) => Some(ComputeErrorView::InvalidInput(fault)),
                None => None,
            },
        }
    }
}

/// Accepts a policy that can be evaluated.
pub fn check_policy(
    policy: &RiskPolicy,
    portfolio: &Portfolio,
    model_tickers: &Vec<String>,
    market: &MarketData,
) -> (res: Result<(), ComputeError>)
    ensures
        match policy_fault(*policy, *portfolio, model_tickers@, market.stock_returns@) {
            Some(fault) => res is Err && res->Err_0@ == fault,
            None => res is Ok,
        },
{
    if policy.max_cvar_95.is_some() {
        match portfolio_series(portfolio, market) {
            Ok(_) => {},
            Err(e) => {
                return Err(e);
            },
        }
    }
    if let Some(limits) = &policy.max_loss_under_scenarios {
        let ghost matching = portfolio.tickers_view() == text::views(model_tickers@);
        let mut i: usize = 0;
        while i < limits.len()
            invariant
                i <= limits@.len(),
                policy.max_loss_under_scenarios == Some(*limits),
                matching == (portfolio.tickers_view() == text::views(model_tickers@)),
                policy.max_cvar_95 is Some ==> first_without_series(
                    market.stock_returns@,
                    portfolio.tickers_view(),
                    portfolio.tickers_view().len() as int,
                ) is None,
                scenario_fault(limits@, matching, i as int) is None,
            decreases limits.len() - i,
        {
            match scenarios::find_scenario(limits[i].scenario_id.as_str()) {
                Ok(_) => {},
                Err(e) => {
                    proof {
                        lemma_scenario_fault_stays(
                            limits@,
                            matching,
                            i as int + 1,
                            limits@.len() as int,
                        );
                    }
                    return Err(e);
                },
            }
            match experiments::check_tickers(portfolio, model_tickers) {
                Ok(_) => {},
                Err(e) => {
                    proof {
                        lemma_scenario_fault_stays(
                            limits@,
                            matching,
                            i as int + 1,
                            limits@.len() as int,
                        );
                    }
                    return Err(e);
                },
            }
            i += 1;
        }
    }
    Ok(())
}

// ---------------------------------------------------------------------------
// Figures that are chosen, not computed
// ---------------------------------------------------------------------------

/// The largest of the first `n` numbers, starting from the smallest double.
pub open spec fn largest_of(values: Seq<Double>, n: int) -> Double
    decreases n,
{
    if n <= 0 {
        Double { bits: crate::double::SMALLEST_BITS }
    } else {
        largest_of(values, n - 1).larger(values[n - 1])
    }
}

/// The largest weight of a portfolio.
pub fn max_position_weight(portfolio: &Portfolio) -> (res: Double)
    ensures
        res == largest_of(portfolio.weights_view(), portfolio.holdings@.len() as int),
{
    let mut best = Double { bits: crate::double::SMALLEST_BITS };
    let mut i: usize = 0;
    while i < portfolio.holdings.len()
        invariant
            i <= portfolio.holdings@.len(),
            best == largest_of(portfolio.weights_view(), i as int),
        decreases portfolio.holdings.len() - i,
    {
        best = best.max(portfolio.holdings[i].weight);
        i += 1;
    }
    best
}

/// The factor with the largest share among the first `n`, the first of
/// several, and its share.
pub open spec fn dominant(shares: Seq<Double>, n: int) -> (int, Double)
    decreases n,
{
    if n <= 0 {
        (0, Double { bits: crate::double::SMALLEST_BITS })
    } else {
        let before = dominant(shares, n - 1);
        if before.1.below(shares[n - 1]) {
            (n - 1, shares[n - 1])
        } else {
            before
        }
    }
}

/// The name of the factor with the largest share of the volatility, and that
/// share.
pub fn max_factor_contribution_share(shares: &Vec<Double>) -> (res: (String, Double))
    requires
        shares@.len() == data::FACTOR_COUNT,
    ensures
        res.0@ == data::factor_names_view()[dominant(shares@, data::FACTOR_COUNT as int).0],
        res.1 == dominant(shares@, data::FACTOR_COUNT as int).1,
{
    let names = data::factor_names();
    let mut best: usize = 0;
    let mut best_share = Double { bits: crate::double::SMALLEST_BITS };
    let mut i: usize = 0;
    while i < shares.len()
        invariant
            i <= shares@.len(),
            shares@.len() == data::FACTOR_COUNT,
            best < data::FACTOR_COUNT,
            (best as int, best_share) == dominant(shares@, i as int),
        decreases shares.len() - i,
    {
        if best_share.lt(shares[i]) {
            best_share = shares[i];
            best = i;
        }
        i += 1;
    }
    assert(text::views(names@)[best as int] == names@[best as int]@);
    (text::copy(names[best].as_str()), best_share)
}

/// The dominant factor is the first of those whose share no other exceeds, and
/// the share that is given is its own.
pub proof fn lemma_dominant_factor(shares: Seq<Double>, n: int)
    requires
        0 < n <= shares.len(),
        forall|i: int| 0 <= i < shares.len() ==> (#[trigger] shares[i]).finite(),
    ensures
        0 <= dominant(shares, n).0 < n,
        dominant(shares, n).1.bits == 0xffef_ffff_ffff_ffff || shares[dominant(shares, n).0]
            == dominant(shares, n).1,
        forall|i: int|
            0 <= i < n ==> (#[trigger] shares[i]).rank() <= dominant(shares, n).1.rank(),
        forall|i: int|
            0 <= i < dominant(shares, n).0 ==> (#[trigger] shares[i]).rank() < dominant(
                shares,
                n,
            ).1.rank(),
    decreases n,
{
    assert(shares[n - 1].finite());
    if n > 1 {
        lemma_dominant_factor(shares, n - 1);
    } else {
        assert(dominant(shares, 0) == (0int, Double { bits: crate::double::SMALLEST_BITS }));
    }
}

/// The ticker named as largest is that of a holding whose weight no other
/// exceeds, and of several such the last.
pub proof fn lemma_largest_ticker(portfolio: Portfolio, ticker: Seq<char>)
    requires
        is_largest_ticker(portfolio, ticker),
        portfolio.holdings@.len() > 0,
    ensures
        exists|i: int|
            0 <= i < portfolio.holdings@.len() && (#[trigger] portfolio.holdings@[i]).ticker@
                == ticker && (forall|j: int|
                0 <= j < portfolio.holdings@.len() ==> (
                #[trigger] portfolio.holdings@[j]).weight.rank()
                    <= portfolio.holdings@[i].weight.rank()) && forall|j: int|
                i < j < portfolio.holdings@.len() ==> (
                #[trigger] portfolio.holdings@[j]).weight.rank()
                    < portfolio.holdings@[i].weight.rank(),
{
    let weights = portfolio.weights_view();
    let i = choose|i: int| #[trigger]
        select::is_last_max(weights, i) && ticker == portfolio.holdings@[i].ticker@;
    assert(portfolio.holdings@[i].ticker@ == ticker);
    assert forall|j: int| 0 <= j < portfolio.holdings@.len() implies (
    #[trigger] portfolio.holdings@[j]).weight.rank() <= portfolio.holdings@[i].weight.rank() by {
        assert(weights[j] == portfolio.holdings@[j].weight);
    }
    assert forall|j: int| i < j < portfolio.holdings@.len() implies (
    #[trigger] portfolio.holdings@[j]).weight.rank() < portfolio.holdings@[i].weight.rank() by {
        assert(weights[j] == portfolio.holdings@[j].weight);
    }
}

/// Whether `ticker` is that of the largest position, the last of several; it
/// is empty where there is no position.
pub open spec fn is_largest_ticker(portfolio: Portfolio, ticker: Seq<char>) -> bool {
    if portfolio.holdings@.len() == 0 {
        ticker == Seq::<char>::empty()
    } else {
        exists|i: int| #[trigger]
            select::is_last_max(portfolio.weights_view(), i) && ticker
                == portfolio.holdings@[i].ticker@
    }
}

fn largest_ticker(portfolio: &Portfolio) -> (res: String)
    requires
        select::comparable(portfolio.weights_view()),
    ensures
        is_largest_ticker(*portfolio, res@),
{
    let weights = portfolio.weights();
    match select::last_max(&weights) {
        Some(i) => text::copy(portfolio.holdings[i].ticker.as_str()),
        None => String::new(),
    }
}

/// The largest losses, largest first: as many as asked for, at least one and
/// at most all.
pub fn worst_losses(losses: &Vec<Double>, count: usize) -> (res: Vec<Double>)
    requires
        losses@.len() > 0,
        select::comparable(losses@),
    ensures
        exists|order: Seq<usize>|
            {
                &&& #[trigger] select::is_sorted_order(losses@, true, order)
                &&& res@.len() == tail_size(losses@.len() as int, count as int)
                &&& forall|i: int|
                    0 <= i < res@.len() ==> (#[trigger] res@[i]) == losses@[order[i] as int]
            },
        forall|i: int, j: int|
            0 <= i < j < res@.len() ==> (#[trigger] res@[j]).at_most(#[trigger] res@[i]),
{
    let order = select::sorted_order(losses, true);
    let mut size: usize = count;
    if size > losses.len() {
        size = losses.len();
    }
    if size < 1 {
        size = 1;
    }
    let mut out: Vec<Double> = Vec::new();
    let mut i: usize = 0;
    while i < size
        invariant
            i <= size <= losses@.len(),
            select::comparable(losses@),
            select::is_sorted_order(losses@, true, order@),
            out@.len() == i,
            forall|k: int| 0 <= k < i ==> (#[trigger] out@[k]) == losses@[order@[k] as int],
        decreases size - i,
    {
        out.push(losses[order[i]]);
        i += 1;
    }
    proof {
        assert forall|i: int, j: int| 0 <= i < j < out@.len() implies (#[trigger] out@[j]).at_most(
            #[trigger] out@[i],
        ) by {
            assert(select::sorts_before(losses@, true, order@[i] as int, order@[j] as int));
        }
    }
    out
}

/// How many scenarios make up a tail: their share of all scenarios, rounded,
/// and at least one.
pub fn tail_count(rounded: usize) -> (res: usize)
    ensures
        res == (if rounded < 1 {
            1
        } else {
            rounded as int
        }),
{
    if rounded < 1 {
        1
    } else {
        rounded
    }
}

/// How many losses a tail of `count` out of `available` has.
pub open spec fn tail_size(available: int, count: int) -> int {
    if count < 1 {
        1
    } else if count > available {
        available
    } else {
        count
    }
}

/// A tail has at least one loss and at most all, and between these as many as
/// are asked for. No loss outside it exceeds one in it.
pub proof fn lemma_tail_is_worst(losses: Seq<Double>, count: int, order: Seq<usize>)
    requires
        select::is_sorted_order(losses, true, order),
        losses.len() > 0,
    ensures
        1 <= tail_size(losses.len() as int, count) <= losses.len(),
        1 <= count <= losses.len() ==> tail_size(losses.len() as int, count) == count,
        count <= 1 ==> tail_size(losses.len() as int, count) == 1,
        count >= losses.len() ==> tail_size(losses.len() as int, count) == losses.len(),
        forall|i: int, j: int|
            0 <= i < tail_size(losses.len() as int, count) <= j < losses.len()
                ==> losses[#[trigger] order[j] as int].rank()
                <= losses[#[trigger] order[i] as int].rank(),
{
    select::lemma_sorted_order(losses, true, order);
}

// ---------------------------------------------------------------------------
// Checks
// ---------------------------------------------------------------------------

/// The outcome of a rule: it passes where the quantity is within its limit.
pub open spec fn check_of(rule: Seq<char>, limit: Double, figure: Measured, evidence: Seq<PieceView>) -> PolicyCheckView {
    let passed = figure.actual.at_most(limit);
    PolicyCheckView {
        rule,
        limit,
        actual: figure.actual,
        passed,
        breach_magnitude: if passed {
            Double { bits: 0 }
        } else {
            figure.distance
        },
        evidence,
    }
}

/// Checks one quantity against its limit.
pub fn make_check(rule: &str, limit: Double, figure: Measured, evidence: Message) -> (res: PolicyCheck)
    ensures
        res@ == check_of(rule@, limit, figure, evidence@),
{
    let passed = figure.actual.le(limit);
    PolicyCheck {
        rule: text::copy(rule),
        limit,
        actual: figure.actual,
        passed,
        breach_magnitude: if passed {
            Double::zero()
        } else {
            figure.distance
        },
        evidence,
    }
}

/// A sentence that ends with a percentage and the limit in brackets.
pub open spec fn percent_evidence(
    before: Seq<PieceView>,
    actual: Double,
    between: Seq<char>,
    limit: Double,
) -> Seq<PieceView> {
    before + seq![
        PieceView::Number(actual, Style::Percent(1)),
        PieceView::Text(between),
        PieceView::Number(limit, Style::Percent(1)),
        PieceView::Text("%)"@),
    ]
}

fn evidence(before: Message, actual: Double, between: &str, limit: Double) -> (res: Message)
    ensures
        res@ == percent_evidence(before@, actual, between@, limit),
{
    let mut out = before;
    let ghost start = out@;
    out.number(actual, Style::Percent(1));
    out.text(between);
    out.number(limit, Style::Percent(1));
    out.text("%)");
    assert(out@ =~= percent_evidence(start, actual, between@, limit));
    out
}

/// The check of the volatility.
pub open spec fn vol_check(limit: Double, figure: Measured) -> PolicyCheckView {
    check_of(
        "max_vol_annualized"@,
        limit,
        figure,
        percent_evidence(
            message::plain("Portfolio annualized volatility is "@),
            figure.actual,
            "% (limit: "@,
            limit,
        ),
    )
}

/// The check of the tail loss.
pub open spec fn cvar_check(limit: Double, figure: Measured) -> PolicyCheckView {
    check_of(
        "max_cvar_95"@,
        limit,
        figure,
        percent_evidence(
            message::plain("Portfolio historical CVaR (95%) is "@),
            figure.actual,
            "% (limit: "@,
            limit,
        ),
    )
}

/// The check of the largest factor share.
pub open spec fn share_check(limit: Double, shares: Seq<Double>, distance: Double) -> PolicyCheckView {
    let (place, share) = dominant(shares, data::FACTOR_COUNT as int);
    check_of(
        "max_factor_contribution_share"@,
        limit,
        Measured { actual: share, distance },
        percent_evidence(
            seq![
                PieceView::Text(data::factor_names_view()[place]),
                PieceView::Text(" factor contributes "@),
            ],
            share,
            "% of vol (limit: "@,
            limit,
        ),
    )
}

/// The check of the largest position, given its ticker.
pub open spec fn weight_check(
    limit: Double,
    portfolio: Portfolio,
    ticker: Seq<char>,
    distance: Double,
) -> PolicyCheckView {
    let weight = largest_of(portfolio.weights_view(), portfolio.holdings@.len() as int);
    check_of(
        "max_position_weight"@,
        limit,
        Measured { actual: weight, distance },
        percent_evidence(
            seq![
                PieceView::Text("Largest position ("@),
                PieceView::Text(ticker),
                PieceView::Text(") is "@),
            ],
            weight,
            "% of portfolio (limit: "@,
            limit,
        ),
    )
}

/// The check of the loss under a scenario.
pub open spec fn scenario_check(limit: ScenarioLimit, figure: Measured) -> PolicyCheckView {
    check_of(
        "max_loss_under_scenarios["@ + limit.scenario_id@ + "]"@,
        limit.max_loss_pct,
        figure,
        percent_evidence(
            seq![
                PieceView::Text("Under scenario '"@),
                PieceView::Text(limit.scenario_id@),
                PieceView::Text("', portfolio would lose "@),
            ],
            figure.actual,
            "% (limit: "@,
            limit.max_loss_pct,
        ),
    )
}

/// The checks of the first `n` scenario limits.
pub open spec fn scenario_checks(limits: Seq<ScenarioLimit>, figures: Seq<Measured>, n: int) -> Seq<
    PolicyCheckView,
>
    decreases n,
{
    if n <= 0 {
        seq![]
    } else {
        scenario_checks(limits, figures, n - 1).push(scenario_check(limits[n - 1], figures[n - 1]))
    }
}

/// What the checks say.
pub open spec fn checks_view(checks: Seq<PolicyCheck>) -> Seq<PolicyCheckView> {
    checks.map_values(|c: PolicyCheck| c@)
}

/// One check where there is a limit, none otherwise.
pub open spec fn if_limited(limit: Option<Double>, check: spec_fn(Double) -> PolicyCheckView) -> Seq<
    PolicyCheckView,
> {
    match limit {
        Some(l) => seq![check(l)],
        None => seq![],
    }
}

/// All checks of a policy, in the order of its rules; `ticker` is that of the
/// largest position.
pub open spec fn all_checks(
    policy: RiskPolicy,
    portfolio: Portfolio,
    figures: PolicyFigures,
    ticker: Seq<char>,
) -> Seq<PolicyCheckView> {
    if_limited(policy.max_vol_annualized, |l: Double| vol_check(l, figures.vol)) + if_limited(
        policy.max_cvar_95,
        |l: Double| cvar_check(l, figures.cvar_95),
    ) + if_limited(
        policy.max_factor_contribution_share,
        |l: Double| share_check(l, figures.factor_shares@, figures.share_distance),
    ) + if_limited(
        policy.max_position_weight,
        |l: Double| weight_check(l, portfolio, ticker, figures.weight_distance),
    ) + (match policy.max_loss_under_scenarios {
        Some(limits) => scenario_checks(limits@, figures.scenario_losses@, limits@.len() as int),
        None => seq![],
    })
}

/// One where there is a limit, nought otherwise.
pub open spec fn limit_count(limit: Option<Double>) -> nat {
    if limit is Some {
        1
    } else {
        0
    }
}

/// The number of rules that a policy sets.
pub open spec fn rule_count(policy: RiskPolicy) -> nat {
    limit_count(policy.max_vol_annualized) + limit_count(policy.max_cvar_95) + limit_count(
        policy.max_factor_contribution_share,
    ) + limit_count(policy.max_position_weight) + (match policy.max_loss_under_scenarios {
        Some(limits) => limits@.len(),
        None => 0,
    })
}

proof fn lemma_scenario_count(limits: Seq<ScenarioLimit>, figures: Seq<Measured>, n: int)
    requires
        0 <= n,
    ensures
        scenario_checks(limits, figures, n).len() == n,
    decreases n,
{
    if n > 0 {
        lemma_scenario_count(limits, figures, n - 1);
    }
}

/// Every rule that a policy sets is checked once, and no other.
pub proof fn lemma_one_check_per_rule(
    policy: RiskPolicy,
    portfolio: Portfolio,
    figures: PolicyFigures,
    ticker: Seq<char>,
)
    ensures
        all_checks(policy, portfolio, figures, ticker).len() == rule_count(policy),
{
    match policy.max_loss_under_scenarios {
        Some(limits) => {
            lemma_scenario_count(limits@, figures.scenario_losses@, limits@.len() as int);
        },
        None => {},
    }
}

proof fn lemma_scenario_checks(
    limits: Seq<ScenarioLimit>,
    figures: Seq<Measured>,
    n: int,
    k: int,
)
    requires
        0 <= k < n,
    ensures
        scenario_checks(limits, figures, n).len() == n,
        scenario_checks(limits, figures, n)[k] == scenario_check(limits[k], figures[k]),
    decreases n,
{
    lemma_scenario_count(limits, figures, n);
    lemma_scenario_count(limits, figures, n - 1);
    if k < n - 1 {
        lemma_scenario_checks(limits, figures, n - 1, k);
    }
}

/// Whether a check under a rule is that of a quantity: it reports the quantity
/// and the limit, passes exactly where the quantity is at most the limit, and
/// reports a breach by the distance, or none.
pub open spec fn decides(
    check: PolicyCheckView,
    rule: Seq<char>,
    limit: Double,
    actual: Double,
    distance: Double,
) -> bool {
    &&& check.rule == rule
    &&& check.limit == limit
    &&& check.actual == actual
    &&& check.passed <==> !actual.nan() && !limit.nan() && actual.rank() <= limit.rank()
    &&& check.passed ==> check.breach_magnitude == (Double { bits: 0 })
    &&& !check.passed ==> check.breach_magnitude == distance
    &&& check.evidence.contains(PieceView::Number(actual, Style::Percent(1)))
    &&& check.evidence.contains(PieceView::Number(limit, Style::Percent(1)))
}

proof fn lemma_evidence_shows(
    before: Seq<PieceView>,
    actual: Double,
    between: Seq<char>,
    limit: Double,
)
    ensures
        percent_evidence(before, actual, between, limit).contains(
            PieceView::Number(actual, Style::Percent(1)),
        ),
        percent_evidence(before, actual, between, limit).contains(
            PieceView::Number(limit, Style::Percent(1)),
        ),
{
    let all = percent_evidence(before, actual, between, limit);
    assert(all[before.len() as int] == PieceView::Number(actual, Style::Percent(1)));
    assert(all[before.len() as int + 2] == PieceView::Number(limit, Style::Percent(1)));
}

proof fn lemma_largest_weight(weights: Seq<Double>, n: int)
    requires
        0 <= n <= weights.len(),
        select::comparable(weights),
    ensures
        !largest_of(weights, n).nan(),
        forall|i: int|
            0 <= i < n ==> (#[trigger] weights[i]).rank() <= largest_of(weights, n).rank(),
    decreases n,
{
    if n > 0 {
        lemma_largest_weight(weights, n - 1);
        assert(!weights[n - 1].nan());
    }
}

proof fn lemma_dominant_share(shares: Seq<Double>, n: int)
    requires
        0 <= n <= shares.len(),
        select::comparable(shares),
    ensures
        !dominant(shares, n).1.nan(),
        forall|i: int|
            0 <= i < n ==> (#[trigger] shares[i]).rank() <= dominant(shares, n).1.rank(),
    decreases n,
{
    if n > 0 {
        lemma_dominant_share(shares, n - 1);
        assert(!shares[n - 1].nan());
    }
}

/// Each rule that a policy sets is decided by its own quantity: the volatility
/// by the measured volatility, the tail loss by the measured tail loss, the
/// factor share by a share that none exceeds, the position by a weight that
/// none exceeds, and each scenario by the loss measured under it, in this
/// order.
pub proof fn lemma_each_rule_by_its_own_quantity(
    policy: RiskPolicy,
    portfolio: Portfolio,
    figures: PolicyFigures,
    ticker: Seq<char>,
)
    requires
        policy.max_factor_contribution_share is Some ==> figures.factor_shares@.len()
            == data::FACTOR_COUNT && select::comparable(figures.factor_shares@),
        policy.max_position_weight is Some ==> select::comparable(portfolio.weights_view()),
    ensures
        ({
            let checks = all_checks(policy, portfolio, figures, ticker);
            let cvar: int = if policy.max_vol_annualized is Some {
                1
            } else {
                0
            };
            let share = if policy.max_cvar_95 is Some {
                cvar + 1
            } else {
                cvar
            };
            let weight = if policy.max_factor_contribution_share is Some {
                share + 1
            } else {
                share
            };
            let scenario = if policy.max_position_weight is Some {
                weight + 1
            } else {
                weight
            };
            &&& match policy.max_vol_annualized {
                Some(limit) => decides(
                    checks[0],
                    "max_vol_annualized"@,
                    limit,
                    figures.vol.actual,
                    figures.vol.distance,
                ),
                None => true,
            }
            &&& match policy.max_cvar_95 {
                Some(limit) => decides(
                    checks[cvar],
                    "max_cvar_95"@,
                    limit,
                    figures.cvar_95.actual,
                    figures.cvar_95.distance,
                ),
                None => true,
            }
            &&& match policy.max_factor_contribution_share {
                Some(limit) => {
                    &&& decides(
                        checks[share],
                        "max_factor_contribution_share"@,
                        limit,
                        checks[share].actual,
                        figures.share_distance,
                    )
                    &&& forall|k: int|
                        0 <= k < figures.factor_shares@.len() ==> (
                        #[trigger] figures.factor_shares@[k]).rank() <= checks[share].actual.rank()
                },
                None => true,
            }
            &&& match policy.max_position_weight {
                Some(limit) => {
                    &&& decides(
                        checks[weight],
                        "max_position_weight"@,
                        limit,
                        checks[weight].actual,
                        figures.weight_distance,
                    )
                    &&& forall|k: int|
                        0 <= k < portfolio.holdings@.len() ==> (
                        #[trigger] portfolio.holdings@[k]).weight.rank()
                            <= checks[weight].actual.rank()
                },
                None => true,
            }
            &&& match policy.max_loss_under_scenarios {
                Some(limits) => {
                    &&& checks.len() == scenario + limits@.len()
                    &&& forall|k: int|
                        0 <= k < limits@.len() ==> decides(
                            checks[scenario + k],
                            "max_loss_under_scenarios["@ + (#[trigger] limits@[k]).scenario_id@
                                + "]"@,
                            limits@[k].max_loss_pct,
                            figures.scenario_losses@[k].actual,
                            figures.scenario_losses@[k].distance,
                        )
                },
                None => checks.len() == scenario,
            }
        }),
{
    let checks = all_checks(policy, portfolio, figures, ticker);
    match policy.max_vol_annualized {
        Some(limit) => {
            lemma_evidence_shows(
                message::plain("Portfolio annualized volatility is "@),
                figures.vol.actual,
                "% (limit: "@,
                limit,
            );
        },
        None => {},
    }
    match policy.max_cvar_95 {
        Some(limit) => {
            lemma_evidence_shows(
                message::plain("Portfolio historical CVaR (95%) is "@),
                figures.cvar_95.actual,
                "% (limit: "@,
                limit,
            );
        },
        None => {},
    }
    match policy.max_factor_contribution_share {
        Some(limit) => {
            lemma_dominant_share(figures.factor_shares@, data::FACTOR_COUNT as int);
            let (place, share) = dominant(figures.factor_shares@, data::FACTOR_COUNT as int);
            lemma_evidence_shows(
                seq![
                    PieceView::Text(data::factor_names_view()[place]),
                    PieceView::Text(" factor contributes "@),
                ],
                share,
                "% of vol (limit: "@,
                limit,
            );
        },
        None => {},
    }
    match policy.max_position_weight {
        Some(limit) => {
            let weights = portfolio.weights_view();
            lemma_largest_weight(weights, weights.len() as int);
            assert forall|k: int| 0 <= k < portfolio.holdings@.len() implies (
            #[trigger] portfolio.holdings@[k]).weight.rank() <= largest_of(
                weights,
                weights.len() as int,
            ).rank() by {
                assert(weights[k] == portfolio.holdings@[k].weight);
            }
            lemma_evidence_shows(
                seq![
                    PieceView::Text("Largest position ("@),
                    PieceView::Text(ticker),
                    PieceView::Text(") is "@),
                ],
                largest_of(weights, weights.len() as int),
                "% of portfolio (limit: "@,
                limit,
            );
        },
        None => {},
    }
    lemma_one_check_per_rule(policy, portfolio, figures, ticker);
    match policy.max_loss_under_scenarios {
        Some(limits) => {
            let n = limits@.len() as int;
            let losses = figures.scenario_losses@;
            let start = checks.len() - n;
            assert forall|k: int| 0 <= k < n implies decides(
                checks[start + k],
                "max_loss_under_scenarios["@ + (#[trigger] limits@[k]).scenario_id@ + "]"@,
                limits@[k].max_loss_pct,
                losses[k].actual,
                losses[k].distance,
            ) by {
                lemma_scenario_checks(limits@, losses, n, k);
                assert(checks[start + k] == scenario_checks(limits@, losses, n)[k]);
                lemma_evidence_shows(
                    seq![
                        PieceView::Text("Under scenario '"@),
                        PieceView::Text(limits@[k].scenario_id@),
                        PieceView::Text("', portfolio would lose "@),
                    ],
                    losses[k].actual,
                    "% (limit: "@,
                    limits@[k].max_loss_pct,
                );
            }
        },
        None => {},
    }
}

/// The places of the breaches among the first `n` checks, ascending.
pub open spec fn breaches(checks: Seq<PolicyCheckView>, n: int) -> Seq<usize>
    decreases n,
{
    if n <= 0 {
        seq![]
    } else if checks[n - 1].passed {
        breaches(checks, n - 1)
    } else {
        breaches(checks, n - 1).push((n - 1) as usize)
    }
}

/// The magnitudes of the breaches among the first `n` checks.
pub open spec fn magnitudes(checks: Seq<PolicyCheckView>, n: int) -> Seq<Double>
    decreases n,
{
    if n <= 0 {
        seq![]
    } else if checks[n - 1].passed {
        magnitudes(checks, n - 1)
    } else {
        magnitudes(checks, n - 1).push(checks[n - 1].breach_magnitude)
    }
}

/// Whether a result sums up its checks: the number of breaches, whether there
/// is none, and which is the most severe, the last of several.
pub open spec fn sums_up(result: PolicyResult) -> bool {
    let checks = checks_view(result.checks@);
    let all = breaches(checks, checks.len() as int);
    let sizes = magnitudes(checks, checks.len() as int);
    &&& result.breach_count == all.len()
    &&& result.all_passed == (all.len() == 0)
    &&& match result.most_severe_breach {
        None => all.len() == 0,
        Some(place) => exists|b: int|
            {
                &&& #[trigger] is_worst(sizes, b)
                &&& place == all[b]
            },
    }
}

/// Whether `b` is the place of the largest magnitude, the last of several; a
/// single one is the largest whatever it is.
pub open spec fn is_worst(sizes: Seq<Double>, b: int) -> bool {
    if sizes.len() == 1 {
        b == 0
    } else {
        select::is_last_max(sizes, b)
    }
}

proof fn lemma_no_breach(checks: Seq<PolicyCheckView>, n: int)
    requires
        0 <= n <= checks.len(),
    ensures
        breaches(checks, n).len() == 0 <==> (forall|i: int|
            0 <= i < n ==> (#[trigger] checks[i]).passed),
    decreases n,
{
    if n > 0 {
        lemma_no_breach(checks, n - 1);
        assert(checks[n - 1].passed || !checks[n - 1].passed);
    }
}

/// A policy is kept exactly where every one of its checks passed.
pub proof fn lemma_kept_means_every_check_passed(result: PolicyResult)
    requires
        sums_up(result),
    ensures
        result.all_passed <==> (forall|i: int|
            0 <= i < result.checks@.len() ==> (#[trigger] result.checks@[i]).passed),
{
    let checks = checks_view(result.checks@);
    lemma_no_breach(checks, checks.len() as int);
    assert forall|i: int| 0 <= i < checks.len() implies (#[trigger] checks[i]).passed
        == result.checks@[i].passed by {}
    if result.all_passed {
        assert forall|i: int| 0 <= i < result.checks@.len() implies (
        #[trigger] result.checks@[i]).passed by {
            assert(checks[i].passed);
        }
    }
    if forall|i: int| 0 <= i < result.checks@.len() ==> (#[trigger] result.checks@[i]).passed {
        assert forall|i: int| 0 <= i < checks.len() implies (#[trigger] checks[i]).passed by {
            assert(result.checks@[i].passed);
        }
    }
}

proof fn lemma_breach_places(checks: Seq<PolicyCheckView>, n: int)
    requires
        0 <= n <= checks.len() <= usize::MAX,
    ensures
        magnitudes(checks, n).len() == breaches(checks, n).len(),
        forall|b: int|
            0 <= b < breaches(checks, n).len() ==> (#[trigger] breaches(checks, n)[b]) < n
                && !checks[breaches(checks, n)[b] as int].passed && magnitudes(checks, n)[b]
                == checks[breaches(checks, n)[b] as int].breach_magnitude,
        forall|a: int, b: int|
            0 <= a < b < breaches(checks, n).len() ==> (#[trigger] breaches(checks, n)[a]) < (
            #[trigger] breaches(checks, n)[b]),
        forall|i: int|
            0 <= i < n && !(#[trigger] checks[i]).passed ==> select::is_listed(
                breaches(checks, n),
                i,
            ),
    decreases n,
{
    if n > 0 {
        lemma_breach_places(checks, n - 1);
        let (before, all) = (breaches(checks, n - 1), breaches(checks, n));
        assert forall|b: int| 0 <= b < all.len() implies (#[trigger] all[b]) < n
            && !checks[all[b] as int].passed && magnitudes(checks, n)[b]
            == checks[all[b] as int].breach_magnitude by {
            if b < before.len() {
                assert(all[b] == before[b]);
                assert(magnitudes(checks, n)[b] == magnitudes(checks, n - 1)[b]);
            }
        }
        assert forall|i: int| 0 <= i < n && !(#[trigger] checks[i]).passed implies select::is_listed(
            all,
            i,
        ) by {
            if i < n - 1 {
                assert(select::is_listed(before, i));
                let b = choose|b: int| 0 <= b < before.len() && #[trigger] before[b] == i;
                assert(all[b] == i);
            } else {
                assert(all[before.len() as int] == i);
            }
        }
        assert forall|a: int, b: int| 0 <= a < b < all.len() implies (#[trigger] all[a]) < (
        #[trigger] all[b]) by {
            assert(all[a] == before[a]);
            if b < before.len() {
                assert(all[b] == before[b]);
            }
        }
    }
}

/// What a result counts and names: there are as many breaches as checks that
/// did not pass, each of them once; the most severe is one of these, and no
/// other has a larger magnitude, nor the same one behind it.
pub proof fn lemma_breaches_counted_and_ranked(result: PolicyResult)
    requires
        sums_up(result),
        result.checks@.len() <= usize::MAX,
    ensures
        exists|places: Seq<usize>|
            {
                &&& places.len() == result.breach_count
                &&& forall|a: int, b: int| 0 <= a < b < places.len() ==> places[a] < places[b]
                &&& forall|b: int|
                    0 <= b < places.len() ==> (#[trigger] places[b]) < result.checks@.len()
                        && !result.checks@[places[b] as int].passed
                &&& forall|i: int|
                    0 <= i < result.checks@.len() && !(#[trigger] result.checks@[i]).passed
                        ==> select::is_listed(places, i)
            },
        result.most_severe_breach is None <==> result.breach_count == 0,
        result.most_severe_breach is Some ==> {
            let place = result.most_severe_breach->Some_0 as int;
            &&& 0 <= place < result.checks@.len()
            &&& !result.checks@[place].passed
            &&& forall|i: int|
                0 <= i < result.checks@.len() && !(#[trigger] result.checks@[i]).passed && i
                    != place ==> result.checks@[i].breach_magnitude.rank()
                    <= result.checks@[place].breach_magnitude.rank() && (i > place
                    ==> result.checks@[i].breach_magnitude.rank()
                    < result.checks@[place].breach_magnitude.rank())
        },
{
    let checks = checks_view(result.checks@);
    let n = checks.len() as int;
    lemma_breach_places(checks, n);
    let all = breaches(checks, n);
    let sizes = magnitudes(checks, n);
    assert forall|i: int| 0 <= i < n implies (#[trigger] result.checks@[i]).passed
        == checks[i].passed && result.checks@[i].breach_magnitude
        == checks[i].breach_magnitude by {}
    assert(all.len() == result.breach_count);
    assert forall|b: int| 0 <= b < all.len() implies (#[trigger] all[b]) < result.checks@.len()
        && !result.checks@[all[b] as int].passed by {
        assert(!checks[all[b] as int].passed);
    }
    assert forall|i: int|
        0 <= i < result.checks@.len() && !(#[trigger] result.checks@[i]).passed implies select::is_listed(
        all,
        i,
    ) by {
        assert(!checks[i].passed);
    }
    if let Some(place) = result.most_severe_breach {
        let b = choose|b: int|
            {
                &&& #[trigger] is_worst(sizes, b)
                &&& place == all[b]
            };
        assert(0 <= b < all.len());
        assert(all[b] < n && !checks[all[b] as int].passed);
        assert forall|i: int|
            0 <= i < n && !(#[trigger] result.checks@[i]).passed && i
                != place implies result.checks@[i].breach_magnitude.rank()
            <= result.checks@[place as int].breach_magnitude.rank() && (i > place
            ==> result.checks@[i].breach_magnitude.rank()
            < result.checks@[place as int].breach_magnitude.rank()) by {
            assert(!checks[i].passed);
            assert(select::is_listed(all, i));
            let c = choose|c: int| 0 <= c < all.len() && #[trigger] all[c] == i;
            assert(sizes[c] == checks[i].breach_magnitude);
            assert(sizes[b] == checks[place as int].breach_magnitude);
            assert(c != b);
            assert(sizes.len() > 1);
            if i > place {
                if c < b {
                    assert(all[c] < all[b]);
                }
                assert(sizes[c].rank() < sizes[b].rank());
            }
        }
    }
}

/// Whether the magnitudes of several breaches can be compared.
pub open spec fn severities_comparable(checks: Seq<PolicyCheckView>) -> bool {
    let sizes = magnitudes(checks, checks.len() as int);
    sizes.len() > 1 ==> select::comparable(sizes)
}

/// The places of breaches lie among the checks, and there are as many as
/// magnitudes.
proof fn lemma_breaches(checks: Seq<PolicyCheckView>, n: int)
    requires
        0 <= n <= checks.len(),
        checks.len() <= usize::MAX,
    ensures
        breaches(checks, n).len() == magnitudes(checks, n).len(),
        breaches(checks, n).len() <= n,
        forall|i: int|
            0 <= i < breaches(checks, n).len() ==> (#[trigger] breaches(checks, n)[i]) < n,
    decreases n,
{
    if n > 0 {
        lemma_breaches(checks, n - 1);
    }
}

proof fn lemma_same_magnitudes(a: Seq<PolicyCheckView>, b: Seq<PolicyCheckView>, n: int)
    requires
        0 <= n <= a.len(),
        a.len() == b.len(),
        forall|i: int|
            0 <= i < a.len() ==> (#[trigger] a[i]).passed == b[i].passed && a[i].breach_magnitude
                == b[i].breach_magnitude,
    ensures
        magnitudes(a, n) == magnitudes(b, n),
    decreases n,
{
    if n > 0 {
        lemma_same_magnitudes(a, b, n - 1);
        assert(a[n - 1].passed == b[n - 1].passed);
    }
}

/// Sums up a list of checks.
pub fn aggregate(checks: Vec<PolicyCheck>) -> (res: PolicyResult)
    requires
        severities_comparable(checks_view(checks@)),
    ensures
        res.checks == checks,
        sums_up(res),
{
    let ghost view = checks_view(checks@);
    let mut places: Vec<usize> = Vec::new();
    let mut sizes: Vec<Double> = Vec::new();
    let mut i: usize = 0;
    while i < checks.len()
        invariant
            i <= checks@.len(),
            view == checks_view(checks@),
            places@ == breaches(view, i as int),
            sizes@ == magnitudes(view, i as int),
        decreases checks.len() - i,
    {
        assert(view[i as int] == checks@[i as int]@);
        if !checks[i].passed {
            places.push(i);
            sizes.push(checks[i].breach_magnitude);
        }
        i += 1;
    }
    proof {
        lemma_breaches(view, view.len() as int);
    }
    let most_severe = if places.len() == 0 {
        None
    } else if places.len() == 1 {
        assert(is_worst(sizes@, 0));
        Some(places[0])
    } else {
        match select::last_max(&sizes) {
            Some(b) => {
                assert(is_worst(sizes@, b as int));
                Some(places[b])
            },
            None => None,
        }
    };
    let breach_count: usize = places.len();
    PolicyResult {
        checks,
        all_passed: breach_count == 0,
        breach_count,
        most_severe_breach: most_severe,
    }
}

/// Checks a portfolio against every limit that a policy sets.
pub fn evaluate_policy(policy: &RiskPolicy, portfolio: &Portfolio, figures: &PolicyFigures) -> (res:
    PolicyResult)
    requires
        policy.max_factor_contribution_share is Some ==> figures.factor_shares@.len()
            == data::FACTOR_COUNT,
        policy.max_position_weight is Some ==> select::comparable(portfolio.weights_view()),
        policy.max_loss_under_scenarios is Some ==> figures.scenario_losses@.len()
            == policy.max_loss_under_scenarios->Some_0@.len(),
        severities_comparable(all_checks(*policy, *portfolio, *figures, seq![])),
    ensures
        exists|ticker: Seq<char>|
            {
                &&& policy.max_position_weight is Some ==> is_largest_ticker(*portfolio, ticker)
                &&& checks_view(res.checks@) == #[trigger] all_checks(
                    *policy,
                    *portfolio,
                    *figures,
                    ticker,
                )
            },
        sums_up(res),
{
    let mut checks: Vec<PolicyCheck> = Vec::new();
    let ghost mut done: Seq<PolicyCheckView> = seq![];
    assert(checks_view(checks@) =~= done);
    if let Some(limit) = policy.max_vol_annualized {
        let sentence = evidence(
            Message::of("Portfolio annualized volatility is "),
            figures.vol.actual,
            "% (limit: ",
            limit,
        );
        checks.push(make_check("max_vol_annualized", limit, figures.vol, sentence));
    }
    proof {
        done = done + if_limited(policy.max_vol_annualized, |l: Double| vol_check(l, figures.vol));
        assert(checks_view(checks@) =~= done);
    }
    if let Some(limit) = policy.max_cvar_95 {
        let sentence = evidence(
            Message::of("Portfolio historical CVaR (95%) is "),
            figures.cvar_95.actual,
            "% (limit: ",
            limit,
        );
        checks.push(make_check("max_cvar_95", limit, figures.cvar_95, sentence));
    }
    proof {
        done = done + if_limited(policy.max_cvar_95, |l: Double| cvar_check(l, figures.cvar_95));
        assert(checks_view(checks@) =~= done);
    }
    if let Some(limit) = policy.max_factor_contribution_share {
        let (factor, share) = max_factor_contribution_share(&figures.factor_shares);
        let mut start = Message::of(factor.as_str());
        start.text(" factor contributes ");
        assert(start@ =~= seq![PieceView::Text(factor@), PieceView::Text(" factor contributes "@)]);
        let sentence = evidence(start, share, "% of vol (limit: ", limit);
        checks.push(
            make_check(
                "max_factor_contribution_share",
                limit,
                Measured { actual: share, distance: figures.share_distance },
                sentence,
            ),
        );
    }
    proof {
        done = done + if_limited(
            policy.max_factor_contribution_share,
            |l: Double| share_check(l, figures.factor_shares@, figures.share_distance),
        );
        assert(checks_view(checks@) =~= done);
    }
    let ghost mut ticker: Seq<char> = seq![];
    if let Some(limit) = policy.max_position_weight {
        let weight = max_position_weight(portfolio);
        let largest = largest_ticker(portfolio);
        proof {
            ticker = largest@;
        }
        let mut start = Message::of("Largest position (");
        start.text(largest.as_str());
        start.text(") is ");
        assert(start@ =~= seq![
            PieceView::Text("Largest position ("@),
            PieceView::Text(largest@),
            PieceView::Text(") is "@),
        ]);
        let sentence = evidence(start, weight, "% of portfolio (limit: ", limit);
        checks.push(
            make_check(
                "max_position_weight",
                limit,
                Measured { actual: weight, distance: figures.weight_distance },
                sentence,
            ),
        );
    }
    proof {
        done = done + if_limited(
            policy.max_position_weight,
            |l: Double| weight_check(l, *portfolio, ticker, figures.weight_distance),
        );
        assert(checks_view(checks@) =~= done);
    }
    if let Some(limits) = &policy.max_loss_under_scenarios {
        let mut i: usize = 0;
        assert(done + scenario_checks(limits@, figures.scenario_losses@, 0) =~= done);
        while i < limits.len()
            invariant
                i <= limits@.len(),
                figures.scenario_losses@.len() == limits@.len(),
                checks_view(checks@) == done + scenario_checks(
                    limits@,
                    figures.scenario_losses@,
                    i as int,
                ),
            decreases limits.len() - i,
        {
            let id = limits[i].scenario_id.as_str();
            let figure = figures.scenario_losses[i];
            let mut start = Message::of("Under scenario '");
            start.text(id);
            start.text("', portfolio would lose ");
            assert(start@ =~= seq![
                PieceView::Text("Under scenario '"@),
                PieceView::Text(id@),
                PieceView::Text("', portfolio would lose "@),
            ]);
            let sentence = evidence(start, figure.actual, "% (limit: ", limits[i].max_loss_pct);
            let rule = text::join3("max_loss_under_scenarios[", id, "]");
            let ghost before = checks@;
            checks.push(make_check(rule.as_str(), limits[i].max_loss_pct, figure, sentence));
            proof {
                assert(checks_view(checks@) =~= checks_view(before).push(
                    scenario_check(limits@[i as int], figure),
                ));
                assert(checks_view(checks@) =~= done + scenario_checks(
                    limits@,
                    figures.scenario_losses@,
                    i as int + 1,
                ));
            }
            i += 1;
        }
    }
    proof {
        assert(checks_view(checks@) =~= all_checks(*policy, *portfolio, *figures, ticker));
        let unnamed = all_checks(*policy, *portfolio, *figures, seq![]);
        let named = all_checks(*policy, *portfolio, *figures, ticker);
        assert forall|i: int| 0 <= i < named.len() implies (#[trigger] named[i]).passed
            == unnamed[i].passed && named[i].breach_magnitude == unnamed[i].breach_magnitude by {}
        lemma_same_magnitudes(named, unnamed, named.len() as int);
    }
    aggregate(checks)
}

// ---------------------------------------------------------------------------
// The policy check as an experiment
// ---------------------------------------------------------------------------

/// A question whether a portfolio keeps a policy.
#[derive(Debug)]
pub struct PolicyCheckInput {
    pub policy: RiskPolicy,
    pub window: Option<usize>,
    pub frequency: Option<String>,
}

/// Whether a portfolio keeps a policy, and what was measured.
#[derive(Debug)]
pub struct PolicyCheckOutputs {
    pub policy_result: PolicyResult,
    pub regime_label: String,
    pub portfolio_vol: Double,
    pub portfolio_cvar_95: Double,
    pub max_position_weight: Double,
    pub max_factor_share: Double,
    pub scenario_losses: Table<Double>,
}

/// The message for a model without a regime.
pub const NO_REGIME: &'static str = "factor model has no regime_state";

/// The losses under the first `n` scenario limits, under the scenario ids.
pub open spec fn loss_rows(limits: Seq<ScenarioLimit>, figures: Seq<Measured>, n: int) -> Rows<Double>
    decreases n,
{
    if n <= 0 {
        seq![]
    } else {
        table::with_row(
            loss_rows(limits, figures, n - 1),
            limits[n - 1].scenario_id@,
            figures[n - 1].actual,
        )
    }
}

/// Each scenario that is limited once is reported with the loss measured under
/// it.
pub proof fn lemma_losses_by_scenario(
    limits: Seq<ScenarioLimit>,
    figures: Seq<Measured>,
    n: int,
    i: int,
)
    requires
        0 <= i < n <= limits.len(),
        forall|a: int, b: int|
            0 <= a < b < limits.len() ==> (#[trigger] limits[a]).scenario_id@ != (
            #[trigger] limits[b]).scenario_id@,
    ensures
        table::value_of(loss_rows(limits, figures, n), limits[i].scenario_id@) == Some(
            figures[i].actual,
        ),
    decreases n,
{
    table::lemma_value_of_with_row(
        loss_rows(limits, figures, n - 1),
        limits[n - 1].scenario_id@,
        figures[n - 1].actual,
        limits[i].scenario_id@,
    );
    if i < n - 1 {
        assert(limits[i].scenario_id@ != limits[n - 1].scenario_id@);
        lemma_losses_by_scenario(limits, figures, n - 1, i);
    }
}

proof fn lemma_scenario_fault(limits: Seq<ScenarioLimit>, tickers_match: bool, n: int)
    requires
        0 <= n <= limits.len(),
    ensures
        scenario_fault(limits, tickers_match, n) is None <==> (n == 0 || tickers_match)
            && forall|i: int|
            0 <= i < n ==> scenarios::place_of((#[trigger] limits[i]).scenario_id@) is Some,
    decreases n,
{
    if n > 0 {
        lemma_scenario_fault(limits, tickers_match, n - 1);
        assert(limits[n - 1] == limits[n - 1]);
    }
}

/// A policy check can be run exactly where the stocks are those of the model,
/// each has returns, the regime is known, and every scenario that is limited is
/// one of the library's.
pub proof fn lemma_what_a_policy_check_needs(
    policy: RiskPolicy,
    portfolio: Portfolio,
    model_tickers: Seq<String>,
    stocks: Seq<NamedSeries>,
    regime_label: Option<Seq<char>>,
)
    ensures
        policy_check_fault(policy, portfolio, model_tickers, stocks, regime_label) is None <==> {
            &&& portfolio.tickers_view() == text::views(model_tickers)
            &&& regime_label is Some
            &&& forall|i: int|
                0 <= i < portfolio.tickers_view().len() ==> model::series_named(
                    stocks,
                    #[trigger] portfolio.tickers_view()[i],
                ) is Some
            &&& policy.max_loss_under_scenarios is Some ==> forall|i: int|
                0 <= i < policy.max_loss_under_scenarios->Some_0@.len() ==> scenarios::place_of(
                    (#[trigger] policy.max_loss_under_scenarios->Some_0@[i]).scenario_id@,
                ) is Some
        },
{
    let tickers = portfolio.tickers_view();
    let n = tickers.len() as int;
    if policy.max_loss_under_scenarios is Some {
        let limits = policy.max_loss_under_scenarios->Some_0@;
        lemma_scenario_fault(limits, tickers == text::views(model_tickers), limits.len() as int);
    }
    assert(first_without_series(stocks, tickers, n) is None <==> forall|i: int|
        0 <= i < n ==> model::series_named(stocks, #[trigger] tickers[i]) is Some) by {
        if first_without_series(stocks, tickers, n) is None {
            assert forall|i: int| 0 <= i < n implies model::series_named(
                stocks,
                #[trigger] tickers[i],
            ) is Some by {
                lemma_no_missing_series(stocks, tickers, n, i);
            }
        } else if n > 0 {
            lemma_no_missing_series(stocks, tickers, n, 0);
            let t = first_without_series(stocks, tickers, n)->Some_0;
            let i = choose|i: int| 0 <= i < tickers.len() && tickers[i] == t;
            model::lemma_series_named(stocks, t);
            assert(model::series_named(stocks, tickers[i]) is None);
        }
    }
}

/// What keeps a policy check from being run once its model is fitted.
pub open spec fn policy_check_fault(
    policy: RiskPolicy,
    portfolio: Portfolio,
    model_tickers: Seq<String>,
    stocks: Seq<NamedSeries>,
    regime_label: Option<Seq<char>>,
) -> Option<ComputeErrorView> {
    let tickers = portfolio.tickers_view();
    if tickers != text::views(model_tickers) {
        Some(ComputeErrorView::InvalidInput(message::plain(experiments::TICKER_MISMATCH@)))
    } else if policy_fault(policy, portfolio, model_tickers, stocks) is Some {
        policy_fault(policy, portfolio, model_tickers, stocks)
    } else if regime_label is None {
        Some(ComputeErrorView::InvalidInput(message::plain(NO_REGIME@)))
    } else {
        match first_without_series(stocks, tickers, tickers.len() as int) {
            Some(t) => Some(ComputeErrorView::Model(missing_series(t))),
            None => None,
        }
    }
}

/// Accepts a policy check that can be run.
pub fn plan_policy_check(
    policy: &RiskPolicy,
    portfolio: &Portfolio,
    model_tickers: &Vec<String>,
    market: &MarketData,
    regime_label: Option<&str>,
) -> (res: Result<(), ComputeError>)
    ensures
        match policy_check_fault(
            *policy,
            *portfolio,
            model_tickers@,
            market.stock_returns@,
            match regime_label {
                Some(s) => Some(s@),
                None => None,
            },
        ) {
            Some(fault) => res is Err && res->Err_0@ == fault,
            None => res is Ok,
        },
{
    match experiments::check_tickers(portfolio, model_tickers) {
        Ok(_) => {},
        Err(e) => {
            return Err(e);
        },
    }
    match check_policy(policy, portfolio, model_tickers, market) {
        Ok(_) => {},
        Err(e) => {
            return Err(e);
        },
    }
    if regime_label.is_none() {
        return Err(ComputeError::InvalidInput(Message::of(NO_REGIME)));
    }
    match portfolio_series(portfolio, market) {
        Ok(_) => Ok(()),
        Err(e) => Err(e),
    }
}

/// Puts the outcome of a policy check together.
pub fn run_policy_check(
    input: &PolicyCheckInput,
    portfolio: &Portfolio,
    regime_label: &str,
    figures: &PolicyFigures,
) -> (res: PolicyCheckOutputs)
    requires
        figures.factor_shares@.len() == data::FACTOR_COUNT,
        input.policy.max_position_weight is Some ==> select::comparable(portfolio.weights_view()),
        input.policy.max_loss_under_scenarios is Some ==> figures.scenario_losses@.len()
            == input.policy.max_loss_under_scenarios->Some_0@.len(),
        severities_comparable(all_checks(input.policy, *portfolio, *figures, seq![])),
    ensures
        exists|ticker: Seq<char>|
            {
                &&& input.policy.max_position_weight is Some ==> is_largest_ticker(
                    *portfolio,
                    ticker,
                )
                &&& checks_view(res.policy_result.checks@) == #[trigger] all_checks(
                    input.policy,
                    *portfolio,
                    *figures,
                    ticker,
                )
            },
        sums_up(res.policy_result),
        res.regime_label@ == regime_label@,
        res.portfolio_vol == figures.vol.actual,
        res.portfolio_cvar_95 == figures.cvar_95.actual,
        res.max_position_weight == largest_of(
            portfolio.weights_view(),
            portfolio.holdings@.len() as int,
        ),
        res.max_factor_share == dominant(figures.factor_shares@, data::FACTOR_COUNT as int).1,
        res.scenario_losses@ == (match input.policy.max_loss_under_scenarios {
            Some(limits) => loss_rows(limits@, figures.scenario_losses@, limits@.len() as int),
            None => seq![],
        }),
{
    let policy_result = evaluate_policy(&input.policy, portfolio, figures);
    let (_, share) = max_factor_contribution_share(&figures.factor_shares);
    let mut losses: Table<Double> = Table::new();
    if let Some(limits) = &input.policy.max_loss_under_scenarios {
        let mut i: usize = 0;
        while i < limits.len()
            invariant
                i <= limits@.len(),
                figures.scenario_losses@.len() == limits@.len(),
                losses@ == loss_rows(limits@, figures.scenario_losses@, i as int),
            decreases limits.len() - i,
        {
            losses.set(limits[i].scenario_id.as_str(), figures.scenario_losses[i].actual);
            i += 1;
        }
    }
    PolicyCheckOutputs {
        policy_result,
        regime_label: text::copy(regime_label),
        portfolio_vol: figures.vol.actual,
        portfolio_cvar_95: figures.cvar_95.actual,
        max_position_weight: max_position_weight(portfolio),
        max_factor_share: share,
        scenario_losses: losses,
    }
}

/// The name of the check that the number of breaches is right.
pub const BREACH_COUNT_CHECK: &'static str = "breach_count == checks.iter().filter(!passed).count()";

/// Counts the breaches once more and compares.
pub fn breach_count_check(result: &PolicyResult) -> (res: InvariantCheck)
    requires
        sums_up(*result),
    ensures
        res.name@ == BREACH_COUNT_CHECK@,
        res.passed,
        res.tolerance == (Double { bits: 0 }),
        res.detail@ == seq![
            PieceView::Text("breach_count="@),
            PieceView::Text(text::decimal(result.breach_count as nat)),
        ],
{
    let ghost view = checks_view(result.checks@);
    let mut found: usize = 0;
    let mut i: usize = 0;
    while i < result.checks.len()
        invariant
            i <= result.checks@.len(),
            found <= i,
            view == checks_view(result.checks@),
            found == breaches(view, i as int).len(),
        decreases result.checks.len() - i,
    {
        assert(view[i as int] == result.checks@[i as int]@);
        if !result.checks[i].passed {
            found += 1;
        }
        i += 1;
    }
    let mut detail = Message::of("breach_count=");
    detail.count(result.breach_count);
    assert(detail@ =~= seq![
        PieceView::Text("breach_count="@),
        PieceView::Text(text::decimal(result.breach_count as nat)),
    ]);
    InvariantCheck {
        name: text::copy(BREACH_COUNT_CHECK),
        passed: result.breach_count == found,
        tolerance: Double::zero(),
        detail,
    }
}

// ---------------------------------------------------------------------------
// JSON
// ---------------------------------------------------------------------------

impl PolicyCheckView {
    /// The check as a JSON object.
    pub open spec fn json(self) -> JsonView {
        JsonView::empty().with("rule"@, JsonView::Text(self.rule)).with(
            "limit"@,
            JsonView::of_double(self.limit),
        ).with("actual"@, JsonView::of_double(self.actual)).with(
            "passed"@,
            JsonView::Bool(self.passed),
        ).with("breach_magnitude"@, JsonView::of_double(self.breach_magnitude)).with(
            "evidence"@,
            JsonView::Sentence(self.evidence),
        )
    }
}

impl PolicyCheck {
    /// The check as a JSON object.
    pub fn to_json(&self) -> (res: Json)
        ensures
            res@ == self@.json(),
    {
        Json::object().with("rule", Json::of_text(self.rule.as_str())).with(
            "limit",
            Json::of_double(self.limit),
        ).with("actual", Json::of_double(self.actual)).with(
            "passed",
            Json::Bool(self.passed),
        ).with("breach_magnitude", Json::of_double(self.breach_magnitude)).with(
            "evidence",
            Json::Sentence(self.evidence.duplicate()),
        )
    }
}

impl PolicyResult {
    /// The result as a JSON object.
    pub open spec fn json(self) -> JsonView {
        JsonView::empty().with(
            "checks"@,
            JsonView::Array(
                checks_view(self.checks@).map_values(|c: PolicyCheckView| c.json()),
            ),
        ).with("all_passed"@, JsonView::Bool(self.all_passed)).with(
            "breach_count"@,
            JsonView::of_integer(self.breach_count as int),
        ).with(
            "most_severe_breach"@,
            match self.most_severe_breach {
                Some(i) => self.checks@[i as int]@.json(),
                None => JsonView::Null,
            },
        )
    }

    /// Each field of the object holds the figure that it is named after.
    pub proof fn lemma_json_fields(self)
        ensures
            self.json().field("checks"@) == Some(JsonView::Array(
                checks_view(self.checks@).map_values(|c: PolicyCheckView| c.json()),
            )),
            self.json().field("all_passed"@) == Some(JsonView::Bool(self.all_passed)),
            self.json().field("breach_count"@) == Some(JsonView::of_integer(self.breach_count as int)),
            self.json().field("most_severe_breach"@) == Some(match self.most_severe_breach {
                Some(i) => self.checks@[i as int]@.json(),
                None => JsonView::Null,
            }),
    {
        broadcast use crate::json::group_fields;

        reveal_strlit("checks");
        reveal_strlit("all_passed");
        reveal_strlit("breach_count");
        reveal_strlit("most_severe_breach");
        assert("checks"@.len() == 6);
        assert("all_passed"@.len() == 10);
        assert("breach_count"@.len() == 12);
        assert("most_severe_breach"@.len() == 18);
    }

    /// The result as a JSON object.
    pub fn to_json(&self) -> (res: Json)
        requires
            sums_up(*self),
        ensures
            res@ == self.json(),
    {
        broadcast use json::lemma_array_view;

        let total: usize = self.checks.len();
        proof {
            lemma_breaches(checks_view(self.checks@), total as int);
        }
        let mut checks: Vec<Json> = Vec::new();
        let mut i: usize = 0;
        while i < self.checks.len()
            invariant
                i <= self.checks@.len(),
                checks@.len() == i,
                forall|k: int| 0 <= k < i ==> (#[trigger] checks@[k])@ == self.checks@[k]@.json(),
            decreases self.checks.len() - i,
        {
            checks.push(self.checks[i].to_json());
            i += 1;
        }
        assert(json::items_view(checks@) =~= checks_view(self.checks@).map_values(
            |c: PolicyCheckView| c.json(),
        ));
        let worst = match self.most_severe_breach {
            Some(place) => self.checks[place].to_json(),
            None => Json::Null,
        };
        Json::object().with("checks", Json::Array(checks)).with(
            "all_passed",
            Json::Bool(self.all_passed),
        ).with("breach_count", Json::of_count(self.breach_count)).with("most_severe_breach", worst)
    }
}

impl PolicyCheckOutputs {
    /// The outcome as a JSON object.
    pub open spec fn json(self) -> JsonView {
        JsonView::empty().with("policy_result"@, self.policy_result.json()).with(
            "regime_label"@,
            JsonView::Text(self.regime_label@),
        ).with("portfolio_vol"@, JsonView::of_double(self.portfolio_vol)).with(
            "portfolio_cvar_95"@,
            JsonView::of_double(self.portfolio_cvar_95),
        ).with("max_position_weight"@, JsonView::of_double(self.max_position_weight)).with(
            "max_factor_share"@,
            JsonView::of_double(self.max_factor_share),
        ).with("scenario_losses"@, table::numbers_json(self.scenario_losses@))
    }

    /// Each field of the object holds the figure that it is named after.
    pub proof fn lemma_json_fields(self)
        ensures
            self.json().field("policy_result"@) == Some(self.policy_result.json()),
            self.json().field("regime_label"@) == Some(JsonView::Text(self.regime_label@)),
            self.json().field("portfolio_vol"@) == Some(JsonView::of_double(self.portfolio_vol)),
            self.json().field("portfolio_cvar_95"@) == Some(JsonView::of_double(self.portfolio_cvar_95)),
            self.json().field("max_position_weight"@) == Some(JsonView::of_double(self.max_position_weight)),
            self.json().field("max_factor_share"@) == Some(JsonView::of_double(self.max_factor_share)),
            self.json().field("scenario_losses"@) == Some(table::numbers_json(self.scenario_losses@)),
    {
        broadcast use crate::json::group_fields;

        reveal_strlit("policy_result");
        reveal_strlit("regime_label");
        reveal_strlit("portfolio_vol");
        reveal_strlit("portfolio_cvar_95");
        reveal_strlit("max_position_weight");
        reveal_strlit("max_factor_share");
        reveal_strlit("scenario_losses");
        assert("policy_result"@.len() == 13);
        assert("regime_label"@.len() == 12);
        assert("portfolio_vol"@.len() == 13);
        assert("portfolio_cvar_95"@.len() == 17);
        assert("max_position_weight"@.len() == 19);
        assert("max_factor_share"@.len() == 16);
        assert("scenario_losses"@.len() == 15);
        assert("policy_result"@[2] == 'l');
        assert("portfolio_vol"@[2] == 'r');
    }

    /// The outcome as a JSON object.
    pub fn to_json(&self) -> (res: Json)
        requires
            sums_up(self.policy_result),
        ensures
            res@ == self.json(),
    {
        Json::object().with("policy_result", self.policy_result.to_json()).with(
            "regime_label",
            Json::of_text(self.regime_label.as_str()),
        ).with("portfolio_vol", Json::of_double(self.portfolio_vol)).with(
            "portfolio_cvar_95",
            Json::of_double(self.portfolio_cvar_95),
        ).with("max_position_weight", Json::of_double(self.max_position_weight)).with(
            "max_factor_share",
            Json::of_double(self.max_factor_share),
        ).with("scenario_losses", self.scenario_losses.to_json())
    }
}

} // verus!
