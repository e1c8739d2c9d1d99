//! Realized performance: how a portfolio with its present weights did over
//! the trailing window, as if rebalanced every period.

use vstd::prelude::*;

use crate::data::MarketData;
use crate::double::Double;
use crate::error::{ComputeError, ComputeErrorView};
use crate::experiments::Portfolio;
use crate::json::{Json, JsonView};
use crate::message::{self, Message, PieceView};
use crate::model::{self, Frequency};
use crate::policy;
use crate::select;
use crate::table::{Rows, Table};
use crate::text;
use crate::trace::{self, Compared, InvariantCheck, ModelParams};

verus! {

/// A question how a portfolio did.
#[derive(Debug)]
pub struct PortfolioPerformanceInput {
    pub portfolio: Portfolio,
    pub frequency: Frequency,
    pub window: Option<usize>,
}

impl PortfolioPerformanceInput {
    /// The window asked for, or the default of the frequency.
    pub fn resolved_window(&self) -> (res: usize)
        ensures
            res == model::window_or_default(self.window, self.frequency),
    {
        model::resolve_window(self.window, self.frequency)
    }
}

/// How one holding did on its own.
#[derive(Clone, Copy, Debug)]
pub struct HoldingReturn {
    pub total_return_pct: Double,
    pub annualized_vol_pct: Double,
    pub contribution_to_portfolio_return_pct: Double,
}

/// How a portfolio did.
#[derive(Debug)]
pub struct PortfolioPerformanceOutput {
    pub start_value_inr: Double,
    pub end_value_inr: Double,
    pub total_return: Double,
    pub annualized_return: Double,
    pub annualized_vol_realized: Double,
    /// The deepest fall below an earlier high, never above zero.
    pub max_drawdown: Double,
    pub best_period_return: Double,
    pub worst_period_return: Double,
    pub holding_returns: Table<HoldingReturn>,
    pub best_performer: String,
    pub worst_performer: String,
    pub regime_label: Option<String>,
}

/// What is said of a performance.
pub const PERFORMANCE_NOTE: &'static str = "Constant-mix simplification: each period's portfolio return is the current weights applied to that period's per-holding simple return, as if rebalanced back to target weights every period -- not a literal buy-and-hold share-count simulation.";

/// The message for a portfolio without holdings.
pub const NO_HOLDINGS: &'static str = "portfolio must have at least one holding";

/// The message for a window that is longer than the history.
pub open spec fn window_too_long(window: nat, available: nat) -> Seq<PieceView> {
    seq![
        PieceView::Text("requested window ("@),
        PieceView::Text(text::decimal(window)),
        PieceView::Text(") exceeds available observations ("@),
        PieceView::Text(text::decimal(available)),
        PieceView::Text(")"@),
    ]
}

/// A window that is too long is told with its own length first and then that
/// of the history.
pub proof fn lemma_window_too_long(window: nat, available: nat)
    ensures
        window_too_long(window, available)[1] == PieceView::Text(text::decimal(window)),
        window_too_long(window, available)[3] == PieceView::Text(text::decimal(available)),
{
}

/// The return series of holding `i` of a portfolio.
pub open spec fn holding_series(market: MarketData, portfolio: Portfolio, i: int) -> Seq<Double> {
    market.stock_returns@[model::series_named(
        market.stock_returns@,
        portfolio.tickers_view()[i],
    )->Some_0].values@
}

/// Whether there is a return series for holding `i` of a portfolio.
pub open spec fn has_series(market: MarketData, portfolio: Portfolio, i: int) -> bool {
    model::series_named(market.stock_returns@, portfolio.tickers_view()[i]) is Some
}

/// Whether the holdings that have a series all have one of the same length.
pub open spec fn series_even(market: MarketData, portfolio: Portfolio) -> bool {
    forall|i: int|
        0 <= i < portfolio.holdings@.len() && has_series(market, portfolio, i) && has_series(
            market,
            portfolio,
            0,
        ) ==> (#[trigger] holding_series(market, portfolio, i)).len() == holding_series(
            market,
            portfolio,
            0,
        ).len()
}

/// In a rectangular dataset the series of the holdings of any portfolio have
/// the same length.
pub proof fn lemma_rectangular_series_even(market: MarketData, portfolio: Portfolio)
    requires
        market.rectangular(),
    ensures
        series_even(market, portfolio),
{
    assert forall|i: int|
        0 <= i < portfolio.holdings@.len() && has_series(market, portfolio, i) && has_series(
            market,
            portfolio,
            0,
        ) implies (#[trigger] holding_series(market, portfolio, i)).len() == holding_series(
        market,
        portfolio,
        0,
    ).len() by {
        let stocks = market.stock_returns@;
        model::lemma_series_named(stocks, portfolio.tickers_view()[i]);
        model::lemma_series_named(stocks, portfolio.tickers_view()[0]);
    }
}

/// What keeps a performance from being computed.
pub open spec fn performance_fault(market: MarketData, portfolio: Portfolio, window: int) -> Option<
    ComputeErrorView,
> {
    let tickers = portfolio.tickers_view();
    if tickers.len() == 0 {
        Some(ComputeErrorView::InvalidInput(message::plain(NO_HOLDINGS@)))
    } else {
        match policy::first_without_series(market.stock_returns@, tickers, tickers.len() as int) {
            Some(t) => Some(ComputeErrorView::Model(policy::missing_series(t))),
            None => if window > holding_series(market, portfolio, 0).len() {
                Some(
                    ComputeErrorView::InvalidInput(
                        window_too_long(
                            window as nat,
                            holding_series(market, portfolio, 0).len(),
                        ),
                    ),
                )
            } else {
                None
            },
        }
    }
}

fn trailing_columns(market: &MarketData, portfolio: &Portfolio, places: &Vec<usize>, window: usize) -> (res:
    Vec<Vec<Double>>)
    requires
        places@.len() == portfolio.holdings@.len(),
        places@.len() > 0,
        series_even(*market, *portfolio),
        window <= holding_series(*market, *portfolio, 0).len(),
        forall|i: int|
            0 <= i < places@.len() ==> Some((#[trigger] places@[i]) as int) == model::series_named(
                market.stock_returns@,
                portfolio.tickers_view()[i],
            ) && places@[i] < market.stock_returns@.len(),
    ensures
        res@.len() == places@.len(),
        forall|i: int|
            0 <= i < places@.len() ==> (#[trigger] res@[i])@ == model::trailing(
                holding_series(*market, *portfolio, i),
                window as int,
            ),
{
    let mut out: Vec<Vec<Double>> = Vec::new();
    let mut i: usize = 0;
    while i < places.len()
        invariant
            i <= places@.len(),
            places@.len() == portfolio.holdings@.len(),
            series_even(*market, *portfolio),
            window <= holding_series(*market, *portfolio, 0).len(),
            forall|i: int|
                0 <= i < places@.len() ==> Some((#[trigger] places@[i]) as int)
                    == model::series_named(market.stock_returns@, portfolio.tickers_view()[i])
                    && places@[i] < market.stock_returns@.len(),
            out@.len() == i,
            forall|k: int|
                0 <= k < i ==> (#[trigger] out@[k])@ == model::trailing(
                    holding_series(*market, *portfolio, k),
                    window as int,
                ),
        decreases places.len() - i,
    {
        assert(Some(places@[i as int] as int) == model::series_named(
            market.stock_returns@,
            portfolio.tickers_view()[i as int],
        ));
        assert(Some(places@[0] as int) == model::series_named(
            market.stock_returns@,
            portfolio.tickers_view()[0],
        ));
        assert(holding_series(*market, *portfolio, i as int).len() == holding_series(
            *market,
            *portfolio,
            0,
        ).len());
        out.push(model::trailing_values(&market.stock_returns[places[i]].values, window));
        i += 1;
    }
    out
}

/// The trailing log returns of every holding, in the order of the holdings.
/// Fails as [`performance_fault`] says.
pub fn plan_performance(market: &MarketData, portfolio: &Portfolio, window: usize) -> (res: Result<
    Vec<Vec<Double>>,
    ComputeError,
>)
    requires
        series_even(*market, *portfolio),
    ensures
        match performance_fault(*market, *portfolio, window as int) {
            Some(fault) => res is Err && res->Err_0@ == fault,
            None => {
                &&& res is Ok
                &&& res->Ok_0@.len() == portfolio.holdings@.len()
                &&& forall|i: int|
                    0 <= i < portfolio.holdings@.len() ==> (#[trigger] res->Ok_0@[i])@
                        == model::trailing(holding_series(*market, *portfolio, i), window as int)
            },
        },
{
    if portfolio.holdings.len() == 0 {
        return Err(ComputeError::InvalidInput(Message::of(NO_HOLDINGS)));
    }
    match policy::portfolio_series(portfolio, market) {
        Err(e) => Err(e),
        Ok(places) => {
            assert(Some(places@[0] as int) == model::series_named(
                market.stock_returns@,
                portfolio.tickers_view()[0],
            ));
            let available: usize = market.stock_returns[places[0]].values.len();
            if window > available {
                let mut message = Message::of("requested window (");
                message.count(window);
                message.text(") exceeds available observations (");
                message.count(available);
                message.text(")");
                assert(message@ =~= window_too_long(window as nat, available as nat));
                return Err(ComputeError::InvalidInput(message));
            }
            Ok(trailing_columns(market, portfolio, &places, window))
        },
    }
}

/// The trailing market returns that a regime is read from; `None` where there
/// is no market series or it is shorter than the window.
pub fn market_window(market: &MarketData, window: usize) -> (res: Option<Vec<Double>>)
    ensures
        match model::series_named(market.factor_returns@, "MARKET"@) {
            None => res is None,
            Some(i) => {
                let values = market.factor_returns@[i].values@;
                &&& res is Some <==> window <= values.len()
                &&& res is Some ==> res->Some_0@ == model::trailing(values, window as int)
            },
        },
{
    match model::find_series(&market.factor_returns, "MARKET") {
        None => None,
        Some(i) => {
            let values = &market.factor_returns[i].values;
            if window <= values.len() {
                Some(model::trailing_values(values, window))
            } else {
                None
            }
        },
    }
}

// ---------------------------------------------------------------------------
// The path of a portfolio
// ---------------------------------------------------------------------------

/// The highest value up to step `i`, starting from one.
pub open spec fn peak_at(cumulative: Seq<Double>, i: int) -> Double
    decreases i + 1,
{
    if i < 0 {
        Double { bits: crate::double::ONE_BITS }
    } else {
        peak_at(cumulative, i - 1).larger(cumulative[i])
    }
}

/// The highest value up to each step, starting from one.
pub fn running_peaks(cumulative: &Vec<Double>) -> (res: Vec<Double>)
    ensures
        res@.len() == cumulative@.len(),
        forall|i: int| 0 <= i < res@.len() ==> (#[trigger] res@[i]) == peak_at(cumulative@, i),
{
    let mut out: Vec<Double> = Vec::new();
    let mut peak = Double { bits: crate::double::ONE_BITS };
    let mut i: usize = 0;
    while i < cumulative.len()
        invariant
            i <= cumulative@.len(),
            out@.len() == i,
            peak == peak_at(cumulative@, i - 1),
            forall|k: int| 0 <= k < i ==> (#[trigger] out@[k]) == peak_at(cumulative@, k),
        decreases cumulative.len() - i,
    {
        peak = peak.max(cumulative[i]);
        out.push(peak);
        i += 1;
    }
    out
}

/// A running peak has been reached: it is the one it started from, or one of
/// the values up to its step. It is never below one.
pub proof fn lemma_peak_is_reached(cumulative: Seq<Double>, i: int)
    requires
        -1 <= i < cumulative.len(),
        select::comparable(cumulative),
    ensures
        (Double { bits: 0x3ff0_0000_0000_0000 }).at_most(peak_at(cumulative, i)),
        peak_at(cumulative, i).bits == 0x3ff0_0000_0000_0000 || exists|k: int|
            0 <= k <= i && #[trigger] cumulative[k] == peak_at(cumulative, i),
    decreases i + 1,
{
    if i >= 0 {
        lemma_peak_is_reached(cumulative, i - 1);
        lemma_peak_is_number(cumulative, i - 1);
        let before = peak_at(cumulative, i - 1);
        assert(!cumulative[i].nan());
        if before.below(cumulative[i]) {
            assert(cumulative[i] == peak_at(cumulative, i));
        } else if before.bits != 0x3ff0_0000_0000_0000 {
            let k = choose|k: int| 0 <= k <= i - 1 && #[trigger] cumulative[k] == before;
            assert(cumulative[k] == peak_at(cumulative, i));
        }
    }
}

/// The smallest of `start` and the first `n` numbers.
pub open spec fn smallest_of(start: Double, values: Seq<Double>, n: int) -> Double
    decreases n,
{
    if n <= 0 {
        start
    } else {
        smallest_of(start, values, n - 1).smaller(values[n - 1])
    }
}

fn smallest(start: Double, values: &Vec<Double>) -> (res: Double)
    ensures
        res == smallest_of(start, values@, values@.len() as int),
{
    let mut best = start;
    let mut i: usize = 0;
    while i < values.len()
        invariant
            i <= values@.len(),
            best == smallest_of(start, values@, i as int),
        decreases values.len() - i,
    {
        best = best.min(values[i]);
        i += 1;
    }
    best
}

fn largest(values: &Vec<Double>) -> (res: Double)
    ensures
        res == policy::largest_of(values@, values@.len() as int),
{
    let mut best = Double { bits: crate::double::SMALLEST_BITS };
    let mut i: usize = 0;
    while i < values.len()
        invariant
            i <= values@.len(),
            best == policy::largest_of(values@, i as int),
        decreases values.len() - i,
    {
        best = best.max(values[i]);
        i += 1;
    }
    best
}

/// The smallest number is at most the one it started from, and at most each
/// of the others that is a number. A drawdown starts from zero, so it is never
/// above zero.
pub proof fn lemma_smallest_is_least(start: Double, values: Seq<Double>, n: int)
    requires
        0 <= n <= values.len(),
        !start.nan(),
    ensures
        smallest_of(start, values, n).at_most(start),
        forall|i: int|
            0 <= i < n && !values[i].nan() ==> smallest_of(start, values, n).at_most(
                #[trigger] values[i],
            ),
    decreases n,
{
    if n > 0 {
        lemma_smallest_is_least(start, values, n - 1);
    }
}

/// The largest number is at least each of the finite ones.
pub proof fn lemma_largest_is_greatest(values: Seq<Double>, n: int)
    requires
        0 <= n <= values.len(),
    ensures
        !policy::largest_of(values, n).nan(),
        forall|i: int|
            0 <= i < n && !values[i].nan() ==> (#[trigger] values[i]).at_most(
                policy::largest_of(values, n),
            ),
    decreases n,
{
    if n > 0 {
        lemma_largest_is_greatest(values, n - 1);
    }
}

/// The smallest number is one of those it is taken from, or the one it started
/// from; and so is the largest one of its numbers, or the most negative double.
pub proof fn lemma_extremes_are_reached(start: Double, values: Seq<Double>, n: int)
    requires
        0 <= n <= values.len(),
        !start.nan(),
    ensures
        smallest_of(start, values, n) == start || exists|i: int|
            0 <= i < n && #[trigger] values[i] == smallest_of(start, values, n),
        policy::largest_of(values, n).bits == 0xffef_ffff_ffff_ffff || exists|i: int|
            0 <= i < n && #[trigger] values[i] == policy::largest_of(values, n),
    decreases n,
{
    if n > 0 {
        lemma_extremes_are_reached(start, values, n - 1);
        lemma_smallest_is_least(start, values, n - 1);
        lemma_largest_is_greatest(values, n - 1);
        let (low, high) = (smallest_of(start, values, n - 1), policy::largest_of(values, n - 1));
        assert(values[n - 1] == values[n - 1]);
        if smallest_of(start, values, n) == low && low != start {
            let i = choose|i: int| 0 <= i < n - 1 && #[trigger] values[i] == low;
            assert(values[i] == smallest_of(start, values, n));
        }
        if policy::largest_of(values, n) == high && high.bits != 0xffef_ffff_ffff_ffff {
            let i = choose|i: int| 0 <= i < n - 1 && #[trigger] values[i] == high;
            assert(values[i] == policy::largest_of(values, n));
        }
    }
}

/// The holding that did best has the largest total return of all, the last of
/// several; the one that did worst has the smallest, the first of several.
pub proof fn lemma_best_and_worst(holdings: Seq<HoldingReturn>, best: int, worst: int)
    requires
        select::is_last_max(totals(holdings), best),
        select::is_first_min(totals(holdings), worst),
    ensures
        0 <= best < holdings.len() && 0 <= worst < holdings.len(),
        forall|i: int|
            0 <= i < holdings.len() ==> (#[trigger] holdings[i]).total_return_pct.rank()
                <= holdings[best].total_return_pct.rank() && holdings[worst].total_return_pct.rank()
                <= holdings[i].total_return_pct.rank(),
        forall|i: int|
            best < i < holdings.len() ==> (#[trigger] holdings[i]).total_return_pct.rank()
                < holdings[best].total_return_pct.rank(),
        forall|i: int|
            0 <= i < worst ==> holdings[worst].total_return_pct.rank() < (
            #[trigger] holdings[i]).total_return_pct.rank(),
{
    assert forall|i: int| 0 <= i < holdings.len() implies (
    #[trigger] holdings[i]).total_return_pct.rank() <= holdings[best].total_return_pct.rank()
        && holdings[worst].total_return_pct.rank() <= holdings[i].total_return_pct.rank() by {
        assert(totals(holdings)[i] == holdings[i].total_return_pct);
    }
    assert forall|i: int| best < i < holdings.len() implies (
    #[trigger] holdings[i]).total_return_pct.rank() < holdings[best].total_return_pct.rank() by {
        assert(totals(holdings)[i] == holdings[i].total_return_pct);
    }
    assert forall|i: int| 0 <= i < worst implies holdings[worst].total_return_pct.rank() < (
    #[trigger] holdings[i]).total_return_pct.rank() by {
        assert(totals(holdings)[i] == holdings[i].total_return_pct);
    }
}

/// A performance that can be computed goes by the end of each holding's own
/// series, which reaches over the window.
pub proof fn lemma_performance_window(
    market: MarketData,
    portfolio: Portfolio,
    window: int,
    i: int,
    back: int,
)
    requires
        performance_fault(market, portfolio, window) is None,
        series_even(market, portfolio),
        0 <= i < portfolio.holdings@.len(),
        1 <= back <= window,
    ensures
        portfolio.holdings@.len() > 0,
        exists|s: int|
            0 <= s < market.stock_returns@.len() && (#[trigger] market.stock_returns@[s]).name@
                == portfolio.tickers_view()[i] && market.stock_returns@[s].values@.len() >= window
                && model::trailing(holding_series(market, portfolio, i), window).len() == window
                && model::trailing(holding_series(market, portfolio, i), window)[window - back]
                == market.stock_returns@[s].values@[market.stock_returns@[s].values@.len() - back],
{
    let stocks = market.stock_returns@;
    let tickers = portfolio.tickers_view();
    policy::lemma_no_missing_series(stocks, tickers, tickers.len() as int, i);
    policy::lemma_no_missing_series(stocks, tickers, tickers.len() as int, 0);
    model::lemma_series_named(stocks, tickers[i]);
    model::lemma_series_named(stocks, tickers[0]);
    assert(has_series(market, portfolio, i) && has_series(market, portfolio, 0)) by {
        assert(tickers[i] == tickers[i] && tickers[0] == tickers[0]);
    }
    let s = model::series_named(stocks, tickers[i])->Some_0;
    assert(holding_series(market, portfolio, i).len() == holding_series(
        market,
        portfolio,
        0,
    ).len());
    model::lemma_trailing(stocks[s].values@, window);
    assert(stocks[s].name@ == tickers[i]);
    assert(stocks[s].values@[stocks[s].values@.len() - back] == model::trailing(
        stocks[s].values@,
        window,
    )[window - back]);
}

/// A performance is refused for want of a holding, for a holding without a
/// series, and for a window that is longer than the first series; and for
/// nothing else.
pub proof fn lemma_performance_refusals(
    market: MarketData,
    portfolio: Portfolio,
    window: int,
    i: int,
)
    ensures
        portfolio.holdings@.len() == 0 ==> performance_fault(market, portfolio, window) is Some,
        0 <= i < portfolio.holdings@.len() && (forall|s: int|
            0 <= s < market.stock_returns@.len() ==> (#[trigger] market.stock_returns@[s]).name@
                != portfolio.tickers_view()[i]) ==> performance_fault(
            market,
            portfolio,
            window,
        ) is Some,
        portfolio.holdings@.len() > 0 && window > holding_series(market, portfolio, 0).len()
            ==> performance_fault(market, portfolio, window) is Some,
        performance_fault(market, portfolio, window) is Some && portfolio.holdings@.len() > 0
            && window <= holding_series(market, portfolio, 0).len() ==> exists|i: int|
            0 <= i < portfolio.holdings@.len() && forall|s: int|
                0 <= s < market.stock_returns@.len() ==> (
                #[trigger] market.stock_returns@[s]).name@ != #[trigger] portfolio.tickers_view()[i],
{
    let stocks = market.stock_returns@;
    let tickers = portfolio.tickers_view();
    let n = tickers.len() as int;
    if n > 0 {
        if 0 <= i < n {
            policy::lemma_no_missing_series(stocks, tickers, n, i);
        }
        policy::lemma_no_missing_series(stocks, tickers, n, 0);
        if let Some(t) = policy::first_without_series(stocks, tickers, n) {
            let i = choose|i: int| 0 <= i < tickers.len() && tickers[i] == t;
            assert(tickers[i] == t);
        }
    }
}

/// The running peak never falls, and never lies below a value that it has
/// seen.
pub proof fn lemma_peaks_rise(cumulative: Seq<Double>, i: int, j: int)
    requires
        0 <= i <= j < cumulative.len(),
        select::comparable(cumulative),
    ensures
        !peak_at(cumulative, j).nan(),
        peak_at(cumulative, i).at_most(peak_at(cumulative, j)),
        cumulative[i].at_most(peak_at(cumulative, j)),
    decreases j,
{
    lemma_peak_is_number(cumulative, j);
    lemma_peak_is_number(cumulative, j - 1);
    if i < j {
        lemma_peaks_rise(cumulative, i, j - 1);
    }
}

proof fn lemma_peak_is_number(cumulative: Seq<Double>, i: int)
    requires
        i < cumulative.len(),
        select::comparable(cumulative),
    ensures
        !peak_at(cumulative, i).nan(),
        i >= 0 ==> cumulative[i].at_most(peak_at(cumulative, i)),
    decreases i + 1,
{
    if i >= 0 {
        lemma_peak_is_number(cumulative, i - 1);
    }
}

// ---------------------------------------------------------------------------
// The result
// ---------------------------------------------------------------------------

/// The figures of a performance.
#[derive(Debug)]
pub struct PerformanceFigures {
    pub end_value_inr: Double,
    pub total_return: Double,
    pub annualized_return: Double,
    pub annualized_vol_realized: Double,
    /// The return of the portfolio in each period.
    pub period_returns: Vec<Double>,
    /// The fall below the running peak after each period.
    pub drawdowns: Vec<Double>,
    /// One per holding.
    pub holdings: Vec<HoldingReturn>,
}

/// The total returns of the holdings, in order.
pub open spec fn totals(holdings: Seq<HoldingReturn>) -> Seq<Double> {
    holdings.map_values(|h: HoldingReturn| h.total_return_pct)
}

fn total_returns(holdings: &Vec<HoldingReturn>) -> (res: Vec<Double>)
    ensures
        res@ == totals(holdings@),
{
    let mut out: Vec<Double> = Vec::new();
    let mut i: usize = 0;
    while i < holdings.len()
        invariant
            i <= holdings@.len(),
            out@ == totals(holdings@).take(i as int),
        decreases holdings.len() - i,
    {
        out.push(holdings[i].total_return_pct);
        i += 1;
        assert(out@ =~= totals(holdings@).take(i as int));
    }
    assert(totals(holdings@).take(holdings@.len() as int) =~= totals(holdings@));
    out
}

/// Puts a performance together: the extremes of its path, and which holdings
/// did best and worst.
pub fn run_portfolio_performance(
    input: &PortfolioPerformanceInput,
    figures: &PerformanceFigures,
    regime_label: Option<&str>,
) -> (res: PortfolioPerformanceOutput)
    requires
        input.portfolio.holdings@.len() > 0,
        figures.holdings@.len() == input.portfolio.holdings@.len(),
        select::comparable(totals(figures.holdings@)),
    ensures
        res.start_value_inr == input.portfolio.total_value_inr,
        res.end_value_inr == figures.end_value_inr,
        res.total_return == figures.total_return,
        res.annualized_return == figures.annualized_return,
        res.annualized_vol_realized == figures.annualized_vol_realized,
        res.max_drawdown == smallest_of(
            Double { bits: 0 },
            figures.drawdowns@,
            figures.drawdowns@.len() as int,
        ),
        res.best_period_return == policy::largest_of(
            figures.period_returns@,
            figures.period_returns@.len() as int,
        ),
        res.worst_period_return == smallest_of(
            Double { bits: crate::double::LARGEST_BITS },
            figures.period_returns@,
            figures.period_returns@.len() as int,
        ),
        res.holding_returns@ == crate::table::rows_of(
            input.portfolio.tickers_view(),
            figures.holdings@,
            input.portfolio.holdings@.len() as int,
        ),
        exists|i: int| #[trigger]
            select::is_last_max(totals(figures.holdings@), i) && res.best_performer@
                == input.portfolio.tickers_view()[i],
        exists|i: int| #[trigger]
            select::is_first_min(totals(figures.holdings@), i) && res.worst_performer@
                == input.portfolio.tickers_view()[i],
        match regime_label {
            Some(label) => res.regime_label is Some && res.regime_label->Some_0@ == label@,
            None => res.regime_label is None,
        },
{
    let tickers = input.portfolio.tickers();
    let yields = total_returns(&figures.holdings);
    let best: usize = match select::last_max(&yields) {
        Some(i) => i,
        None => 0,
    };
    let worst: usize = match select::first_min(&yields) {
        Some(i) => i,
        None => 0,
    };
    assert(text::views(tickers@)[best as int] == tickers@[best as int]@);
    assert(text::views(tickers@)[worst as int] == tickers@[worst as int]@);
    assert(select::is_last_max(totals(figures.holdings@), best as int));
    assert(select::is_first_min(totals(figures.holdings@), worst as int));
    PortfolioPerformanceOutput {
        start_value_inr: input.portfolio.total_value_inr,
        end_value_inr: figures.end_value_inr,
        total_return: figures.total_return,
        annualized_return: figures.annualized_return,
        annualized_vol_realized: figures.annualized_vol_realized,
        max_drawdown: smallest(Double::zero(), &figures.drawdowns),
        best_period_return: largest(&figures.period_returns),
        worst_period_return: smallest(
            Double { bits: crate::double::LARGEST_BITS },
            &figures.period_returns,
        ),
        holding_returns: Table::of(&tickers, &figures.holdings),
        best_performer: text::copy(tickers[best].as_str()),
        worst_performer: text::copy(tickers[worst].as_str()),
        regime_label: match regime_label {
            Some(label) => Some(text::copy(label)),
            None => None,
        },
    }
}

/// The parameters of an experiment that fits no factor model.
pub fn standalone_params(
    frequency: Frequency,
    window: usize,
    annualization_factor: u32,
    regime_state: Option<Json>,
    warnings: Vec<String>,
    cap_source: Option<String>,
) -> (res: ModelParams)
    ensures
        res.frequency == frequency,
        res.window_periods == window,
        res.factor_names@.len() == 0,
        res.shrinkage_intensity == (Double { bits: 0 }),
        res.annualization_factor == annualization_factor,
        res.regime_state == regime_state,
        res.regime_fallback_warnings == warnings,
        res.cap_source == cap_source,
{
    ModelParams {
        frequency,
        window_periods: window,
        factor_names: Vec::new(),
        shrinkage_intensity: Double::zero(),
        annualization_factor,
        regime_state,
        regime_fallback_warnings: warnings,
        cap_source,
    }
}

// ---------------------------------------------------------------------------
// JSON
// ---------------------------------------------------------------------------

/// The name of the check on the value.
pub const VALUE_CHECK: &'static str = "end_value_inr == start_value_inr * (1 + total_return)";

/// The checks of a performance: the value at the end is what the total return
/// makes of that at the start.
pub fn performance_checks(value: Compared, tolerance: Double) -> (res: Vec<InvariantCheck>)
    ensures
        res@.len() == 1,
        trace::compares(res@[0], VALUE_CHECK@, value, tolerance),
{
    let mut out: Vec<InvariantCheck> = Vec::new();
    out.push(trace::comparison(VALUE_CHECK, value, tolerance));
    out
}

impl HoldingReturn {
    /// The return of a holding as a JSON object.
    pub open spec fn json(self) -> JsonView {
        JsonView::empty().with("total_return_pct"@, JsonView::of_double(self.total_return_pct)).with(
            "annualized_vol_pct"@,
            JsonView::of_double(self.annualized_vol_pct),
        ).with(
            "contribution_to_portfolio_return_pct"@,
            JsonView::of_double(self.contribution_to_portfolio_return_pct),
        )
    }

    /// Each field of the object holds the figure that it is named after.
    pub proof fn lemma_json_fields(self)
        ensures
            self.json().field("total_return_pct"@) == Some(JsonView::of_double(self.total_return_pct)),
            self.json().field("annualized_vol_pct"@) == Some(JsonView::of_double(self.annualized_vol_pct)),
            self.json().field("contribution_to_portfolio_return_pct"@) == Some(JsonView::of_double(self.contribution_to_portfolio_return_pct)),
    {
        broadcast use crate::json::group_fields;

        reveal_strlit("total_return_pct");
        reveal_strlit("annualized_vol_pct");
        reveal_strlit("contribution_to_portfolio_return_pct");
        assert("total_return_pct"@.len() == 16);
        assert("annualized_vol_pct"@.len() == 18);
        assert("contribution_to_portfolio_return_pct"@.len() == 36);
    }

    /// The return of a holding as a JSON object.
    pub fn to_json(&self) -> (res: Json)
        ensures
            res@ == self.json(),
    {
        Json::object().with("total_return_pct", Json::of_double(self.total_return_pct)).with(
            "annualized_vol_pct",
            Json::of_double(self.annualized_vol_pct),
        ).with(
            "contribution_to_portfolio_return_pct",
            Json::of_double(self.contribution_to_portfolio_return_pct),
        )
    }
}

/// The returns of the holdings as a JSON object.
pub open spec fn returns_json(rows: Rows<HoldingReturn>) -> JsonView
    decreases rows.len(),
{
    if rows.len() == 0 {
        JsonView::empty()
    } else {
        returns_json(rows.drop_last()).with(rows.last().0, rows.last().1.json())
    }
}

fn returns_table_json(yields: &Table<HoldingReturn>) -> (res: Json)
    ensures
        res@ == returns_json(yields@),
{
    let mut res = Json::object();
    let mut i: usize = 0;
    assert(yields@.take(0) =~= seq![]);
    while i < yields.entries.len()
        invariant
            i <= yields.entries@.len(),
            res@ == returns_json(yields@.take(i as int)),
        decreases yields.entries.len() - i,
    {
        assert(yields@.take(i as int + 1).drop_last() =~= yields@.take(i as int));
        res = res.with(yields.entries[i].name.as_str(), yields.entries[i].value.to_json());
        i += 1;
    }
    assert(yields@.take(yields@.len() as int) =~= yields@);
    res
}

impl PortfolioPerformanceOutput {
    /// The performance as a JSON object.
    pub open spec fn json(self) -> JsonView {
        JsonView::empty().with("start_value_inr"@, JsonView::of_double(self.start_value_inr)).with(
            "end_value_inr"@,
            JsonView::of_double(self.end_value_inr),
        ).with("total_return"@, JsonView::of_double(self.total_return)).with(
            "annualized_return"@,
            JsonView::of_double(self.annualized_return),
        ).with(
            "annualized_vol_realized"@,
            JsonView::of_double(self.annualized_vol_realized),
        ).with("max_drawdown"@, JsonView::of_double(self.max_drawdown)).with(
            "best_period_return"@,
            JsonView::of_double(self.best_period_return),
        ).with("worst_period_return"@, JsonView::of_double(self.worst_period_return)).with(
            "holding_returns"@,
            returns_json(self.holding_returns@),
        ).with("best_performer"@, JsonView::Text(self.best_performer@)).with(
            "worst_performer"@,
            JsonView::Text(self.worst_performer@),
        ).with(
            "regime_label"@,
            JsonView::of_optional_text(
                match self.regime_label {
                    Some(s) => Some(s@),
                    None => None,
                },
            ),
        )
    }

    /// Each field of the object holds the figure that it is named after.
    pub proof fn lemma_json_fields(self)
        ensures
            self.json().field("start_value_inr"@) == Some(JsonView::of_double(self.start_value_inr)),
            self.json().field("end_value_inr"@) == Some(JsonView::of_double(self.end_value_inr)),
            self.json().field("total_return"@) == Some(JsonView::of_double(self.total_return)),
            self.json().field("annualized_return"@) == Some(JsonView::of_double(self.annualized_return)),
            self.json().field("annualized_vol_realized"@) == Some(JsonView::of_double(self.annualized_vol_realized)),
            self.json().field("max_drawdown"@) == Some(JsonView::of_double(self.max_drawdown)),
            self.json().field("best_period_return"@) == Some(JsonView::of_double(self.best_period_return)),
            self.json().field("worst_period_return"@) == Some(JsonView::of_double(self.worst_period_return)),
            self.json().field("holding_returns"@) == Some(returns_json(self.holding_returns@)),
            self.json().field("best_performer"@) == Some(JsonView::Text(self.best_performer@)),
            self.json().field("worst_performer"@) == Some(JsonView::Text(self.worst_performer@)),
            self.json().field("regime_label"@) == Some(JsonView::of_optional_text(
                match self.regime_label {
                    Some(s) => Some(s@),
                    None => None,
                },
            )),
    {
        broadcast use crate::json::group_fields;

        reveal_strlit("start_value_inr");
        reveal_strlit("end_value_inr");
        reveal_strlit("total_return");
        reveal_strlit("annualized_return");
        reveal_strlit("annualized_vol_realized");
        reveal_strlit("max_drawdown");
        reveal_strlit("best_period_return");
        reveal_strlit("worst_period_return");
        reveal_strlit("holding_returns");
        reveal_strlit("best_performer");
        reveal_strlit("worst_performer");
        reveal_strlit("regime_label");
        assert("start_value_inr"@.len() == 15);
        assert("end_value_inr"@.len() == 13);
        assert("total_return"@.len() == 12);
        assert("annualized_return"@.len() == 17);
        assert("annualized_vol_realized"@.len() == 23);
        assert("max_drawdown"@.len() == 12);
        assert("best_period_return"@.len() == 18);
        assert("worst_period_return"@.len() == 19);
        assert("holding_returns"@.len() == 15);
        assert("best_performer"@.len() == 14);
        assert("worst_performer"@.len() == 15);
        assert("regime_label"@.len() == 12);
        assert("start_value_inr"@[0] == 's');
        assert("holding_returns"@[0] == 'h');
        assert("worst_performer"@[0] == 'w');
        assert("total_return"@[0] == 't');
        assert("max_drawdown"@[0] == 'm');
        assert("regime_label"@[0] == 'r');
    }

    /// The performance as a JSON object.
    pub fn to_json(&self) -> (res: Json)
        ensures
            res@ == self.json(),
    {
        Json::object().with("start_value_inr", Json::of_double(self.start_value_inr)).with(
            "end_value_inr",
            Json::of_double(self.end_value_inr),
        ).with("total_return", Json::of_double(self.total_return)).with(
            "annualized_return",
            Json::of_double(self.annualized_return),
        ).with("annualized_vol_realized", Json::of_double(self.annualized_vol_realized)).with(
            "max_drawdown",
            Json::of_double(self.max_drawdown),
        ).with("best_period_return", Json::of_double(self.best_period_return)).with(
            "worst_period_return",
            Json::of_double(self.worst_period_return),
        ).with("holding_returns", returns_table_json(&self.holding_returns)).with(
            "best_performer",
            Json::of_text(self.best_performer.as_str()),
        ).with("worst_performer", Json::of_text(self.worst_performer.as_str())).with(
            "regime_label",
            Json::of_optional_text(&self.regime_label),
        )
    }
}

} // verus!
