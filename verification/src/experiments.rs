//! Portfolios, factor shocks and risk decompositions.
//!
//! For each experiment the library decides what has to be computed, takes the
//! computed figures, and puts the result together.

use vstd::prelude::*;

use crate::data;
use crate::double::Double;
use crate::error::{ComputeError, ComputeErrorView};
use crate::format::WholeRupees;
use crate::json::{self, Json, JsonView};
use crate::message::{self, Message, PieceView};
use crate::model::{self, Frequency};
use crate::table::{self, Rows, Table};
use crate::text;
use crate::trace::{self, Compared, InvariantCheck};

verus! {

/// One portfolio line: a ticker and its fraction of the total value.
#[derive(Debug)]
pub struct Holding {
    pub ticker: String,
    pub weight: Double,
}

/// What is held, and its total value in rupees.
#[derive(Debug)]
pub struct Portfolio {
    pub holdings: Vec<Holding>,
    pub total_value_inr: Double,
}

impl Portfolio {
    /// The tickers, in order.
    pub open spec fn tickers_view(self) -> Seq<Seq<char>> {
        self.holdings@.map_values(|h: Holding| h.ticker@)
    }

    /// The weights, in order.
    pub open spec fn weights_view(self) -> Seq<Double> {
        self.holdings@.map_values(|h: Holding| h.weight)
    }

    /// The tickers, in order.
    pub fn tickers(&self) -> (res: Vec<String>)
        ensures
            text::views(res@) == self.tickers_view(),
            res@.len() == self.holdings@.len(),
    {
        let mut out: Vec<String> = Vec::new();
        let mut i: usize = 0;
        while i < self.holdings.len()
            invariant
                i <= self.holdings@.len(),
                out@.len() == i,
                forall|k: int| 0 <= k < i ==> (#[trigger] out@[k])@ == self.holdings@[k].ticker@,
            decreases self.holdings.len() - i,
        {
            out.push(text::copy(self.holdings[i].ticker.as_str()));
            i += 1;
        }
        assert(text::views(out@) =~= self.tickers_view());
        out
    }

    /// The weights, in order.
    pub fn weights(&self) -> (res: Vec<Double>)
        ensures
            res@ == self.weights_view(),
    {
        let mut out: Vec<Double> = Vec::new();
        let mut i: usize = 0;
        while i < self.holdings.len()
            invariant
                i <= self.holdings@.len(),
                out@ == self.weights_view().take(i as int),
            decreases self.holdings.len() - i,
        {
            out.push(self.holdings[i].weight);
            i += 1;
            assert(out@ =~= self.weights_view().take(i as int));
        }
        assert(self.weights_view().take(self.holdings@.len() as int) =~= self.weights_view());
        out
    }
}

/// Whether two lists of texts read the same.
pub fn same_texts(a: &Vec<String>, b: &Vec<String>) -> (res: bool)
    ensures
        res == (text::views(a@) == text::views(b@)),
{
    if a.len() != b.len() {
        assert(text::views(a@).len() != text::views(b@).len());
        return false;
    }
    let mut i: usize = 0;
    while i < a.len()
        invariant
            i <= a@.len(),
            a@.len() == b@.len(),
            forall|k: int| 0 <= k < i ==> a@[k]@ == b@[k]@,
        decreases a.len() - i,
    {
        if !text::same(a[i].as_str(), b[i].as_str()) {
            assert(text::views(a@)[i as int] != text::views(b@)[i as int]);
            return false;
        }
        i += 1;
    }
    assert(text::views(a@) =~= text::views(b@));
    true
}

/// The message for a model that was fitted on other stocks.
pub const TICKER_MISMATCH: &'static str = "portfolio holdings and fitted model tickers must match 1:1, in order";

/// Accepts a portfolio whose tickers are those of the model, in order.
pub fn check_tickers(portfolio: &Portfolio, model_tickers: &Vec<String>) -> (res: Result<
    (),
    ComputeError,
>)
    ensures
        res is Ok <==> portfolio.tickers_view() == text::views(model_tickers@),
        res is Err ==> res->Err_0@ == ComputeErrorView::InvalidInput(
            message::plain(TICKER_MISMATCH@),
        ),
{
    let tickers = portfolio.tickers();
    if same_texts(&tickers, model_tickers) {
        Ok(())
    } else {
        Err(ComputeError::InvalidInput(Message::of(TICKER_MISMATCH)))
    }
}

// ---------------------------------------------------------------------------
// Factor shock
// ---------------------------------------------------------------------------

/// A question what a portfolio loses when factors move.
#[derive(Debug)]
pub struct FactorShockInput {
    pub portfolio: Portfolio,
    /// Simple percent returns (`-12` for minus twelve percent) under factor
    /// names.
    pub shocks_pct: Table<Double>,
    /// Whether the other factors move as the shocked ones let expect; they
    /// stand still otherwise.
    pub propagate: bool,
    /// Whether shocks are taken as literal returns, without going through
    /// log returns.
    pub linear_approximation: bool,
    pub frequency: Frequency,
    pub window: Option<usize>,
}

/// What `propagate` is where nothing is said.
pub fn default_true() -> (res: bool)
    ensures
        res,
{
    true
}

impl FactorShockInput {
    /// The window asked for, or the default of the frequency.
    pub fn resolved_window(&self) -> (res: usize)
        ensures
            res == model::window_or_default(self.window, self.frequency),
    {
        model::resolve_window(self.window, self.frequency)
    }
}

/// A move as a simple return and as a log return.
#[derive(Clone, Copy, Debug)]
pub struct ShockValue {
    pub simple: Double,
    pub log: Double,
}

/// The effect of a shock on one holding.
#[derive(Debug)]
pub struct HoldingShockResult {
    pub ticker: String,
    pub value_inr: Double,
    pub log_return: Double,
    pub simple_return: Double,
    pub pnl_inr: Double,
}

/// A labelled square matrix.
#[derive(Debug)]
pub struct CorrelationMatrix {
    pub factor_names: Vec<String>,
    pub rows: Vec<Vec<Double>>,
}

/// What a shock does under the covariance of the crisis regime.
#[derive(Debug)]
pub struct CrisisComparisonOutput {
    pub implied_shocks: Table<ShockValue>,
    pub per_holding: Vec<HoldingShockResult>,
    pub portfolio_pnl_inr: Double,
    pub portfolio_log_pnl_inr: Double,
    pub factor_attribution_log_inr: Table<Double>,
}

/// What a shock does to a portfolio.
#[derive(Debug)]
pub struct FactorShockOutput {
    pub linear_approximation: bool,
    /// The shocks that were given.
    pub given_shocks: Table<ShockValue>,
    /// The moves that they imply for the other factors.
    pub implied_shocks: Table<ShockValue>,
    pub per_holding: Vec<HoldingShockResult>,
    pub portfolio_pnl_inr: Double,
    pub formatted_pnl_inr: String,
    pub portfolio_log_pnl_inr: Double,
    pub factor_attribution_log_inr: Table<Double>,
    pub factor_correlation: CorrelationMatrix,
    /// For each implied factor the weight of each given one.
    pub conditional_coefficients: Vec<(String, Table<Double>)>,
    pub gold_inr_implied_move: ShockValue,
    pub crisis_comparison: Option<CrisisComparisonOutput>,
    pub crisis_comparison_note: Option<String>,
}

/// The place of the crisis regime.
pub const CRISIS_REGIME: u8 = 2;

/// What is said of a crisis comparison.
pub const CRISIS_NOTE: &'static str = "Rerun using crisis-regime covariance to show tail-scenario sensitivity";

/// What is said of a shock that is taken literally.
pub const LINEAR_NOTE: &'static str = "linear_approximation=true: shocks are treated as literal decimal returns with no log conversion; P&L = value * (beta . shock) is exact and portfolio_log_pnl_inr == portfolio_pnl_inr.";

/// What is said of a shock that goes through log returns.
pub const LOG_NOTE: &'static str = "Shocks are converted simple -> log for propagation and beta application (betas are fit on log returns); per-holding/portfolio P&L converts back with exp(log_return) - 1. portfolio_log_pnl_inr and factor_attribution_log_inr are an exact decomposition in log-return space, not of the (convex-transformed) INR P&L. Stock alpha/intercept from the OLS fit is not applied in either mode.";

/// The factor names as they are listed in a message.
pub const FACTOR_LIST: &'static str = "[\"MARKET\", \"USDINR\", \"BRENT\", \"GOLD_USD\", \"RATES_PROXY\"]";

/// What is said of a shock.
pub fn factor_shock_note(linear_approximation: bool) -> (res: &'static str)
    ensures
        res@ == (if linear_approximation {
            LINEAR_NOTE@
        } else {
            LOG_NOTE@
        }),
{
    if linear_approximation {
        LINEAR_NOTE
    } else {
        LOG_NOTE
    }
}

/// What a shock asks for.
#[derive(Debug)]
pub struct ShockPlan {
    /// The places of the given factors, ascending.
    pub known: Vec<usize>,
    /// The places of the other factors, ascending.
    pub unknown: Vec<usize>,
    /// The given shocks, in the order of `known`.
    pub known_pct: Vec<Double>,
    /// Whether the other factors are to be conditioned on the given ones.
    pub conditioned: bool,
    /// Whether the shock is to be rerun with the covariance of the crisis
    /// regime.
    pub crisis_rerun: bool,
}

/// Whether `name` is a factor.
pub open spec fn is_factor(name: Seq<char>) -> bool {
    data::factor_names_view().contains(name)
}

/// The first name among the first `n` rows that is no factor.
pub open spec fn first_stranger(rows: Rows<Double>, n: int) -> Option<Seq<char>>
    decreases n,
{
    if n <= 0 {
        None
    } else {
        match first_stranger(rows, n - 1) {
            Some(name) => Some(name),
            None => if is_factor(rows[n - 1].0) {
                None
            } else {
                Some(rows[n - 1].0)
            },
        }
    }
}

/// The places below `n` whose factor has a shock (`given`) or has none.
pub open spec fn places(rows: Rows<Double>, given: bool, n: int) -> Seq<usize>
    decreases n,
{
    if n <= 0 {
        seq![]
    } else if (table::value_of(rows, data::factor_names_view()[n - 1]) is Some) == given {
        places(rows, given, n - 1).push((n - 1) as usize)
    } else {
        places(rows, given, n - 1)
    }
}

/// The shocks at the given places below `n`.
pub open spec fn shocks_at(rows: Rows<Double>, n: int) -> Seq<Double>
    decreases n,
{
    if n <= 0 {
        seq![]
    } else {
        match table::value_of(rows, data::factor_names_view()[n - 1]) {
            Some(shock) => shocks_at(rows, n - 1).push(shock),
            None => shocks_at(rows, n - 1),
        }
    }
}

/// The message for a shock on something that is no factor.
pub open spec fn unknown_factor(name: Seq<char>) -> Seq<PieceView> {
    seq![
        PieceView::Text("unknown factor '"@),
        PieceView::Text(name),
        PieceView::Text("', expected one of "@),
        PieceView::Text(FACTOR_LIST@),
    ]
}

/// Whether `plan` is what the shocks ask for.
pub open spec fn plans(plan: ShockPlan, rows: Rows<Double>, propagate: bool, regime: Option<u8>) -> bool {
    let n = data::FACTOR_COUNT as int;
    &&& plan.known@ == places(rows, true, n)
    &&& plan.unknown@ == places(rows, false, n)
    &&& plan.known_pct@ == shocks_at(rows, n)
    &&& plan.conditioned == (propagate && plan.known@.len() > 0 && plan.unknown@.len() > 0)
    &&& plan.crisis_rerun == (regime is Some && regime->Some_0 != CRISIS_REGIME)
}

proof fn lemma_stranger_stays(rows: Rows<Double>, n: int, m: int)
    requires
        first_stranger(rows, n) is Some,
        n <= m,
    ensures
        first_stranger(rows, m) == first_stranger(rows, n),
    decreases m - n,
{
    if n < m {
        lemma_stranger_stays(rows, n, m - 1);
    }
}

/// Places of known and unknown factors lie below the number of factors, and
/// every factor is one or the other.
pub proof fn lemma_places_partition(rows: Rows<Double>, n: int)
    requires
        0 <= n <= data::FACTOR_COUNT,
    ensures
        places(rows, true, n).len() + places(rows, false, n).len() == n,
        places(rows, true, n).len() == shocks_at(rows, n).len(),
        forall|g: bool, i: int|
            0 <= i < places(rows, g, n).len() ==> (#[trigger] places(rows, g, n)[i]) < n,
        forall|g: bool, i: int, j: int|
            0 <= i < j < places(rows, g, n).len() ==> (#[trigger] places(rows, g, n)[i]) < (
            #[trigger] places(rows, g, n)[j]),
    decreases n,
{
    if n > 0 {
        lemma_places_partition(rows, n - 1);
        assert forall|g: bool, i: int, j: int| 0 <= i < j < places(rows, g, n).len() implies (
        #[trigger] places(rows, g, n)[i]) < (#[trigger] places(rows, g, n)[j]) by {
            let before = places(rows, g, n - 1);
            assert(places(rows, g, n)[i] == before[i]);
            assert(before[i] < n - 1);
            if j < before.len() {
                assert(places(rows, g, n)[j] == before[j]);
            }
        }
    }
}

proof fn lemma_places_by_shock(rows: Rows<Double>, n: int)
    requires
        0 <= n <= data::FACTOR_COUNT,
    ensures
        places(rows, true, n).len() == shocks_at(rows, n).len(),
        forall|i: int|
            0 <= i < places(rows, true, n).len() ==> (#[trigger] places(rows, true, n)[i]) < n
                && table::value_of(
                rows,
                data::factor_names_view()[places(rows, true, n)[i] as int],
            ) == Some(shocks_at(rows, n)[i]),
        forall|i: int|
            0 <= i < places(rows, false, n).len() ==> (#[trigger] places(rows, false, n)[i]) < n
                && table::value_of(
                rows,
                data::factor_names_view()[places(rows, false, n)[i] as int],
            ) is None,
        forall|k: usize|
            0 <= k < n ==> (if table::value_of(
                rows,
                #[trigger] data::factor_names_view()[k as int],
            ) is Some {
                places(rows, true, n).contains(k)
            } else {
                places(rows, false, n).contains(k)
            }),
    decreases n,
{
    if n > 0 {
        lemma_places_by_shock(rows, n - 1);
        lemma_places_partition(rows, n);
        lemma_places_partition(rows, n - 1);
        let (known, unknown) = (places(rows, true, n - 1), places(rows, false, n - 1));
        assert forall|i: int| 0 <= i < places(rows, true, n).len() implies (#[trigger] places(
            rows,
            true,
            n,
        )[i]) < n && table::value_of(
            rows,
            data::factor_names_view()[places(rows, true, n)[i] as int],
        ) == Some(shocks_at(rows, n)[i]) by {
            if i < known.len() {
                assert(places(rows, true, n)[i] == known[i]);
                assert(shocks_at(rows, n)[i] == shocks_at(rows, n - 1)[i]);
            }
        }
        assert forall|i: int| 0 <= i < places(rows, false, n).len() implies (#[trigger] places(
            rows,
            false,
            n,
        )[i]) < n && table::value_of(
            rows,
            data::factor_names_view()[places(rows, false, n)[i] as int],
        ) is None by {
            if i < unknown.len() {
                assert(places(rows, false, n)[i] == unknown[i]);
            }
        }
        assert forall|k: usize| 0 <= k < n implies (if table::value_of(
            rows,
            #[trigger] data::factor_names_view()[k as int],
        ) is Some {
            places(rows, true, n).contains(k)
        } else {
            places(rows, false, n).contains(k)
        }) by {
            if k < n - 1 {
                if known.contains(k) {
                    let i = choose|i: int| 0 <= i < known.len() && known[i] == k;
                    assert(places(rows, true, n)[i] == k);
                }
                if unknown.contains(k) {
                    let i = choose|i: int| 0 <= i < unknown.len() && unknown[i] == k;
                    assert(places(rows, false, n)[i] == k);
                }
            } else if table::value_of(rows, data::factor_names_view()[n - 1]) is Some {
                assert(places(rows, true, n)[known.len() as int] == k);
            } else {
                assert(places(rows, false, n)[unknown.len() as int] == k);
            }
        }
    }
}

/// The plan of a shock holds each factor on which a shock is given, with that
/// very shock, and on the other side each factor on which none is. The others
/// follow the given ones exactly where that is asked for and there are both,
/// and the shock is run again under crisis exactly where the present regime is
/// known and is another one.
pub proof fn lemma_plan_follows_the_shocks(
    plan: ShockPlan,
    rows: Rows<Double>,
    propagate: bool,
    regime: Option<u8>,
)
    requires
        plans(plan, rows, propagate, regime),
    ensures
        plan.known@.len() == plan.known_pct@.len(),
        plan.known@.len() + plan.unknown@.len() == 5,
        forall|i: int|
            0 <= i < plan.known@.len() ==> table::value_of(
                rows,
                data::factor_names_view()[(#[trigger] plan.known@[i]) as int],
            ) == Some(plan.known_pct@[i]),
        forall|i: int|
            0 <= i < plan.unknown@.len() ==> table::value_of(
                rows,
                data::factor_names_view()[(#[trigger] plan.unknown@[i]) as int],
            ) is None,
        forall|i: int, j: int|
            0 <= i < j < plan.known@.len() ==> plan.known@[i] < plan.known@[j],
        forall|i: int, j: int|
            0 <= i < j < plan.unknown@.len() ==> plan.unknown@[i] < plan.unknown@[j],
        forall|k: usize|
            0 <= k < 5 ==> (if table::value_of(
                rows,
                #[trigger] data::factor_names_view()[k as int],
            ) is Some {
                plan.known@.contains(k)
            } else {
                plan.unknown@.contains(k)
            }),
        plan.conditioned <==> propagate && plan.known@.len() > 0 && plan.unknown@.len() > 0,
        plan.crisis_rerun <==> regime is Some && regime->Some_0 != 2,
{
    data::lemma_factor_names();
    lemma_places_by_shock(rows, data::FACTOR_COUNT as int);
    lemma_places_partition(rows, data::FACTOR_COUNT as int);
    let (known, unknown) = (
        places(rows, true, data::FACTOR_COUNT as int),
        places(rows, false, data::FACTOR_COUNT as int),
    );
    assert forall|i: int, j: int| 0 <= i < j < plan.known@.len() implies plan.known@[i]
        < plan.known@[j] by {
        assert(known[i] < known[j]);
    }
    assert forall|i: int, j: int| 0 <= i < j < plan.unknown@.len() implies plan.unknown@[i]
        < plan.unknown@[j] by {
        assert(unknown[i] < unknown[j]);
    }
}

/// A name is refused as that of no factor exactly where one of the given names
/// is not one of the five.
pub proof fn lemma_strangers_are_refused(rows: Rows<Double>, n: int)
    requires
        0 <= n <= rows.len(),
    ensures
        match first_stranger(rows, n) {
            Some(name) => name != "MARKET"@ && name != "USDINR"@ && name != "BRENT"@ && name
                != "GOLD_USD"@ && name != "RATES_PROXY"@ && exists|i: int|
                0 <= i < n && (#[trigger] rows[i]).0 == name,
            None => forall|i: int|
                0 <= i < n ==> (#[trigger] rows[i]).0 == "MARKET"@ || rows[i].0 == "USDINR"@
                    || rows[i].0 == "BRENT"@ || rows[i].0 == "GOLD_USD"@ || rows[i].0
                    == "RATES_PROXY"@,
        },
    decreases n,
{
    data::lemma_factor_names();
    if n > 0 {
        lemma_strangers_are_refused(rows, n - 1);
        let name = rows[n - 1].0;
        let names = data::factor_names_view();
        if is_factor(name) {
            let k = choose|k: int| 0 <= k < names.len() && names[k] == name;
            assert(k == 0 || k == 1 || k == 2 || k == 3 || k == 4);
        } else {
            assert(!names.contains(name));
            assert(names[0] != name && names[1] != name && names[2] != name && names[3] != name
                && names[4] != name) by {
                if names[0] == name || names[1] == name || names[2] == name || names[3] == name
                    || names[4] == name {
                    assert(names.contains(name));
                }
            }
            assert(rows[n - 1].0 == name);
        }
    }
}

/// Decides what a shock asks for. Fails where a shock is on no factor, or
/// where the model was fitted on other stocks.
pub fn plan_factor_shock(
    input: &FactorShockInput,
    model_tickers: &Vec<String>,
    current_regime: Option<u8>,
) -> (res: Result<ShockPlan, ComputeError>)
    ensures
        match first_stranger(input.shocks_pct@, input.shocks_pct@.len() as int) {
            Some(name) => res is Err && res->Err_0@ == ComputeErrorView::InvalidInput(
                unknown_factor(name),
            ),
            None => if input.portfolio.tickers_view() != text::views(model_tickers@) {
                res is Err && res->Err_0@ == ComputeErrorView::InvalidInput(
                    message::plain(TICKER_MISMATCH@),
                )
            } else {
                res is Ok && plans(
                    res->Ok_0,
                    input.shocks_pct@,
                    input.propagate,
                    current_regime,
                )
            },
        },
{
    let names = data::factor_names();
    let ghost rows = input.shocks_pct@;
    let mut i: usize = 0;
    while i < input.shocks_pct.entries.len()
        invariant
            i <= input.shocks_pct.entries@.len(),
            rows == input.shocks_pct@,
            text::views(names@) == data::factor_names_view(),
            first_stranger(rows, i as int) is None,
        decreases input.shocks_pct.entries.len() - i,
    {
        let name = input.shocks_pct.entries[i].name.as_str();
        match text::position(&names, name) {
            Some(k) => {
                assert(text::views(names@)[k as int] == name@);
            },
            None => {
                proof {
                    if is_factor(name@) {
                        let k = choose|k: int|
                            0 <= k < data::factor_names_view().len()
                                && data::factor_names_view()[k] == name@;
                        assert(text::views(names@)[k] == names@[k]@);
                    }
                    lemma_stranger_stays(rows, i as int + 1, rows.len() as int);
                }
                let mut message = Message::of("unknown factor '");
                message.text(name);
                message.text("', expected one of ");
                message.text(FACTOR_LIST);
                assert(message@ =~= unknown_factor(name@));
                return Err(ComputeError::InvalidInput(message));
            },
        }
        i += 1;
    }
    match check_tickers(&input.portfolio, model_tickers) {
        Ok(_) => {},
        Err(e) => {
            return Err(e);
        },
    }
    let mut known: Vec<usize> = Vec::new();
    let mut unknown: Vec<usize> = Vec::new();
    let mut known_pct: Vec<Double> = Vec::new();
    let mut k: usize = 0;
    while k < names.len()
        invariant
            k <= names@.len(),
            names@.len() == data::FACTOR_COUNT,
            rows == input.shocks_pct@,
            text::views(names@) == data::factor_names_view(),
            known@ == places(rows, true, k as int),
            unknown@ == places(rows, false, k as int),
            known_pct@ == shocks_at(rows, k as int),
        decreases names.len() - k,
    {
        assert(text::views(names@)[k as int] == names@[k as int]@);
        match input.shocks_pct.get(names[k].as_str()) {
            Some(shock) => {
                known.push(k);
                known_pct.push(shock);
            },
            None => {
                unknown.push(k);
            },
        }
        k += 1;
    }
    let conditioned = input.propagate && unknown.len() > 0 && known.len() > 0;
    let crisis_rerun = match current_regime {
        Some(regime) => regime != CRISIS_REGIME,
        None => false,
    };
    Ok(ShockPlan { known, unknown, known_pct, conditioned, crisis_rerun })
}

/// The move of every factor: the given ones as given, the others as implied,
/// or zero where they are not conditioned.
pub fn full_shock(plan: &ShockPlan, known_values: &Vec<Double>, implied: &Vec<Double>) -> (res: Vec<Double>)
    requires
        exists|rows: Rows<Double>, propagate: bool, regime: Option<u8>| #[trigger]
            plans(*plan, rows, propagate, regime),
        known_values@.len() == plan.known@.len(),
        plan.conditioned ==> implied@.len() == plan.unknown@.len(),
    ensures
        res@.len() == data::FACTOR_COUNT,
        forall|i: int|
            0 <= i < plan.known@.len() ==> res@[(#[trigger] plan.known@[i]) as int] == known_values@[i],
        forall|j: int|
            0 <= j < plan.unknown@.len() ==> res@[(#[trigger] plan.unknown@[j]) as int] == (
            if plan.conditioned {
                implied@[j]
            } else {
                (Double { bits: 0 })
            }),
{
    let ghost (rows, propagate, regime) = choose|rows: Rows<Double>, propagate: bool, regime: Option<u8>|
        #[trigger] plans(*plan, rows, propagate, regime);
    proof {
        lemma_places_partition(rows, data::FACTOR_COUNT as int);
        lemma_known_unknown_disjoint(rows, data::FACTOR_COUNT as int);
    }
    let zero = Double::zero();
    let mut out: Vec<Double> = Vec::new();
    let mut n: usize = 0;
    while n < data::FACTOR_COUNT
        invariant
            n <= data::FACTOR_COUNT,
            out@.len() == n,
            zero == (Double { bits: 0 }),
            forall|k: int| 0 <= k < n ==> (#[trigger] out@[k]) == zero,
        decreases data::FACTOR_COUNT - n,
    {
        out.push(zero);
        n += 1;
    }
    let mut i: usize = 0;
    while i < plan.known.len()
        invariant
            i <= plan.known@.len(),
            out@.len() == data::FACTOR_COUNT,
            known_values@.len() == plan.known@.len(),
            zero == (Double { bits: 0 }),
            plan.known@ == places(rows, true, data::FACTOR_COUNT as int),
            plan.unknown@ == places(rows, false, data::FACTOR_COUNT as int),
            forall|g: bool, a: int|
                0 <= a < places(rows, g, data::FACTOR_COUNT as int).len() ==> (#[trigger] places(
                    rows,
                    g,
                    data::FACTOR_COUNT as int,
                )[a]) < data::FACTOR_COUNT,
            forall|g: bool, a: int, b: int|
                0 <= a < b < places(rows, g, data::FACTOR_COUNT as int).len() ==> (#[trigger] places(
                    rows,
                    g,
                    data::FACTOR_COUNT as int,
                )[a]) < (#[trigger] places(rows, g, data::FACTOR_COUNT as int)[b]),
            forall|a: int, b: int|
                0 <= a < plan.known@.len() && 0 <= b < plan.unknown@.len() ==> (
                #[trigger] plan.known@[a]) != (#[trigger] plan.unknown@[b]),
            forall|a: int|
                0 <= a < i ==> out@[(#[trigger] plan.known@[a]) as int] == known_values@[a],
            forall|b: int|
                0 <= b < plan.unknown@.len() ==> out@[(#[trigger] plan.unknown@[b]) as int] == zero,
        decreases plan.known.len() - i,
    {
        assert(places(rows, true, data::FACTOR_COUNT as int)[i as int] < data::FACTOR_COUNT);
        assert forall|a: int| 0 <= a < i implies plan.known@[a] != plan.known@[i as int] by {
            assert(places(rows, true, data::FACTOR_COUNT as int)[a] < places(
                rows,
                true,
                data::FACTOR_COUNT as int,
            )[i as int]);
        }
        out.set(plan.known[i], known_values[i]);
        i += 1;
    }
    if plan.conditioned {
        let mut j: usize = 0;
        while j < plan.unknown.len()
            invariant
                j <= plan.unknown@.len(),
                out@.len() == data::FACTOR_COUNT,
                implied@.len() == plan.unknown@.len(),
                plan.known@ == places(rows, true, data::FACTOR_COUNT as int),
                plan.unknown@ == places(rows, false, data::FACTOR_COUNT as int),
                forall|g: bool, a: int|
                    0 <= a < places(rows, g, data::FACTOR_COUNT as int).len() ==> (
                    #[trigger] places(rows, g, data::FACTOR_COUNT as int)[a]) < data::FACTOR_COUNT,
                forall|g: bool, a: int, b: int|
                    0 <= a < b < places(rows, g, data::FACTOR_COUNT as int).len() ==> (
                    #[trigger] places(rows, g, data::FACTOR_COUNT as int)[a]) < (#[trigger] places(
                        rows,
                        g,
                        data::FACTOR_COUNT as int,
                    )[b]),
                forall|a: int, b: int|
                    0 <= a < plan.known@.len() && 0 <= b < plan.unknown@.len() ==> (
                    #[trigger] plan.known@[a]) != (#[trigger] plan.unknown@[b]),
                forall|a: int|
                    0 <= a < plan.known@.len() ==> out@[(#[trigger] plan.known@[a]) as int]
                        == known_values@[a],
                forall|b: int|
                    0 <= b < j ==> out@[(#[trigger] plan.unknown@[b]) as int] == implied@[b],
            decreases plan.unknown.len() - j,
        {
            assert(places(rows, false, data::FACTOR_COUNT as int)[j as int] < data::FACTOR_COUNT);
            assert forall|b: int| 0 <= b < j implies plan.unknown@[b] != plan.unknown@[j as int] by {
                assert(places(rows, false, data::FACTOR_COUNT as int)[b] < places(
                    rows,
                    false,
                    data::FACTOR_COUNT as int,
                )[j as int]);
            }
            out.set(plan.unknown[j], implied[j]);
            j += 1;
        }
    }
    out
}

proof fn lemma_known_unknown_disjoint(rows: Rows<Double>, n: int)
    requires
        0 <= n <= data::FACTOR_COUNT,
    ensures
        forall|a: int, b: int|
            0 <= a < places(rows, true, n).len() && 0 <= b < places(rows, false, n).len() ==> (
            #[trigger] places(rows, true, n)[a]) != (#[trigger] places(rows, false, n)[b]),
    decreases n,
{
    if n > 0 {
        lemma_known_unknown_disjoint(rows, n - 1);
        lemma_places_partition(rows, n - 1);
        assert forall|a: int, b: int|
            0 <= a < places(rows, true, n).len() && 0 <= b < places(rows, false, n).len() implies (
        #[trigger] places(rows, true, n)[a]) != (#[trigger] places(rows, false, n)[b]) by {
            let (known, unknown) = (places(rows, true, n - 1), places(rows, false, n - 1));
            if a < known.len() {
                assert(known[a] < n - 1);
                assert(places(rows, true, n)[a] == known[a]);
            }
            if b < unknown.len() {
                assert(unknown[b] < n - 1);
                assert(places(rows, false, n)[b] == unknown[b]);
            }
        }
    }
}

// ---------------------------------------------------------------------------
// The result of a factor shock
// ---------------------------------------------------------------------------

/// What a shock does to one holding, without its name.
#[derive(Clone, Copy, Debug)]
pub struct HoldingFigures {
    pub value_inr: Double,
    pub log_return: Double,
    pub simple_return: Double,
    pub pnl_inr: Double,
}

/// The figures of one pricing pass.
#[derive(Debug)]
pub struct PricedShock {
    /// The implied moves, in the order of the unknown factors; empty where
    /// they are not conditioned.
    pub implied: Vec<ShockValue>,
    /// For each unknown factor the weight of each known one.
    pub coefficients: Vec<Vec<Double>>,
    /// One per holding.
    pub per_holding: Vec<HoldingFigures>,
    pub portfolio_pnl_inr: Double,
    pub portfolio_log_pnl_inr: Double,
    /// One per factor.
    pub attribution: Vec<Double>,
}

impl PricedShock {
    /// Whether the figures have the shape that the plan asks for.
    pub open spec fn fits(self, plan: ShockPlan, holdings: int) -> bool {
        &&& self.per_holding@.len() == holdings
        &&& self.attribution@.len() == data::FACTOR_COUNT
        &&& plan.conditioned ==> {
            &&& self.implied@.len() == plan.unknown@.len()
            &&& self.coefficients@.len() == plan.unknown@.len()
            &&& forall|u: int|
                0 <= u < self.coefficients@.len() ==> (#[trigger] self.coefficients@[u])@.len()
                    == plan.known@.len()
        }
    }
}

/// The names of the factors at the given places.
pub open spec fn names_at(at: Seq<usize>) -> Seq<Seq<char>> {
    at.map_values(|k: usize| data::factor_names_view()[k as int])
}

fn factor_names_at(at: &Vec<usize>) -> (res: Vec<String>)
    requires
        forall|i: int| 0 <= i < at@.len() ==> (#[trigger] at@[i]) < data::FACTOR_COUNT,
    ensures
        text::views(res@) == names_at(at@),
        res@.len() == at@.len(),
{
    let names = data::factor_names();
    let mut out: Vec<String> = Vec::new();
    let mut i: usize = 0;
    while i < at.len()
        invariant
            i <= at@.len(),
            text::views(names@) == data::factor_names_view(),
            names@.len() == data::FACTOR_COUNT,
            forall|i: int| 0 <= i < at@.len() ==> (#[trigger] at@[i]) < data::FACTOR_COUNT,
            out@.len() == i,
            forall|k: int|
                0 <= k < i ==> (#[trigger] out@[k])@ == data::factor_names_view()[at@[k] as int],
        decreases at.len() - i,
    {
        assert(text::views(names@)[at@[i as int] as int] == names@[at@[i as int] as int]@);
        out.push(text::copy(names[at[i]].as_str()));
        i += 1;
    }
    assert(text::views(out@) =~= names_at(at@));
    out
}

/// The implied moves under their names: none where nothing is conditioned.
pub open spec fn implied_rows(plan: ShockPlan, priced: PricedShock) -> Rows<ShockValue> {
    if plan.conditioned {
        table::rows_of(names_at(plan.unknown@), priced.implied@, plan.unknown@.len() as int)
    } else {
        seq![]
    }
}

fn implied_table(plan: &ShockPlan, priced: &PricedShock, holdings: usize) -> (res: Table<ShockValue>)
    requires
        priced.fits(*plan, holdings as int),
        forall|i: int|
            0 <= i < plan.unknown@.len() ==> (#[trigger] plan.unknown@[i]) < data::FACTOR_COUNT,
    ensures
        res@ == implied_rows(*plan, *priced),
{
    if plan.conditioned {
        let names = factor_names_at(&plan.unknown);
        Table::of(&names, &priced.implied)
    } else {
        Table::new()
    }
}

/// Whether `results` are the figures under the tickers of the holdings.
pub open spec fn named_results(
    results: Seq<HoldingShockResult>,
    portfolio: Portfolio,
    figures: Seq<HoldingFigures>,
) -> bool {
    &&& results.len() == portfolio.holdings@.len()
    &&& forall|i: int|
        0 <= i < results.len() ==> {
            &&& (#[trigger] results[i]).ticker@ == portfolio.holdings@[i].ticker@
            &&& results[i].value_inr == figures[i].value_inr
            &&& results[i].log_return == figures[i].log_return
            &&& results[i].simple_return == figures[i].simple_return
            &&& results[i].pnl_inr == figures[i].pnl_inr
        }
}

fn name_results(portfolio: &Portfolio, figures: &Vec<HoldingFigures>) -> (res: Vec<HoldingShockResult>)
    requires
        figures@.len() == portfolio.holdings@.len(),
    ensures
        named_results(res@, *portfolio, figures@),
{
    let mut out: Vec<HoldingShockResult> = Vec::new();
    let mut i: usize = 0;
    while i < figures.len()
        invariant
            i <= figures@.len(),
            figures@.len() == portfolio.holdings@.len(),
            out@.len() == i,
            forall|k: int|
                0 <= k < i ==> {
                    &&& (#[trigger] out@[k]).ticker@ == portfolio.holdings@[k].ticker@
                    &&& out@[k].value_inr == figures@[k].value_inr
                    &&& out@[k].log_return == figures@[k].log_return
                    &&& out@[k].simple_return == figures@[k].simple_return
                    &&& out@[k].pnl_inr == figures@[k].pnl_inr
                },
        decreases figures.len() - i,
    {
        let f = figures[i];
        out.push(
            HoldingShockResult {
                ticker: text::copy(portfolio.holdings[i].ticker.as_str()),
                value_inr: f.value_inr,
                log_return: f.log_return,
                simple_return: f.simple_return,
                pnl_inr: f.pnl_inr,
            },
        );
        i += 1;
    }
    out
}

/// The numbers of all factors under their names.
pub open spec fn factor_rows(values: Seq<Double>) -> Rows<Double> {
    table::rows_of(data::factor_names_view(), values, data::FACTOR_COUNT as int)
}

/// Each factor has its own number under its name: the first the market's, then
/// those of the dollar, of oil, of gold and of rates. There is nothing else.
pub proof fn lemma_factor_rows(values: Seq<Double>)
    requires
        values.len() == 5,
    ensures
        table::value_of(factor_rows(values), "MARKET"@) == Some(values[0]),
        table::value_of(factor_rows(values), "USDINR"@) == Some(values[1]),
        table::value_of(factor_rows(values), "BRENT"@) == Some(values[2]),
        table::value_of(factor_rows(values), "GOLD_USD"@) == Some(values[3]),
        table::value_of(factor_rows(values), "RATES_PROXY"@) == Some(values[4]),
        forall|r: (Seq<char>, Double)| #[trigger]
            factor_rows(values).contains(r) ==> exists|k: int|
                0 <= k < 5 && r.0 == #[trigger] data::factor_names_view()[k] && r.1 == values[k],
{
    data::lemma_factor_names();
    let names = data::factor_names_view();
    let rows = factor_rows(values);
    table::lemma_rows_of_holds(names, values, 5);
    assert forall|k: int| 0 <= k < 5 implies table::value_of(rows, #[trigger] names[k]) == Some(
        values[k],
    ) by {
        assert(rows.contains((names[k], values[k])));
        table::lemma_found_is_held(rows, names[k], values[k]);
    }
    assert(table::value_of(rows, names[0]) == Some(values[0]));
    assert(table::value_of(rows, names[1]) == Some(values[1]));
    assert(table::value_of(rows, names[2]) == Some(values[2]));
    assert(table::value_of(rows, names[3]) == Some(values[3]));
    assert(table::value_of(rows, names[4]) == Some(values[4]));
}

/// Puts the numbers of all factors under their names.
pub fn factor_table(values: &Vec<Double>) -> (res: Table<Double>)
    requires
        values@.len() == data::FACTOR_COUNT,
    ensures
        res@ == factor_rows(values@),
{
    let names = data::factor_names();
    Table::of(&names, values)
}

/// Whether `coefficients` lists the weights of the known factors for each
/// unknown one; it is empty where nothing is conditioned.
pub open spec fn named_coefficients(
    coefficients: Seq<(String, Table<Double>)>,
    plan: ShockPlan,
    priced: PricedShock,
) -> bool {
    if plan.conditioned {
        &&& coefficients.len() == plan.unknown@.len()
        &&& forall|u: int|
            0 <= u < coefficients.len() ==> {
                &&& (#[trigger] coefficients[u]).0@ == names_at(plan.unknown@)[u]
                &&& coefficients[u].1@ == table::rows_of(
                    names_at(plan.known@),
                    priced.coefficients@[u]@,
                    plan.known@.len() as int,
                )
            }
    } else {
        coefficients.len() == 0
    }
}

fn name_coefficients(plan: &ShockPlan, priced: &PricedShock, holdings: usize) -> (res: Vec<
    (String, Table<Double>),
>)
    requires
        priced.fits(*plan, holdings as int),
        forall|i: int|
            0 <= i < plan.unknown@.len() ==> (#[trigger] plan.unknown@[i]) < data::FACTOR_COUNT,
        forall|i: int| 0 <= i < plan.known@.len() ==> (#[trigger] plan.known@[i]) < data::FACTOR_COUNT,
    ensures
        named_coefficients(res@, *plan, *priced),
{
    let mut out: Vec<(String, Table<Double>)> = Vec::new();
    if !plan.conditioned {
        return out;
    }
    let rows = factor_names_at(&plan.unknown);
    let columns = factor_names_at(&plan.known);
    let mut u: usize = 0;
    while u < rows.len()
        invariant
            u <= rows@.len(),
            rows@.len() == plan.unknown@.len(),
            columns@.len() == plan.known@.len(),
            text::views(rows@) == names_at(plan.unknown@),
            text::views(columns@) == names_at(plan.known@),
            priced.coefficients@.len() == plan.unknown@.len(),
            forall|u: int|
                0 <= u < priced.coefficients@.len() ==> (#[trigger] priced.coefficients@[u])@.len()
                    == plan.known@.len(),
            out@.len() == u,
            forall|k: int|
                0 <= k < u ==> {
                    &&& (#[trigger] out@[k]).0@ == names_at(plan.unknown@)[k]
                    &&& out@[k].1@ == table::rows_of(
                        names_at(plan.known@),
                        priced.coefficients@[k]@,
                        plan.known@.len() as int,
                    )
                },
        decreases rows.len() - u,
    {
        assert(text::views(rows@)[u as int] == rows@[u as int]@);
        let row = Table::of(&columns, &priced.coefficients[u]);
        out.push((text::copy(rows[u].as_str()), row));
        u += 1;
    }
    out
}

/// Whether `output` is the result of a shock with the given figures.
pub open spec fn shock_result(
    output: FactorShockOutput,
    input: FactorShockInput,
    plan: ShockPlan,
    given: Seq<ShockValue>,
    primary: PricedShock,
    crisis: Option<PricedShock>,
) -> bool {
    &&& output.linear_approximation == input.linear_approximation
    &&& output.given_shocks@ == table::rows_of(
        names_at(plan.known@),
        given,
        plan.known@.len() as int,
    )
    &&& output.implied_shocks@ == implied_rows(plan, primary)
    &&& named_results(output.per_holding@, input.portfolio, primary.per_holding@)
    &&& output.portfolio_pnl_inr == primary.portfolio_pnl_inr
    &&& output.portfolio_log_pnl_inr == primary.portfolio_log_pnl_inr
    &&& output.factor_attribution_log_inr@ == factor_rows(primary.attribution@)
    &&& named_coefficients(output.conditional_coefficients@, plan, primary)
    &&& match crisis {
        Some(c) => {
            &&& output.crisis_comparison is Some
            &&& crisis_result(output.crisis_comparison->Some_0, input, plan, c)
            &&& output.crisis_comparison_note is Some
            &&& output.crisis_comparison_note->Some_0@ == CRISIS_NOTE@
        },
        None => output.crisis_comparison is None && output.crisis_comparison_note is None,
    }
}

/// Whether `output` is the outcome of a rerun with the given figures.
pub open spec fn crisis_result(
    output: CrisisComparisonOutput,
    input: FactorShockInput,
    plan: ShockPlan,
    figures: PricedShock,
) -> bool {
    &&& output.implied_shocks@ == implied_rows(plan, figures)
    &&& named_results(output.per_holding@, input.portfolio, figures.per_holding@)
    &&& output.portfolio_pnl_inr == figures.portfolio_pnl_inr
    &&& output.portfolio_log_pnl_inr == figures.portfolio_log_pnl_inr
    &&& output.factor_attribution_log_inr@ == factor_rows(figures.attribution@)
}

/// The correlation matrix under the factor names.
pub fn correlation_matrix(rows: &Vec<Vec<Double>>) -> (res: CorrelationMatrix)
    ensures
        text::views(res.factor_names@) == data::factor_names_view(),
        model::rows_view(res.rows@) == model::rows_view(rows@),
{
    CorrelationMatrix { factor_names: data::factor_names(), rows: model::copy_matrix(rows) }
}

proof fn lemma_names_at_differ(at: Seq<usize>)
    requires
        forall|i: int| 0 <= i < at.len() ==> (#[trigger] at[i]) < 5,
        forall|i: int, j: int| 0 <= i < j < at.len() ==> at[i] < at[j],
    ensures
        names_at(at).len() == at.len(),
        forall|i: int, j: int| 0 <= i < j < at.len() ==> names_at(at)[i] != names_at(at)[j],
{
    data::lemma_factor_names();
    assert forall|i: int, j: int| 0 <= i < j < at.len() implies names_at(at)[i] != names_at(
        at,
    )[j] by {
        assert(at[i] < at[j] && at[j] < 5);
        assert(data::factor_names_view()[at[i] as int] != data::factor_names_view()[at[j] as int]);
    }
}

/// What a shock reports: every given move under the name of its factor, every
/// implied one likewise, each holding with its own figures in the order of the
/// portfolio, the result and the log result of the whole, and each factor with
/// its own part of it. The rerun under crisis is there exactly where one was
/// made, and reports its own figures.
pub proof fn lemma_shock_reports_its_figures(
    output: FactorShockOutput,
    input: FactorShockInput,
    plan: ShockPlan,
    given: Seq<ShockValue>,
    primary: PricedShock,
    crisis: Option<PricedShock>,
    regime: Option<u8>,
)
    requires
        shock_result(output, input, plan, given, primary, crisis),
        plans(plan, input.shocks_pct@, input.propagate, regime),
        given.len() == plan.known@.len(),
        primary.fits(plan, input.portfolio.holdings@.len() as int),
        crisis is Some ==> crisis->Some_0.fits(plan, input.portfolio.holdings@.len() as int),
    ensures
        forall|i: int|
            0 <= i < plan.known@.len() ==> table::value_of(
                output.given_shocks@,
                data::factor_names_view()[(#[trigger] plan.known@[i]) as int],
            ) == Some(given[i]),
        plan.conditioned ==> forall|j: int|
            0 <= j < plan.unknown@.len() ==> table::value_of(
                output.implied_shocks@,
                data::factor_names_view()[(#[trigger] plan.unknown@[j]) as int],
            ) == Some(primary.implied@[j]),
        !plan.conditioned ==> output.implied_shocks@.len() == 0,
        output.per_holding@.len() == input.portfolio.holdings@.len(),
        forall|h: int|
            0 <= h < output.per_holding@.len() ==> {
                let (r, f) = (#[trigger] output.per_holding@[h], primary.per_holding@[h]);
                &&& r.ticker@ == input.portfolio.holdings@[h].ticker@
                &&& (r.value_inr, r.log_return, r.simple_return, r.pnl_inr) == (
                    f.value_inr,
                    f.log_return,
                    f.simple_return,
                    f.pnl_inr,
                )
            },
        output.portfolio_pnl_inr == primary.portfolio_pnl_inr,
        output.portfolio_log_pnl_inr == primary.portfolio_log_pnl_inr,
        table::value_of(output.factor_attribution_log_inr@, "MARKET"@) == Some(
            primary.attribution@[0],
        ),
        table::value_of(output.factor_attribution_log_inr@, "USDINR"@) == Some(
            primary.attribution@[1],
        ),
        table::value_of(output.factor_attribution_log_inr@, "BRENT"@) == Some(
            primary.attribution@[2],
        ),
        table::value_of(output.factor_attribution_log_inr@, "GOLD_USD"@) == Some(
            primary.attribution@[3],
        ),
        table::value_of(output.factor_attribution_log_inr@, "RATES_PROXY"@) == Some(
            primary.attribution@[4],
        ),
        plan.conditioned ==> forall|u: int, k: int|
            0 <= u < plan.unknown@.len() && 0 <= k < plan.known@.len() ==> {
                let row = output.conditional_coefficients@[u];
                &&& row.0@ == data::factor_names_view()[(#[trigger] plan.unknown@[u]) as int]
                &&& table::value_of(
                    row.1@,
                    data::factor_names_view()[(#[trigger] plan.known@[k]) as int],
                ) == Some(primary.coefficients@[u]@[k])
            },
        output.crisis_comparison is Some <==> crisis is Some,
        output.crisis_comparison_note is Some <==> crisis is Some,
        crisis is Some ==> {
            let (c, f) = (output.crisis_comparison->Some_0, crisis->Some_0);
            &&& c.portfolio_pnl_inr == f.portfolio_pnl_inr
            &&& c.portfolio_log_pnl_inr == f.portfolio_log_pnl_inr
            &&& c.per_holding@.len() == input.portfolio.holdings@.len()
            &&& forall|h: int|
                0 <= h < c.per_holding@.len() ==> (#[trigger] c.per_holding@[h]).ticker@
                    == input.portfolio.holdings@[h].ticker@ && c.per_holding@[h].pnl_inr
                    == f.per_holding@[h].pnl_inr && c.per_holding@[h].log_return
                    == f.per_holding@[h].log_return
            &&& table::value_of(c.factor_attribution_log_inr@, "MARKET"@) == Some(f.attribution@[0])
            &&& plan.conditioned ==> forall|j: int|
                0 <= j < plan.unknown@.len() ==> table::value_of(
                    c.implied_shocks@,
                    data::factor_names_view()[(#[trigger] plan.unknown@[j]) as int],
                ) == Some(f.implied@[j])
        },
{
    data::lemma_factor_names();
    lemma_planned_places(plan, input);
    lemma_plan_follows_the_shocks(plan, input.shocks_pct@, input.propagate, regime);
    lemma_names_at_differ(plan.known@);
    lemma_names_at_differ(plan.unknown@);
    lemma_factor_rows(primary.attribution@);
    let (known, unknown) = (names_at(plan.known@), names_at(plan.unknown@));
    assert forall|i: int| 0 <= i < plan.known@.len() implies table::value_of(
        output.given_shocks@,
        data::factor_names_view()[(#[trigger] plan.known@[i]) as int],
    ) == Some(given[i]) by {
        table::lemma_value_of_rows_of(known, given, known.len() as int, i);
        assert(known[i] == data::factor_names_view()[plan.known@[i] as int]);
    }
    if plan.conditioned {
        assert forall|j: int| 0 <= j < plan.unknown@.len() implies table::value_of(
            output.implied_shocks@,
            data::factor_names_view()[(#[trigger] plan.unknown@[j]) as int],
        ) == Some(primary.implied@[j]) by {
            table::lemma_value_of_rows_of(unknown, primary.implied@, unknown.len() as int, j);
            assert(unknown[j] == data::factor_names_view()[plan.unknown@[j] as int]);
        }
        assert forall|u: int, k: int|
            0 <= u < plan.unknown@.len() && 0 <= k < plan.known@.len() implies ({
            let row = output.conditional_coefficients@[u];
            &&& row.0@ == data::factor_names_view()[(#[trigger] plan.unknown@[u]) as int]
            &&& table::value_of(
                row.1@,
                data::factor_names_view()[(#[trigger] plan.known@[k]) as int],
            ) == Some(primary.coefficients@[u]@[k])
        }) by {
            assert(unknown[u] == data::factor_names_view()[plan.unknown@[u] as int]);
            assert(known[k] == data::factor_names_view()[plan.known@[k] as int]);
            assert(output.conditional_coefficients@[u].0@ == unknown[u]);
            table::lemma_value_of_rows_of(
                known,
                primary.coefficients@[u]@,
                known.len() as int,
                k,
            );
        }
    }
    if let Some(f) = crisis {
        lemma_factor_rows(f.attribution@);
        if plan.conditioned {
            assert forall|j: int| 0 <= j < plan.unknown@.len() implies table::value_of(
                output.crisis_comparison->Some_0.implied_shocks@,
                data::factor_names_view()[(#[trigger] plan.unknown@[j]) as int],
            ) == Some(f.implied@[j]) by {
                table::lemma_value_of_rows_of(unknown, f.implied@, unknown.len() as int, j);
                assert(unknown[j] == data::factor_names_view()[plan.unknown@[j] as int]);
            }
        }
    }
}

proof fn lemma_planned_places(plan: ShockPlan, input: FactorShockInput)
    requires
        exists|regime: Option<u8>| #[trigger]
            plans(plan, input.shocks_pct@, input.propagate, regime),
    ensures
        forall|i: int|
            0 <= i < plan.known@.len() ==> (#[trigger] plan.known@[i]) < data::FACTOR_COUNT,
        forall|i: int|
            0 <= i < plan.unknown@.len() ==> (#[trigger] plan.unknown@[i]) < data::FACTOR_COUNT,
{
    lemma_places_partition(input.shocks_pct@, data::FACTOR_COUNT as int);
    assert forall|i: int| 0 <= i < plan.unknown@.len() implies (#[trigger] plan.unknown@[i])
        < data::FACTOR_COUNT by {
        assert(places(input.shocks_pct@, false, data::FACTOR_COUNT as int)[i] < data::FACTOR_COUNT);
    }
    assert forall|i: int| 0 <= i < plan.known@.len() implies (#[trigger] plan.known@[i])
        < data::FACTOR_COUNT by {
        assert(places(input.shocks_pct@, true, data::FACTOR_COUNT as int)[i] < data::FACTOR_COUNT);
    }
}

/// The log move of a factor: the given one, else the implied one, else none.
pub open spec fn log_move(
    given: Rows<ShockValue>,
    implied: Rows<ShockValue>,
    factor: Seq<char>,
) -> Double {
    match table::value_of(given, factor) {
        Some(value) => value.log,
        None => match table::value_of(implied, factor) {
            Some(value) => value.log,
            None => Double { bits: 0 },
        },
    }
}

/// A factor moves as it was given to; else as is implied for it; else not at
/// all.
pub proof fn lemma_log_move(
    given: Rows<ShockValue>,
    implied: Rows<ShockValue>,
    factor: Seq<char>,
)
    ensures
        table::value_of(given, factor) is Some ==> log_move(given, implied, factor)
            == table::value_of(given, factor)->Some_0.log,
        table::value_of(given, factor) is None && table::value_of(implied, factor) is Some
            ==> log_move(given, implied, factor) == table::value_of(implied, factor)->Some_0.log,
        table::value_of(given, factor) is None && table::value_of(implied, factor) is None
            ==> log_move(given, implied, factor).bits == 0,
{
}

fn log_move_of(given: &Table<ShockValue>, implied: &Table<ShockValue>, factor: &str) -> (res: Double)
    ensures
        res == log_move(given@, implied@, factor@),
{
    match given.get(factor) {
        Some(value) => value.log,
        None => match implied.get(factor) {
            Some(value) => value.log,
            None => Double::zero(),
        },
    }
}

/// The two log moves that add up to that of gold in rupees: gold's own in
/// dollars and the dollar's in rupees, each given or implied.
pub fn gold_inr_moves(
    input: &FactorShockInput,
    plan: &ShockPlan,
    given: &Vec<ShockValue>,
    primary: &PricedShock,
) -> (res: (Double, Double))
    requires
        exists|regime: Option<u8>| #[trigger]
            plans(*plan, input.shocks_pct@, input.propagate, regime),
        given@.len() == plan.known@.len(),
        primary.fits(*plan, input.portfolio.holdings@.len() as int),
    ensures
        ({
            let known = table::rows_of(names_at(plan.known@), given@, plan.known@.len() as int);
            let implied = implied_rows(*plan, *primary);
            &&& res.0 == log_move(known, implied, "GOLD_USD"@)
            &&& res.1 == log_move(known, implied, "USDINR"@)
        }),
{
    proof {
        lemma_planned_places(*plan, *input);
    }
    let known = Table::of(&factor_names_at(&plan.known), given);
    let implied = implied_table(plan, primary, input.portfolio.holdings.len());
    (log_move_of(&known, &implied, "GOLD_USD"), log_move_of(&known, &implied, "USDINR"))
}

/// Puts the result of a factor shock together: the given and implied moves,
/// the effect on each holding and on the portfolio, its attribution to the
/// factors, and the comparison with a crisis where the plan asks for one.
pub fn run_factor_shock(
    input: &FactorShockInput,
    plan: &ShockPlan,
    given: &Vec<ShockValue>,
    primary: &PricedShock,
    crisis: &Option<PricedShock>,
    whole_pnl: &WholeRupees,
    gold_inr: ShockValue,
    correlation: &Vec<Vec<Double>>,
) -> (res: FactorShockOutput)
    requires
        exists|regime: Option<u8>| #[trigger]
            plans(*plan, input.shocks_pct@, input.propagate, regime),
        given@.len() == plan.known@.len(),
        primary.fits(*plan, input.portfolio.holdings@.len() as int),
        crisis is Some == plan.crisis_rerun,
        crisis is Some ==> crisis->Some_0.fits(*plan, input.portfolio.holdings@.len() as int),
    ensures
        shock_result(res, *input, *plan, given@, *primary, *crisis),
        res.formatted_pnl_inr@ == crate::format::rupees(whole_pnl.negative, whole_pnl.digits@),
        res.gold_inr_implied_move == gold_inr,
        text::views(res.factor_correlation.factor_names@) == data::factor_names_view(),
        model::rows_view(res.factor_correlation.rows@) == model::rows_view(correlation@),
{
    proof {
        lemma_planned_places(*plan, *input);
    }
    let holdings: usize = input.portfolio.holdings.len();
    let known_names = factor_names_at(&plan.known);
    let (comparison, comparison_note) = match crisis {
        Some(c) => (
            Some(
                CrisisComparisonOutput {
                    implied_shocks: implied_table(plan, c, holdings),
                    per_holding: name_results(&input.portfolio, &c.per_holding),
                    portfolio_pnl_inr: c.portfolio_pnl_inr,
                    portfolio_log_pnl_inr: c.portfolio_log_pnl_inr,
                    factor_attribution_log_inr: factor_table(&c.attribution),
                },
            ),
            Some(text::copy(CRISIS_NOTE)),
        ),
        None => (None, None),
    };
    FactorShockOutput {
        linear_approximation: input.linear_approximation,
        given_shocks: Table::of(&known_names, given),
        implied_shocks: implied_table(plan, primary, holdings),
        per_holding: name_results(&input.portfolio, &primary.per_holding),
        portfolio_pnl_inr: primary.portfolio_pnl_inr,
        formatted_pnl_inr: crate::format::format_inr(whole_pnl),
        portfolio_log_pnl_inr: primary.portfolio_log_pnl_inr,
        factor_attribution_log_inr: factor_table(&primary.attribution),
        factor_correlation: correlation_matrix(correlation),
        conditional_coefficients: name_coefficients(plan, primary, holdings),
        gold_inr_implied_move: gold_inr,
        crisis_comparison: comparison,
        crisis_comparison_note: comparison_note,
    }
}

// ---------------------------------------------------------------------------
// Risk decomposition
// ---------------------------------------------------------------------------

/// A question where the risk of a portfolio comes from.
#[derive(Debug)]
pub struct RiskDecompositionInput {
    pub portfolio: Portfolio,
    pub frequency: Frequency,
    pub window: Option<usize>,
}

impl RiskDecompositionInput {
    /// The window asked for, or the default of the frequency.
    pub fn resolved_window(&self) -> (res: usize)
        ensures
            res == model::window_or_default(self.window, self.frequency),
    {
        model::resolve_window(self.window, self.frequency)
    }
}

/// The risk that one stock contributes.
#[derive(Debug)]
pub struct StockContribution {
    pub ticker: String,
    pub contribution: Double,
    pub fraction_of_vol: Double,
}

/// The risk that one factor contributes.
#[derive(Debug)]
pub struct FactorContribution {
    pub factor: String,
    pub contribution: Double,
    pub fraction_of_vol: Double,
    pub fraction_of_vol_pct: Double,
}

/// Where the risk of a portfolio comes from.
#[derive(Debug)]
pub struct RiskDecompositionOutput {
    pub portfolio_vol_annualized: Double,
    pub portfolio_vol_annualized_pct: Double,
    pub by_stock: Vec<StockContribution>,
    pub by_factor: Vec<FactorContribution>,
    pub specific_risk_contribution: Double,
    pub specific_risk_fraction_of_vol: Double,
    pub specific_risk_fraction_of_vol_pct: Double,
    pub portfolio_betas: Table<Double>,
    pub factor_correlation: CorrelationMatrix,
}

/// The contribution of one part to the volatility, and its fraction of it,
/// also in percent.
#[derive(Clone, Copy, Debug)]
pub struct Contribution {
    pub amount: Double,
    pub fraction: Double,
    pub fraction_pct: Double,
}

/// The figures of a risk decomposition. Contributions mean something only
/// where the volatility is above zero.
#[derive(Debug)]
pub struct RiskFigures {
    pub vol: Double,
    pub vol_pct: Double,
    /// One per stock.
    pub stocks: Vec<Contribution>,
    /// One per factor.
    pub factors: Vec<Contribution>,
    pub specific: Contribution,
    /// One per factor.
    pub betas: Vec<Double>,
    pub correlation: Vec<Vec<Double>>,
}

/// A contribution as it is reported: nothing where there is no volatility.
pub open spec fn reported(vol: Double, part: Contribution) -> Contribution {
    let zero = Double { bits: 0 };
    if zero.below(vol) {
        part
    } else {
        Contribution { amount: zero, fraction: zero, fraction_pct: zero }
    }
}

/// A contribution is reported as it is where there is volatility, and as
/// nothing in all its three figures where there is none.
pub proof fn lemma_reported(vol: Double, part: Contribution)
    ensures
        !vol.nan() && vol.rank() > 0 ==> reported(vol, part) == part,
        vol.nan() || vol.rank() <= 0 ==> reported(vol, part).amount.bits == 0 && reported(
            vol,
            part,
        ).fraction.bits == 0 && reported(vol, part).fraction_pct.bits == 0,
{
}

fn report(vol: Double, part: Contribution) -> (res: Contribution)
    ensures
        res == reported(vol, part),
{
    let zero = Double::zero();
    if zero.lt(vol) {
        part
    } else {
        Contribution { amount: zero, fraction: zero, fraction_pct: zero }
    }
}

/// Puts a risk decomposition together. Fails where the model was fitted on
/// other stocks.
pub fn run_risk_decomposition(
    input: &RiskDecompositionInput,
    model_tickers: &Vec<String>,
    figures: &RiskFigures,
) -> (res: Result<RiskDecompositionOutput, ComputeError>)
    requires
        figures.stocks@.len() == input.portfolio.holdings@.len(),
        figures.factors@.len() == data::FACTOR_COUNT,
        figures.betas@.len() == data::FACTOR_COUNT,
    ensures
        res is Ok <==> input.portfolio.tickers_view() == text::views(model_tickers@),
        res is Err ==> res->Err_0@ == ComputeErrorView::InvalidInput(
            message::plain(TICKER_MISMATCH@),
        ),
        res is Ok ==> ({
            let out = res->Ok_0;
            &&& out.portfolio_vol_annualized == figures.vol
            &&& out.portfolio_vol_annualized_pct == figures.vol_pct
            &&& out.by_stock@.len() == input.portfolio.holdings@.len()
            &&& forall|i: int|
                0 <= i < out.by_stock@.len() ==> {
                    &&& (#[trigger] out.by_stock@[i]).ticker@ == input.portfolio.holdings@[i].ticker@
                    &&& out.by_stock@[i].contribution == reported(
                        figures.vol,
                        figures.stocks@[i],
                    ).amount
                    &&& out.by_stock@[i].fraction_of_vol == reported(
                        figures.vol,
                        figures.stocks@[i],
                    ).fraction
                }
            &&& out.by_factor@.len() == data::FACTOR_COUNT
            &&& forall|k: int|
                0 <= k < data::FACTOR_COUNT ==> {
                    &&& (#[trigger] out.by_factor@[k]).factor@ == data::factor_names_view()[k]
                    &&& out.by_factor@[k].contribution == reported(
                        figures.vol,
                        figures.factors@[k],
                    ).amount
                    &&& out.by_factor@[k].fraction_of_vol == reported(
                        figures.vol,
                        figures.factors@[k],
                    ).fraction
                    &&& out.by_factor@[k].fraction_of_vol_pct == reported(
                        figures.vol,
                        figures.factors@[k],
                    ).fraction_pct
                }
            &&& out.specific_risk_contribution == reported(figures.vol, figures.specific).amount
            &&& out.specific_risk_fraction_of_vol == reported(
                figures.vol,
                figures.specific,
            ).fraction
            &&& out.specific_risk_fraction_of_vol_pct == reported(
                figures.vol,
                figures.specific,
            ).fraction_pct
            &&& out.portfolio_betas@ == factor_rows(figures.betas@)
            &&& text::views(out.factor_correlation.factor_names@) == data::factor_names_view()
            &&& model::rows_view(out.factor_correlation.rows@) == model::rows_view(
                figures.correlation@,
            )
        }),
{
    match check_tickers(&input.portfolio, model_tickers) {
        Ok(_) => {},
        Err(e) => {
            return Err(e);
        },
    }
    let mut by_stock: Vec<StockContribution> = Vec::new();
    let mut i: usize = 0;
    while i < figures.stocks.len()
        invariant
            i <= figures.stocks@.len(),
            figures.stocks@.len() == input.portfolio.holdings@.len(),
            by_stock@.len() == i,
            forall|k: int|
                0 <= k < i ==> {
                    &&& (#[trigger] by_stock@[k]).ticker@ == input.portfolio.holdings@[k].ticker@
                    &&& by_stock@[k].contribution == reported(
                        figures.vol,
                        figures.stocks@[k],
                    ).amount
                    &&& by_stock@[k].fraction_of_vol == reported(
                        figures.vol,
                        figures.stocks@[k],
                    ).fraction
                },
        decreases figures.stocks.len() - i,
    {
        let part = report(figures.vol, figures.stocks[i]);
        by_stock.push(
            StockContribution {
                ticker: text::copy(input.portfolio.holdings[i].ticker.as_str()),
                contribution: part.amount,
                fraction_of_vol: part.fraction,
            },
        );
        i += 1;
    }
    let names = data::factor_names();
    let mut by_factor: Vec<FactorContribution> = Vec::new();
    let mut f: usize = 0;
    while f < names.len()
        invariant
            f <= names@.len(),
            names@.len() == data::FACTOR_COUNT,
            figures.factors@.len() == data::FACTOR_COUNT,
            text::views(names@) == data::factor_names_view(),
            by_factor@.len() == f,
            forall|k: int|
                0 <= k < f ==> {
                    &&& (#[trigger] by_factor@[k]).factor@ == data::factor_names_view()[k]
                    &&& by_factor@[k].contribution == reported(
                        figures.vol,
                        figures.factors@[k],
                    ).amount
                    &&& by_factor@[k].fraction_of_vol == reported(
                        figures.vol,
                        figures.factors@[k],
                    ).fraction
                    &&& by_factor@[k].fraction_of_vol_pct == reported(
                        figures.vol,
                        figures.factors@[k],
                    ).fraction_pct
                },
        decreases names.len() - f,
    {
        assert(text::views(names@)[f as int] == names@[f as int]@);
        let part = report(figures.vol, figures.factors[f]);
        by_factor.push(
            FactorContribution {
                factor: text::copy(names[f].as_str()),
                contribution: part.amount,
                fraction_of_vol: part.fraction,
                fraction_of_vol_pct: part.fraction_pct,
            },
        );
        f += 1;
    }
    let specific = report(figures.vol, figures.specific);
    Ok(
        RiskDecompositionOutput {
            portfolio_vol_annualized: figures.vol,
            portfolio_vol_annualized_pct: figures.vol_pct,
            by_stock,
            by_factor,
            specific_risk_contribution: specific.amount,
            specific_risk_fraction_of_vol: specific.fraction,
            specific_risk_fraction_of_vol_pct: specific.fraction_pct,
            portfolio_betas: factor_table(&figures.betas),
            factor_correlation: correlation_matrix(&figures.correlation),
        },
    )
}

// ---------------------------------------------------------------------------
// JSON
// ---------------------------------------------------------------------------

impl ShockValue {
    /// The move as a JSON object.
    pub open spec fn json(self) -> JsonView {
        JsonView::empty().with("simple"@, JsonView::of_double(self.simple)).with(
            "log"@,
            JsonView::of_double(self.log),
        )
    }

    /// Each field of the object holds the figure that it is named after.
    pub proof fn lemma_json_fields(self)
        ensures
            self.json().field("simple"@) == Some(JsonView::of_double(self.simple)),
            self.json().field("log"@) == Some(JsonView::of_double(self.log)),
    {
        broadcast use crate::json::group_fields;

        reveal_strlit("simple");
        reveal_strlit("log");
        assert("simple"@.len() == 6);
        assert("log"@.len() == 3);
    }

    /// The move as a JSON object.
    pub fn to_json(&self) -> (res: Json)
        ensures
            res@ == self.json(),
    {
        Json::object().with("simple", Json::of_double(self.simple)).with(
            "log",
            Json::of_double(self.log),
        )
    }
}

/// A table of moves as a JSON object.
pub open spec fn shocks_json(rows: Rows<ShockValue>) -> JsonView
    decreases rows.len(),
{
    if rows.len() == 0 {
        JsonView::empty()
    } else {
        shocks_json(rows.drop_last()).with(rows.last().0, rows.last().1.json())
    }
}

fn shock_table_json(shocks: &Table<ShockValue>) -> (res: Json)
    ensures
        res@ == shocks_json(shocks@),
{
    let mut res = Json::object();
    let mut i: usize = 0;
    assert(shocks@.take(0) =~= seq![]);
    while i < shocks.entries.len()
        invariant
            i <= shocks.entries@.len(),
            res@ == shocks_json(shocks@.take(i as int)),
        decreases shocks.entries.len() - i,
    {
        assert(shocks@.take(i as int + 1).drop_last() =~= shocks@.take(i as int));
        res = res.with(shocks.entries[i].name.as_str(), shocks.entries[i].value.to_json());
        i += 1;
    }
    assert(shocks@.take(shocks@.len() as int) =~= shocks@);
    res
}

/// The weights of the known factors, row by row, as a JSON object.
pub open spec fn coefficients_json(rows: Seq<(String, Table<Double>)>) -> JsonView
    decreases rows.len(),
{
    if rows.len() == 0 {
        JsonView::empty()
    } else {
        coefficients_json(rows.drop_last()).with(
            rows.last().0@,
            table::numbers_json(rows.last().1@),
        )
    }
}

fn coefficient_rows_json(rows: &Vec<(String, Table<Double>)>) -> (res: Json)
    ensures
        res@ == coefficients_json(rows@),
{
    let mut res = Json::object();
    let mut i: usize = 0;
    assert(rows@.take(0) =~= seq![]);
    while i < rows.len()
        invariant
            i <= rows@.len(),
            res@ == coefficients_json(rows@.take(i as int)),
        decreases rows.len() - i,
    {
        assert(rows@.take(i as int + 1).drop_last() =~= rows@.take(i as int));
        res = res.with(rows[i].0.as_str(), rows[i].1.to_json());
        i += 1;
    }
    assert(rows@.take(rows@.len() as int) =~= rows@);
    res
}

impl HoldingShockResult {
    /// The effect on a holding as a JSON object.
    pub open spec fn json(self) -> JsonView {
        JsonView::empty().with("ticker"@, JsonView::Text(self.ticker@)).with(
            "value_inr"@,
            JsonView::of_double(self.value_inr),
        ).with("log_return"@, JsonView::of_double(self.log_return)).with(
            "simple_return"@,
            JsonView::of_double(self.simple_return),
        ).with("pnl_inr"@, JsonView::of_double(self.pnl_inr))
    }

    /// Each field of the object holds the figure that it is named after.
    pub proof fn lemma_json_fields(self)
        ensures
            self.json().field("ticker"@) == Some(JsonView::Text(self.ticker@)),
            self.json().field("value_inr"@) == Some(JsonView::of_double(self.value_inr)),
            self.json().field("log_return"@) == Some(JsonView::of_double(self.log_return)),
            self.json().field("simple_return"@) == Some(JsonView::of_double(self.simple_return)),
            self.json().field("pnl_inr"@) == Some(JsonView::of_double(self.pnl_inr)),
    {
        broadcast use crate::json::group_fields;

        reveal_strlit("ticker");
        reveal_strlit("value_inr");
        reveal_strlit("log_return");
        reveal_strlit("simple_return");
        reveal_strlit("pnl_inr");
        assert("ticker"@.len() == 6);
        assert("value_inr"@.len() == 9);
        assert("log_return"@.len() == 10);
        assert("simple_return"@.len() == 13);
        assert("pnl_inr"@.len() == 7);
    }

    /// The effect on a holding as a JSON object.
    pub fn to_json(&self) -> (res: Json)
        ensures
            res@ == self.json(),
    {
        Json::object().with("ticker", Json::of_text(self.ticker.as_str())).with(
            "value_inr",
            Json::of_double(self.value_inr),
        ).with("log_return", Json::of_double(self.log_return)).with(
            "simple_return",
            Json::of_double(self.simple_return),
        ).with("pnl_inr", Json::of_double(self.pnl_inr))
    }
}

/// The effects on all holdings as a JSON array.
pub open spec fn holdings_json(results: Seq<HoldingShockResult>) -> JsonView {
    JsonView::Array(results.map_values(|r: HoldingShockResult| r.json()))
}

fn holding_results_json(results: &Vec<HoldingShockResult>) -> (res: Json)
    ensures
        res@ == holdings_json(results@),
{
    broadcast use json::lemma_array_view;

    let mut out: Vec<Json> = Vec::new();
    let mut i: usize = 0;
    while i < results.len()
        invariant
            i <= results@.len(),
            out@.len() == i,
            forall|k: int| 0 <= k < i ==> (#[trigger] out@[k])@ == results@[k].json(),
        decreases results.len() - i,
    {
        out.push(results[i].to_json());
        i += 1;
    }
    assert(json::items_view(out@) =~= holdings_json(results@)->Array_0);
    Json::Array(out)
}

/// The rows of a matrix as a JSON array.
pub open spec fn matrix_json(rows: Seq<Seq<Double>>) -> JsonView {
    JsonView::Array(rows.map_values(|row: Seq<Double>| JsonView::of_doubles(row)))
}

impl CorrelationMatrix {
    /// The matrix as a JSON object.
    pub open spec fn json(self) -> JsonView {
        JsonView::empty().with(
            "factor_names"@,
            JsonView::of_texts(text::views(self.factor_names@)),
        ).with("rows"@, matrix_json(model::rows_view(self.rows@)))
    }

    /// Each field of the object holds the figure that it is named after.
    pub proof fn lemma_json_fields(self)
        ensures
            self.json().field("factor_names"@) == Some(JsonView::of_texts(text::views(self.factor_names@))),
            self.json().field("rows"@) == Some(matrix_json(model::rows_view(self.rows@))),
    {
        broadcast use crate::json::group_fields;

        reveal_strlit("factor_names");
        reveal_strlit("rows");
        assert("factor_names"@.len() == 12);
        assert("rows"@.len() == 4);
    }

    /// The matrix as a JSON object.
    pub fn to_json(&self) -> (res: Json)
        ensures
            res@ == self.json(),
    {
        broadcast use json::lemma_array_view;

        let mut out: Vec<Json> = Vec::new();
        let mut i: usize = 0;
        while i < self.rows.len()
            invariant
                i <= self.rows@.len(),
                out@.len() == i,
                forall|k: int|
                    0 <= k < i ==> (#[trigger] out@[k])@ == JsonView::of_doubles(self.rows@[k]@),
            decreases self.rows.len() - i,
        {
            out.push(Json::of_doubles(&self.rows[i]));
            i += 1;
        }
        assert(json::items_view(out@) =~= matrix_json(model::rows_view(self.rows@))->Array_0);
        Json::object().with("factor_names", Json::of_texts(&self.factor_names)).with(
            "rows",
            Json::Array(out),
        )
    }
}

impl CrisisComparisonOutput {
    /// The comparison as a JSON object.
    pub open spec fn json(self) -> JsonView {
        JsonView::empty().with("implied_shocks"@, shocks_json(self.implied_shocks@)).with(
            "per_holding"@,
            holdings_json(self.per_holding@),
        ).with("portfolio_pnl_inr"@, JsonView::of_double(self.portfolio_pnl_inr)).with(
            "portfolio_log_pnl_inr"@,
            JsonView::of_double(self.portfolio_log_pnl_inr),
        ).with(
            "factor_attribution_log_inr"@,
            table::numbers_json(self.factor_attribution_log_inr@),
        )
    }

    /// Each field of the object holds the figure that it is named after.
    pub proof fn lemma_json_fields(self)
        ensures
            self.json().field("implied_shocks"@) == Some(shocks_json(self.implied_shocks@)),
            self.json().field("per_holding"@) == Some(holdings_json(self.per_holding@)),
            self.json().field("portfolio_pnl_inr"@) == Some(JsonView::of_double(self.portfolio_pnl_inr)),
            self.json().field("portfolio_log_pnl_inr"@) == Some(JsonView::of_double(self.portfolio_log_pnl_inr)),
            self.json().field("factor_attribution_log_inr"@) == Some(table::numbers_json(self.factor_attribution_log_inr@)),
    {
        broadcast use crate::json::group_fields;

        reveal_strlit("implied_shocks");
        reveal_strlit("per_holding");
        reveal_strlit("portfolio_pnl_inr");
        reveal_strlit("portfolio_log_pnl_inr");
        reveal_strlit("factor_attribution_log_inr");
        assert("implied_shocks"@.len() == 14);
        assert("per_holding"@.len() == 11);
        assert("portfolio_pnl_inr"@.len() == 17);
        assert("portfolio_log_pnl_inr"@.len() == 21);
        assert("factor_attribution_log_inr"@.len() == 26);
    }

    /// The comparison as a JSON object.
    pub fn to_json(&self) -> (res: Json)
        ensures
            res@ == self.json(),
    {
        Json::object().with("implied_shocks", shock_table_json(&self.implied_shocks)).with(
            "per_holding",
            holding_results_json(&self.per_holding),
        ).with("portfolio_pnl_inr", Json::of_double(self.portfolio_pnl_inr)).with(
            "portfolio_log_pnl_inr",
            Json::of_double(self.portfolio_log_pnl_inr),
        ).with("factor_attribution_log_inr", self.factor_attribution_log_inr.to_json())
    }
}

impl FactorShockOutput {
    /// The result as a JSON object.
    pub open spec fn json(self) -> JsonView {
        JsonView::empty().with(
            "linear_approximation"@,
            JsonView::Bool(self.linear_approximation),
        ).with("given_shocks"@, shocks_json(self.given_shocks@)).with(
            "implied_shocks"@,
            shocks_json(self.implied_shocks@),
        ).with("per_holding"@, holdings_json(self.per_holding@)).with(
            "portfolio_pnl_inr"@,
            JsonView::of_double(self.portfolio_pnl_inr),
        ).with("formatted_pnl_inr"@, JsonView::Text(self.formatted_pnl_inr@)).with(
            "portfolio_log_pnl_inr"@,
            JsonView::of_double(self.portfolio_log_pnl_inr),
        ).with(
            "factor_attribution_log_inr"@,
            table::numbers_json(self.factor_attribution_log_inr@),
        ).with("factor_correlation"@, self.factor_correlation.json()).with(
            "conditional_coefficients"@,
            coefficients_json(self.conditional_coefficients@),
        ).with("gold_inr_implied_move"@, self.gold_inr_implied_move.json()).with(
            "crisis_comparison"@,
            match self.crisis_comparison {
                Some(c) => c.json(),
                None => JsonView::Null,
            },
        ).with(
            "crisis_comparison_note"@,
            JsonView::of_optional_text(
                match self.crisis_comparison_note {
                    Some(s) => Some(s@),
                    None => None,
                },
            ),
        )
    }

    /// Each field of the object holds the figure that it is named after.
    pub proof fn lemma_json_fields(self)
        ensures
            self.json().field("linear_approximation"@) == Some(JsonView::Bool(self.linear_approximation)),
            self.json().field("given_shocks"@) == Some(shocks_json(self.given_shocks@)),
            self.json().field("implied_shocks"@) == Some(shocks_json(self.implied_shocks@)),
            self.json().field("per_holding"@) == Some(holdings_json(self.per_holding@)),
            self.json().field("portfolio_pnl_inr"@) == Some(JsonView::of_double(self.portfolio_pnl_inr)),
            self.json().field("formatted_pnl_inr"@) == Some(JsonView::Text(self.formatted_pnl_inr@)),
            self.json().field("portfolio_log_pnl_inr"@) == Some(JsonView::of_double(self.portfolio_log_pnl_inr)),
            self.json().field("factor_attribution_log_inr"@) == Some(table::numbers_json(self.factor_attribution_log_inr@)),
            self.json().field("factor_correlation"@) == Some(self.factor_correlation.json()),
            self.json().field("conditional_coefficients"@) == Some(coefficients_json(self.conditional_coefficients@)),
            self.json().field("gold_inr_implied_move"@) == Some(self.gold_inr_implied_move.json()),
            self.json().field("crisis_comparison"@) == Some(match self.crisis_comparison {
                Some(c) => c.json(),
                None => JsonView::Null,
            }),
            self.json().field("crisis_comparison_note"@) == Some(JsonView::of_optional_text(
                match self.crisis_comparison_note {
                    Some(s) => Some(s@),
                    None => None,
                },
            )),
    {
        broadcast use crate::json::group_fields;

        reveal_strlit("linear_approximation");
        reveal_strlit("given_shocks");
        reveal_strlit("implied_shocks");
        reveal_strlit("per_holding");
        reveal_strlit("portfolio_pnl_inr");
        reveal_strlit("formatted_pnl_inr");
        reveal_strlit("portfolio_log_pnl_inr");
        reveal_strlit("factor_attribution_log_inr");
        reveal_strlit("factor_correlation");
        reveal_strlit("conditional_coefficients");
        reveal_strlit("gold_inr_implied_move");
        reveal_strlit("crisis_comparison");
        reveal_strlit("crisis_comparison_note");
        assert("linear_approximation"@.len() == 20);
        assert("given_shocks"@.len() == 12);
        assert("implied_shocks"@.len() == 14);
        assert("per_holding"@.len() == 11);
        assert("portfolio_pnl_inr"@.len() == 17);
        assert("formatted_pnl_inr"@.len() == 17);
        assert("portfolio_log_pnl_inr"@.len() == 21);
        assert("factor_attribution_log_inr"@.len() == 26);
        assert("factor_correlation"@.len() == 18);
        assert("conditional_coefficients"@.len() == 24);
        assert("gold_inr_implied_move"@.len() == 21);
        assert("crisis_comparison"@.len() == 17);
        assert("crisis_comparison_note"@.len() == 22);
        assert("portfolio_pnl_inr"@[0] == 'p');
        assert("formatted_pnl_inr"@[0] == 'f');
        assert("crisis_comparison"@[0] == 'c');
        assert("portfolio_log_pnl_inr"@[0] == 'p');
        assert("gold_inr_implied_move"@[0] == 'g');
    }

    /// The result as a JSON object.
    pub fn to_json(&self) -> (res: Json)
        ensures
            res@ == self.json(),
    {
        let comparison = match &self.crisis_comparison {
            Some(c) => c.to_json(),
            None => Json::Null,
        };
        Json::object().with("linear_approximation", Json::Bool(self.linear_approximation)).with(
            "given_shocks",
            shock_table_json(&self.given_shocks),
        ).with("implied_shocks", shock_table_json(&self.implied_shocks)).with(
            "per_holding",
            holding_results_json(&self.per_holding),
        ).with("portfolio_pnl_inr", Json::of_double(self.portfolio_pnl_inr)).with(
            "formatted_pnl_inr",
            Json::of_text(self.formatted_pnl_inr.as_str()),
        ).with("portfolio_log_pnl_inr", Json::of_double(self.portfolio_log_pnl_inr)).with(
            "factor_attribution_log_inr",
            self.factor_attribution_log_inr.to_json(),
        ).with("factor_correlation", self.factor_correlation.to_json()).with(
            "conditional_coefficients",
            coefficient_rows_json(&self.conditional_coefficients),
        ).with("gold_inr_implied_move", self.gold_inr_implied_move.to_json()).with(
            "crisis_comparison",
            comparison,
        ).with("crisis_comparison_note", Json::of_optional_text(&self.crisis_comparison_note))
    }
}

/// The outputs part of a trace: the result, and what is said of it.
pub open spec fn outputs_json(result: JsonView, note: Seq<char>) -> JsonView {
    JsonView::empty().with("result"@, result).with("note"@, JsonView::Text(note))
}

/// The outputs part of a trace: the result, and what is said of it.
pub fn outputs_with_note(result: Json, note: &str) -> (res: Json)
    ensures
        res@ == outputs_json(result@, note@),
{
    Json::object().with("result", result).with("note", Json::of_text(note))
}

/// The outputs part of a trace of which nothing more is said.
pub fn outputs_plain(result: Json) -> (res: Json)
    ensures
        res@ == JsonView::empty().with("result"@, result@),
{
    Json::object().with("result", result)
}

impl StockContribution {
    /// The contribution as a JSON object.
    pub open spec fn json(self) -> JsonView {
        JsonView::empty().with("ticker"@, JsonView::Text(self.ticker@)).with(
            "contribution"@,
            JsonView::of_double(self.contribution),
        ).with("fraction_of_vol"@, JsonView::of_double(self.fraction_of_vol))
    }

    /// Each field of the object holds the figure that it is named after.
    pub proof fn lemma_json_fields(self)
        ensures
            self.json().field("ticker"@) == Some(JsonView::Text(self.ticker@)),
            self.json().field("contribution"@) == Some(JsonView::of_double(self.contribution)),
            self.json().field("fraction_of_vol"@) == Some(
                JsonView::of_double(self.fraction_of_vol),
            ),
    {
        broadcast use crate::json::group_fields;

        reveal_strlit("ticker");
        reveal_strlit("contribution");
        reveal_strlit("fraction_of_vol");
        assert("ticker"@.len() == 6 && "contribution"@.len() == 12);
        assert("fraction_of_vol"@.len() == 15);
    }
}

impl FactorContribution {
    /// The contribution as a JSON object.
    pub open spec fn json(self) -> JsonView {
        JsonView::empty().with("factor"@, JsonView::Text(self.factor@)).with(
            "contribution"@,
            JsonView::of_double(self.contribution),
        ).with("fraction_of_vol"@, JsonView::of_double(self.fraction_of_vol)).with(
            "fraction_of_vol_pct"@,
            JsonView::of_double(self.fraction_of_vol_pct),
        )
    }

    /// Each field of the object holds the figure that it is named after.
    pub proof fn lemma_json_fields(self)
        ensures
            self.json().field("factor"@) == Some(JsonView::Text(self.factor@)),
            self.json().field("contribution"@) == Some(JsonView::of_double(self.contribution)),
            self.json().field("fraction_of_vol"@) == Some(
                JsonView::of_double(self.fraction_of_vol),
            ),
            self.json().field("fraction_of_vol_pct"@) == Some(
                JsonView::of_double(self.fraction_of_vol_pct),
            ),
    {
        broadcast use crate::json::group_fields;

        reveal_strlit("factor");
        reveal_strlit("contribution");
        reveal_strlit("fraction_of_vol");
        reveal_strlit("fraction_of_vol_pct");
        assert("factor"@.len() == 6 && "contribution"@.len() == 12);
        assert("fraction_of_vol"@.len() == 15 && "fraction_of_vol_pct"@.len() == 19);
    }
}

impl RiskDecompositionOutput {
    /// The decomposition as a JSON object.
    pub open spec fn json(self) -> JsonView {
        JsonView::empty().with(
            "portfolio_vol_annualized"@,
            JsonView::of_double(self.portfolio_vol_annualized),
        ).with(
            "portfolio_vol_annualized_pct"@,
            JsonView::of_double(self.portfolio_vol_annualized_pct),
        ).with(
            "by_stock"@,
            JsonView::Array(self.by_stock@.map_values(|c: StockContribution| c.json())),
        ).with(
            "by_factor"@,
            JsonView::Array(self.by_factor@.map_values(|c: FactorContribution| c.json())),
        ).with(
            "specific_risk_contribution"@,
            JsonView::of_double(self.specific_risk_contribution),
        ).with(
            "specific_risk_fraction_of_vol"@,
            JsonView::of_double(self.specific_risk_fraction_of_vol),
        ).with(
            "specific_risk_fraction_of_vol_pct"@,
            JsonView::of_double(self.specific_risk_fraction_of_vol_pct),
        ).with("portfolio_betas"@, table::numbers_json(self.portfolio_betas@)).with(
            "factor_correlation"@,
            self.factor_correlation.json(),
        )
    }

    /// Each field of the object holds the figure that it is named after.
    pub proof fn lemma_json_fields(self)
        ensures
            self.json().field("portfolio_vol_annualized"@) == Some(JsonView::of_double(self.portfolio_vol_annualized)),
            self.json().field("portfolio_vol_annualized_pct"@) == Some(JsonView::of_double(self.portfolio_vol_annualized_pct)),
            self.json().field("by_stock"@) == Some(JsonView::Array(self.by_stock@.map_values(|c: StockContribution| c.json()))),
            self.json().field("by_factor"@) == Some(JsonView::Array(self.by_factor@.map_values(|c: FactorContribution| c.json()))),
            self.json().field("specific_risk_contribution"@) == Some(JsonView::of_double(self.specific_risk_contribution)),
            self.json().field("specific_risk_fraction_of_vol"@) == Some(JsonView::of_double(self.specific_risk_fraction_of_vol)),
            self.json().field("specific_risk_fraction_of_vol_pct"@) == Some(JsonView::of_double(self.specific_risk_fraction_of_vol_pct)),
            self.json().field("portfolio_betas"@) == Some(table::numbers_json(self.portfolio_betas@)),
            self.json().field("factor_correlation"@) == Some(self.factor_correlation.json()),
    {
        broadcast use crate::json::group_fields;

        reveal_strlit("portfolio_vol_annualized");
        reveal_strlit("portfolio_vol_annualized_pct");
        reveal_strlit("by_stock");
        reveal_strlit("by_factor");
        reveal_strlit("specific_risk_contribution");
        reveal_strlit("specific_risk_fraction_of_vol");
        reveal_strlit("specific_risk_fraction_of_vol_pct");
        reveal_strlit("portfolio_betas");
        reveal_strlit("factor_correlation");
        assert("portfolio_vol_annualized"@.len() == 24);
        assert("portfolio_vol_annualized_pct"@.len() == 28);
        assert("by_stock"@.len() == 8);
        assert("by_factor"@.len() == 9);
        assert("specific_risk_contribution"@.len() == 26);
        assert("specific_risk_fraction_of_vol"@.len() == 29);
        assert("specific_risk_fraction_of_vol_pct"@.len() == 33);
        assert("portfolio_betas"@.len() == 15);
        assert("factor_correlation"@.len() == 18);
    }

    /// The decomposition as a JSON object.
    pub fn to_json(&self) -> (res: Json)
        ensures
            res@ == self.json(),
    {
        broadcast use json::lemma_array_view;

        let mut stocks: Vec<Json> = Vec::new();
        let mut i: usize = 0;
        while i < self.by_stock.len()
            invariant
                i <= self.by_stock@.len(),
                stocks@.len() == i,
                forall|k: int| 0 <= k < i ==> (#[trigger] stocks@[k])@ == self.by_stock@[k].json(),
            decreases self.by_stock.len() - i,
        {
            let c = &self.by_stock[i];
            stocks.push(
                Json::object().with("ticker", Json::of_text(c.ticker.as_str())).with(
                    "contribution",
                    Json::of_double(c.contribution),
                ).with("fraction_of_vol", Json::of_double(c.fraction_of_vol)),
            );
            i += 1;
        }
        assert(json::items_view(stocks@) =~= self.by_stock@.map_values(
            |c: StockContribution| c.json(),
        ));
        let mut factors: Vec<Json> = Vec::new();
        let mut f: usize = 0;
        while f < self.by_factor.len()
            invariant
                f <= self.by_factor@.len(),
                factors@.len() == f,
                forall|k: int| 0 <= k < f ==> (#[trigger] factors@[k])@ == self.by_factor@[k].json(),
            decreases self.by_factor.len() - f,
        {
            let c = &self.by_factor[f];
            factors.push(
                Json::object().with("factor", Json::of_text(c.factor.as_str())).with(
                    "contribution",
                    Json::of_double(c.contribution),
                ).with("fraction_of_vol", Json::of_double(c.fraction_of_vol)).with(
                    "fraction_of_vol_pct",
                    Json::of_double(c.fraction_of_vol_pct),
                ),
            );
            f += 1;
        }
        assert(json::items_view(factors@) =~= self.by_factor@.map_values(
            |c: FactorContribution| c.json(),
        ));
        Json::object().with(
            "portfolio_vol_annualized",
            Json::of_double(self.portfolio_vol_annualized),
        ).with(
            "portfolio_vol_annualized_pct",
            Json::of_double(self.portfolio_vol_annualized_pct),
        ).with("by_stock", Json::Array(stocks)).with("by_factor", Json::Array(factors)).with(
            "specific_risk_contribution",
            Json::of_double(self.specific_risk_contribution),
        ).with(
            "specific_risk_fraction_of_vol",
            Json::of_double(self.specific_risk_fraction_of_vol),
        ).with(
            "specific_risk_fraction_of_vol_pct",
            Json::of_double(self.specific_risk_fraction_of_vol_pct),
        ).with("portfolio_betas", self.portfolio_betas.to_json()).with(
            "factor_correlation",
            self.factor_correlation.to_json(),
        )
    }
}

// ---------------------------------------------------------------------------
// Checks
// ---------------------------------------------------------------------------

/// The bit pattern of `1e-9`, within which contributions have to add up.
pub const CONTRIBUTION_TOLERANCE_BITS: u64 = 0x3e11_2e0b_e826_d695;

pub const HOLDINGS_CHECK: &'static str = "sum(per_holding.pnl_inr) == portfolio_pnl_inr";

pub const ATTRIBUTION_CHECK: &'static str =
    "sum(factor_attribution_log_inr) == portfolio_log_pnl_inr";

pub const LINEAR_CHECK: &'static str =
    "linear_approximation: portfolio_log_pnl_inr == portfolio_pnl_inr";

/// The checks of a shock: its holdings and its factors each account for the
/// whole, and so does the logarithm under linear approximation.
pub fn shock_checks(
    linear_approximation: bool,
    holdings: Compared,
    attribution: Compared,
    logarithmic: Compared,
    tolerance: Double,
) -> (res: Vec<InvariantCheck>)
    ensures
        res@.len() == (if linear_approximation {
            3int
        } else {
            2int
        }),
        trace::compares(res@[0], HOLDINGS_CHECK@, holdings, tolerance),
        trace::compares(res@[1], ATTRIBUTION_CHECK@, attribution, tolerance),
        linear_approximation ==> trace::compares(res@[2], LINEAR_CHECK@, logarithmic, tolerance),
{
    let mut out: Vec<InvariantCheck> = Vec::new();
    out.push(trace::comparison(HOLDINGS_CHECK, holdings, tolerance));
    out.push(trace::comparison(ATTRIBUTION_CHECK, attribution, tolerance));
    if linear_approximation {
        out.push(trace::comparison(LINEAR_CHECK, logarithmic, tolerance));
    }
    out
}

pub const STOCKS_CHECK: &'static str = "sum(by_stock.contribution) == portfolio_vol";

pub const FACTORS_CHECK: &'static str =
    "sum(by_factor.contribution) + specific_risk == portfolio_vol";

/// The checks of a decomposition: the stocks, and the factors with the
/// specific risk, each account for the whole.
pub fn decomposition_checks(stocks: Compared, factors: Compared) -> (res: Vec<InvariantCheck>)
    ensures
        res@.len() == 2,
        trace::compares(
            res@[0],
            STOCKS_CHECK@,
            stocks,
            Double { bits: CONTRIBUTION_TOLERANCE_BITS },
        ),
        trace::compares(
            res@[1],
            FACTORS_CHECK@,
            factors,
            Double { bits: CONTRIBUTION_TOLERANCE_BITS },
        ),
{
    let tolerance = Double { bits: CONTRIBUTION_TOLERANCE_BITS };
    let mut out: Vec<InvariantCheck> = Vec::new();
    out.push(trace::comparison(STOCKS_CHECK, stocks, tolerance));
    out.push(trace::comparison(FACTORS_CHECK, factors, tolerance));
    out
}

} // verus!
