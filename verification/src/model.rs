//! The factor model as data, and every decision around fitting it: how far
//! back the fit looks, whether the data suffice, and which observations
//! belong to which market regime.

use vstd::prelude::*;

use crate::data::{self, MarketData, NamedSeries};
use crate::double::Double;
use crate::error::{ComputeError, ComputeErrorView};
use crate::message::{Message, PieceView};
use crate::regime::{self, RegimeState};
use crate::text;

verus! {

/// Fewest observations with which a regime gets a covariance of its own.
pub const MIN_REGIME_OBSERVATIONS: usize = 30;

/// Spacing of the returns that a model is fitted on.
#[derive(Clone, Copy, Debug, PartialEq, Eq, Structural)]
pub enum Frequency {
    Daily,
    Weekly,
}

impl Default for Frequency {
    fn default() -> (res: Frequency)
        ensures
            res == Frequency::Daily,
    {
        Frequency::Daily
    }
}

impl Frequency {
    /// Periods per year.
    pub open spec fn periods(self) -> int {
        match self {
            Frequency::Daily => 252,
            Frequency::Weekly => 52,
        }
    }

    /// Trailing window in periods where none is asked for.
    pub open spec fn window(self) -> int {
        match self {
            Frequency::Daily => 252,
            Frequency::Weekly => 156,
        }
    }

    /// Periods per year: the factor that makes a period variance annual.
    pub fn annualization_factor(&self) -> (res: u32)
        ensures
            res == self.periods(),
    {
        match self {
            Frequency::Daily => 252,
            Frequency::Weekly => 52,
        }
    }

    /// Trailing window in periods where none is asked for.
    pub fn default_window(&self) -> (res: usize)
        ensures
            res == self.window(),
    {
        match self {
            Frequency::Daily => 252,
            Frequency::Weekly => 156,
        }
    }

    /// Reads a frequency name: `daily` or `weekly` in any case, daily where
    /// there is none. Any other name is invalid input.
    pub fn from_optional_str(name: Option<&str>) -> (res: Result<Frequency, ComputeError>)
        ensures
            match name {
                None => res == Ok::<Frequency, ComputeError>(Frequency::Daily),
                Some(n) => match frequency_named(n@) {
                    Some(f) => res == Ok::<Frequency, ComputeError>(f),
                    None => res is Err && res->Err_0@ == ComputeErrorView::InvalidInput(
                        unknown_frequency(n@),
                    ),
                },
            },
    {
        match name {
            None => Ok(Frequency::Daily),
            Some(n) => {
                let lower = text::lower_ascii(n);
                if text::same(lower.as_str(), "daily") {
                    Ok(Frequency::Daily)
                } else if text::same(lower.as_str(), "weekly") {
                    Ok(Frequency::Weekly)
                } else {
                    let mut message = Message::of("unknown frequency \"");
                    message.text(n);
                    message.text("\", expected \"daily\" or \"weekly\"");
                    assert(message@ =~= unknown_frequency(n@));
                    Err(ComputeError::InvalidInput(message))
                }
            },
        }
    }
}

/// The frequency with the given name, whatever the case of its letters.
pub open spec fn frequency_named(name: Seq<char>) -> Option<Frequency> {
    if text::ascii_lower(name) == "daily"@ {
        Some(Frequency::Daily)
    } else if text::ascii_lower(name) == "weekly"@ {
        Some(Frequency::Weekly)
    } else {
        None
    }
}

/// A frequency is named by its word in small letters or capitals, letter by
/// letter, and by no other text.
pub proof fn lemma_frequency_names(name: Seq<char>)
    ensures
        frequency_named(name) == Some(Frequency::Daily) <==> text::ascii_lower(name) == seq![
            'd',
            'a',
            'i',
            'l',
            'y',
        ],
        frequency_named(name) == Some(Frequency::Weekly) <==> text::ascii_lower(name) == seq![
            'w',
            'e',
            'e',
            'k',
            'l',
            'y',
        ],
{
    reveal_strlit("daily");
    reveal_strlit("weekly");
    assert("daily"@ =~= seq!['d', 'a', 'i', 'l', 'y']);
    assert("weekly"@ =~= seq!['w', 'e', 'e', 'k', 'l', 'y']);
    assert("daily"@.len() == 5 && "weekly"@.len() == 6);
}

/// The message for a name that is no frequency.
pub open spec fn unknown_frequency(name: Seq<char>) -> Seq<PieceView> {
    seq![
        PieceView::Text("unknown frequency \""@),
        PieceView::Text(name),
        PieceView::Text("\", expected \"daily\" or \"weekly\""@),
    ]
}

/// Trailing window of an experiment that names neither window nor frequency.
pub fn default_window() -> (res: usize)
    ensures
        res == Frequency::Daily.window(),
{
    Frequency::Daily.default_window()
}

/// The window asked for, or the default of the frequency.
pub fn resolve_window(window: Option<usize>, frequency: Frequency) -> (res: usize)
    ensures
        res == window_or_default(window, frequency),
{
    match window {
        Some(w) => w,
        None => frequency.default_window(),
    }
}

/// The window asked for, or the default of the frequency.
pub open spec fn window_or_default(window: Option<usize>, frequency: Frequency) -> int {
    match window {
        Some(w) => w as int,
        None => frequency.window(),
    }
}

/// A year has 252 trading days and 52 weeks; without a window of its own an
/// experiment looks back over one year of days or three years of weeks, and
/// with one over that.
pub proof fn lemma_frequencies(window: usize, frequency: Frequency)
    ensures
        Frequency::Daily.periods() == 252 && Frequency::Weekly.periods() == 52,
        Frequency::Daily.window() == 252 && Frequency::Weekly.window() == 3 * 52,
        window_or_default(Some(window), frequency) == window,
        window_or_default(None, Frequency::Daily) == 252,
        window_or_default(None, Frequency::Weekly) == 156,
{
}

/// What a model is to be fitted on.
#[derive(Clone, Copy, Debug, PartialEq, Eq, Structural)]
pub struct ModelConfig {
    pub window: usize,
    pub frequency: Frequency,
    /// Whether the factor covariance is split by market regime.
    pub regime_covariance: bool,
}

impl ModelConfig {
    /// A configuration without regime split.
    pub fn new(window: usize, frequency: Frequency) -> (res: Self)
        ensures
            res == (ModelConfig { window, frequency, regime_covariance: false }),
    {
        ModelConfig { window, frequency, regime_covariance: false }
    }

    /// The same configuration with the regime split set as given.
    pub fn with_regime_covariance(self, regime_covariance: bool) -> (res: Self)
        ensures
            res == (ModelConfig { regime_covariance, ..self }),
    {
        ModelConfig { window: self.window, frequency: self.frequency, regime_covariance }
    }
}

/// The fit of one stock against the factors.
#[derive(Debug)]
pub struct StockFit {
    pub ticker: String,
    pub intercept: Double,
    /// In the order of the factor names.
    pub betas: Vec<Double>,
    /// Per period, not annualized.
    pub residual_variance_daily: Double,
    pub r_squared: Double,
    pub n_obs: usize,
}

/// A fitted factor model.
#[derive(Debug)]
pub struct FactorModel {
    pub frequency: Frequency,
    pub window: usize,
    pub tickers: Vec<String>,
    pub fits: Vec<StockFit>,
    /// Per period, in the order of the factor names; that of the current
    /// regime where the covariance was split.
    pub factor_covariance_daily: Vec<Vec<Double>>,
    pub shrinkage_intensity: Double,
    /// Present exactly where the covariance was split by regime.
    pub regime_state: Option<RegimeState>,
    /// The covariance of each regime, present with `regime_state`.
    pub regime_factor_covariance_daily: Option<Vec<Vec<Vec<Double>>>>,
    pub regime_fallback_warnings: Vec<String>,
}

// ---------------------------------------------------------------------------
// What the fit is computed from
// ---------------------------------------------------------------------------

/// The position of the series called `name`.
pub open spec fn series_named(series: Seq<NamedSeries>, name: Seq<char>) -> Option<int>
    decreases series.len(),
{
    if series.len() == 0 {
        None
    } else if series.last().name@ == name {
        Some(series.len() - 1)
    } else {
        series_named(series.drop_last(), name)
    }
}

/// What is found under a name is a series of that name.
pub proof fn lemma_series_named(series: Seq<NamedSeries>, name: Seq<char>)
    ensures
        match series_named(series, name) {
            Some(i) => 0 <= i < series.len() && series[i].name@ == name,
            None => forall|i: int| 0 <= i < series.len() ==> (#[trigger] series[i]).name@ != name,
        },
    decreases series.len(),
{
    if series.len() > 0 && series.last().name@ != name {
        lemma_series_named(series.drop_last(), name);
        if series_named(series, name) is None {
            assert forall|i: int| 0 <= i < series.len() implies (#[trigger] series[i]).name@
                != name by {
                if i < series.len() - 1 {
                    assert(series[i] == series.drop_last()[i]);
                }
            }
        }
    }
}

/// The last series called `name`.
pub fn find_series(series: &Vec<NamedSeries>, name: &str) -> (res: Option<usize>)
    ensures
        match res {
            Some(i) => series_named(series@, name@) == Some(i as int) && i < series@.len()
                && series@[i as int].name@ == name@,
            None => series_named(series@, name@) is None,
        },
{
    let mut n: usize = series.len();
    assert(series@.take(series@.len() as int) =~= series@);
    while n > 0
        invariant
            n <= series@.len(),
            series_named(series@, name@) == series_named(series@.take(n as int), name@),
        decreases n,
    {
        let ghost now = series@.take(n as int);
        assert(now.last() == series@[n - 1]);
        assert(now.drop_last() =~= series@.take(n - 1));
        if text::same(series[n - 1].name.as_str(), name) {
            return Some(n - 1);
        }
        n -= 1;
    }
    None
}

/// The last `window` numbers of a list.
pub open spec fn trailing(values: Seq<Double>, window: int) -> Seq<Double> {
    values.skip(values.len() - window)
}

/// A trailing window is the end of the list: so many numbers, of which the last
/// is the last of the list, the one before it the one before, and so on.
pub proof fn lemma_trailing(values: Seq<Double>, window: int)
    requires
        0 <= window <= values.len(),
    ensures
        trailing(values, window).len() == window,
        forall|back: int|
            1 <= back <= window ==> trailing(values, window)[window - back]
                == #[trigger] values[values.len() - back],
{
}

/// Copies the last `window` numbers of a list.
pub fn trailing_values(values: &Vec<Double>, window: usize) -> (res: Vec<Double>)
    requires
        window <= values@.len(),
    ensures
        res@ == trailing(values@, window as int),
        res@.len() == window,
{
    let start: usize = values.len() - window;
    let mut out: Vec<Double> = Vec::new();
    let mut i: usize = 0;
    while i < window
        invariant
            i <= window,
            start + window == values.len(),
            out@ == trailing(values@, window as int).take(i as int),
        decreases window - i,
    {
        out.push(values[start + i]);
        i += 1;
        assert(out@ =~= trailing(values@, window as int).take(i as int));
    }
    assert(trailing(values@, window as int).take(window as int) =~= trailing(
        values@,
        window as int,
    ));
    out
}

/// The columns that a fit is computed from, each `window` numbers long.
#[derive(Debug)]
pub struct FitInputs {
    /// One per factor, in the order of the factor names.
    pub factors: Vec<Vec<Double>>,
    /// One per ticker, in the order of the tickers.
    pub stocks: Vec<Vec<Double>>,
}

/// The first factor name without a series, among the first `n`.
pub open spec fn missing_factor(factors: Seq<NamedSeries>, n: int) -> Option<Seq<char>>
    decreases n,
{
    if n <= 0 {
        None
    } else {
        match missing_factor(factors, n - 1) {
            Some(name) => Some(name),
            None => if series_named(factors, data::factor_names_view()[n - 1]) is None {
                Some(data::factor_names_view()[n - 1])
            } else {
                None
            },
        }
    }
}

/// The series of the factor at place `k` of the model.
pub open spec fn factor_series(factors: Seq<NamedSeries>, k: int) -> Seq<Double> {
    factors[series_named(factors, data::factor_names_view()[k])->Some_0].values@
}

/// Whether there is a series for the factor at place `k` of the model.
pub open spec fn has_factor(factors: Seq<NamedSeries>, k: int) -> bool {
    series_named(factors, data::factor_names_view()[k]) is Some
}

/// Whether the factors that have a series all have one of the same length.
pub open spec fn factors_even(factors: Seq<NamedSeries>) -> bool {
    forall|k: int|
        0 <= k < data::FACTOR_COUNT && has_factor(factors, k) && has_factor(factors, 0) ==> (
        #[trigger] factor_series(factors, k)).len() == factor_series(factors, 0).len()
}

/// In a rectangular dataset the series of the factors have the same length.
pub proof fn lemma_rectangular_factors_even(market: MarketData)
    requires
        market.rectangular(),
    ensures
        factors_even(market.factor_returns@),
{
    let factors = market.factor_returns@;
    assert forall|k: int|
        0 <= k < data::FACTOR_COUNT && has_factor(factors, k) && has_factor(
            factors,
            0,
        ) implies (#[trigger] factor_series(factors, k)).len() == factor_series(
        factors,
        0,
    ).len() by {
        lemma_series_named(factors, data::factor_names_view()[k]);
        lemma_series_named(factors, data::factor_names_view()[0]);
    }
}

/// What is wrong with the stock series of the first `n` tickers, in the order
/// of the tickers.
pub open spec fn stock_fault(
    stocks: Seq<NamedSeries>,
    tickers: Seq<String>,
    window: int,
    n: int,
) -> Option<Seq<PieceView>>
    decreases n,
{
    if n <= 0 {
        None
    } else {
        match stock_fault(stocks, tickers, window, n - 1) {
            Some(fault) => Some(fault),
            None => {
                let ticker = tickers[n - 1]@;
                match series_named(stocks, ticker) {
                    None => Some(
                        seq![
                            PieceView::Text("missing return series for "@),
                            PieceView::Text(ticker),
                        ],
                    ),
                    Some(i) => if stocks[i].values@.len() < window {
                        Some(
                            seq![
                                PieceView::Text("ticker "@),
                                PieceView::Text(ticker),
                                PieceView::Text(" has only "@),
                                PieceView::Text(text::decimal(stocks[i].values@.len())),
                                PieceView::Text(" observations, need "@),
                                PieceView::Text(text::decimal(window as nat)),
                            ],
                        )
                    } else if window <= data::FACTOR_COUNT + 1 {
                        Some(
                            seq![
                                PieceView::Text("not enough observations ("@),
                                PieceView::Text(text::decimal(window as nat)),
                                PieceView::Text(") for "@),
                                PieceView::Text(text::decimal(data::FACTOR_COUNT as nat)),
                                PieceView::Text(" factors plus intercept"@),
                            ],
                        )
                    } else {
                        None
                    },
                }
            },
        }
    }
}

/// What keeps a model from being fitted: a missing factor, a history shorter
/// than the window, too few observations for the regime fit where that is
/// asked for, or a fault of a stock series, in this order.
pub open spec fn fit_fault(market: MarketData, tickers: Seq<String>, config: ModelConfig) -> Option<
    Seq<PieceView>,
> {
    let factors = market.factor_returns@;
    let window = config.window as int;
    match missing_factor(factors, data::FACTOR_COUNT as int) {
        Some(name) => Some(
            seq![PieceView::Text("missing factor series "@), PieceView::Text(name)],
        ),
        None => if factor_series(factors, 0).len() < window {
            Some(
                seq![
                    PieceView::Text("only "@),
                    PieceView::Text(text::decimal(factor_series(factors, 0).len())),
                    PieceView::Text(" return observations available, need "@),
                    PieceView::Text(text::decimal(window as nat)),
                    PieceView::Text(" for the trailing window"@),
                ],
            )
        } else if config.regime_covariance && window < regime::MIN_OBSERVATIONS {
            Some(regime::too_few(window as nat))
        } else {
            stock_fault(market.stock_returns@, tickers, window, tickers.len() as int)
        },
    }
}

proof fn lemma_missing_factor_stays(factors: Seq<NamedSeries>, n: int, m: int)
    requires
        missing_factor(factors, n) is Some,
        n <= m,
    ensures
        missing_factor(factors, m) == missing_factor(factors, n),
    decreases m - n,
{
    if n < m {
        lemma_missing_factor_stays(factors, n, m - 1);
    }
}

proof fn lemma_stock_fault_stays(
    stocks: Seq<NamedSeries>,
    tickers: Seq<String>,
    window: int,
    n: int,
    m: int,
)
    requires
        stock_fault(stocks, tickers, window, n) is Some,
        n <= m,
    ensures
        stock_fault(stocks, tickers, window, m) == stock_fault(stocks, tickers, window, n),
    decreases m - n,
{
    if n < m {
        lemma_stock_fault_stays(stocks, tickers, window, n, m - 1);
    }
}

fn factor_columns(market: &MarketData) -> (res: Result<Vec<usize>, ComputeError>)
    ensures
        match missing_factor(market.factor_returns@, data::FACTOR_COUNT as int) {
            Some(name) => res is Err && res->Err_0@ == ComputeErrorView::Model(
                seq![PieceView::Text("missing factor series "@), PieceView::Text(name)],
            ),
            None => res is Ok && res->Ok_0@.len() == data::FACTOR_COUNT && forall|k: int|
                0 <= k < data::FACTOR_COUNT ==> Some((#[trigger] res->Ok_0@[k]) as int)
                    == series_named(market.factor_returns@, data::factor_names_view()[k])
                    && res->Ok_0@[k] < market.factor_returns@.len(),
        },
{
    let names = data::factor_names();
    let ghost factors = market.factor_returns@;
    let mut places: Vec<usize> = Vec::new();
    let mut k: usize = 0;
    while k < names.len()
        invariant
            k <= names@.len(),
            names@.len() == data::FACTOR_COUNT,
            text::views(names@) == data::factor_names_view(),
            factors == market.factor_returns@,
            places@.len() == k,
            missing_factor(factors, k as int) is None,
            forall|j: int|
                0 <= j < k ==> Some((#[trigger] places@[j]) as int) == series_named(
                    factors,
                    data::factor_names_view()[j],
                ) && places@[j] < factors.len(),
        decreases names.len() - k,
    {
        assert(text::views(names@)[k as int] == names@[k as int]@);
        match find_series(&market.factor_returns, names[k].as_str()) {
            Some(i) => places.push(i),
            None => {
                proof {
                    lemma_missing_factor_stays(factors, k as int + 1, data::FACTOR_COUNT as int);
                }
                let mut message = Message::of("missing factor series ");
                message.text(names[k].as_str());
                assert(message@ =~= seq![
                    PieceView::Text("missing factor series "@),
                    PieceView::Text(names@[k as int]@),
                ]);
                return Err(ComputeError::Model(message));
            },
        }
        k += 1;
    }
    Ok(places)
}

fn stock_columns(market: &MarketData, tickers: &Vec<String>, window: usize) -> (res: Result<
    Vec<Vec<Double>>,
    ComputeError,
>)
    ensures
        match stock_fault(market.stock_returns@, tickers@, window as int, tickers@.len() as int) {
            Some(fault) => res is Err && res->Err_0@ == ComputeErrorView::Model(fault),
            None => {
                &&& res is Ok
                &&& res->Ok_0@.len() == tickers@.len()
                &&& forall|t: int|
                    0 <= t < tickers@.len() ==> stock_column(
                        market.stock_returns@,
                        tickers@[t]@,
                        window as int,
                        (#[trigger] res->Ok_0@[t])@,
                    )
            },
        },
{
    let ghost stocks = market.stock_returns@;
    let mut columns: Vec<Vec<Double>> = Vec::new();
    let mut t: usize = 0;
    while t < tickers.len()
        invariant
            t <= tickers@.len(),
            stocks == market.stock_returns@,
            columns@.len() == t,
            stock_fault(stocks, tickers@, window as int, t as int) is None,
            forall|j: int|
                0 <= j < t ==> stock_column(
                    stocks,
                    tickers@[j]@,
                    window as int,
                    (#[trigger] columns@[j])@,
                ),
        decreases tickers.len() - t,
    {
        let place = find_series(&market.stock_returns, tickers[t].as_str());
        let ghost all = tickers@.len() as int;
        match place {
            None => {
                let mut message = Message::of("missing return series for ");
                message.text(tickers[t].as_str());
                proof {
                    lemma_stock_fault_stays(stocks, tickers@, window as int, t as int + 1, all);
                    assert(message@ =~= stock_fault(stocks, tickers@, window as int, t as int + 1)->Some_0);
                }
                return Err(ComputeError::Model(message));
            },
            Some(i) => {
                let have: usize = market.stock_returns[i].values.len();
                if have < window {
                    let mut message = Message::of("ticker ");
                    message.text(tickers[t].as_str());
                    message.text(" has only ");
                    message.count(have);
                    message.text(" observations, need ");
                    message.count(window);
                    proof {
                        lemma_stock_fault_stays(stocks, tickers@, window as int, t as int + 1, all);
                        assert(message@ =~= stock_fault(
                            stocks,
                            tickers@,
                            window as int,
                            t as int + 1,
                        )->Some_0);
                    }
                    return Err(ComputeError::Model(message));
                }
                if window <= data::FACTOR_COUNT + 1 {
                    let mut message = Message::of("not enough observations (");
                    message.count(window);
                    message.text(") for ");
                    message.count(data::FACTOR_COUNT);
                    message.text(" factors plus intercept");
                    proof {
                        lemma_stock_fault_stays(stocks, tickers@, window as int, t as int + 1, all);
                        assert(message@ =~= stock_fault(
                            stocks,
                            tickers@,
                            window as int,
                            t as int + 1,
                        )->Some_0);
                    }
                    return Err(ComputeError::Model(message));
                }
                columns.push(trailing_values(&market.stock_returns[i].values, window));
            },
        }
        t += 1;
    }
    Ok(columns)
}

/// Whether `column` is the trailing window of the series of `ticker`.
pub open spec fn stock_column(
    stocks: Seq<NamedSeries>,
    ticker: Seq<char>,
    window: int,
    column: Seq<Double>,
) -> bool {
    match series_named(stocks, ticker) {
        Some(i) => column == trailing(stocks[i].values@, window),
        None => false,
    }
}

/// Whether `inputs` holds the trailing window of every factor and of every
/// ticker, in their order.
pub open spec fn is_gathered(
    market: MarketData,
    tickers: Seq<String>,
    config: ModelConfig,
    inputs: FitInputs,
) -> bool {
    &&& inputs.factors@.len() == data::FACTOR_COUNT
    &&& forall|k: int|
        0 <= k < data::FACTOR_COUNT ==> (#[trigger] inputs.factors@[k])@ == trailing(
            factor_series(market.factor_returns@, k),
            config.window as int,
        )
    &&& inputs.stocks@.len() == tickers.len()
    &&& forall|t: int|
        0 <= t < tickers.len() ==> stock_column(
            market.stock_returns@,
            tickers[t]@,
            config.window as int,
            (#[trigger] inputs.stocks@[t])@,
        )
}

/// Whether two datasets have series of a name, both at least a window long,
/// that agree in the trailing window.
pub open spec fn same_window(
    a: Seq<NamedSeries>,
    b: Seq<NamedSeries>,
    name: Seq<char>,
    window: int,
) -> bool {
    match (series_named(a, name), series_named(b, name)) {
        (Some(i), Some(j)) => {
            &&& window <= a[i].values@.len()
            &&& window <= b[j].values@.len()
            &&& trailing(a[i].values@, window) == trailing(b[j].values@, window)
        },
        _ => false,
    }
}

/// Whether two datasets agree in the trailing window of every factor and of
/// the given tickers.
pub open spec fn same_windows(
    a: MarketData,
    b: MarketData,
    tickers: Seq<String>,
    window: int,
) -> bool {
    &&& forall|k: int|
        0 <= k < data::FACTOR_COUNT ==> same_window(
            a.factor_returns@,
            b.factor_returns@,
            #[trigger] data::factor_names_view()[k],
            window,
        )
    &&& forall|t: int|
        0 <= t < tickers.len() ==> same_window(
            a.stock_returns@,
            b.stock_returns@,
            (#[trigger] tickers[t])@,
            window,
        )
}

proof fn lemma_no_missing_factor(factors: Seq<NamedSeries>, n: int)
    requires
        0 <= n <= data::FACTOR_COUNT,
        forall|k: int| 0 <= k < data::FACTOR_COUNT ==> #[trigger] has_factor(factors, k),
    ensures
        missing_factor(factors, n) is None,
    decreases n,
{
    if n > 0 {
        lemma_no_missing_factor(factors, n - 1);
        assert(has_factor(factors, n - 1));
    }
}

proof fn lemma_missing_factor(factors: Seq<NamedSeries>, n: int)
    requires
        0 <= n <= data::FACTOR_COUNT,
        missing_factor(factors, n) is None,
    ensures
        forall|k: int| 0 <= k < n ==> #[trigger] has_factor(factors, k),
    decreases n,
{
    if n > 0 {
        lemma_missing_factor(factors, n - 1);
    }
}

proof fn lemma_stock_fault(stocks: Seq<NamedSeries>, tickers: Seq<String>, window: int, n: int)
    requires
        0 <= n <= tickers.len(),
    ensures
        stock_fault(stocks, tickers, window, n) is None <==> (n == 0 || window > 6)
            && forall|t: int|
            0 <= t < n ==> series_named(stocks, (#[trigger] tickers[t])@) is Some
                && stocks[series_named(stocks, tickers[t]@)->Some_0].values@.len() >= window,
    decreases n,
{
    if n > 0 {
        lemma_stock_fault(stocks, tickers, window, n - 1);
        assert(tickers[n - 1]@ == tickers[n - 1]@);
    }
}

/// A model can be fitted exactly where each of the five factors has a series,
/// the first of them and each stock's reach over the window, the window has
/// more than six observations where there is a stock, and ninety where regimes
/// are split.
pub proof fn lemma_what_a_fit_needs(
    market: MarketData,
    tickers: Seq<String>,
    config: ModelConfig,
)
    ensures
        fit_fault(market, tickers, config) is None <==> {
            &&& forall|k: int|
                0 <= k < 5 ==> series_named(
                    market.factor_returns@,
                    #[trigger] data::factor_names_view()[k],
                ) is Some
            &&& config.window <= factor_series(market.factor_returns@, 0).len()
            &&& config.regime_covariance ==> config.window >= 90
            &&& tickers.len() > 0 ==> config.window > 6
            &&& forall|t: int|
                0 <= t < tickers.len() ==> series_named(
                    market.stock_returns@,
                    (#[trigger] tickers[t])@,
                ) is Some && market.stock_returns@[series_named(
                    market.stock_returns@,
                    tickers[t]@,
                )->Some_0].values@.len() >= config.window
        },
{
    let factors = market.factor_returns@;
    lemma_stock_fault(
        market.stock_returns@,
        tickers,
        config.window as int,
        tickers.len() as int,
    );
    if missing_factor(factors, data::FACTOR_COUNT as int) is None {
        lemma_missing_factor(factors, data::FACTOR_COUNT as int);
        assert forall|k: int| 0 <= k < 5 implies series_named(
            factors,
            #[trigger] data::factor_names_view()[k],
        ) is Some by {
            assert(has_factor(factors, k));
        }
    } else if forall|k: int|
        0 <= k < 5 ==> series_named(factors, #[trigger] data::factor_names_view()[k]) is Some {
        assert forall|k: int| 0 <= k < data::FACTOR_COUNT implies #[trigger] has_factor(
            factors,
            k,
        ) by {
            assert(series_named(factors, data::factor_names_view()[k]) is Some);
        }
        lemma_no_missing_factor(factors, data::FACTOR_COUNT as int);
    }
}

/// What is told of a history that is too short: first how many observations
/// there are, then how many the window asks for; and of a stock its ticker
/// before that.
pub proof fn lemma_short_histories_are_told(
    market: MarketData,
    tickers: Seq<String>,
    config: ModelConfig,
)
    requires
        tickers.len() > 0,
    ensures
        (forall|k: int|
            0 <= k < 5 ==> series_named(
                market.factor_returns@,
                #[trigger] data::factor_names_view()[k],
            ) is Some) && factor_series(market.factor_returns@, 0).len() < config.window ==> {
            let told = fit_fault(market, tickers, config);
            &&& told is Some
            &&& told->Some_0[1] == PieceView::Text(
                text::decimal(factor_series(market.factor_returns@, 0).len()),
            )
            &&& told->Some_0[3] == PieceView::Text(text::decimal(config.window as nat))
        },
        ({
            let place = series_named(market.stock_returns@, tickers[0]@);
            let told = stock_fault(market.stock_returns@, tickers, config.window as int, 1);
            place is Some && market.stock_returns@[place->Some_0].values@.len() < config.window ==> {
                &&& told is Some
                &&& told->Some_0[1] == PieceView::Text(tickers[0]@)
                &&& told->Some_0[3] == PieceView::Text(
                    text::decimal(market.stock_returns@[place->Some_0].values@.len()),
                )
                &&& told->Some_0[5] == PieceView::Text(text::decimal(config.window as nat))
            }
        }),
{
    let factors = market.factor_returns@;
    reveal_with_fuel(stock_fault, 2);
    if forall|k: int|
        0 <= k < 5 ==> series_named(factors, #[trigger] data::factor_names_view()[k]) is Some {
        assert forall|k: int| 0 <= k < data::FACTOR_COUNT implies #[trigger] has_factor(
            factors,
            k,
        ) by {
            assert(series_named(factors, data::factor_names_view()[k]) is Some);
        }
        lemma_no_missing_factor(factors, data::FACTOR_COUNT as int);
    }
}

/// What a fit is given: for each factor and each stock the end of a series of
/// that name, so many numbers as the window asks for, the latest last.
pub proof fn lemma_gathered_windows(
    market: MarketData,
    tickers: Seq<String>,
    config: ModelConfig,
    inputs: FitInputs,
    back: int,
)
    requires
        is_gathered(market, tickers, config, inputs),
        fit_fault(market, tickers, config) is None,
        factors_even(market.factor_returns@),
        1 <= back <= config.window,
    ensures
        forall|k: int|
            0 <= k < 5 ==> (#[trigger] inputs.factors@[k])@.len() == config.window && exists|i: int|
                0 <= i < market.factor_returns@.len() && (
                #[trigger] market.factor_returns@[i]).name@ == data::factor_names_view()[k]
                    && inputs.factors@[k]@[config.window - back]
                    == market.factor_returns@[i].values@[market.factor_returns@[i].values@.len()
                    - back],
        forall|t: int|
            0 <= t < tickers.len() ==> (#[trigger] inputs.stocks@[t])@.len() == config.window
                && exists|i: int|
                0 <= i < market.stock_returns@.len() && (#[trigger] market.stock_returns@[i]).name@
                    == tickers[t]@ && inputs.stocks@[t]@[config.window - back]
                    == market.stock_returns@[i].values@[market.stock_returns@[i].values@.len()
                    - back],
{
    lemma_what_a_fit_needs(market, tickers, config);
    let (factors, stocks) = (market.factor_returns@, market.stock_returns@);
    let window = config.window as int;
    assert forall|k: int| 0 <= k < 5 implies (#[trigger] inputs.factors@[k])@.len() == window
        && exists|i: int|
        0 <= i < factors.len() && (#[trigger] factors[i]).name@ == data::factor_names_view()[k]
            && inputs.factors@[k]@[window - back] == factors[i].values@[factors[i].values@.len()
            - back] by {
        assert(series_named(factors, data::factor_names_view()[k]) is Some);
        assert(series_named(factors, data::factor_names_view()[0]) is Some);
        assert(has_factor(factors, k) && has_factor(factors, 0));
        lemma_series_named(factors, data::factor_names_view()[k]);
        let i = series_named(factors, data::factor_names_view()[k])->Some_0;
        assert(factor_series(factors, k).len() == factor_series(factors, 0).len());
        lemma_trailing(factors[i].values@, window);
        assert(factors[i].values@[factors[i].values@.len() - back] == trailing(
            factors[i].values@,
            window,
        )[window - back]);
    }
    assert forall|t: int| 0 <= t < tickers.len() implies (#[trigger] inputs.stocks@[t])@.len()
        == window && exists|i: int|
        0 <= i < stocks.len() && (#[trigger] stocks[i]).name@ == tickers[t]@
            && inputs.stocks@[t]@[window - back] == stocks[i].values@[stocks[i].values@.len()
            - back] by {
        assert(series_named(stocks, tickers[t]@) is Some);
        lemma_series_named(stocks, tickers[t]@);
        let i = series_named(stocks, tickers[t]@)->Some_0;
        lemma_trailing(stocks[i].values@, window);
        assert(stocks[i].values@[stocks[i].values@.len() - back] == trailing(
            stocks[i].values@,
            window,
        )[window - back]);
    }
}

proof fn lemma_same_stock_fault(
    a: MarketData,
    b: MarketData,
    tickers: Seq<String>,
    window: int,
    n: int,
)
    requires
        same_windows(a, b, tickers, window),
        0 <= n <= tickers.len(),
    ensures
        stock_fault(a.stock_returns@, tickers, window, n) == stock_fault(
            b.stock_returns@,
            tickers,
            window,
            n,
        ),
    decreases n,
{
    if n > 0 {
        lemma_same_stock_fault(a, b, tickers, window, n - 1);
        assert(same_window(a.stock_returns@, b.stock_returns@, tickers[n - 1]@, window));
    }
}

/// A fit sees the trailing window alone: two datasets that agree there, however
/// much older history each has, give the same columns or fail alike.
pub proof fn lemma_fit_sees_the_window_alone(
    a: MarketData,
    b: MarketData,
    tickers: Seq<String>,
    config: ModelConfig,
    of_a: FitInputs,
    of_b: FitInputs,
)
    requires
        same_windows(a, b, tickers, config.window as int),
    ensures
        fit_fault(a, tickers, config) == fit_fault(b, tickers, config),
        is_gathered(a, tickers, config, of_a) && is_gathered(b, tickers, config, of_b) ==> {
            &&& rows_view(of_a.factors@) == rows_view(of_b.factors@)
            &&& rows_view(of_a.stocks@) == rows_view(of_b.stocks@)
        },
{
    let window = config.window as int;
    let (fa, fb) = (a.factor_returns@, b.factor_returns@);
    assert forall|k: int| 0 <= k < data::FACTOR_COUNT implies #[trigger] has_factor(fa, k)
        && has_factor(fb, k) && factor_series(fa, k).len() >= window && factor_series(fb, k).len()
        >= window && trailing(factor_series(fa, k), window) == trailing(
        factor_series(fb, k),
        window,
    ) by {
        assert(same_window(fa, fb, data::factor_names_view()[k], window));
    }
    assert(has_factor(fa, 0));
    assert forall|k: int| 0 <= k < data::FACTOR_COUNT implies #[trigger] has_factor(fb, k) by {
        assert(has_factor(fa, k));
    }
    lemma_no_missing_factor(fa, data::FACTOR_COUNT as int);
    lemma_no_missing_factor(fb, data::FACTOR_COUNT as int);
    lemma_same_stock_fault(a, b, tickers, window, tickers.len() as int);
    if is_gathered(a, tickers, config, of_a) && is_gathered(b, tickers, config, of_b) {
        assert forall|k: int| 0 <= k < data::FACTOR_COUNT implies (
        #[trigger] of_a.factors@[k])@ == of_b.factors@[k]@ by {
            assert(has_factor(fa, k));
        }
        assert(rows_view(of_a.factors@) =~= rows_view(of_b.factors@));
        assert forall|t: int| 0 <= t < tickers.len() implies (#[trigger] of_a.stocks@[t])@
            == of_b.stocks@[t]@ by {
            assert(same_window(a.stock_returns@, b.stock_returns@, tickers[t]@, window));
            assert(stock_column(a.stock_returns@, tickers[t]@, window, of_a.stocks@[t]@));
            assert(stock_column(b.stock_returns@, tickers[t]@, window, of_b.stocks@[t]@));
        }
        assert(rows_view(of_a.stocks@) =~= rows_view(of_b.stocks@));
    }
}

/// Gathers the columns that a model is fitted on: the trailing window of
/// every factor and every stock. Fails as [`fit_fault`] says.
pub fn fit_inputs(market: &MarketData, tickers: &Vec<String>, config: ModelConfig) -> (res: Result<
    FitInputs,
    ComputeError,
>)
    requires
        factors_even(market.factor_returns@),
    ensures
        match fit_fault(*market, tickers@, config) {
            Some(fault) => res is Err && res->Err_0@ == ComputeErrorView::Model(fault),
            None => res is Ok && is_gathered(*market, tickers@, config, res->Ok_0),
        },
{
    let window = config.window;
    let places = match factor_columns(market) {
        Ok(places) => places,
        Err(e) => {
            return Err(e);
        },
    };
    let ghost factors = market.factor_returns@;
    assert(Some(places@[0] as int) == series_named(factors, data::factor_names_view()[0]));
    let total: usize = market.factor_returns[places[0]].values.len();
    if total < window {
        let mut message = Message::of("only ");
        message.count(total);
        message.text(" return observations available, need ");
        message.count(window);
        message.text(" for the trailing window");
        assert(message@ =~= fit_fault(*market, tickers@, config)->Some_0);
        return Err(ComputeError::Model(message));
    }
    if config.regime_covariance {
        match regime::check_observations(window) {
            Ok(_) => {},
            Err(e) => {
                return Err(e);
            },
        }
    }
    let mut columns: Vec<Vec<Double>> = Vec::new();
    let mut k: usize = 0;
    while k < places.len()
        invariant
            k <= places@.len(),
            places@.len() == data::FACTOR_COUNT,
            factors == market.factor_returns@,
            factors_even(factors),
            factor_series(factors, 0).len() >= window,
            forall|j: int|
                0 <= j < places@.len() ==> Some((#[trigger] places@[j]) as int) == series_named(
                    factors,
                    data::factor_names_view()[j],
                ) && places@[j] < factors.len(),
            columns@.len() == k,
            forall|j: int|
                0 <= j < k ==> (#[trigger] columns@[j])@ == trailing(
                    factor_series(factors, j),
                    window as int,
                ),
        decreases places.len() - k,
    {
        assert(Some(places@[k as int] as int) == series_named(
            factors,
            data::factor_names_view()[k as int],
        ));
        assert(Some(places@[0] as int) == series_named(factors, data::factor_names_view()[0]));
        assert(factor_series(factors, k as int).len() == factor_series(factors, 0).len());
        columns.push(trailing_values(&market.factor_returns[places[k]].values, window));
        k += 1;
    }
    match stock_columns(market, tickers, window) {
        Ok(stocks) => Ok(FitInputs { factors: columns, stocks }),
        Err(e) => Err(e),
    }
}

// ---------------------------------------------------------------------------
// Regimes
// ---------------------------------------------------------------------------

/// The rows among the first `n` that carry the label `regime`, ascending.
pub open spec fn rows_of_regime(sequence: Seq<u8>, regime: int, n: int) -> Seq<usize>
    decreases n,
{
    if n <= 0 {
        seq![]
    } else {
        let before = rows_of_regime(sequence, regime, n - 1);
        if sequence[n - 1] == regime {
            before.push((n - 1) as usize)
        } else {
            before
        }
    }
}

/// The rows of a regime are those that carry its label, all of them, each once
/// and in ascending order.
pub proof fn lemma_rows_of_regime(sequence: Seq<u8>, regime: int, n: int)
    requires
        0 <= n <= sequence.len() <= usize::MAX,
    ensures
        forall|t: usize|
            0 <= t < n ==> (#[trigger] rows_of_regime(sequence, regime, n).contains(t)
                <==> sequence[t as int] == regime),
        forall|a: int|
            0 <= a < rows_of_regime(sequence, regime, n).len() ==> (#[trigger] rows_of_regime(
                sequence,
                regime,
                n,
            )[a]) < n,
        forall|a: int, b: int|
            0 <= a < b < rows_of_regime(sequence, regime, n).len() ==> (#[trigger] rows_of_regime(
                sequence,
                regime,
                n,
            )[a]) < (#[trigger] rows_of_regime(sequence, regime, n)[b]),
    decreases n,
{
    if n > 0 {
        lemma_rows_of_regime(sequence, regime, n - 1);
        let before = rows_of_regime(sequence, regime, n - 1);
        let rows = rows_of_regime(sequence, regime, n);
        assert forall|t: usize| 0 <= t < n implies (#[trigger] rows.contains(t)
            <==> sequence[t as int] == regime) by {
            if before.contains(t) {
                let k = choose|k: int| 0 <= k < before.len() && before[k] == t;
                assert(rows[k] == t);
            }
            if rows.contains(t) && t < n - 1 {
                let k = choose|k: int| 0 <= k < rows.len() && rows[k] == t;
                assert(before[k] == t);
            }
            if t == n - 1 {
                if sequence[n - 1] == regime {
                    assert(rows[before.len() as int] == t);
                } else if before.contains(t) {
                    let k = choose|k: int| 0 <= k < before.len() && before[k] == t;
                    assert(before[k] < n - 1);
                }
            }
        }
    }
}

/// A regime falls back to the whole window exactly where fewer than thirty rows
/// carry its label, and each regime that does is warned of by its name and
/// number, and by how many rows it has.
pub proof fn lemma_fallbacks(sequence: Seq<u8>, n: int, regime: int)
    requires
        0 <= regime < n,
    ensures
        falls_back(sequence, regime) <==> rows_of_regime(
            sequence,
            regime,
            sequence.len() as int,
        ).len() < 30,
        falls_back(sequence, regime) ==> fallback_warnings(sequence, n).contains(
            fallback_warning(regime, rows_of_regime(sequence, regime, sequence.len() as int).len()),
        ),
        fallback_warnings(sequence, n).len() <= n,
        (forall|r: int| 0 <= r < n ==> !#[trigger] falls_back(sequence, r)) ==> fallback_warnings(
            sequence,
            n,
        ).len() == 0,
    decreases n,
{
    let warnings = fallback_warnings(sequence, n);
    let before = fallback_warnings(sequence, n - 1);
    if n == 1 {
        assert(before.len() == 0);
    }
    if regime < n - 1 {
        lemma_fallbacks(sequence, n - 1, regime);
        if falls_back(sequence, regime) {
            let own = fallback_warning(regime, regime_size(sequence, regime));
            let k = choose|k: int| 0 <= k < before.len() && before[k] == own;
            assert(warnings[k] == own);
        }
    } else {
        if n > 1 {
            lemma_fallbacks(sequence, n - 1, n - 2);
        }
        if falls_back(sequence, regime) {
            assert(warnings[before.len() as int] == fallback_warning(
                regime,
                regime_size(sequence, regime),
            ));
        }
    }
}

/// The rows that carry the label `regime`, ascending.
pub fn regime_rows(sequence: &Vec<u8>, regime: usize) -> (res: Vec<usize>)
    ensures
        res@ == rows_of_regime(sequence@, regime as int, sequence@.len() as int),
{
    let mut out: Vec<usize> = Vec::new();
    let mut t: usize = 0;
    while t < sequence.len()
        invariant
            t <= sequence@.len(),
            out@ == rows_of_regime(sequence@, regime as int, t as int),
        decreases sequence.len() - t,
    {
        if sequence[t] as usize == regime {
            out.push(t);
        }
        t += 1;
    }
    out
}

/// The warning for a regime with too few observations.
pub open spec fn fallback_warning(regime: int, observations: nat) -> Seq<char> {
    "regime_"@ + text::decimal(regime as nat) + " ("@ + regime::label_of(regime) + ") has only "@
        + text::decimal(observations)
        + " observations, fell back to full-window covariance"@
}

/// How many rows carry the label `regime`.
pub open spec fn regime_size(sequence: Seq<u8>, regime: int) -> nat {
    rows_of_regime(sequence, regime, sequence.len() as int).len()
}

/// Whether a regime falls back to the covariance of the whole window.
pub open spec fn falls_back(sequence: Seq<u8>, regime: int) -> bool {
    regime_size(sequence, regime) < MIN_REGIME_OBSERVATIONS
}

/// The warnings for the first `n` regimes.
pub open spec fn fallback_warnings(sequence: Seq<u8>, n: int) -> Seq<Seq<char>>
    decreases n,
{
    if n <= 0 {
        seq![]
    } else {
        let before = fallback_warnings(sequence, n - 1);
        if falls_back(sequence, n - 1) {
            before.push(fallback_warning(n - 1, regime_size(sequence, n - 1)))
        } else {
            before
        }
    }
}

fn warning_text(regime: usize, observations: usize) -> (res: String)
    requires
        regime < regime::N_STATES,
    ensures
        res@ == fallback_warning(regime as int, observations as nat),
{
    let mut out = text::copy("regime_");
    let place = text::decimal_text(regime as u64);
    out.append(place.as_str());
    out.append(" (");
    out.append(regime::label(regime));
    out.append(") has only ");
    let count = text::decimal_text(observations as u64);
    out.append(count.as_str());
    out.append(" observations, fell back to full-window covariance");
    out
}

/// A copy of a matrix.
pub fn copy_matrix(matrix: &Vec<Vec<Double>>) -> (res: Vec<Vec<Double>>)
    ensures
        rows_view(res@) == rows_view(matrix@),
{
    let mut out: Vec<Vec<Double>> = Vec::new();
    let mut i: usize = 0;
    while i < matrix.len()
        invariant
            i <= matrix@.len(),
            out@.len() == i,
            forall|k: int| 0 <= k < i ==> (#[trigger] out@[k])@ == matrix@[k]@,
        decreases matrix.len() - i,
    {
        let n: usize = matrix[i].len();
        let row = trailing_values(&matrix[i], n);
        assert(row@ =~= matrix@[i as int]@);
        out.push(row);
        i += 1;
    }
    assert(rows_view(out@) =~= rows_view(matrix@));
    out
}

/// The rows of a matrix.
pub open spec fn rows_view(matrix: Seq<Vec<Double>>) -> Seq<Seq<Double>> {
    matrix.map_values(|row: Vec<Double>| row@)
}

/// The factor covariance of each regime: its own (`own`, shrunk from the
/// regime's rows) where the regime has enough observations, otherwise that of
/// the whole window, with a warning.
pub fn regime_conditional_factor_covariance(
    own: &Vec<Vec<Vec<Double>>>,
    viterbi_sequence: &Vec<u8>,
    full_window: &Vec<Vec<Double>>,
) -> (res: (Vec<Vec<Vec<Double>>>, Vec<String>))
    requires
        own@.len() == regime::N_STATES,
    ensures
        res.0@.len() == regime::N_STATES,
        forall|r: int|
            0 <= r < regime::N_STATES ==> rows_view((#[trigger] res.0@[r])@) == (if falls_back(
                viterbi_sequence@,
                r,
            ) {
                rows_view(full_window@)
            } else {
                rows_view(own@[r]@)
            }),
        text::views(res.1@) == fallback_warnings(viterbi_sequence@, regime::N_STATES as int),
{
    let mut chosen: Vec<Vec<Vec<Double>>> = Vec::new();
    let mut warnings: Vec<String> = Vec::new();
    let mut r: usize = 0;
    assert(text::views(warnings@) =~= seq![]);
    while r < regime::N_STATES
        invariant
            r <= regime::N_STATES,
            own@.len() == regime::N_STATES,
            chosen@.len() == r,
            forall|k: int|
                0 <= k < r ==> rows_view((#[trigger] chosen@[k])@) == (if falls_back(
                    viterbi_sequence@,
                    k,
                ) {
                    rows_view(full_window@)
                } else {
                    rows_view(own@[k]@)
                }),
            text::views(warnings@) == fallback_warnings(viterbi_sequence@, r as int),
        decreases regime::N_STATES - r,
    {
        let rows = regime_rows(viterbi_sequence, r);
        let ghost before = warnings@;
        if rows.len() < MIN_REGIME_OBSERVATIONS {
            warnings.push(warning_text(r, rows.len()));
            assert(text::views(warnings@) =~= text::views(before).push(
                fallback_warning(r as int, rows@.len()),
            ));
            chosen.push(copy_matrix(full_window));
        } else {
            chosen.push(copy_matrix(&own[r]));
        }
        r += 1;
    }
    (chosen, warnings)
}

// ---------------------------------------------------------------------------
// The model
// ---------------------------------------------------------------------------

/// What least squares make of the trailing window of one stock.
#[derive(Debug)]
pub struct StockEstimate {
    pub intercept: Double,
    /// In the order of the factor names.
    pub betas: Vec<Double>,
    pub residual_variance_daily: Double,
    pub r_squared: Double,
}

/// What the regimes of the trailing window come to.
#[derive(Debug)]
pub struct RegimeEstimate {
    pub state: RegimeState,
    /// The covariance of each regime from its own rows.
    pub own: Vec<Vec<Vec<Double>>>,
}

/// The covariance of the factors in one regime: its own where it has enough
/// observations, otherwise that of the whole window.
pub open spec fn regime_covariance(
    estimate: RegimeEstimate,
    full_window: Seq<Vec<Double>>,
    regime: int,
) -> Seq<Seq<Double>> {
    if falls_back(estimate.state.viterbi_sequence@, regime) {
        rows_view(full_window)
    } else {
        rows_view(estimate.own@[regime]@)
    }
}

/// Whether a fit is that of a ticker over a window.
pub open spec fn is_fit(
    fit: StockFit,
    ticker: Seq<char>,
    window: usize,
    estimate: StockEstimate,
) -> bool {
    &&& fit.ticker@ == ticker
    &&& fit.intercept == estimate.intercept
    &&& fit.betas == estimate.betas
    &&& fit.residual_variance_daily == estimate.residual_variance_daily
    &&& fit.r_squared == estimate.r_squared
    &&& fit.n_obs == window
}

fn name_fits(tickers: &Vec<String>, window: usize, estimates: Vec<StockEstimate>) -> (res: Vec<
    StockFit,
>)
    requires
        estimates@.len() == tickers@.len(),
    ensures
        res@.len() == tickers@.len(),
        forall|t: int|
            0 <= t < tickers@.len() ==> is_fit(
                #[trigger] res@[t],
                tickers@[t]@,
                window,
                estimates@[t],
            ),
{
    let mut rest = estimates;
    let mut out: Vec<StockFit> = Vec::new();
    let mut t: usize = tickers.len();
    while t > 0
        invariant
            t <= tickers@.len(),
            estimates@.len() == tickers@.len(),
            rest@ == estimates@.take(t as int),
            out@.len() == tickers@.len() - t,
            forall|k: int|
                0 <= k < out@.len() ==> is_fit(
                    #[trigger] out@[k],
                    tickers@[t + k]@,
                    window,
                    estimates@[t + k],
                ),
        decreases t,
    {
        t -= 1;
        let ghost before = out@;
        match rest.pop() {
            Some(e) => {
                out.insert(
                    0,
                    StockFit {
                        ticker: text::copy(tickers[t].as_str()),
                        intercept: e.intercept,
                        betas: e.betas,
                        residual_variance_daily: e.residual_variance_daily,
                        r_squared: e.r_squared,
                        n_obs: window,
                    },
                );
                assert forall|k: int| 0 <= k < out@.len() implies is_fit(
                    #[trigger] out@[k],
                    tickers@[t + k]@,
                    window,
                    estimates@[t + k],
                ) by {
                    if k > 0 {
                        assert(out@[k] == before[k - 1]);
                    }
                }
            },
            None => {},
        }
        assert(rest@ =~= estimates@.take(t as int));
    }
    out
}

/// Puts a model together: one fit per ticker, in the order of the tickers and
/// over the window of the configuration. Where the covariance is split, that
/// of the current regime is the one in force, and those of all regimes and the
/// state go with it.
pub fn fit_factor_model_with_config(
    tickers: &Vec<String>,
    config: ModelConfig,
    full_window: Vec<Vec<Double>>,
    shrinkage_intensity: Double,
    estimates: Vec<StockEstimate>,
    regimes: Option<RegimeEstimate>,
) -> (res: FactorModel)
    requires
        estimates@.len() == tickers@.len(),
        regimes is Some <==> config.regime_covariance,
        regimes is Some ==> regimes->Some_0.own@.len() == regime::N_STATES
            && regimes->Some_0.state.current_regime < regime::N_STATES,
    ensures
        res.frequency == config.frequency,
        res.window == config.window,
        text::views(res.tickers@) == text::views(tickers@),
        res.fits@.len() == tickers@.len(),
        forall|t: int|
            0 <= t < tickers@.len() ==> is_fit(
                #[trigger] res.fits@[t],
                tickers@[t]@,
                config.window,
                estimates@[t],
            ),
        res.shrinkage_intensity == shrinkage_intensity,
        res.regime_state is Some <==> config.regime_covariance,
        match regimes {
            None => {
                &&& rows_view(res.factor_covariance_daily@) == rows_view(full_window@)
                &&& res.regime_state is None
                &&& res.regime_factor_covariance_daily is None
                &&& res.regime_fallback_warnings@.len() == 0
            },
            Some(estimate) => {
                &&& res.regime_state == Some(estimate.state)
                &&& rows_view(res.factor_covariance_daily@) == regime_covariance(
                    estimate,
                    full_window@,
                    estimate.state.current_regime as int,
                )
                &&& res.regime_factor_covariance_daily is Some
                &&& res.regime_factor_covariance_daily->Some_0@.len() == regime::N_STATES
                &&& forall|r: int|
                    0 <= r < regime::N_STATES ==> rows_view(
                        (#[trigger] res.regime_factor_covariance_daily->Some_0@[r])@,
                    ) == regime_covariance(estimate, full_window@, r)
                &&& text::views(res.regime_fallback_warnings@) == fallback_warnings(
                    estimate.state.viterbi_sequence@,
                    regime::N_STATES as int,
                )
            },
        },
{
    let fits = name_fits(tickers, config.window, estimates);
    match regimes {
        None => FactorModel {
            frequency: config.frequency,
            window: config.window,
            tickers: text::copy_all(tickers),
            fits,
            factor_covariance_daily: full_window,
            shrinkage_intensity,
            regime_state: None,
            regime_factor_covariance_daily: None,
            regime_fallback_warnings: Vec::new(),
        },
        Some(estimate) => {
            let (per_regime, warnings) = regime_conditional_factor_covariance(
                &estimate.own,
                &estimate.state.viterbi_sequence,
                &full_window,
            );
            let current: usize = estimate.state.current_regime as usize;
            FactorModel {
                frequency: config.frequency,
                window: config.window,
                tickers: text::copy_all(tickers),
                fits,
                factor_covariance_daily: copy_matrix(&per_regime[current]),
                shrinkage_intensity,
                regime_state: Some(estimate.state),
                regime_factor_covariance_daily: Some(per_regime),
                regime_fallback_warnings: warnings,
            }
        },
    }
}

} // verus!
