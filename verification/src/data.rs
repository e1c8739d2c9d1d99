//! Market data: price series, their alignment onto the exchange calendar,
//! and what has to hold before returns may be computed from them.

use std::collections::BTreeMap;

use vstd::prelude::*;

use crate::dates;
use crate::double::Double;
use crate::error::{ComputeError, ComputeErrorView};
use crate::experiments::Portfolio;
use crate::message::{Message, PieceView};
use crate::model;
use crate::performance;
use crate::text;

verus! {

/// Market factor ticker (Nifty 50).
pub const MARKET: &'static str = "^NSEI";

/// USD/INR ticker.
pub const USDINR: &'static str = "INR=X";

/// Brent crude futures ticker.
pub const BRENT: &'static str = "BZ=F";

/// Gold futures ticker.
pub const GOLD: &'static str = "GC=F";

/// Nifty Bank ticker, used only to build the rates proxy factor.
pub const BANK: &'static str = "^NSEBANK";

/// Label of the derived factor: bank index return minus market return.
pub const RATES_PROXY: &'static str = "RATES_PROXY";

/// Number of factors of the model.
pub const FACTOR_COUNT: usize = 5;

/// Most consecutive calendar slots a series is carried forward over.
pub const MAX_FORWARD_FILL_DAYS: usize = 3;

/// The factor names in the order of every beta vector, covariance matrix and
/// trace.
pub open spec fn factor_names_view() -> Seq<Seq<char>> {
    seq!["MARKET"@, "USDINR"@, "BRENT"@, "GOLD_USD"@, RATES_PROXY@]
}

/// The tickers that have to be fetched for the factors, in the order of the
/// factors; the last one serves to derive [`RATES_PROXY`].
pub open spec fn factor_tickers_view() -> Seq<Seq<char>> {
    seq![MARKET@, USDINR@, BRENT@, GOLD@, BANK@]
}

/// The factor names, in model order.
pub fn factor_names() -> (res: Vec<String>)
    ensures
        text::views(res@) == factor_names_view(),
        res@.len() == FACTOR_COUNT,
{
    let mut out: Vec<String> = Vec::new();
    out.push(text::copy("MARKET"));
    out.push(text::copy("USDINR"));
    out.push(text::copy("BRENT"));
    out.push(text::copy("GOLD_USD"));
    out.push(text::copy(RATES_PROXY));
    assert(text::views(out@) =~= factor_names_view());
    out
}

/// The five factors, by name and in order; no two have the same name.
pub proof fn lemma_factor_names()
    ensures
        factor_names_view().len() == 5,
        FACTOR_COUNT == 5,
        factor_names_view()[0] == "MARKET"@,
        factor_names_view()[1] == "USDINR"@,
        factor_names_view()[2] == "BRENT"@,
        factor_names_view()[3] == "GOLD_USD"@,
        factor_names_view()[4] == "RATES_PROXY"@,
        forall|a: int, b: int|
            0 <= a < b < 5 ==> #[trigger] factor_names_view()[a]
                != #[trigger] factor_names_view()[b],
{
    reveal_strlit("MARKET");
    reveal_strlit("USDINR");
    reveal_strlit("BRENT");
    reveal_strlit("GOLD_USD");
    reveal_strlit("RATES_PROXY");
    assert("MARKET"@.len() == 6 && "USDINR"@.len() == 6 && "BRENT"@.len() == 5);
    assert("GOLD_USD"@.len() == 8 && "RATES_PROXY"@.len() == 11);
    assert("MARKET"@[0] == 'M' && "USDINR"@[0] == 'U');
}

/// Each factor is read off its own ticker: the Nifty index, the rupee rate of
/// the dollar, Brent, gold, and the index of banks.
pub proof fn lemma_factor_tickers()
    ensures
        factor_tickers_view().len() == 5,
        factor_tickers_view()[0] == "^NSEI"@,
        factor_tickers_view()[1] == "INR=X"@,
        factor_tickers_view()[2] == "BZ=F"@,
        factor_tickers_view()[3] == "GC=F"@,
        factor_tickers_view()[4] == "^NSEBANK"@,
{
}

/// The tickers fetched for the factors, in model order.
pub fn factor_tickers() -> (res: Vec<String>)
    ensures
        text::views(res@) == factor_tickers_view(),
        res@.len() == FACTOR_COUNT,
{
    let mut out: Vec<String> = Vec::new();
    out.push(text::copy(MARKET));
    out.push(text::copy(USDINR));
    out.push(text::copy(BRENT));
    out.push(text::copy(GOLD));
    out.push(text::copy(BANK));
    assert(text::views(out@) =~= factor_tickers_view());
    out
}

/// Dates paired with adjusted closing prices, as fetched or cached.
#[derive(Debug)]
pub struct PriceSeries {
    pub ticker: String,
    pub dates: Vec<i32>,
    pub closes: Vec<Double>,
}

/// How well one series covered the calendar.
#[derive(Debug)]
pub struct SeriesQuality {
    pub ticker: String,
    /// Observations before alignment.
    pub raw_observations: usize,
    /// Calendar days filled with the last known price.
    pub forward_filled_days: usize,
    /// Calendar days left without a price.
    pub dropped_days: usize,
}

/// How well a loaded dataset covered the calendar.
#[derive(Debug)]
pub struct DataQuality {
    pub date_range_start: i32,
    pub date_range_end: i32,
    pub trading_days: usize,
    pub per_series: Vec<SeriesQuality>,
}

/// A name with the numbers that belong to it.
#[derive(Debug)]
pub struct NamedSeries {
    pub name: String,
    pub values: Vec<Double>,
}

/// Returns on the exchange calendar, ready for fitting. `dates` has one
/// entry more than each series: a return needs a prior price.
#[derive(Debug)]
pub struct MarketData {
    pub dates: Vec<i32>,
    pub stock_returns: Vec<NamedSeries>,
    pub factor_returns: Vec<NamedSeries>,
    pub quality: DataQuality,
}

impl MarketData {
    /// Whether every series has a return for each date but the first.
    pub open spec fn rectangular(self) -> bool {
        &&& all_of_length(self.stock_returns@, self.dates@.len() - 1)
        &&& all_of_length(self.factor_returns@, self.dates@.len() - 1)
    }

    /// Whether every series has a return for each date but the first.
    pub fn is_rectangular(&self) -> (res: bool)
        ensures
            res == self.rectangular(),
    {
        covers(&self.stock_returns, self.dates.len()) && covers(
            &self.factor_returns,
            self.dates.len(),
        )
    }
}

/// Whether every series holds `length` numbers.
pub open spec fn all_of_length(series: Seq<NamedSeries>, length: int) -> bool {
    forall|i: int| 0 <= i < series.len() ==> (#[trigger] series[i]).values@.len() == length
}

fn covers(series: &Vec<NamedSeries>, dates: usize) -> (res: bool)
    ensures
        res == all_of_length(series@, dates - 1),
{
    let mut i: usize = 0;
    while i < series.len()
        invariant
            i <= series@.len(),
            forall|k: int|
                0 <= k < i ==> (#[trigger] series@[k]).values@.len() == dates - 1,
        decreases series.len() - i,
    {
        if dates == 0 || series[i].values.len() != dates - 1 {
            assert(series@[i as int].values@.len() != dates - 1);
            return false;
        }
        i += 1;
    }
    true
}

// ---------------------------------------------------------------------------
// Names
// ---------------------------------------------------------------------------

/// Whether `c` is an ASCII letter or digit.
pub open spec fn is_alphanumeric(c: char) -> bool {
    ('0' <= c && c <= '9') || ('A' <= c && c <= 'Z') || ('a' <= c && c <= 'z')
}

/// A ticker with everything but ASCII letters and digits made `_`.
pub open spec fn sanitized(ticker: Seq<char>) -> Seq<char> {
    ticker.map_values(
        |c: char|
            if is_alphanumeric(c) {
                c
            } else {
                '_'
            },
    )
}

/// A file name keeps the length of its ticker; letters and digits stay where
/// they are, and everything else becomes an underscore.
pub proof fn lemma_sanitized(ticker: Seq<char>)
    ensures
        sanitized(ticker).len() == ticker.len(),
        forall|i: int|
            0 <= i < ticker.len() ==> {
                let c = ticker[i];
                if ('0' <= c && c <= '9') || ('A' <= c && c <= 'Z') || ('a' <= c && c <= 'z') {
                    (#[trigger] sanitized(ticker)[i]) == c
                } else {
                    sanitized(ticker)[i] == '_'
                }
            },
{
}

/// Makes a ticker fit for use in a file name.
pub fn sanitize_for_filename(ticker: &str) -> (res: String)
    ensures
        res@ == sanitized(ticker@),
{
    let chars = text::chars_of(ticker);
    let mut out = String::new();
    let mut i: usize = 0;
    while i < chars.len()
        invariant
            i <= chars@.len(),
            chars@ == ticker@,
            out@ == sanitized(ticker@).take(i as int),
        decreases chars.len() - i,
    {
        let c = chars[i];
        if ('0' <= c && c <= '9') || ('A' <= c && c <= 'Z') || ('a' <= c && c <= 'z') {
            out.push(c);
        } else {
            out.push('_');
        }
        i += 1;
        assert(out@ =~= sanitized(ticker@).take(i as int));
    }
    assert(sanitized(ticker@).take(ticker@.len() as int) =~= sanitized(ticker@));
    out
}

/// The name of the file that caches the prices of `ticker`.
pub fn cache_file_name(ticker: &str) -> (res: String)
    ensures
        res@ == sanitized(ticker@) + ".csv"@,
{
    let name = sanitize_for_filename(ticker);
    text::join2(name.as_str(), ".csv")
}

/// A ticker as it stands in a URL: `^` and `=` are escaped.
pub open spec fn url_encoded(ticker: Seq<char>) -> Seq<char>
    decreases ticker.len(),
{
    if ticker.len() == 0 {
        seq![]
    } else {
        url_encoded(ticker.drop_last()) + (if ticker.last() == '^' {
            "%5E"@
        } else if ticker.last() == '=' {
            "%3D"@
        } else {
            seq![ticker.last()]
        })
    }
}

/// Escaping goes character by character: the escape of two parts put together
/// is that of the first and then that of the second, a caret and an equals sign
/// alone become their escapes, and any other character stays.
pub proof fn lemma_url_encoded(a: Seq<char>, b: Seq<char>, c: char)
    ensures
        url_encoded(a + b) == url_encoded(a) + url_encoded(b),
        url_encoded(seq![]) == Seq::<char>::empty(),
        url_encoded(seq!['^']) == "%5E"@,
        url_encoded(seq!['=']) == "%3D"@,
        c != '^' && c != '=' ==> url_encoded(seq![c]) == seq![c],
    decreases b.len(),
{
    reveal_with_fuel(url_encoded, 2);
    assert(seq!['^'].drop_last() =~= seq![]);
    assert(seq!['='].drop_last() =~= seq![]);
    assert(seq![c].drop_last() =~= seq![]);
    assert(url_encoded(seq!['^']) =~= "%5E"@);
    assert(url_encoded(seq!['=']) =~= "%3D"@);
    if c != '^' && c != '=' {
        assert(url_encoded(seq![c]) =~= seq![c]);
    }
    if b.len() == 0 {
        assert(a + b =~= a);
        assert(url_encoded(a) + url_encoded(b) =~= url_encoded(a));
    } else {
        lemma_url_encoded(a, b.drop_last(), c);
        assert((a + b).drop_last() =~= a + b.drop_last());
        assert((a + b).last() == b.last());
        assert(url_encoded(a + b) =~= url_encoded(a) + url_encoded(b));
    }
}

/// Escapes a ticker for use in a URL.
pub fn urlencode_ticker(ticker: &str) -> (res: String)
    ensures
        res@ == url_encoded(ticker@),
{
    let chars = text::chars_of(ticker);
    let mut out = String::new();
    let mut i: usize = 0;
    while i < chars.len()
        invariant
            i <= chars@.len(),
            chars@ == ticker@,
            out@ == url_encoded(ticker@.take(i as int)),
        decreases chars.len() - i,
    {
        assert(ticker@.take(i as int + 1).drop_last() =~= ticker@.take(i as int));
        let c = chars[i];
        if c == '^' {
            out.append("%5E");
        } else if c == '=' {
            out.append("%3D");
        } else {
            out.push(c);
        }
        i += 1;
        assert(out@ =~= url_encoded(ticker@.take(i as int)));
    }
    assert(ticker@.take(ticker@.len() as int) =~= ticker@);
    out
}

/// The address of the five-year daily price history of `ticker`.
pub fn chart_url(ticker: &str) -> (res: String)
    ensures
        res@ == "https://query1.finance.yahoo.com/v8/finance/chart/"@ + url_encoded(ticker@)
            + "?range=5y&interval=1d"@,
{
    let name = urlencode_ticker(ticker);
    text::join3(
        "https://query1.finance.yahoo.com/v8/finance/chart/",
        name.as_str(),
        "?range=5y&interval=1d",
    )
}

// ---------------------------------------------------------------------------
// Reading a chart document
// ---------------------------------------------------------------------------

/// The error part of a chart document.
#[derive(Debug)]
pub struct ChartFault {
    /// Whether it is the JSON value `null`.
    pub null: bool,
    /// Its JSON text.
    pub text: String,
}

/// One result of a chart document.
#[derive(Debug)]
pub struct ChartResult {
    pub timestamps: Option<Vec<i64>>,
    /// The lists of adjusted closes, where the document has that part.
    pub adjusted: Option<Vec<Vec<Option<Double>>>>,
    /// The lists of unadjusted closes.
    pub quoted: Vec<Vec<Option<Double>>>,
}

/// A chart document.
#[derive(Debug)]
pub struct Chart {
    pub error: Option<ChartFault>,
    pub results: Option<Vec<ChartResult>>,
}

/// The observations in the first `n` slots of a chart: the slots that have a
/// price, each with its day; `None` where one of them has no valid day.
pub open spec fn chart_rows(
    timestamps: Seq<i64>,
    closes: Seq<Option<Double>>,
    n: int,
) -> Option<Seq<(i32, Double)>>
    decreases n,
{
    if n <= 0 {
        Some(seq![])
    } else {
        match chart_rows(timestamps, closes, n - 1) {
            None => None,
            Some(rows) => match closes[n - 1] {
                None => Some(rows),
                Some(close) => if dates::is_day(dates::day_of_second(timestamps[n - 1])) {
                    Some(rows.push((dates::day_of_second(timestamps[n - 1]) as i32, close)))
                } else {
                    None
                },
            },
        }
    }
}

/// The list of closes a chart result offers: the first adjusted list where
/// there is that part, the first quoted list otherwise.
pub open spec fn chart_closes(result: ChartResult) -> Option<Seq<Option<Double>>> {
    match result.adjusted {
        Some(lists) => if lists@.len() > 0 {
            Some(lists@[0]@)
        } else {
            None
        },
        None => if result.quoted@.len() > 0 {
            Some(result.quoted@[0]@)
        } else {
            None
        },
    }
}

/// The number of slots that two lists have in common.
pub open spec fn common(a: int, b: int) -> int {
    if a <= b {
        a
    } else {
        b
    }
}

/// What a chart document gives for `ticker`: its rows, or the data error.
pub open spec fn chart_outcome(ticker: Seq<char>, chart: Chart) -> Result<
    Seq<(i32, Double)>,
    Seq<PieceView>,
> {
    if chart.error is Some && !chart.error->Some_0.null {
        Err(
            seq![
                PieceView::Text("yahoo chart error for "@),
                PieceView::Text(ticker),
                PieceView::Text(": "@),
                PieceView::Text(chart.error->Some_0.text@),
            ],
        )
    } else if chart.results is None || chart.results->Some_0@.len() == 0 {
        Err(seq![PieceView::Text("no chart result for "@), PieceView::Text(ticker)])
    } else {
        let result = chart.results->Some_0@[0];
        if result.timestamps is None {
            Err(seq![PieceView::Text("no timestamps for "@), PieceView::Text(ticker)])
        } else {
            match chart_closes(result) {
                None => if result.adjusted is Some {
                    Err(seq![PieceView::Text("no adjclose for "@), PieceView::Text(ticker)])
                } else {
                    Err(seq![PieceView::Text("no close for "@), PieceView::Text(ticker)])
                },
                Some(closes) => {
                    let times = result.timestamps->Some_0@;
                    match chart_rows(times, closes, common(times.len() as int, closes.len() as int)) {
                        Some(rows) => Ok(rows),
                        None => Err(
                            seq![PieceView::Text("bad timestamp for "@), PieceView::Text(ticker)],
                        ),
                    }
                },
            }
        }
    }
}

/// Whether the second `seconds` after the start of Unix time falls on `day`.
pub open spec fn falls_on(seconds: int, day: int) -> bool {
    86_400 * (day - 719_163) <= seconds < 86_400 * (day - 719_163) + 86_400
}

/// The slots below `n` that have a price, ascending.
spec fn priced_slots(closes: Seq<Option<Double>>, n: int) -> Seq<int>
    decreases n,
{
    if n <= 0 {
        seq![]
    } else if closes[n - 1] is Some {
        priced_slots(closes, n - 1).push(n - 1)
    } else {
        priced_slots(closes, n - 1)
    }
}

/// The rows of a chart are its slots with a price, in order and none left out:
/// each has the price of its own slot, and the day on which the timestamp of
/// that slot falls. There are none exactly where a slot with a price falls on
/// no day that a date can have.
pub proof fn lemma_chart_rows_are_the_priced_slots(
    timestamps: Seq<i64>,
    closes: Seq<Option<Double>>,
    n: int,
)
    requires
        0 <= n <= timestamps.len(),
        n <= closes.len(),
    ensures
        chart_rows(timestamps, closes, n) is None <==> exists|k: int|
            0 <= k < n && (#[trigger] closes[k]) is Some && !(exists|day: int|
                -95_746_129 <= day <= 95_745_399 && #[trigger] falls_on(
                    timestamps[k] as int,
                    day,
                )),
        match chart_rows(timestamps, closes, n) {
            Some(rows) => exists|slots: Seq<int>|
                {
                    &&& #[trigger] slots.len() == rows.len()
                    &&& forall|a: int, b: int| 0 <= a < b < slots.len() ==> slots[a] < slots[b]
                    &&& forall|r: int|
                        0 <= r < slots.len() ==> 0 <= (#[trigger] slots[r]) < n
                            && closes[slots[r]] == Some(rows[r].1) && falls_on(
                            timestamps[slots[r]] as int,
                            rows[r].0 as int,
                        )
                    &&& forall|k: int|
                        0 <= k < n && (#[trigger] closes[k]) is Some ==> slots.contains(k)
                },
            None => true,
        },
        (forall|k: int| 0 <= k < n ==> (#[trigger] closes[k]) is Some) && chart_rows(
            timestamps,
            closes,
            n,
        ) is Some ==> {
            let rows = chart_rows(timestamps, closes, n)->Some_0;
            &&& rows.len() == n
            &&& forall|k: int|
                0 <= k < n ==> falls_on(timestamps[k] as int, (#[trigger] rows[k]).0 as int)
                    && closes[k] == Some(rows[k].1)
        },
{
    lemma_chart_rows_by_slot(timestamps, closes, n);
    if let Some(rows) = chart_rows(timestamps, closes, n) {
        let slots = priced_slots(closes, n);
        assert(slots.len() == rows.len());
        if forall|k: int| 0 <= k < n ==> (#[trigger] closes[k]) is Some {
            lemma_all_priced(closes, n);
            assert forall|k: int| 0 <= k < n implies falls_on(
                timestamps[k] as int,
                (#[trigger] rows[k]).0 as int,
            ) && closes[k] == Some(rows[k].1) by {
                assert(slots[k] == k);
            }
        }
    }
}

proof fn lemma_all_priced(closes: Seq<Option<Double>>, n: int)
    requires
        0 <= n <= closes.len(),
        forall|k: int| 0 <= k < n ==> (#[trigger] closes[k]) is Some,
    ensures
        priced_slots(closes, n).len() == n,
        forall|k: int| 0 <= k < n ==> (#[trigger] priced_slots(closes, n)[k]) == k,
    decreases n,
{
    if n > 0 {
        lemma_all_priced(closes, n - 1);
    }
}

proof fn lemma_day_of_second(seconds: i64, day: int)
    ensures
        falls_on(seconds as int, day) <==> dates::day_of_second(seconds) == day,
{
    let s = seconds as int;
    assert(86_400 * (s / 86_400) <= s < 86_400 * (s / 86_400) + 86_400);
}

proof fn lemma_chart_rows_by_slot(timestamps: Seq<i64>, closes: Seq<Option<Double>>, n: int)
    requires
        0 <= n <= timestamps.len(),
        n <= closes.len(),
    ensures
        chart_rows(timestamps, closes, n) is None <==> exists|k: int|
            0 <= k < n && (#[trigger] closes[k]) is Some && !(exists|day: int|
                -95_746_129 <= day <= 95_745_399 && #[trigger] falls_on(
                    timestamps[k] as int,
                    day,
                )),
        forall|a: int, b: int|
            0 <= a < b < priced_slots(closes, n).len() ==> priced_slots(closes, n)[a]
                < priced_slots(closes, n)[b],
        forall|k: int|
            0 <= k < n && (#[trigger] closes[k]) is Some ==> priced_slots(closes, n).contains(k),
        forall|r: int|
            0 <= r < priced_slots(closes, n).len() ==> 0 <= (#[trigger] priced_slots(closes, n)[r])
                < n,
        match chart_rows(timestamps, closes, n) {
            Some(rows) => {
                let slots = priced_slots(closes, n);
                &&& rows.len() == slots.len()
                &&& forall|r: int|
                    0 <= r < slots.len() ==> closes[#[trigger] slots[r]] == Some(rows[r].1)
                        && falls_on(timestamps[slots[r]] as int, rows[r].0 as int)
            },
            None => true,
        },
    decreases n,
{
    if n > 0 {
        lemma_chart_rows_by_slot(timestamps, closes, n - 1);
        let before = priced_slots(closes, n - 1);
        let slots = priced_slots(closes, n);
        let today = dates::day_of_second(timestamps[n - 1]);
        lemma_day_of_second(timestamps[n - 1], today);
        assert((exists|day: int|
            -95_746_129 <= day <= 95_745_399 && #[trigger] falls_on(
                timestamps[n - 1] as int,
                day,
            )) <==> dates::is_day(today)) by {
            if exists|day: int|
                -95_746_129 <= day <= 95_745_399 && #[trigger] falls_on(
                    timestamps[n - 1] as int,
                    day,
                ) {
                let day = choose|day: int|
                    -95_746_129 <= day <= 95_745_399 && #[trigger] falls_on(
                        timestamps[n - 1] as int,
                        day,
                    );
                lemma_day_of_second(timestamps[n - 1], day);
            }
        }
        assert forall|k: int| 0 <= k < n && (#[trigger] closes[k]) is Some implies slots.contains(
            k,
        ) by {
            if k < n - 1 {
                assert(before.contains(k));
                let r = choose|r: int| 0 <= r < before.len() && before[r] == k;
                assert(slots[r] == k);
            } else {
                assert(slots[slots.len() - 1] == k);
            }
        }
        if let Some(rows) = chart_rows(timestamps, closes, n) {
            let earlier = chart_rows(timestamps, closes, n - 1)->Some_0;
            assert forall|r: int| 0 <= r < slots.len() implies closes[#[trigger] slots[r]] == Some(
                rows[r].1,
            ) && falls_on(timestamps[slots[r]] as int, rows[r].0 as int) by {
                if r < before.len() {
                    assert(slots[r] == before[r]);
                    assert(rows[r] == earlier[r]);
                }
            }
        }
        if chart_rows(timestamps, closes, n) is None {
            if chart_rows(timestamps, closes, n - 1) is Some {
                assert(closes[n - 1] is Some);
            }
        }
    }
}

/// A chart that gives a series gives it from the timestamps of its first
/// result and, slot by slot, the first list of adjusted closes, or the first
/// list of quoted ones where it has no adjusted part.
pub proof fn lemma_chart_gives_its_first_result(ticker: Seq<char>, chart: Chart)
    ensures
        chart_outcome(ticker, chart) is Ok ==> {
            let first = chart.results->Some_0@[0];
            let times = first.timestamps->Some_0@;
            let closes = match first.adjusted {
                Some(lists) => lists@[0]@,
                None => first.quoted@[0]@,
            };
            &&& chart.error is None || chart.error->Some_0.null
            &&& chart.results is Some && chart.results->Some_0@.len() > 0
            &&& first.timestamps is Some
            &&& first.adjusted is Some ==> first.adjusted->Some_0@.len() > 0
            &&& first.adjusted is None ==> first.quoted@.len() > 0
            &&& chart_rows(
                times,
                closes,
                if times.len() <= closes.len() {
                    times.len() as int
                } else {
                    closes.len() as int
                },
            ) == Some(chart_outcome(ticker, chart)->Ok_0)
        },
{
}

fn data_error(sentence: &str, ticker: &str) -> (res: ComputeError)
    ensures
        res@ == ComputeErrorView::Data(seq![PieceView::Text(sentence@), PieceView::Text(ticker@)]),
{
    let mut message = Message::of(sentence);
    message.text(ticker);
    assert(message@ =~= seq![PieceView::Text(sentence@), PieceView::Text(ticker@)]);
    ComputeError::Data(message)
}

proof fn lemma_chart_rows_stay_bad(timestamps: Seq<i64>, closes: Seq<Option<Double>>, n: int, m: int)
    requires
        chart_rows(timestamps, closes, n) is None,
        n <= m,
    ensures
        chart_rows(timestamps, closes, m) is None,
    decreases m - n,
{
    if n < m {
        lemma_chart_rows_stay_bad(timestamps, closes, n, m - 1);
    }
}

fn collect_rows(ticker: &str, timestamps: &Vec<i64>, closes: &Vec<Option<Double>>) -> (res: Result<
    PriceSeries,
    ComputeError,
>)
    ensures
        ({
            let n = common(timestamps@.len() as int, closes@.len() as int);
            match chart_rows(timestamps@, closes@, n) {
                Some(rows) => res is Ok && res->Ok_0.ticker@ == ticker@ && res->Ok_0.rows() == rows,
                None => res is Err && res->Err_0@ == ComputeErrorView::Data(
                    seq![PieceView::Text("bad timestamp for "@), PieceView::Text(ticker@)],
                ),
            }
        }),
        res is Ok ==> res->Ok_0.dates@.len() == res->Ok_0.closes@.len(),
{
    let n: usize = if timestamps.len() <= closes.len() {
        timestamps.len()
    } else {
        closes.len()
    };
    let mut series = PriceSeries {
        ticker: text::copy(ticker),
        dates: Vec::new(),
        closes: Vec::new(),
    };
    let mut i: usize = 0;
    assert(series.rows() =~= seq![]);
    while i < n
        invariant
            i <= n <= timestamps@.len(),
            n <= closes@.len(),
            n == common(timestamps@.len() as int, closes@.len() as int),
            series.ticker@ == ticker@,
            series.dates@.len() == series.closes@.len(),
            chart_rows(timestamps@, closes@, i as int) == Some(series.rows()),
        decreases n - i,
    {
        let ghost before = series.rows();
        if let Some(close) = closes[i] {
            match dates::day_of_timestamp(timestamps[i]) {
                Some(day) => {
                    series.dates.push(day);
                    series.closes.push(close);
                    assert(series.rows() =~= before.push((day, close)));
                },
                None => {
                    proof {
                        assert(chart_rows(timestamps@, closes@, i as int + 1) is None);
                        lemma_chart_rows_stay_bad(timestamps@, closes@, i as int + 1, n as int);
                    }
                    return Err(data_error("bad timestamp for ", ticker));
                },
            }
        }
        i += 1;
    }
    Ok(series)
}

impl PriceSeries {
    /// The observations in order, as far as dates and closes pair up.
    pub open spec fn rows(self) -> Seq<(i32, Double)> {
        Seq::new(
            common(self.dates@.len() as int, self.closes@.len() as int) as nat,
            |i: int| (self.dates@[i], self.closes@[i]),
        )
    }
}

/// Reads the price series of `ticker` out of a chart document.
pub fn series_from_chart(ticker: &str, chart: &Chart) -> (res: Result<PriceSeries, ComputeError>)
    ensures
        match chart_outcome(ticker@, *chart) {
            Ok(rows) => res is Ok && res->Ok_0.ticker@ == ticker@ && res->Ok_0.rows() == rows
                && res->Ok_0.dates@.len() == res->Ok_0.closes@.len(),
            Err(m) => res is Err && res->Err_0@ == ComputeErrorView::Data(m),
        },
{
    if let Some(fault) = &chart.error {
        if !fault.null {
            let mut message = Message::of("yahoo chart error for ");
            message.text(ticker);
            message.text(": ");
            message.text(fault.text.as_str());
            assert(message@ =~= chart_outcome(ticker@, *chart)->Err_0);
            return Err(ComputeError::Data(message));
        }
    }
    let results = match &chart.results {
        Some(results) => results,
        None => {
            return Err(data_error("no chart result for ", ticker));
        },
    };
    if results.len() == 0 {
        return Err(data_error("no chart result for ", ticker));
    }
    let result = &results[0];
    let timestamps = match &result.timestamps {
        Some(timestamps) => timestamps,
        None => {
            return Err(data_error("no timestamps for ", ticker));
        },
    };
    match &result.adjusted {
        Some(lists) => {
            if lists.len() == 0 {
                return Err(data_error("no adjclose for ", ticker));
            }
            collect_rows(ticker, timestamps, &lists[0])
        },
        None => {
            if result.quoted.len() == 0 {
                return Err(data_error("no close for ", ticker));
            }
            collect_rows(ticker, timestamps, &result.quoted[0])
        },
    }
}

// ---------------------------------------------------------------------------
// Cached rows
// ---------------------------------------------------------------------------

fn cache_fault(sentence: &str, ticker: &str, reason: &str) -> (res: ComputeError)
    ensures
        res@ == ComputeErrorView::Data(cache_fault_view(sentence@, ticker@, reason@)),
{
    let mut message = Message::of(sentence);
    message.text(ticker);
    message.text(": ");
    message.text(reason);
    assert(message@ =~= cache_fault_view(sentence@, ticker@, reason@));
    ComputeError::Data(message)
}

/// The message for a cached row that cannot be read.
pub open spec fn cache_fault_view(
    sentence: Seq<char>,
    ticker: Seq<char>,
    reason: Seq<char>,
) -> Seq<PieceView> {
    seq![
        PieceView::Text(sentence),
        PieceView::Text(ticker),
        PieceView::Text(": "@),
        PieceView::Text(reason),
    ]
}

/// Reads one cached row: its date field, and the close that its second field
/// was read as (or why that failed).
pub fn cached_row(ticker: &str, date_field: &str, close: Result<Double, String>) -> (res: Result<
    (i32, Double),
    ComputeError,
>)
    ensures
        match dates::date_parse(date_field@) {
            Err(reason) => res is Err && res->Err_0@ == ComputeErrorView::Data(
                cache_fault_view("bad cached date for "@, ticker@, reason),
            ),
            Ok(day) => match close {
                Err(reason) => res is Err && res->Err_0@ == ComputeErrorView::Data(
                    cache_fault_view("bad cached close for "@, ticker@, reason@),
                ),
                Ok(price) => res is Ok && res->Ok_0.0 == day && res->Ok_0.1 == price,
            },
        },
        forall|day: int| #[trigger]
            dates::has_plain_year(day) && date_field@ == dates::date_text(day) && close is Ok
                ==> res is Ok && res->Ok_0.0 == day && res->Ok_0.1 == close->Ok_0,
{
    match dates::parse_date(date_field) {
        Err(reason) => Err(cache_fault("bad cached date for ", ticker, reason.as_str())),
        Ok(day) => match close {
            Err(reason) => Err(cache_fault("bad cached close for ", ticker, reason.as_str())),
            Ok(price) => Ok((day, price)),
        },
    }
}

// ---------------------------------------------------------------------------
// Alignment
// ---------------------------------------------------------------------------

/// The last close on `day` among the first `n` rows.
pub open spec fn last_close(rows: Seq<(i32, Double)>, n: int, day: i32) -> Option<Double>
    decreases n,
{
    if n <= 0 {
        None
    } else if rows[n - 1].0 == day {
        Some(rows[n - 1].1)
    } else {
        last_close(rows, n - 1, day)
    }
}

/// The close of a series on `day`: its last row for that day.
pub open spec fn close_on(rows: Seq<(i32, Double)>, day: i32) -> Option<Double> {
    last_close(rows, rows.len() as int, day)
}

/// The latest calendar slot up to `i` on which the series has a close.
pub open spec fn last_seen(rows: Seq<(i32, Double)>, calendar: Seq<i32>, i: int) -> Option<int>
    decreases i + 1,
{
    if i < 0 {
        None
    } else if close_on(rows, calendar[i]) is Some {
        Some(i)
    } else {
        last_seen(rows, calendar, i - 1)
    }
}

/// The price of a series in calendar slot `i`: its last close, as long as
/// that is at most [`MAX_FORWARD_FILL_DAYS`] slots back.
pub open spec fn aligned_at(rows: Seq<(i32, Double)>, calendar: Seq<i32>, i: int) -> Option<Double> {
    match last_seen(rows, calendar, i) {
        Some(k) => if i - k <= MAX_FORWARD_FILL_DAYS {
            close_on(rows, calendar[k])
        } else {
            None
        },
        None => None,
    }
}

/// The prices of a series in all calendar slots.
pub open spec fn aligned(rows: Seq<(i32, Double)>, calendar: Seq<i32>) -> Seq<Option<Double>> {
    Seq::new(calendar.len(), |i: int| aligned_at(rows, calendar, i))
}

/// How many of the first `n` slots were filled from an earlier close.
pub open spec fn filled_slots(rows: Seq<(i32, Double)>, calendar: Seq<i32>, n: int) -> nat
    decreases n,
{
    if n <= 0 {
        0
    } else {
        filled_slots(rows, calendar, n - 1) + (if close_on(rows, calendar[n - 1]) is None
            && aligned_at(rows, calendar, n - 1) is Some {
            1nat
        } else {
            0nat
        })
    }
}

/// How many of the first `n` slots have no price.
pub open spec fn dropped_slots(rows: Seq<(i32, Double)>, calendar: Seq<i32>, n: int) -> nat
    decreases n,
{
    if n <= 0 {
        0
    } else {
        dropped_slots(rows, calendar, n - 1) + (if aligned_at(rows, calendar, n - 1) is None {
            1nat
        } else {
            0nat
        })
    }
}

proof fn lemma_last_seen_bounds(rows: Seq<(i32, Double)>, calendar: Seq<i32>, i: int)
    ensures
        match last_seen(rows, calendar, i) {
            Some(k) => 0 <= k <= i && close_on(rows, calendar[k]) is Some && forall|j: int|
                k < j <= i ==> close_on(rows, #[trigger] calendar[j]) is None,
            None => forall|j: int| 0 <= j <= i ==> close_on(rows, #[trigger] calendar[j]) is None,
        },
    decreases i + 1,
{
    if i >= 0 && close_on(rows, calendar[i]) is None {
        lemma_last_seen_bounds(rows, calendar, i - 1);
    }
}

/// How many of the first `n` slots have a close of their own.
pub open spec fn observed_slots(rows: Seq<(i32, Double)>, calendar: Seq<i32>, n: int) -> nat
    decreases n,
{
    if n <= 0 {
        0
    } else {
        observed_slots(rows, calendar, n - 1) + (if close_on(rows, calendar[n - 1]) is Some {
            1nat
        } else {
            0nat
        })
    }
}

/// Every calendar slot has a close of its own, or was filled, or was dropped:
/// the three counts add up to the length of the calendar. A slot with a close
/// of its own has that close as its price.
pub proof fn lemma_alignment_accounts_for_every_slot(rows: Seq<(i32, Double)>, calendar: Seq<i32>)
    ensures
        observed_slots(rows, calendar, calendar.len() as int) + filled_slots(
            rows,
            calendar,
            calendar.len() as int,
        ) + dropped_slots(rows, calendar, calendar.len() as int) == calendar.len(),
        forall|i: int|
            0 <= i < calendar.len() && close_on(rows, calendar[i]) is Some ==> #[trigger] aligned(
                rows,
                calendar,
            )[i] == close_on(rows, calendar[i]),
{
    lemma_counts_add_up(rows, calendar, calendar.len() as int);
}

proof fn lemma_counts_add_up(rows: Seq<(i32, Double)>, calendar: Seq<i32>, n: int)
    requires
        0 <= n,
    ensures
        observed_slots(rows, calendar, n) + filled_slots(rows, calendar, n) + dropped_slots(
            rows,
            calendar,
            n,
        ) == n,
    decreases n,
{
    if n > 0 {
        lemma_counts_add_up(rows, calendar, n - 1);
    }
}

/// A price is never carried over more than [`MAX_FORWARD_FILL_DAYS`] slots:
/// where the series has no close in so many slots up to and including `i`,
/// it has no price there.
pub proof fn lemma_no_long_fill(rows: Seq<(i32, Double)>, calendar: Seq<i32>, i: int)
    requires
        0 <= i < calendar.len(),
        forall|j: int|
            i - MAX_FORWARD_FILL_DAYS <= j <= i && 0 <= j ==> close_on(rows, #[trigger] calendar[j]) is None,
    ensures
        aligned_at(rows, calendar, i) is None,
{
    lemma_last_seen_bounds(rows, calendar, i);
}

proof fn lemma_last_row_of_a_day(rows: Seq<(i32, Double)>, n: int, r: int)
    requires
        0 <= r < n <= rows.len(),
        forall|s: int| r < s < n ==> (#[trigger] rows[s]).0 != rows[r].0,
    ensures
        last_close(rows, n, rows[r].0) == Some(rows[r].1),
    decreases n,
{
    if r < n - 1 {
        assert(rows[n - 1].0 != rows[r].0);
        lemma_last_row_of_a_day(rows, n - 1, r);
    }
}

proof fn lemma_no_row_no_close(rows: Seq<(i32, Double)>, n: int, day: i32)
    requires
        n <= rows.len(),
        forall|s: int| 0 <= s < n ==> (#[trigger] rows[s]).0 != day,
    ensures
        last_close(rows, n, day) is None,
    decreases n,
{
    if n > 0 {
        lemma_no_row_no_close(rows, n - 1, day);
    }
}

/// The price of a slot. Where the slot `k` is the latest up to `i` with a row
/// for its day, and `r` is the last such row, the price in slot `i` is that of
/// the row if `k` is at most three slots back, and there is none otherwise.
pub proof fn lemma_slot_price(
    rows: Seq<(i32, Double)>,
    calendar: Seq<i32>,
    i: int,
    k: int,
    r: int,
)
    requires
        0 <= k <= i < calendar.len(),
        0 <= r < rows.len(),
        rows[r].0 == calendar[k],
        forall|s: int| r < s < rows.len() ==> (#[trigger] rows[s]).0 != calendar[k],
        forall|j: int, s: int|
            k < j <= i && 0 <= s < rows.len() ==> (#[trigger] rows[s]).0 != #[trigger] calendar[j],
    ensures
        aligned(rows, calendar)[i] == (if i - k <= 3 {
            Some(rows[r].1)
        } else {
            None
        }),
{
    let n = rows.len() as int;
    lemma_last_row_of_a_day(rows, n, r);
    lemma_last_seen_bounds(rows, calendar, i);
    assert forall|j: int| k < j <= i implies close_on(rows, #[trigger] calendar[j]) is None by {
        assert forall|s: int| 0 <= s < n implies (#[trigger] rows[s]).0 != calendar[j] by {}
        lemma_no_row_no_close(rows, n, calendar[j]);
    }
    let at = last_seen(rows, calendar, i);
    assert(at is Some);
    assert(close_on(rows, calendar[k]) is Some);
    if at->Some_0 < k {
        assert(close_on(rows, calendar[k]) is None);
    }
    if at->Some_0 > k {
        assert(close_on(rows, calendar[at->Some_0]) is None);
    }
}

/// A series with no row on a slot's day or on any before it has no price there.
pub proof fn lemma_no_price_before_the_first_row(
    rows: Seq<(i32, Double)>,
    calendar: Seq<i32>,
    i: int,
)
    requires
        0 <= i < calendar.len(),
        forall|j: int, s: int|
            0 <= j <= i && 0 <= s < rows.len() ==> (#[trigger] rows[s]).0 != #[trigger] calendar[j],
    ensures
        aligned(rows, calendar)[i] is None,
{
    let n = rows.len() as int;
    lemma_last_seen_bounds(rows, calendar, i);
    if let Some(k) = last_seen(rows, calendar, i) {
        assert forall|s: int| 0 <= s < n implies (#[trigger] rows[s]).0 != calendar[k] by {}
        lemma_no_row_no_close(rows, n, calendar[k]);
    }
}

/// One more slot adds one to the filled ones where it has a price and none of
/// its days' rows, and one to the dropped ones where it has no price; else it
/// changes neither. Of no slots none is either.
pub proof fn lemma_one_more_slot(rows: Seq<(i32, Double)>, calendar: Seq<i32>, n: int)
    requires
        0 <= n < calendar.len(),
    ensures
        filled_slots(rows, calendar, 0) == 0 && dropped_slots(rows, calendar, 0) == 0,
        dropped_slots(rows, calendar, n + 1) == dropped_slots(rows, calendar, n) + (if aligned(
            rows,
            calendar,
        )[n] is None {
            1nat
        } else {
            0nat
        }),
        aligned(rows, calendar)[n] is None ==> filled_slots(rows, calendar, n + 1) == filled_slots(
            rows,
            calendar,
            n,
        ),
        aligned(rows, calendar)[n] is Some && (forall|s: int|
            0 <= s < rows.len() ==> (#[trigger] rows[s]).0 != calendar[n]) ==> filled_slots(
            rows,
            calendar,
            n + 1,
        ) == filled_slots(rows, calendar, n) + 1,
        (exists|s: int| 0 <= s < rows.len() && (#[trigger] rows[s]).0 == calendar[n])
            ==> filled_slots(rows, calendar, n + 1) == filled_slots(rows, calendar, n),
{
    let count = rows.len() as int;
    if forall|s: int| 0 <= s < count ==> (#[trigger] rows[s]).0 != calendar[n] {
        lemma_no_row_no_close(rows, count, calendar[n]);
    } else {
        lemma_some_row_some_close(rows, count, calendar[n]);
    }
}

proof fn lemma_some_row_some_close(rows: Seq<(i32, Double)>, n: int, day: i32)
    requires
        n <= rows.len(),
        exists|s: int| 0 <= s < n && (#[trigger] rows[s]).0 == day,
    ensures
        last_close(rows, n, day) is Some,
    decreases n,
{
    if rows[n - 1].0 != day {
        let s = choose|s: int| 0 <= s < n && (#[trigger] rows[s]).0 == day;
        assert(0 <= s < n - 1);
        lemma_some_row_some_close(rows, n - 1, day);
    }
}

fn index_by_day(series: &PriceSeries) -> (res: BTreeMap<i32, Double>)
    ensures
        forall|day: i32| #[trigger]
            res@.contains_key(day) == (close_on(series.rows(), day) is Some),
        forall|day: i32| #[trigger]
            res@.contains_key(day) ==> close_on(series.rows(), day) == Some(res@[day]),
{
    broadcast use vstd::std_specs::btree::group_btree_axioms;
    broadcast use vstd::laws_cmp::group_laws_cmp;

    let n: usize = if series.dates.len() <= series.closes.len() {
        series.dates.len()
    } else {
        series.closes.len()
    };
    let ghost rows = series.rows();
    let mut by_day: BTreeMap<i32, Double> = BTreeMap::new();
    let mut i: usize = 0;
    while i < n
        invariant
            i <= n,
            n == rows.len(),
            n <= series.dates@.len(),
            n <= series.closes@.len(),
            rows == series.rows(),
            forall|day: i32| #[trigger]
                by_day@.contains_key(day) == (last_close(rows, 0 + i, day) is Some),
            forall|day: i32| #[trigger]
                by_day@.contains_key(day) ==> last_close(rows, 0 + i, day) == Some(by_day@[day]),
        decreases n - i,
    {
        by_day.insert(series.dates[i], series.closes[i]);
        i += 1;
    }
    by_day
}

/// Puts a series on the calendar: its price in each slot, how many slots were
/// filled, and how many were left without a price.
pub fn align_to_calendar(series: &PriceSeries, calendar: &Vec<i32>) -> (res: (
    Vec<Option<Double>>,
    usize,
    usize,
))
    ensures
        res.0@ == aligned(series.rows(), calendar@),
        res.1 == filled_slots(series.rows(), calendar@, calendar@.len() as int),
        res.2 == dropped_slots(series.rows(), calendar@, calendar@.len() as int),
{
    let by_day = index_by_day(series);
    let ghost rows = series.rows();
    let mut out: Vec<Option<Double>> = Vec::new();
    let mut last: Option<Double> = None;
    let mut gap: usize = 0;
    let mut fills: usize = 0;
    let mut drops: usize = 0;
    let mut i: usize = 0;
    while i < calendar.len()
        invariant
            i <= calendar@.len(),
            rows == series.rows(),
            forall|day: i32| #[trigger]
                by_day@.contains_key(day) == (close_on(rows, day) is Some),
            forall|day: i32| #[trigger]
                by_day@.contains_key(day) ==> close_on(rows, day) == Some(by_day@[day]),
            out@ == aligned(rows, calendar@).take(i as int),
            fills == filled_slots(rows, calendar@, i as int),
            drops == dropped_slots(rows, calendar@, i as int),
            fills + drops <= i,
            match last_seen(rows, calendar@, i - 1) {
                Some(k) => 0 <= k < i && last == close_on(rows, calendar@[k]) && gap == i - 1 - k
                    && last is Some,
                None => last is None && gap == i,
            },
        decreases calendar.len() - i,
    {
        let found = lookup_day(&by_day, calendar[i]);
        assert(found == close_on(rows, calendar@[i as int]));
        match found {
            Some(price) => {
                out.push(Some(price));
                last = Some(price);
                gap = 0;
            },
            None => {
                gap += 1;
                if gap <= MAX_FORWARD_FILL_DAYS {
                    if last.is_some() {
                        out.push(last);
                        fills += 1;
                    } else {
                        out.push(None);
                        drops += 1;
                    }
                } else {
                    out.push(None);
                    drops += 1;
                }
            },
        }
        i += 1;
        proof {
            lemma_counts_add_up(rows, calendar@, i as int);
        }
        assert(out@ =~= aligned(rows, calendar@).take(i as int));
    }
    assert(aligned(rows, calendar@).take(calendar@.len() as int) =~= aligned(rows, calendar@));
    (out, fills, drops)
}

fn lookup_day(by_day: &BTreeMap<i32, Double>, day: i32) -> (res: Option<Double>)
    ensures
        res == (if by_day@.contains_key(day) {
            Some(by_day@[day])
        } else {
            None
        }),
{
    broadcast use vstd::std_specs::btree::group_btree_axioms;
    broadcast use vstd::laws_cmp::group_laws_cmp;

    match by_day.get(&day) {
        Some(price) => Some(*price),
        None => None,
    }
}

// ---------------------------------------------------------------------------
// Calendar
// ---------------------------------------------------------------------------

/// Whether the days stand in strictly ascending order.
pub open spec fn ascending(days: Seq<i32>) -> bool {
    forall|i: int, j: int| 0 <= i < j < days.len() ==> days[i] < days[j]
}

/// `days` with `day` put in its place, unless it is there already.
pub open spec fn with_day(days: Seq<i32>, day: i32) -> Seq<i32>
    decreases days.len(),
{
    if days.len() == 0 || days.last() < day {
        days.push(day)
    } else if days.last() == day {
        days
    } else {
        with_day(days.drop_last(), day).push(days.last())
    }
}

/// The days of a list, each once, ascending.
pub open spec fn calendar_of(dates: Seq<i32>) -> Seq<i32>
    decreases dates.len(),
{
    if dates.len() == 0 {
        seq![]
    } else {
        with_day(calendar_of(dates.drop_last()), dates.last())
    }
}

proof fn lemma_with_day(days: Seq<i32>, day: i32)
    requires
        ascending(days),
    ensures
        ascending(with_day(days, day)),
        forall|d: i32| #[trigger]
            with_day(days, day).contains(d) <==> (days.contains(d) || d == day),
    decreases days.len(),
{
    let result = with_day(days, day);
    if days.len() == 0 || days.last() < day {
        assert(result.last() == day);
        assert forall|d: i32| #[trigger] result.contains(d) <==> (days.contains(d) || d == day) by {
            assert(result[days.len() as int] == day);
            if days.contains(d) {
                let k = choose|k: int| 0 <= k < days.len() && days[k] == d;
                assert(result[k] == d);
            }
        }
    } else if days.last() == day {
        assert(days[days.len() - 1] == day);
    } else {
        let front = days.drop_last();
        lemma_with_day(front, day);
        let inner = with_day(front, day);
        assert forall|i: int| 0 <= i < inner.len() implies inner[i] < days.last() by {
            assert(inner.contains(inner[i]));
            if front.contains(inner[i]) {
                let k = choose|k: int| 0 <= k < front.len() && front[k] == inner[i];
                assert(days[k] < days[days.len() - 1]);
            }
        }
        assert forall|d: i32| #[trigger] result.contains(d) <==> (days.contains(d) || d == day) by {
            assert(result[inner.len() as int] == days.last());
            if result.contains(d) {
                let k = choose|k: int| 0 <= k < result.len() && result[k] == d;
                if k < inner.len() {
                    assert(inner[k] == d);
                    assert(inner.contains(d));
                    if front.contains(d) {
                        let m = choose|m: int| 0 <= m < front.len() && front[m] == d;
                        assert(days[m] == d);
                    }
                } else {
                    assert(days[days.len() - 1] == d);
                }
            }
            if days.contains(d) || d == day {
                if d == days.last() {
                    assert(result[inner.len() as int] == d);
                } else {
                    if days.contains(d) {
                        let m = choose|m: int| 0 <= m < days.len() && days[m] == d;
                        assert(front[m] == d);
                    }
                    assert(inner.contains(d));
                    let k = choose|k: int| 0 <= k < inner.len() && inner[k] == d;
                    assert(result[k] == d);
                }
            }
        }
    }
}

/// The calendar is ascending, without repetition, and has exactly the days it
/// was made from.
pub proof fn lemma_calendar(dates: Seq<i32>)
    ensures
        ascending(calendar_of(dates)),
        forall|d: i32| #[trigger] calendar_of(dates).contains(d) <==> dates.contains(d),
    decreases dates.len(),
{
    if dates.len() > 0 {
        let front = dates.drop_last();
        lemma_calendar(front);
        lemma_with_day(calendar_of(front), dates.last());
        assert forall|d: i32| #[trigger] calendar_of(dates).contains(d) <==> dates.contains(d) by {
            assert(calendar_of(front).contains(d) <==> front.contains(d));
            if dates.contains(d) && d != dates.last() {
                let k = choose|k: int| 0 <= k < dates.len() && dates[k] == d;
                assert(front[k] == d);
            }
            if front.contains(d) {
                let k = choose|k: int| 0 <= k < front.len() && front[k] == d;
                assert(dates[k] == d);
            }
            assert(dates[dates.len() - 1] == dates.last());
        }
    }
}

fn insert_day(days: &mut Vec<i32>, day: i32)
    requires
        ascending(old(days)@),
    ensures
        final(days)@ == with_day(old(days)@, day),
{
    let mut at: usize = days.len();
    let ghost all = days@;
    assert(all.take(all.len() as int) =~= all);
    assert(with_day(all, day) =~= with_day(all.take(at as int), day) + all.skip(at as int));
    while at > 0 && days[at - 1] > day
        invariant
            at <= days@.len(),
            days@ == all,
            with_day(all, day) == with_day(all.take(at as int), day) + all.skip(at as int),
        decreases at,
    {
        proof {
            let now = all.take(at as int);
            assert(now.last() == all[at - 1]);
            assert(now.drop_last() =~= all.take(at - 1));
            assert(with_day(all, day) =~= with_day(all.take(at - 1), day) + all.skip(at - 1));
        }
        at -= 1;
    }
    let ghost now = all.take(at as int);
    if at > 0 && days[at - 1] == day {
        assert(now.last() == day);
        assert(now + all.skip(at as int) =~= all);
        return;
    }
    assert(at > 0 ==> now.last() == all[at - 1]);
    days.insert(at, day);
    assert(days@ =~= now.push(day) + all.skip(at as int));
}

/// The trading calendar: the days of the market series, each once, ascending.
pub fn trading_calendar(dates: &Vec<i32>) -> (res: Vec<i32>)
    ensures
        res@ == calendar_of(dates@),
        ascending(res@),
{
    let mut out: Vec<i32> = Vec::new();
    let mut i: usize = 0;
    assert(dates@.take(0) =~= seq![]);
    while i < dates.len()
        invariant
            i <= dates@.len(),
            out@ == calendar_of(dates@.take(i as int)),
        decreases dates.len() - i,
    {
        proof {
            lemma_calendar(dates@.take(i as int));
            let now = dates@.take(i as int + 1);
            assert(now.drop_last() =~= dates@.take(i as int));
            assert(now.last() == dates@[i as int]);
        }
        insert_day(&mut out, dates[i]);
        i += 1;
    }
    proof {
        assert(dates@.take(dates@.len() as int) =~= dates@);
        lemma_calendar(dates@);
    }
    out
}

/// Whether every series has a price in slot `i`.
pub open spec fn complete_at(columns: Seq<Vec<Option<Double>>>, i: int) -> bool {
    forall|c: int| 0 <= c < columns.len() ==> (#[trigger] columns[c])@[i] is Some
}

/// The first slot from `i` on in which every series has a price, `slots`
/// where there is none.
pub open spec fn first_complete(columns: Seq<Vec<Option<Double>>>, slots: int, i: int) -> int
    decreases slots - i,
{
    if i >= slots {
        slots
    } else if complete_at(columns, i) {
        i
    } else {
        first_complete(columns, slots, i + 1)
    }
}

/// Before the first complete slot every slot lacks a price of some series; in
/// it none lacks one.
pub proof fn lemma_first_complete(
    columns: Seq<Vec<Option<Double>>>,
    slots: int,
    i: int,
    j: int,
)
    requires
        0 <= i <= slots,
    ensures
        i <= first_complete(columns, slots, i) <= slots,
        first_complete(columns, slots, i) < slots ==> forall|c: int|
            0 <= c < columns.len() ==> (#[trigger] columns[c])@[first_complete(columns, slots, i)] is Some,
        i <= j < first_complete(columns, slots, i) ==> exists|c: int|
            0 <= c < columns.len() && (#[trigger] columns[c])@[j] is None,
    decreases slots - i,
{
    if i < slots && !complete_at(columns, i) {
        lemma_first_complete(columns, slots, i + 1, j);
        let c = choose|c: int| 0 <= c < columns.len() && !((#[trigger] columns[c])@[i] is Some);
        assert(columns[c]@[i] is None);
    }
}

/// The first slot in which every series has a price, `slots` where there is
/// none.
pub fn first_complete_slot(columns: &Vec<Vec<Option<Double>>>, slots: usize) -> (res: usize)
    requires
        forall|c: int| 0 <= c < columns@.len() ==> (#[trigger] columns@[c])@.len() == slots,
    ensures
        res == first_complete(columns@, slots as int, 0),
        res <= slots,
        forall|i: int| 0 <= i < res ==> !complete_at(columns@, i),
        res < slots ==> complete_at(columns@, res as int),
{
    let mut i: usize = 0;
    while i < slots
        invariant
            i <= slots,
            forall|c: int| 0 <= c < columns@.len() ==> (#[trigger] columns@[c])@.len() == slots,
            forall|k: int| 0 <= k < i ==> !complete_at(columns@, k),
            first_complete(columns@, slots as int, 0) == first_complete(
                columns@,
                slots as int,
                i as int,
            ),
        decreases slots - i,
    {
        let mut c: usize = 0;
        while c < columns.len() && columns[c][i].is_some()
            invariant
                i < slots,
                c <= columns@.len(),
                forall|c: int| 0 <= c < columns@.len() ==> (#[trigger] columns@[c])@.len() == slots,
                forall|k: int| 0 <= k < c ==> (#[trigger] columns@[k])@[i as int] is Some,
            decreases columns.len() - c,
        {
            c += 1;
        }
        if c == columns.len() {
            return i;
        }
        assert(columns@[c as int]@[i as int] is None);
        i += 1;
    }
    slots
}

/// The week of a day: weeks run from Monday to Sunday.
pub open spec fn week_of(day: i32) -> int {
    (day - 1) / 7
}

fn week_number(day: i32) -> (res: u64)
    ensures
        res == week_of(day) + 400_000_000,
{
    let shifted: u64 = (day as i64 - 1 + 2_800_000_000) as u64;
    shifted / 7
}

/// Whether slot `i` is the last trading day of its week.
pub open spec fn ends_week(days: Seq<i32>, i: int) -> bool {
    i + 1 == days.len() || week_of(days[i]) != week_of(days[i + 1])
}

/// Two days are of one week where one Monday begins it: day one of the calendar
/// is a Monday, and so is every seventh day from there.
pub proof fn lemma_weeks_begin_on_mondays(a: i32, b: i32, monday: int)
    requires
        (monday - 1) % 7 == 0,
        monday <= a < monday + 7,
    ensures
        week_of(a) == week_of(b) <==> monday <= b < monday + 7,
{
}

/// A slot ends its week where it is the last of all or the next slot's day
/// falls behind the week's Sunday.
pub proof fn lemma_week_ends(days: Seq<i32>, i: int, monday: int)
    requires
        0 <= i < days.len(),
        (monday - 1) % 7 == 0,
        monday <= days[i] < monday + 7,
        ascending(days),
    ensures
        ends_week(days, i) <==> i == days.len() - 1 || monday + 7 <= days[i + 1],
{
    if i + 1 < days.len() {
        lemma_weeks_begin_on_mondays(days[i], days[i + 1], monday);
        assert(days[i] < days[i + 1]);
    }
}

/// No week ends twice: of two slots of a calendar that end weeks, the later
/// one ends a later week.
pub proof fn lemma_weeks_end_once(days: Seq<i32>, a: int, b: int)
    requires
        ascending(days),
        0 <= a < b < days.len(),
        ends_week(days, a),
    ensures
        week_of(days[a]) < week_of(days[b]),
{
    assert(days[a] < days[a + 1]);
    assert(week_of(days[a]) <= week_of(days[a + 1]));
    if a + 1 < b {
        assert(days[a + 1] < days[b]);
    }
}

/// The slots that are the last trading day of their week, ascending.
pub fn weekly_resample_indices(days: &Vec<i32>) -> (res: Vec<usize>)
    ensures
        forall|a: int, b: int| 0 <= a < b < res@.len() ==> res@[a] < res@[b],
        forall|a: int| 0 <= a < res@.len() ==> (#[trigger] res@[a]) < days@.len() && ends_week(
            days@,
            res@[a] as int,
        ),
        forall|i: usize| 0 <= i < days@.len() && #[trigger] ends_week(days@, i as int)
            ==> res@.contains(i),
{
    let mut out: Vec<usize> = Vec::new();
    let mut i: usize = 0;
    while i < days.len()
        invariant
            i <= days@.len(),
            forall|a: int, b: int| 0 <= a < b < out@.len() ==> out@[a] < out@[b],
            forall|a: int| 0 <= a < out@.len() ==> (#[trigger] out@[a]) < i && ends_week(
                days@,
                out@[a] as int,
            ),
            forall|k: usize| 0 <= k < i && #[trigger] ends_week(days@, k as int) ==> out@.contains(k),
        decreases days.len() - i,
    {
        let ghost before = out@;
        if i + 1 == days.len() || week_number(days[i]) != week_number(days[i + 1]) {
            out.push(i);
            assert(out@[before.len() as int] == i);
            assert forall|k: usize| 0 <= k < i + 1 && #[trigger] ends_week(days@, k as int) implies out@.contains(
                k,
            ) by {
                if k < i {
                    let a = choose|a: int| 0 <= a < before.len() && before[a] == k;
                    assert(out@[a] == k);
                }
            }
        }
        i += 1;
    }
    out
}

/// The chosen slots of a list, in the order chosen.
pub open spec fn picked<T>(values: Seq<T>, slots: Seq<usize>) -> Seq<T> {
    slots.map_values(|i: usize| values[i as int])
}

/// Picks slots out of a list of days.
pub fn pick_days(days: &Vec<i32>, slots: &Vec<usize>) -> (res: Vec<i32>)
    requires
        forall|a: int| 0 <= a < slots@.len() ==> (#[trigger] slots@[a]) < days@.len(),
    ensures
        res@ == picked(days@, slots@),
{
    let mut out: Vec<i32> = Vec::new();
    let mut i: usize = 0;
    while i < slots.len()
        invariant
            i <= slots@.len(),
            forall|a: int| 0 <= a < slots@.len() ==> (#[trigger] slots@[a]) < days@.len(),
            out@ == picked(days@, slots@).take(i as int),
        decreases slots.len() - i,
    {
        out.push(days[slots[i]]);
        i += 1;
        assert(out@ =~= picked(days@, slots@).take(i as int));
    }
    assert(picked(days@, slots@).take(slots@.len() as int) =~= picked(days@, slots@));
    out
}

/// Picks slots out of a list of prices.
pub fn pick_prices(prices: &Vec<Option<Double>>, slots: &Vec<usize>) -> (res: Vec<Option<Double>>)
    requires
        forall|a: int| 0 <= a < slots@.len() ==> (#[trigger] slots@[a]) < prices@.len(),
    ensures
        res@ == picked(prices@, slots@),
{
    let mut out: Vec<Option<Double>> = Vec::new();
    let mut i: usize = 0;
    while i < slots.len()
        invariant
            i <= slots@.len(),
            forall|a: int| 0 <= a < slots@.len() ==> (#[trigger] slots@[a]) < prices@.len(),
            out@ == picked(prices@, slots@).take(i as int),
        decreases slots.len() - i,
    {
        out.push(prices[slots[i]]);
        i += 1;
        assert(out@ =~= picked(prices@, slots@).take(i as int));
    }
    assert(picked(prices@, slots@).take(slots@.len() as int) =~= picked(prices@, slots@));
    out
}

// ---------------------------------------------------------------------------
// Returns
// ---------------------------------------------------------------------------

/// Whether a price allows a log return: it is there and above zero.
pub open spec fn usable(price: Option<Double>) -> bool {
    price is Some && (Double { bits: 0 }).below(price->Some_0)
}

/// The message for prices across which no return can be computed.
pub const GAP_MESSAGE: &'static str = "cannot compute log return across a dropped/missing price; trim the calendar or lengthen the fetch window";

/// A price is usable exactly where it is there and is a number above zero.
pub proof fn lemma_usable(price: Double)
    ensures
        usable(Some(price)) <==> !price.nan() && price.rank() > 0,
        !usable(None),
{
}

fn price_usable(price: Option<Double>) -> (res: bool)
    ensures
        res == usable(price),
{
    match price {
        Some(p) => Double::zero().lt(p),
        None => false,
    }
}

/// The price pairs whose log ratios are the returns of a series, earlier
/// price first. Fails where a neighbouring pair holds a missing price or one
/// that is not above zero.
pub fn return_pairs(prices: &Vec<Option<Double>>) -> (res: Result<Vec<(Double, Double)>, ComputeError>)
    ensures
        res is Ok <==> forall|i: int|
            0 <= i < prices@.len() - 1 ==> usable(#[trigger] prices@[i]) && usable(prices@[i + 1]),
        res is Ok ==> {
            &&& prices@.len() == 0 ==> res->Ok_0@.len() == 0
            &&& prices@.len() > 0 ==> res->Ok_0@.len() == prices@.len() - 1
            &&& forall|i: int|
                0 <= i < res->Ok_0@.len() ==> Some((#[trigger] res->Ok_0@[i]).0) == prices@[i]
                    && Some(res->Ok_0@[i].1) == prices@[i + 1]
        },
        res is Err ==> res->Err_0@ == ComputeErrorView::Data(seq![PieceView::Text(GAP_MESSAGE@)]),
{
    let mut out: Vec<(Double, Double)> = Vec::new();
    let mut i: usize = 1;
    while i < prices.len()
        invariant
            1 <= i,
            prices@.len() > 0 ==> i <= prices@.len(),
            prices@.len() == 0 ==> i == 1,
            out@.len() == i - 1,
            forall|k: int|
                0 <= k < i - 1 ==> usable(#[trigger] prices@[k]) && usable(prices@[k + 1]),
            forall|k: int|
                0 <= k < out@.len() ==> Some((#[trigger] out@[k]).0) == prices@[k] && Some(out@[k].1)
                    == prices@[k + 1],
        decreases prices.len() - i,
    {
        let earlier = prices[i - 1];
        let later = prices[i];
        if !price_usable(earlier) || !price_usable(later) {
            assert(!(usable(prices@[i - 1]) && usable(prices@[i - 1 + 1])));
            return Err(ComputeError::Data(Message::of(GAP_MESSAGE)));
        }
        match (earlier, later) {
            (Some(p0), Some(p1)) => out.push((p0, p1)),
            _ => {},
        }
        i += 1;
    }
    assert forall|k: int| 0 <= k < prices@.len() - 1 implies usable(#[trigger] prices@[k])
        && usable(prices@[k + 1]) by {
        assert(k < i - 1);
    }
    Ok(out)
}

// ---------------------------------------------------------------------------
// A whole dataset
// ---------------------------------------------------------------------------

/// The tickers whose prices a dataset needs: the stocks, then those of the
/// factors.
pub fn all_tickers(stocks: &Vec<String>) -> (res: Vec<String>)
    ensures
        text::views(res@) == text::views(stocks@) + factor_tickers_view(),
        res@.len() == stocks@.len() + FACTOR_COUNT,
{
    let mut out = text::copy_all(stocks);
    let mut factors = factor_tickers();
    let ghost (a, b) = (out@, factors@);
    out.append(&mut factors);
    assert(text::views(a + b) =~= text::views(a) + text::views(b));
    out
}

/// Prices on the trading calendar, from the first day on which every series
/// has one.
#[derive(Debug)]
pub struct AlignedPrices {
    pub calendar: Vec<i32>,
    /// One column per series, in the order of the series.
    pub columns: Vec<Vec<Option<Double>>>,
    pub per_series: Vec<SeriesQuality>,
}

/// Whether `quality` says how `series` covered the calendar.
pub open spec fn describes(quality: SeriesQuality, series: PriceSeries, calendar: Seq<i32>) -> bool {
    &&& quality.ticker@ == series.ticker@
    &&& quality.raw_observations == series.dates@.len()
    &&& quality.forward_filled_days == filled_slots(
        series.rows(),
        calendar,
        calendar.len() as int,
    )
    &&& quality.dropped_days == dropped_slots(series.rows(), calendar, calendar.len() as int)
}

/// What is said of a series: its own ticker, how many rows it has, how many
/// slots of the calendar were filled for it and how many were dropped; with the
/// slots that it has a row for these make up the calendar.
pub proof fn lemma_described(quality: SeriesQuality, series: PriceSeries, calendar: Seq<i32>)
    requires
        describes(quality, series, calendar),
    ensures
        quality.ticker@ == series.ticker@,
        quality.raw_observations == series.dates@.len(),
        observed_slots(series.rows(), calendar, calendar.len() as int)
            + quality.forward_filled_days + quality.dropped_days == calendar.len(),
        quality.dropped_days == 0 ==> forall|i: int|
            0 <= i < calendar.len() ==> (#[trigger] aligned(series.rows(), calendar)[i]) is Some,
        (forall|i: int|
            0 <= i < calendar.len() ==> (#[trigger] aligned(series.rows(), calendar)[i]) is None)
            ==> quality.forward_filled_days == 0,
{
    let rows = series.rows();
    let n = calendar.len() as int;
    lemma_alignment_accounts_for_every_slot(rows, calendar);
    lemma_counts_grow(rows, calendar, n);
}

proof fn lemma_counts_grow(rows: Seq<(i32, Double)>, calendar: Seq<i32>, n: int)
    requires
        0 <= n <= calendar.len(),
    ensures
        dropped_slots(rows, calendar, n) == 0 ==> forall|i: int|
            0 <= i < n ==> (#[trigger] aligned(rows, calendar)[i]) is Some,
        (forall|i: int| 0 <= i < n ==> (#[trigger] aligned(rows, calendar)[i]) is None)
            ==> filled_slots(rows, calendar, n) == 0,
    decreases n,
{
    if n > 0 {
        lemma_counts_grow(rows, calendar, n - 1);
        assert(aligned(rows, calendar)[n - 1] == aligned_at(rows, calendar, n - 1));
    }
}

/// The slots that end a week are listed in ascending order, all of them and no
/// other, and what is picked is what stands in them.
pub proof fn lemma_weekly<T>(days: Seq<i32>, slots: Seq<usize>, values: Seq<T>, monday: int, i: usize)
    requires
        week_ends(days, slots),
        ascending(days),
        0 <= i < days.len(),
        (monday - 1) % 7 == 0,
        monday <= days[i as int] < monday + 7,
    ensures
        slots.contains(i) <==> i == days.len() - 1 || monday + 7 <= days[i + 1],
        picked(values, slots).len() == slots.len(),
        forall|a: int|
            0 <= a < slots.len() ==> #[trigger] picked(values, slots)[a] == values[slots[a] as int],
{
    lemma_week_ends(days, i as int, monday);
    if slots.contains(i) {
        let a = choose|a: int| 0 <= a < slots.len() && slots[a] == i;
        assert(ends_week(days, slots[a] as int));
    }
}

/// Whether `columns` are the series on the whole calendar.
pub open spec fn columns_of(
    columns: Seq<Vec<Option<Double>>>,
    series: Seq<PriceSeries>,
    calendar: Seq<i32>,
) -> bool {
    &&& columns.len() == series.len()
    &&& forall|c: int|
        0 <= c < series.len() ==> (#[trigger] columns[c])@ == aligned(series[c].rows(), calendar)
}

fn skip_prices(prices: &Vec<Option<Double>>, start: usize) -> (res: Vec<Option<Double>>)
    requires
        start <= prices@.len(),
    ensures
        res@ == prices@.skip(start as int),
{
    let mut out: Vec<Option<Double>> = Vec::new();
    let mut i: usize = start;
    while i < prices.len()
        invariant
            start <= i <= prices@.len(),
            out@ == prices@.subrange(start as int, i as int),
        decreases prices.len() - i,
    {
        out.push(prices[i]);
        i += 1;
        assert(out@ =~= prices@.subrange(start as int, i as int));
    }
    assert(out@ =~= prices@.skip(start as int));
    out
}

/// Aligns all series onto the calendar of the market series, the one at
/// `market`, and cuts off the days before the first on which every series has
/// a price.
pub fn align_prices(series: &Vec<PriceSeries>, market: usize) -> (res: AlignedPrices)
    requires
        market < series@.len(),
    ensures
        ({
            let calendar = calendar_of(series@[market as int].dates@);
            &&& res.per_series@.len() == series@.len()
            &&& forall|c: int|
                0 <= c < series@.len() ==> describes(
                    #[trigger] res.per_series@[c],
                    series@[c],
                    calendar,
                )
            &&& res.columns@.len() == series@.len()
            &&& exists|full: Seq<Vec<Option<Double>>>|
                {
                    &&& #[trigger] columns_of(full, series@, calendar)
                    &&& res.calendar@ == calendar.skip(
                        first_complete(full, calendar.len() as int, 0),
                    )
                    &&& forall|c: int|
                        0 <= c < series@.len() ==> (#[trigger] res.columns@[c])@ == full[c]@.skip(
                            first_complete(full, calendar.len() as int, 0),
                        )
                }
        }),
        ascending(res.calendar@),
        forall|c: int|
            0 <= c < res.columns@.len() ==> (#[trigger] res.columns@[c])@.len()
                == res.calendar@.len(),
        res.calendar@.len() > 0 ==> complete_at(res.columns@, 0),
{
    let calendar = trading_calendar(&series[market].dates);
    let mut full: Vec<Vec<Option<Double>>> = Vec::new();
    let mut per_series: Vec<SeriesQuality> = Vec::new();
    let mut c: usize = 0;
    while c < series.len()
        invariant
            c <= series@.len(),
            full@.len() == c,
            per_series@.len() == c,
            forall|k: int|
                0 <= k < c ==> (#[trigger] full@[k])@ == aligned(series@[k].rows(), calendar@),
            forall|k: int|
                0 <= k < c ==> describes(#[trigger] per_series@[k], series@[k], calendar@),
        decreases series.len() - c,
    {
        let (column, fills, drops) = align_to_calendar(&series[c], &calendar);
        full.push(column);
        per_series.push(
            SeriesQuality {
                ticker: text::copy(series[c].ticker.as_str()),
                raw_observations: series[c].dates.len(),
                forward_filled_days: fills,
                dropped_days: drops,
            },
        );
        c += 1;
    }
    let start: usize = first_complete_slot(&full, calendar.len());
    let mut days: Vec<i32> = Vec::new();
    let mut i: usize = start;
    while i < calendar.len()
        invariant
            start <= i <= calendar@.len(),
            days@ == calendar@.subrange(start as int, i as int),
        decreases calendar.len() - i,
    {
        days.push(calendar[i]);
        i += 1;
        assert(days@ =~= calendar@.subrange(start as int, i as int));
    }
    assert(days@ =~= calendar@.skip(start as int));
    let mut columns: Vec<Vec<Option<Double>>> = Vec::new();
    let mut k: usize = 0;
    while k < full.len()
        invariant
            k <= full@.len(),
            start <= calendar@.len(),
            forall|c: int| 0 <= c < full@.len() ==> (#[trigger] full@[c])@.len() == calendar@.len(),
            columns@.len() == k,
            forall|j: int| 0 <= j < k ==> (#[trigger] columns@[j])@ == full@[j]@.skip(start as int),
        decreases full.len() - k,
    {
        columns.push(skip_prices(&full[k], start));
        k += 1;
    }
    proof {
        assert(columns_of(full@, series@, calendar@));
        if days@.len() > 0 {
            assert forall|c: int| 0 <= c < columns@.len() implies (#[trigger] columns@[c])@[0] is Some by {
                assert(full@[c]@[start as int] is Some);
            }
        }
    }
    AlignedPrices { calendar: days, columns, per_series }
}

/// Keeps the last trading day of each week.
pub fn weekly_prices(prices: &AlignedPrices) -> (res: (Vec<i32>, Vec<Vec<Option<Double>>>))
    requires
        forall|c: int|
            0 <= c < prices.columns@.len() ==> (#[trigger] prices.columns@[c])@.len()
                == prices.calendar@.len(),
    ensures
        exists|slots: Seq<usize>|
            {
                &&& #[trigger] week_ends(prices.calendar@, slots)
                &&& res.0@ == picked(prices.calendar@, slots)
                &&& res.1@.len() == prices.columns@.len()
                &&& forall|c: int|
                    0 <= c < prices.columns@.len() ==> (#[trigger] res.1@[c])@ == picked(
                        prices.columns@[c]@,
                        slots,
                    )
            },
{
    let slots = weekly_resample_indices(&prices.calendar);
    assert(week_ends(prices.calendar@, slots@));
    let days = pick_days(&prices.calendar, &slots);
    let mut columns: Vec<Vec<Option<Double>>> = Vec::new();
    let mut c: usize = 0;
    while c < prices.columns.len()
        invariant
            c <= prices.columns@.len(),
            week_ends(prices.calendar@, slots@),
            forall|c: int|
                0 <= c < prices.columns@.len() ==> (#[trigger] prices.columns@[c])@.len()
                    == prices.calendar@.len(),
            columns@.len() == c,
            forall|k: int|
                0 <= k < c ==> (#[trigger] columns@[k])@ == picked(prices.columns@[k]@, slots@),
        decreases prices.columns.len() - c,
    {
        columns.push(pick_prices(&prices.columns[c], &slots));
        c += 1;
    }
    (days, columns)
}

/// Whether `slots` lists, ascending, the slots that end a week.
pub open spec fn week_ends(days: Seq<i32>, slots: Seq<usize>) -> bool {
    &&& forall|a: int, b: int| 0 <= a < b < slots.len() ==> slots[a] < slots[b]
    &&& forall|a: int|
        0 <= a < slots.len() ==> (#[trigger] slots[a]) < days.len() && ends_week(
            days,
            slots[a] as int,
        )
    &&& forall|i: usize|
        0 <= i < days.len() && #[trigger] ends_week(days, i as int) ==> slots.contains(i)
}

/// What is said of a dataset: its first and last day, their number, and how
/// each series covered them.
pub fn data_quality(prices: AlignedPrices) -> (res: DataQuality)
    requires
        prices.calendar@.len() > 0,
    ensures
        res.date_range_start == prices.calendar@[0],
        res.date_range_end == prices.calendar@.last(),
        res.trading_days == prices.calendar@.len(),
        res.per_series == prices.per_series,
{
    DataQuality {
        date_range_start: prices.calendar[0],
        date_range_end: prices.calendar[prices.calendar.len() - 1],
        trading_days: prices.calendar.len(),
        per_series: prices.per_series,
    }
}

fn name_series(names: &Vec<String>, values: Vec<Vec<Double>>) -> (res: Vec<NamedSeries>)
    requires
        names@.len() == values@.len(),
    ensures
        res@.len() == names@.len(),
        forall|i: int|
            0 <= i < names@.len() ==> (#[trigger] res@[i]).name@ == names@[i]@ && res@[i].values
                == values@[i],
{
    let mut rest = values;
    let mut out: Vec<NamedSeries> = Vec::new();
    let mut i: usize = names.len();
    while i > 0
        invariant
            i <= names@.len(),
            names@.len() == values@.len(),
            rest@ == values@.take(i as int),
            out@.len() == names@.len() - i,
            forall|k: int|
                0 <= k < out@.len() ==> (#[trigger] out@[k]).name@ == names@[i + k]@
                    && out@[k].values == values@[i + k],
        decreases i,
    {
        i -= 1;
        let ghost before = out@;
        match rest.pop() {
            Some(column) => {
                out.insert(0, NamedSeries { name: text::copy(names[i].as_str()), values: column });
                assert forall|k: int| 0 <= k < out@.len() implies (#[trigger] out@[k]).name@
                    == names@[i + k]@ && out@[k].values == values@[i + k] by {
                    if k > 0 {
                        assert(out@[k] == before[k - 1]);
                    }
                }
            },
            None => {},
        }
        assert(rest@ =~= values@.take(i as int));
    }
    out
}

/// Whether every column holds `length` numbers.
pub open spec fn columns_of_length(columns: Seq<Vec<Double>>, length: int) -> bool {
    forall|i: int| 0 <= i < columns.len() ==> (#[trigger] columns[i])@.len() == length
}

/// Puts a dataset together: the stock returns under their tickers, the factor
/// returns under the factor names. Columns with a return for each date but the
/// first make it rectangular, and so fit for every computation on it.
pub fn market_data(
    dates: Vec<i32>,
    tickers: &Vec<String>,
    stock_returns: Vec<Vec<Double>>,
    factor_returns: Vec<Vec<Double>>,
    quality: DataQuality,
) -> (res: MarketData)
    requires
        tickers@.len() == stock_returns@.len(),
        factor_returns@.len() == FACTOR_COUNT,
    ensures
        res.dates == dates,
        res.quality == quality,
        res.stock_returns@.len() == tickers@.len(),
        forall|i: int|
            0 <= i < tickers@.len() ==> (#[trigger] res.stock_returns@[i]).name@ == tickers@[i]@
                && res.stock_returns@[i].values == stock_returns@[i],
        res.factor_returns@.len() == FACTOR_COUNT,
        forall|k: int|
            0 <= k < FACTOR_COUNT ==> (#[trigger] res.factor_returns@[k]).name@
                == factor_names_view()[k] && res.factor_returns@[k].values == factor_returns@[k],
        columns_of_length(stock_returns@, dates@.len() - 1) && columns_of_length(
            factor_returns@,
            dates@.len() - 1,
        ) ==> {
            &&& res.rectangular()
            &&& model::factors_even(res.factor_returns@)
            &&& forall|portfolio: Portfolio| #[trigger] performance::series_even(res, portfolio)
        },
{
    let ghost (stock_columns, factor_columns) = (stock_returns@, factor_returns@);
    let names = factor_names();
    let stocks = name_series(tickers, stock_returns);
    let factors = name_series(&names, factor_returns);
    proof {
        assert forall|k: int| 0 <= k < FACTOR_COUNT implies (#[trigger] factors@[k]).name@
            == factor_names_view()[k] by {
            assert(text::views(names@)[k] == names@[k]@);
        }
    }
    let out = MarketData { dates, stock_returns: stocks, factor_returns: factors, quality };
    proof {
        let length = out.dates@.len() - 1;
        if columns_of_length(stock_columns, length) && columns_of_length(factor_columns, length) {
            assert forall|i: int| 0 <= i < stocks@.len() implies (#[trigger] stocks@[i]).values@.len()
                == length by {
                assert(stocks@[i].values == stock_columns[i]);
            }
            assert forall|k: int| 0 <= k < factors@.len() implies (
            #[trigger] factors@[k]).values@.len() == length by {
                assert(factors@[k].values == factor_columns[k]);
            }
            model::lemma_rectangular_factors_even(out);
            assert forall|portfolio: Portfolio|
                #[trigger] performance::series_even(out, portfolio) by {
                performance::lemma_rectangular_series_even(out, portfolio);
            }
        }
    }
    out
}

} // verus!
