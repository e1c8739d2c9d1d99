//! The evidence trace: the record that every experiment returns, and its
//! rendering as JSON. Every number that may be cited later is a named field
//! of it.

use vstd::prelude::*;

use crate::data::{DataQuality, SeriesQuality};
use crate::dates;
use crate::double::Double;
use crate::json::{Json, JsonView};
use crate::message::{Message, PieceView, Style};
use crate::model::{FactorModel, Frequency};
use crate::regime::RegimeState;
use crate::text;

verus! {

/// The version of the engine that is written into every trace.
pub const ENGINE_VERSION: &'static str = "0.1.0";

/// What a build writes where it could not find out the commit.
pub const COMMIT_PLACEHOLDER: &'static str = "VERGEN_IDEMPOTENT_OUTPUT";

/// The version of the engine.
pub fn engine_version() -> (res: String)
    ensures
        res@ == ENGINE_VERSION@,
{
    text::copy(ENGINE_VERSION)
}

/// The commit shown for a recorded build commit.
pub open spec fn shown_commit(recorded: Option<Seq<char>>) -> Seq<char> {
    match recorded {
        Some(commit) => if commit.len() == 0 || commit == COMMIT_PLACEHOLDER@ {
            "unknown"@
        } else {
            commit
        },
        None => "unknown"@,
    }
}

/// The commit that the engine was built from; `unknown` where none was
/// recorded, or only the placeholder of a failed lookup.
pub fn engine_commit(recorded: Option<&str>) -> (res: String)
    ensures
        res@ == shown_commit(
            match recorded {
                Some(s) => Some(s@),
                None => None,
            },
        ),
        res@.len() > 0,
        res@ != COMMIT_PLACEHOLDER@,
{
    proof {
        reveal_strlit("unknown");
        reveal_strlit("VERGEN_IDEMPOTENT_OUTPUT");
        assert("unknown"@.len() != COMMIT_PLACEHOLDER@.len());
    }
    match recorded {
        Some(commit) => {
            if commit.is_empty() || text::same(commit, COMMIT_PLACEHOLDER) {
                text::copy("unknown")
            } else {
                text::copy(commit)
            }
        },
        None => text::copy("unknown"),
    }
}

/// Whether `c` is a lowercase hexadecimal digit.
pub open spec fn is_hex_digit(c: char) -> bool {
    ('0' <= c && c <= '9') || ('a' <= c && c <= 'f')
}

/// Whether a text is a random UUID in its usual notation.
pub open spec fn is_random_uuid(s: Seq<char>) -> bool {
    &&& s.len() == 36
    &&& forall|i: int|
        0 <= i < 36 ==> if i == 8 || i == 13 || i == 18 || i == 23 {
            (#[trigger] s[i]) == '-'
        } else {
            is_hex_digit(s[i])
        }
    &&& s[14] == '4'
    &&& (s[19] == '8' || s[19] == '9' || s[19] == 'a' || s[19] == 'b')
}

/// Calls `uuid::Uuid::new_v4` and writes the result with its `Display`.
/// Claimed of every outcome: it is a version 4 UUID in lowercase hyphenated
/// notation. Which one is left to chance.
#[verifier::external_body]
pub(crate) fn random_uuid() -> (res: String)
    ensures
        is_random_uuid(res@),
{
    uuid::Uuid::new_v4().to_string()
}

/// A fresh identifier for a trace.
pub fn new_trace_id() -> (res: String)
    ensures
        is_random_uuid(res@),
{
    random_uuid()
}

/// The span of data that an experiment ran on.
#[derive(Clone, Copy, Debug)]
pub struct DataWindow {
    pub frequency: Frequency,
    pub window_periods: usize,
    pub start: i32,
    pub end: i32,
}

impl DataWindow {
    /// Whether both ends are dates.
    pub open spec fn valid(self) -> bool {
        dates::is_day(self.start as int) && dates::is_day(self.end as int)
    }
}

/// The time that a trace's data are as of: the start of its last day.
pub fn data_as_of(window: &DataWindow) -> (res: String)
    requires
        dates::is_day(window.end as int),
    ensures
        res@ == dates::date_text(window.end as int) + "T00:00:00Z"@,
{
    let day = day_text(window.end);
    text::join2(day.as_str(), "T00:00:00Z")
}

/// A day in ISO notation.
pub fn day_text(day: i32) -> (res: String)
    requires
        dates::is_day(day as int),
    ensures
        res@ == dates::date_text(day as int),
{
    match dates::format_day(day) {
        Some(s) => s,
        None => String::new(),
    }
}

/// The span of the last `window` periods of a calendar.
pub fn build_data_window(calendar: &Vec<i32>, window: usize, frequency: Frequency) -> (res: DataWindow)
    requires
        0 < window <= calendar@.len(),
    ensures
        res.frequency == frequency,
        res.window_periods == window,
        res.start == calendar@[calendar@.len() - window],
        res.end == calendar@.last(),
{
    DataWindow {
        frequency,
        window_periods: window,
        start: calendar[calendar.len() - window],
        end: calendar[calendar.len() - 1],
    }
}

/// The parameters of the model behind a trace.
#[derive(Debug)]
pub struct ModelParams {
    pub frequency: Frequency,
    pub window_periods: usize,
    pub factor_names: Vec<String>,
    pub shrinkage_intensity: Double,
    pub annualization_factor: u32,
    pub regime_state: Option<Json>,
    pub regime_fallback_warnings: Vec<String>,
    pub cap_source: Option<String>,
}

/// One checked identity of a trace.
#[derive(Debug)]
pub struct InvariantCheck {
    pub name: String,
    pub passed: bool,
    pub tolerance: Double,
    pub detail: Message,
}

/// What is said of two numbers and their difference.
pub open spec fn comparison_detail(lhs: Double, rhs: Double, diff: Double) -> Seq<PieceView> {
    seq![
        PieceView::Text("lhs="@),
        PieceView::Number(lhs, Style::Fixed(12)),
        PieceView::Text(" rhs="@),
        PieceView::Number(rhs, Style::Fixed(12)),
        PieceView::Text(" abs_diff="@),
        PieceView::Number(diff, Style::Exponent(3)),
    ]
}

/// Two numbers that ought to agree, and the magnitude of their difference.
#[derive(Clone, Copy, Debug)]
pub struct Compared {
    pub lhs: Double,
    pub rhs: Double,
    pub gap: Double,
}

/// Whether a check compares two numbers under a name.
pub open spec fn compares(
    check: InvariantCheck,
    name: Seq<char>,
    numbers: Compared,
    tolerance: Double,
) -> bool {
    &&& check.name@ == name
    &&& check.passed == numbers.gap.at_most(tolerance)
    &&& check.tolerance == tolerance
    &&& check.detail@ == comparison_detail(numbers.lhs, numbers.rhs, numbers.gap)
}

/// A check that two numbers agree is passed exactly where their difference is
/// within the tolerance, and tells the two and the difference in this order.
pub proof fn lemma_compares(
    check: InvariantCheck,
    name: Seq<char>,
    numbers: Compared,
    tolerance: Double,
)
    requires
        compares(check, name, numbers, tolerance),
    ensures
        check.name@ == name,
        check.tolerance == tolerance,
        check.passed <==> !numbers.gap.nan() && !tolerance.nan() && numbers.gap.rank()
            <= tolerance.rank(),
        check.detail@.len() == 6,
        check.detail@[1] == PieceView::Number(numbers.lhs, Style::Fixed(12)),
        check.detail@[3] == PieceView::Number(numbers.rhs, Style::Fixed(12)),
        check.detail@[5] == PieceView::Number(numbers.gap, Style::Exponent(3)),
{
}

/// A check that two numbers agree.
pub fn comparison(name: &str, numbers: Compared, tolerance: Double) -> (res: InvariantCheck)
    ensures
        compares(res, name@, numbers, tolerance),
{
    InvariantCheck::approx_eq(name, numbers.lhs, numbers.rhs, numbers.gap, tolerance)
}

impl InvariantCheck {
    /// A check that two numbers agree: `diff`, the magnitude of their
    /// difference, is within `tolerance`.
    pub fn approx_eq(name: &str, lhs: Double, rhs: Double, diff: Double, tolerance: Double) -> (res: Self)
        ensures
            res.name@ == name@,
            res.passed == diff.at_most(tolerance),
            res.tolerance == tolerance,
            res.detail@ == comparison_detail(lhs, rhs, diff),
    {
        let mut detail = Message::of("lhs=");
        detail.number(lhs, Style::Fixed(12));
        detail.text(" rhs=");
        detail.number(rhs, Style::Fixed(12));
        detail.text(" abs_diff=");
        detail.number(diff, Style::Exponent(3));
        assert(detail@ =~= comparison_detail(lhs, rhs, diff));
        InvariantCheck { name: text::copy(name), passed: diff.le(tolerance), tolerance, detail }
    }
}

// ---------------------------------------------------------------------------
// JSON
// ---------------------------------------------------------------------------

impl Frequency {
    /// The name of a frequency in JSON.
    pub open spec fn json_name(self) -> Seq<char> {
        match self {
            Frequency::Daily => "Daily"@,
            Frequency::Weekly => "Weekly"@,
        }
    }

    /// The name of a frequency in JSON.
    pub fn name(&self) -> (res: &'static str)
        ensures
            res@ == self.json_name(),
    {
        match self {
            Frequency::Daily => "Daily",
            Frequency::Weekly => "Weekly",
        }
    }
}

impl RegimeState {
    /// The regime as a JSON object.
    pub open spec fn json(self) -> JsonView {
        JsonView::empty().with(
            "current_regime"@,
            JsonView::of_integer(self.current_regime as int),
        ).with("current_label"@, JsonView::Text(self.current_label@)).with(
            "smoothed_probs"@,
            JsonView::of_doubles(self.smoothed_probs@),
        ).with(
            "viterbi_sequence"@,
            JsonView::Array(
                self.viterbi_sequence@.map_values(|r: u8| JsonView::of_integer(r as int)),
            ),
        ).with(
            "obs_count_per_regime"@,
            JsonView::Array(
                self.obs_count_per_regime@.map_values(|n: usize| JsonView::of_integer(n as int)),
            ),
        ).with("log_likelihood"@, JsonView::of_double(self.log_likelihood)).with(
            "n_iter"@,
            JsonView::of_integer(self.n_iter as int),
        ).with("smoothing_note"@, JsonView::Text(self.smoothing_note@))
    }

    /// Each field of the object holds the figure that it is named after.
    pub proof fn lemma_json_fields(self)
        ensures
            self.json().field("current_regime"@) == Some(JsonView::of_integer(self.current_regime as int)),
            self.json().field("current_label"@) == Some(JsonView::Text(self.current_label@)),
            self.json().field("smoothed_probs"@) == Some(JsonView::of_doubles(self.smoothed_probs@)),
            self.json().field("viterbi_sequence"@) == Some(JsonView::Array(
                self.viterbi_sequence@.map_values(|r: u8| JsonView::of_integer(r as int)),
            )),
            self.json().field("obs_count_per_regime"@) == Some(JsonView::Array(
                self.obs_count_per_regime@.map_values(|n: usize| JsonView::of_integer(n as int)),
            )),
            self.json().field("log_likelihood"@) == Some(JsonView::of_double(self.log_likelihood)),
            self.json().field("n_iter"@) == Some(JsonView::of_integer(self.n_iter as int)),
            self.json().field("smoothing_note"@) == Some(JsonView::Text(self.smoothing_note@)),
    {
        broadcast use crate::json::group_fields;

        reveal_strlit("current_regime");
        reveal_strlit("current_label");
        reveal_strlit("smoothed_probs");
        reveal_strlit("viterbi_sequence");
        reveal_strlit("obs_count_per_regime");
        reveal_strlit("log_likelihood");
        reveal_strlit("n_iter");
        reveal_strlit("smoothing_note");
        assert("current_regime"@.len() == 14);
        assert("current_label"@.len() == 13);
        assert("smoothed_probs"@.len() == 14);
        assert("viterbi_sequence"@.len() == 16);
        assert("obs_count_per_regime"@.len() == 20);
        assert("log_likelihood"@.len() == 14);
        assert("n_iter"@.len() == 6);
        assert("smoothing_note"@.len() == 14);
        assert("current_regime"@[0] == 'c');
        assert("smoothed_probs"@[0] == 's');
        assert("log_likelihood"@[0] == 'l');
        assert("smoothing_note"@[0] == 's');
        assert("smoothed_probs"@[6] == 'e');
        assert("smoothing_note"@[6] == 'i');
    }

    /// The regime as a JSON object.
    pub fn to_json(&self) -> (res: Json)
        ensures
            res@ == self.json(),
    {
        broadcast use crate::json::lemma_array_view;

        let mut labels: Vec<Json> = Vec::new();
        let mut t: usize = 0;
        while t < self.viterbi_sequence.len()
            invariant
                t <= self.viterbi_sequence@.len(),
                labels@.len() == t,
                forall|k: int|
                    0 <= k < t ==> (#[trigger] labels@[k])@ == JsonView::of_integer(
                        self.viterbi_sequence@[k] as int,
                    ),
            decreases self.viterbi_sequence.len() - t,
        {
            labels.push(Json::of_integer(self.viterbi_sequence[t] as i64));
            t += 1;
        }
        assert(crate::json::items_view(labels@) =~= self.viterbi_sequence@.map_values(
            |r: u8| JsonView::of_integer(r as int),
        ));
        let mut counts: Vec<Json> = Vec::new();
        counts.push(Json::of_count(self.obs_count_per_regime[0]));
        counts.push(Json::of_count(self.obs_count_per_regime[1]));
        counts.push(Json::of_count(self.obs_count_per_regime[2]));
        assert(crate::json::items_view(counts@) =~= self.obs_count_per_regime@.map_values(
            |n: usize| JsonView::of_integer(n as int),
        ));
        let mut probs: Vec<Double> = Vec::new();
        probs.push(self.smoothed_probs[0]);
        probs.push(self.smoothed_probs[1]);
        probs.push(self.smoothed_probs[2]);
        assert(probs@ =~= self.smoothed_probs@);
        Json::object().with("current_regime", Json::of_integer(self.current_regime as i64)).with(
            "current_label",
            Json::of_text(self.current_label),
        ).with("smoothed_probs", Json::of_doubles(&probs)).with(
            "viterbi_sequence",
            Json::Array(labels),
        ).with("obs_count_per_regime", Json::Array(counts)).with(
            "log_likelihood",
            Json::of_double(self.log_likelihood),
        ).with("n_iter", Json::of_integer(self.n_iter as i64)).with(
            "smoothing_note",
            Json::of_text(self.smoothing_note),
        )
    }
}

impl ModelParams {
    /// The parameters as a JSON object.
    pub open spec fn json(self) -> JsonView {
        JsonView::empty().with("frequency"@, JsonView::Text(self.frequency.json_name())).with(
            "window_periods"@,
            JsonView::of_integer(self.window_periods as int),
        ).with("factor_names"@, JsonView::of_texts(text::views(self.factor_names@))).with(
            "shrinkage_intensity"@,
            JsonView::of_double(self.shrinkage_intensity),
        ).with(
            "annualization_factor"@,
            JsonView::of_double(crate::double::double_of_integer(self.annualization_factor as int)),
        ).with(
            "regime_state"@,
            match self.regime_state {
                Some(state) => state@,
                None => JsonView::Null,
            },
        ).with(
            "regime_fallback_warnings"@,
            JsonView::of_texts(text::views(self.regime_fallback_warnings@)),
        ).with(
            "cap_source"@,
            JsonView::of_optional_text(
                match self.cap_source {
                    Some(s) => Some(s@),
                    None => None,
                },
            ),
        )
    }

    /// Each field of the object holds the figure that it is named after.
    pub proof fn lemma_json_fields(self)
        ensures
            self.json().field("frequency"@) == Some(JsonView::Text(self.frequency.json_name())),
            self.json().field("window_periods"@) == Some(JsonView::of_integer(self.window_periods as int)),
            self.json().field("factor_names"@) == Some(JsonView::of_texts(text::views(self.factor_names@))),
            self.json().field("shrinkage_intensity"@) == Some(JsonView::of_double(self.shrinkage_intensity)),
            self.json().field("annualization_factor"@) == Some(JsonView::of_double(crate::double::double_of_integer(self.annualization_factor as int))),
            self.json().field("regime_state"@) == Some(match self.regime_state {
                Some(state) => state@,
                None => JsonView::Null,
            }),
            self.json().field("regime_fallback_warnings"@) == Some(JsonView::of_texts(text::views(self.regime_fallback_warnings@))),
            self.json().field("cap_source"@) == Some(JsonView::of_optional_text(
                match self.cap_source {
                    Some(s) => Some(s@),
                    None => None,
                },
            )),
    {
        broadcast use crate::json::group_fields;

        reveal_strlit("frequency");
        reveal_strlit("window_periods");
        reveal_strlit("factor_names");
        reveal_strlit("shrinkage_intensity");
        reveal_strlit("annualization_factor");
        reveal_strlit("regime_state");
        reveal_strlit("regime_fallback_warnings");
        reveal_strlit("cap_source");
        assert("frequency"@.len() == 9);
        assert("window_periods"@.len() == 14);
        assert("factor_names"@.len() == 12);
        assert("shrinkage_intensity"@.len() == 19);
        assert("annualization_factor"@.len() == 20);
        assert("regime_state"@.len() == 12);
        assert("regime_fallback_warnings"@.len() == 24);
        assert("cap_source"@.len() == 10);
        assert("factor_names"@[0] == 'f');
        assert("regime_state"@[0] == 'r');
    }

    /// The parameters as a JSON object.
    pub fn to_json(&self) -> (res: Json)
        ensures
            res@ == self.json(),
    {
        let regime = match &self.regime_state {
            Some(state) => state.duplicate(),
            None => Json::Null,
        };
        Json::object().with("frequency", Json::of_text(self.frequency.name())).with(
            "window_periods",
            Json::of_count(self.window_periods),
        ).with("factor_names", Json::of_texts(&self.factor_names)).with(
            "shrinkage_intensity",
            Json::of_double(self.shrinkage_intensity),
        ).with(
            "annualization_factor",
            Json::of_double(Double::of_integer(self.annualization_factor as i64)),
        ).with("regime_state", regime).with(
            "regime_fallback_warnings",
            Json::of_texts(&self.regime_fallback_warnings),
        ).with("cap_source", Json::of_optional_text(&self.cap_source))
    }
}

/// The parameters of a fitted model, as a trace carries them.
pub fn model_params(model: &FactorModel) -> (res: ModelParams)
    ensures
        res.frequency == model.frequency,
        res.window_periods == model.window,
        text::views(res.factor_names@) == crate::data::factor_names_view(),
        res.shrinkage_intensity == model.shrinkage_intensity,
        res.annualization_factor == model.frequency.periods(),
        match model.regime_state {
            Some(state) => res.regime_state is Some && res.regime_state->Some_0@ == state.json(),
            None => res.regime_state is None,
        },
        text::views(res.regime_fallback_warnings@) == text::views(model.regime_fallback_warnings@),
        res.cap_source is None,
{
    ModelParams {
        frequency: model.frequency,
        window_periods: model.window,
        factor_names: crate::data::factor_names(),
        shrinkage_intensity: model.shrinkage_intensity,
        annualization_factor: model.frequency.annualization_factor(),
        regime_state: match &model.regime_state {
            Some(state) => Some(state.to_json()),
            None => None,
        },
        regime_fallback_warnings: text::copy_all(&model.regime_fallback_warnings),
        cap_source: None,
    }
}

impl DataWindow {
    /// The span as a JSON object.
    pub open spec fn json(self) -> JsonView {
        JsonView::empty().with("frequency"@, JsonView::Text(self.frequency.json_name())).with(
            "window_periods"@,
            JsonView::of_integer(self.window_periods as int),
        ).with("start"@, JsonView::Text(dates::date_text(self.start as int))).with(
            "end"@,
            JsonView::Text(dates::date_text(self.end as int)),
        )
    }

    /// Each field of the object holds the figure that it is named after.
    pub proof fn lemma_json_fields(self)
        ensures
            self.json().field("frequency"@) == Some(JsonView::Text(self.frequency.json_name())),
            self.json().field("window_periods"@) == Some(JsonView::of_integer(self.window_periods as int)),
            self.json().field("start"@) == Some(JsonView::Text(dates::date_text(self.start as int))),
            self.json().field("end"@) == Some(JsonView::Text(dates::date_text(self.end as int))),
    {
        broadcast use crate::json::group_fields;

        reveal_strlit("frequency");
        reveal_strlit("window_periods");
        reveal_strlit("start");
        reveal_strlit("end");
        assert("frequency"@.len() == 9);
        assert("window_periods"@.len() == 14);
        assert("start"@.len() == 5);
        assert("end"@.len() == 3);
    }

    /// The span as a JSON object.
    pub fn to_json(&self) -> (res: Json)
        requires
            self.valid(),
        ensures
            res@ == self.json(),
    {
        Json::object().with("frequency", Json::of_text(self.frequency.name())).with(
            "window_periods",
            Json::of_count(self.window_periods),
        ).with("start", Json::Text(day_text(self.start))).with(
            "end",
            Json::Text(day_text(self.end)),
        )
    }
}

impl SeriesQuality {
    /// The account of one series as a JSON object.
    pub open spec fn json(self) -> JsonView {
        JsonView::empty().with("ticker"@, JsonView::Text(self.ticker@)).with(
            "raw_observations"@,
            JsonView::of_integer(self.raw_observations as int),
        ).with(
            "forward_filled_days"@,
            JsonView::of_integer(self.forward_filled_days as int),
        ).with("dropped_days"@, JsonView::of_integer(self.dropped_days as int))
    }

    /// Each field of the object holds the figure that it is named after.
    pub proof fn lemma_json_fields(self)
        ensures
            self.json().field("ticker"@) == Some(JsonView::Text(self.ticker@)),
            self.json().field("raw_observations"@) == Some(JsonView::of_integer(self.raw_observations as int)),
            self.json().field("forward_filled_days"@) == Some(JsonView::of_integer(self.forward_filled_days as int)),
            self.json().field("dropped_days"@) == Some(JsonView::of_integer(self.dropped_days as int)),
    {
        broadcast use crate::json::group_fields;

        reveal_strlit("ticker");
        reveal_strlit("raw_observations");
        reveal_strlit("forward_filled_days");
        reveal_strlit("dropped_days");
        assert("ticker"@.len() == 6);
        assert("raw_observations"@.len() == 16);
        assert("forward_filled_days"@.len() == 19);
        assert("dropped_days"@.len() == 12);
    }

    /// The account of one series as a JSON object.
    pub fn to_json(&self) -> (res: Json)
        ensures
            res@ == self.json(),
    {
        Json::object().with("ticker", Json::of_text(self.ticker.as_str())).with(
            "raw_observations",
            Json::of_count(self.raw_observations),
        ).with("forward_filled_days", Json::of_count(self.forward_filled_days)).with(
            "dropped_days",
            Json::of_count(self.dropped_days),
        )
    }
}

impl DataQuality {
    /// Whether both ends are dates.
    pub open spec fn valid(self) -> bool {
        dates::is_day(self.date_range_start as int) && dates::is_day(self.date_range_end as int)
    }

    /// The account of a dataset as a JSON object.
    pub open spec fn json(self) -> JsonView {
        JsonView::empty().with(
            "date_range_start"@,
            JsonView::Text(dates::date_text(self.date_range_start as int)),
        ).with(
            "date_range_end"@,
            JsonView::Text(dates::date_text(self.date_range_end as int)),
        ).with("trading_days"@, JsonView::of_integer(self.trading_days as int)).with(
            "per_series"@,
            JsonView::Array(self.per_series@.map_values(|q: SeriesQuality| q.json())),
        )
    }

    /// Each field of the object holds the figure that it is named after.
    pub proof fn lemma_json_fields(self)
        ensures
            self.json().field("date_range_start"@) == Some(JsonView::Text(dates::date_text(self.date_range_start as int))),
            self.json().field("date_range_end"@) == Some(JsonView::Text(dates::date_text(self.date_range_end as int))),
            self.json().field("trading_days"@) == Some(JsonView::of_integer(self.trading_days as int)),
            self.json().field("per_series"@) == Some(JsonView::Array(self.per_series@.map_values(|q: SeriesQuality| q.json()))),
    {
        broadcast use crate::json::group_fields;

        reveal_strlit("date_range_start");
        reveal_strlit("date_range_end");
        reveal_strlit("trading_days");
        reveal_strlit("per_series");
        assert("date_range_start"@.len() == 16);
        assert("date_range_end"@.len() == 14);
        assert("trading_days"@.len() == 12);
        assert("per_series"@.len() == 10);
    }

    /// The account of a dataset as a JSON object.
    pub fn to_json(&self) -> (res: Json)
        requires
            self.valid(),
        ensures
            res@ == self.json(),
    {
        broadcast use crate::json::lemma_array_view;

        let mut series: Vec<Json> = Vec::new();
        let mut i: usize = 0;
        while i < self.per_series.len()
            invariant
                i <= self.per_series@.len(),
                series@.len() == i,
                forall|k: int|
                    0 <= k < i ==> (#[trigger] series@[k])@ == self.per_series@[k].json(),
            decreases self.per_series.len() - i,
        {
            series.push(self.per_series[i].to_json());
            i += 1;
        }
        assert(crate::json::items_view(series@) =~= self.per_series@.map_values(
            |q: SeriesQuality| q.json(),
        ));
        Json::object().with("date_range_start", Json::Text(day_text(self.date_range_start))).with(
            "date_range_end",
            Json::Text(day_text(self.date_range_end)),
        ).with("trading_days", Json::of_count(self.trading_days)).with(
            "per_series",
            Json::Array(series),
        )
    }
}

impl InvariantCheck {
    /// The check as a JSON object.
    pub open spec fn json(self) -> JsonView {
        JsonView::empty().with("name"@, JsonView::Text(self.name@)).with(
            "passed"@,
            JsonView::Bool(self.passed),
        ).with("tolerance"@, JsonView::of_double(self.tolerance)).with(
            "detail"@,
            JsonView::Sentence(self.detail@),
        )
    }

    /// Each field of the object holds the figure that it is named after.
    pub proof fn lemma_json_fields(self)
        ensures
            self.json().field("name"@) == Some(JsonView::Text(self.name@)),
            self.json().field("passed"@) == Some(JsonView::Bool(self.passed)),
            self.json().field("tolerance"@) == Some(JsonView::of_double(self.tolerance)),
            self.json().field("detail"@) == Some(JsonView::Sentence(self.detail@)),
    {
        broadcast use crate::json::group_fields;

        reveal_strlit("name");
        reveal_strlit("passed");
        reveal_strlit("tolerance");
        reveal_strlit("detail");
        assert("name"@.len() == 4);
        assert("passed"@.len() == 6);
        assert("tolerance"@.len() == 9);
        assert("detail"@.len() == 6);
        assert("passed"@[0] == 'p');
        assert("detail"@[0] == 'd');
    }

    /// The check as a JSON object.
    pub fn to_json(&self) -> (res: Json)
        ensures
            res@ == self.json(),
    {
        Json::object().with("name", Json::of_text(self.name.as_str())).with(
            "passed",
            Json::Bool(self.passed),
        ).with("tolerance", Json::of_double(self.tolerance)).with(
            "detail",
            Json::Sentence(self.detail.duplicate()),
        )
    }
}

/// Where the shocks of a trace come from, where that is a historical
/// scenario.
#[derive(Debug)]
pub struct ScenarioProvenance {
    pub scenario_id: String,
    pub scenario_name: String,
    pub date_range: String,
    pub description: String,
}

impl ScenarioProvenance {
    /// The provenance as a JSON object.
    pub open spec fn json(self) -> JsonView {
        JsonView::empty().with("scenario_id"@, JsonView::Text(self.scenario_id@)).with(
            "scenario_name"@,
            JsonView::Text(self.scenario_name@),
        ).with("date_range"@, JsonView::Text(self.date_range@)).with(
            "description"@,
            JsonView::Text(self.description@),
        )
    }

    /// Each field of the object holds the figure that it is named after.
    pub proof fn lemma_json_fields(self)
        ensures
            self.json().field("scenario_id"@) == Some(JsonView::Text(self.scenario_id@)),
            self.json().field("scenario_name"@) == Some(JsonView::Text(self.scenario_name@)),
            self.json().field("date_range"@) == Some(JsonView::Text(self.date_range@)),
            self.json().field("description"@) == Some(JsonView::Text(self.description@)),
    {
        broadcast use crate::json::group_fields;

        reveal_strlit("scenario_id");
        reveal_strlit("scenario_name");
        reveal_strlit("date_range");
        reveal_strlit("description");
        assert("scenario_id"@.len() == 11);
        assert("scenario_name"@.len() == 13);
        assert("date_range"@.len() == 10);
        assert("description"@.len() == 11);
        assert("scenario_id"@[0] == 's');
        assert("description"@[0] == 'd');
    }

    /// The provenance as a JSON object.
    pub fn to_json(&self) -> (res: Json)
        ensures
            res@ == self.json(),
    {
        Json::object().with("scenario_id", Json::of_text(self.scenario_id.as_str())).with(
            "scenario_name",
            Json::of_text(self.scenario_name.as_str()),
        ).with("date_range", Json::of_text(self.date_range.as_str())).with(
            "description",
            Json::of_text(self.description.as_str()),
        )
    }
}

/// Key parameters of the baseline that a drift trace compares with.
#[derive(Debug)]
pub struct BaselineModelParams {
    pub window_periods: usize,
    pub frequency: Frequency,
    pub shrinkage_intensity: Double,
    pub regime_label: Option<String>,
}

impl BaselineModelParams {
    /// The parameters as a JSON object.
    pub open spec fn json(self) -> JsonView {
        JsonView::empty().with(
            "window_periods"@,
            JsonView::of_integer(self.window_periods as int),
        ).with("frequency"@, JsonView::Text(self.frequency.json_name())).with(
            "shrinkage_intensity"@,
            JsonView::of_double(self.shrinkage_intensity),
        ).with(
            "regime_label"@,
            JsonView::of_optional_text(
                match self.regime_label {
                    Some(s) => Some(s@),
                    None => None,
                },
            ),
        )
    }

    /// Each field of the object holds the figure that it is named after.
    pub proof fn lemma_json_fields(self)
        ensures
            self.json().field("window_periods"@) == Some(JsonView::of_integer(self.window_periods as int)),
            self.json().field("frequency"@) == Some(JsonView::Text(self.frequency.json_name())),
            self.json().field("shrinkage_intensity"@) == Some(JsonView::of_double(self.shrinkage_intensity)),
            self.json().field("regime_label"@) == Some(JsonView::of_optional_text(
                match self.regime_label {
                    Some(s) => Some(s@),
                    None => None,
                },
            )),
    {
        broadcast use crate::json::group_fields;

        reveal_strlit("window_periods");
        reveal_strlit("frequency");
        reveal_strlit("shrinkage_intensity");
        reveal_strlit("regime_label");
        assert("window_periods"@.len() == 14);
        assert("frequency"@.len() == 9);
        assert("shrinkage_intensity"@.len() == 19);
        assert("regime_label"@.len() == 12);
    }

    /// The parameters as a JSON object.
    pub fn to_json(&self) -> (res: Json)
        ensures
            res@ == self.json(),
    {
        Json::object().with("window_periods", Json::of_count(self.window_periods)).with(
            "frequency",
            Json::of_text(self.frequency.name()),
        ).with("shrinkage_intensity", Json::of_double(self.shrinkage_intensity)).with(
            "regime_label",
            Json::of_optional_text(&self.regime_label),
        )
    }
}

/// The record of one experiment.
#[derive(Debug)]
pub struct EvidenceTrace {
    pub id: String,
    pub experiment: String,
    pub inputs: Json,
    pub data_as_of: String,
    pub data_window: DataWindow,
    pub data_quality: DataQuality,
    pub model_params: ModelParams,
    pub outputs: Json,
    pub invariants: Vec<InvariantCheck>,
    pub engine_version: String,
    pub engine_commit: String,
    /// Present only for the shocks of a historical scenario.
    pub scenario_provenance: Option<ScenarioProvenance>,
    /// The snapshots or traces that this one was computed from.
    pub parent_trace_ids: Vec<String>,
    /// Present only for a drift trace.
    pub baseline_model_params: Option<BaselineModelParams>,
    /// The check of a policy that came along with another experiment.
    pub policy_result: Option<Json>,
}

impl EvidenceTrace {
    /// Whether all days of the trace are dates.
    pub open spec fn valid(self) -> bool {
        self.data_window.valid() && self.data_quality.valid()
    }

    /// The trace as a JSON object.
    pub open spec fn json(self) -> JsonView {
        JsonView::empty().with("id"@, JsonView::Text(self.id@)).with(
            "experiment"@,
            JsonView::Text(self.experiment@),
        ).with("inputs"@, self.inputs@).with("data_as_of"@, JsonView::Text(self.data_as_of@)).with(
            "data_window"@,
            self.data_window.json(),
        ).with("data_quality"@, self.data_quality.json()).with(
            "model_params"@,
            self.model_params.json(),
        ).with("outputs"@, self.outputs@).with(
            "invariants"@,
            JsonView::Array(self.invariants@.map_values(|c: InvariantCheck| c.json())),
        ).with("engine_version"@, JsonView::Text(self.engine_version@)).with(
            "engine_commit"@,
            JsonView::Text(self.engine_commit@),
        ).with(
            "scenario_provenance"@,
            match self.scenario_provenance {
                Some(p) => p.json(),
                None => JsonView::Null,
            },
        ).with("parent_trace_ids"@, JsonView::of_texts(text::views(self.parent_trace_ids@))).with(
            "baseline_model_params"@,
            match self.baseline_model_params {
                Some(p) => p.json(),
                None => JsonView::Null,
            },
        ).with(
            "policy_result"@,
            match self.policy_result {
                Some(p) => p@,
                None => JsonView::Null,
            },
        )
    }

    /// Each field of the object holds the figure that it is named after.
    pub proof fn lemma_json_fields(self)
        ensures
            self.json().field("id"@) == Some(JsonView::Text(self.id@)),
            self.json().field("experiment"@) == Some(JsonView::Text(self.experiment@)),
            self.json().field("inputs"@) == Some(self.inputs@),
            self.json().field("data_as_of"@) == Some(JsonView::Text(self.data_as_of@)),
            self.json().field("data_window"@) == Some(self.data_window.json()),
            self.json().field("data_quality"@) == Some(self.data_quality.json()),
            self.json().field("model_params"@) == Some(self.model_params.json()),
            self.json().field("outputs"@) == Some(self.outputs@),
            self.json().field("invariants"@) == Some(JsonView::Array(self.invariants@.map_values(|c: InvariantCheck| c.json()))),
            self.json().field("engine_version"@) == Some(JsonView::Text(self.engine_version@)),
            self.json().field("engine_commit"@) == Some(JsonView::Text(self.engine_commit@)),
            self.json().field("scenario_provenance"@) == Some(match self.scenario_provenance {
                Some(p) => p.json(),
                None => JsonView::Null,
            }),
            self.json().field("parent_trace_ids"@) == Some(JsonView::of_texts(text::views(self.parent_trace_ids@))),
            self.json().field("baseline_model_params"@) == Some(match self.baseline_model_params {
                Some(p) => p.json(),
                None => JsonView::Null,
            }),
            self.json().field("policy_result"@) == Some(match self.policy_result {
                Some(p) => p@,
                None => JsonView::Null,
            }),
    {
        broadcast use crate::json::group_fields;

        reveal_strlit("id");
        reveal_strlit("experiment");
        reveal_strlit("inputs");
        reveal_strlit("data_as_of");
        reveal_strlit("data_window");
        reveal_strlit("data_quality");
        reveal_strlit("model_params");
        reveal_strlit("outputs");
        reveal_strlit("invariants");
        reveal_strlit("engine_version");
        reveal_strlit("engine_commit");
        reveal_strlit("scenario_provenance");
        reveal_strlit("parent_trace_ids");
        reveal_strlit("baseline_model_params");
        reveal_strlit("policy_result");
        assert("id"@.len() == 2);
        assert("experiment"@.len() == 10);
        assert("inputs"@.len() == 6);
        assert("data_as_of"@.len() == 10);
        assert("data_window"@.len() == 11);
        assert("data_quality"@.len() == 12);
        assert("model_params"@.len() == 12);
        assert("outputs"@.len() == 7);
        assert("invariants"@.len() == 10);
        assert("engine_version"@.len() == 14);
        assert("engine_commit"@.len() == 13);
        assert("scenario_provenance"@.len() == 19);
        assert("parent_trace_ids"@.len() == 16);
        assert("baseline_model_params"@.len() == 21);
        assert("policy_result"@.len() == 13);
        assert("experiment"@[0] == 'e');
        assert("data_as_of"@[0] == 'd');
        assert("invariants"@[0] == 'i');
        assert("data_quality"@[0] == 'd');
        assert("model_params"@[0] == 'm');
        assert("engine_commit"@[0] == 'e');
        assert("policy_result"@[0] == 'p');
    }

    /// The trace as a JSON object.
    pub fn to_json(&self) -> (res: Json)
        requires
            self.valid(),
        ensures
            res@ == self.json(),
    {
        broadcast use crate::json::lemma_array_view;

        let mut checks: Vec<Json> = Vec::new();
        let mut i: usize = 0;
        while i < self.invariants.len()
            invariant
                i <= self.invariants@.len(),
                checks@.len() == i,
                forall|k: int|
                    0 <= k < i ==> (#[trigger] checks@[k])@ == self.invariants@[k].json(),
            decreases self.invariants.len() - i,
        {
            checks.push(self.invariants[i].to_json());
            i += 1;
        }
        assert(crate::json::items_view(checks@) =~= self.invariants@.map_values(
            |c: InvariantCheck| c.json(),
        ));
        let provenance = match &self.scenario_provenance {
            Some(p) => p.to_json(),
            None => Json::Null,
        };
        let baseline = match &self.baseline_model_params {
            Some(p) => p.to_json(),
            None => Json::Null,
        };
        let policy = match &self.policy_result {
            Some(p) => p.duplicate(),
            None => Json::Null,
        };
        Json::object().with("id", Json::of_text(self.id.as_str())).with(
            "experiment",
            Json::of_text(self.experiment.as_str()),
        ).with("inputs", self.inputs.duplicate()).with(
            "data_as_of",
            Json::of_text(self.data_as_of.as_str()),
        ).with("data_window", self.data_window.to_json()).with(
            "data_quality",
            self.data_quality.to_json(),
        ).with("model_params", self.model_params.to_json()).with(
            "outputs",
            self.outputs.duplicate(),
        ).with("invariants", Json::Array(checks)).with(
            "engine_version",
            Json::of_text(self.engine_version.as_str()),
        ).with("engine_commit", Json::of_text(self.engine_commit.as_str())).with(
            "scenario_provenance",
            provenance,
        ).with("parent_trace_ids", Json::of_texts(&self.parent_trace_ids)).with(
            "baseline_model_params",
            baseline,
        ).with("policy_result", policy)
    }
}

/// Puts a trace together, with a fresh identifier and the version of the
/// engine. It has no provenance, no parents, no baseline and no policy check
/// of its own.
pub fn evidence_trace(
    experiment: &str,
    inputs: Json,
    data_window: DataWindow,
    data_quality: DataQuality,
    model_params: ModelParams,
    outputs: Json,
    invariants: Vec<InvariantCheck>,
    commit: Option<&str>,
) -> (res: EvidenceTrace)
    requires
        data_window.valid(),
        data_quality.valid(),
    ensures
        is_random_uuid(res.id@),
        res.experiment@ == experiment@,
        res.inputs == inputs,
        res.data_as_of@ == dates::date_text(data_window.end as int) + "T00:00:00Z"@,
        res.data_window == data_window,
        res.data_quality == data_quality,
        res.model_params == model_params,
        res.outputs == outputs,
        res.invariants == invariants,
        res.engine_version@ == ENGINE_VERSION@,
        res.engine_commit@ == shown_commit(
            match commit {
                Some(s) => Some(s@),
                None => None,
            },
        ),
        res.scenario_provenance is None,
        res.parent_trace_ids@.len() == 0,
        res.baseline_model_params is None,
        res.policy_result is None,
        res.valid(),
{
    EvidenceTrace {
        id: new_trace_id(),
        experiment: text::copy(experiment),
        inputs,
        data_as_of: data_as_of(&data_window),
        data_window,
        data_quality,
        model_params,
        outputs,
        invariants,
        engine_version: engine_version(),
        engine_commit: engine_commit(commit),
        scenario_provenance: None,
        parent_trace_ids: Vec::new(),
        baseline_model_params: None,
        policy_result: None,
    }
}

} // verus!
