//! The mildest shock that causes a given loss: what surrounds the search for
//! it. Which bounds hold, whether the loss can be reached at all, when the
//! search stops, and what is reported.

use vstd::prelude::*;

use crate::data;
use crate::double::Double;
use crate::error::{ComputeError, ComputeErrorView};
use crate::experiments::{self, Portfolio};
use crate::json::{Json, JsonView};
use crate::message::{self, Message, PieceView, Style};
use crate::model::{self, Frequency};
use crate::select;
use crate::table::{self, Rows, Table};
use crate::text;
use crate::trace::InvariantCheck;

verus! {

/// Most rounds of the descent.
pub const MAX_GRADIENT_ITERS: u32 = 200;

/// Most step sizes tried in one round.
pub const MAX_STEP_TRIES: u32 = 30;

/// The bit pattern of `1e-6`: a gradient shorter than this is none.
pub const GRADIENT_NORM_TOLERANCE_BITS: u64 = 0x3eb0_c6f7_a0b5_ed8d;

/// The bit pattern of `1e-8`: an improvement smaller than this is none.
pub const OBJECTIVE_CHANGE_TOLERANCE_BITS: u64 = 0x3e45_798e_e230_8c3a;

/// The bit pattern of `2.0`.
pub const TWO_BITS: u64 = 0x4000_0000_0000_0000;

/// The bit pattern of `3.0`.
pub const THREE_BITS: u64 = 0x4008_0000_0000_0000;

/// A range of shocks in simple percent.
#[derive(Clone, Copy, Debug)]
pub struct Bounds {
    pub lower: Double,
    pub upper: Double,
}

/// A question for the mildest shock with a given loss.
#[derive(Debug)]
pub struct ReverseStressInput {
    pub loss_threshold_inr: Double,
    /// Factors that are left out have the default bounds.
    pub factor_bounds: Option<Table<Bounds>>,
    pub window: Option<usize>,
    pub frequency: Option<String>,
}

/// The frequency asked for.
pub fn resolved_frequency(input: &ReverseStressInput) -> (res: Result<Frequency, ComputeError>)
    ensures
        match input.frequency {
            None => res == Ok::<Frequency, ComputeError>(Frequency::Daily),
            Some(n) => match model::frequency_named(n@) {
                Some(f) => res == Ok::<Frequency, ComputeError>(f),
                None => res is Err && res->Err_0@ == ComputeErrorView::InvalidInput(
                    model::unknown_frequency(n@),
                ),
            },
        },
{
    match &input.frequency {
        Some(name) => Frequency::from_optional_str(Some(name.as_str())),
        None => Frequency::from_optional_str(None),
    }
}

/// The default bounds of a factor, lower first, in whole percent.
pub open spec fn default_bounds(place: int) -> (int, int) {
    if place == 0 {
        (-40, 0)
    } else if place == 1 {
        (-5, 20)
    } else if place == 2 {
        (-60, 100)
    } else if place == 3 {
        (-20, 40)
    } else {
        (-10, 10)
    }
}

/// The default bounds of a factor.
pub open spec fn default_bounds_view(place: int) -> Bounds {
    Bounds {
        lower: crate::double::double_of_integer(default_bounds(place).0),
        upper: crate::double::double_of_integer(default_bounds(place).1),
    }
}

fn default_bounds_at(place: usize) -> (res: Bounds)
    ensures
        res == default_bounds_view(place as int),
{
    let (lower, upper): (i64, i64) = if place == 0 {
        (-40, 0)
    } else if place == 1 {
        (-5, 20)
    } else if place == 2 {
        (-60, 100)
    } else if place == 3 {
        (-20, 40)
    } else {
        (-10, 10)
    };
    Bounds { lower: Double::of_integer(lower), upper: Double::of_integer(upper) }
}

/// The default bounds of all factors, in the order of the factors.
pub open spec fn all_default_bounds() -> Seq<Bounds> {
    Seq::new(data::FACTOR_COUNT as nat, |k: int| default_bounds_view(k))
}

/// What a factor may do where nothing is said of it: the market falls by up to
/// forty percent and never rises, the dollar moves from minus five to twenty,
/// oil from minus sixty to a hundred, gold from minus twenty to forty, rates
/// by ten either way.
pub proof fn lemma_default_bounds()
    ensures
        default_bounds_view(0).lower == crate::double::double_of_integer(-40),
        default_bounds_view(0).upper == crate::double::double_of_integer(0),
        default_bounds_view(1).lower == crate::double::double_of_integer(-5),
        default_bounds_view(1).upper == crate::double::double_of_integer(20),
        default_bounds_view(2).lower == crate::double::double_of_integer(-60),
        default_bounds_view(2).upper == crate::double::double_of_integer(100),
        default_bounds_view(3).lower == crate::double::double_of_integer(-20),
        default_bounds_view(3).upper == crate::double::double_of_integer(40),
        default_bounds_view(4).lower == crate::double::double_of_integer(-10),
        default_bounds_view(4).upper == crate::double::double_of_integer(10),
        all_default_bounds().len() == 5,
        forall|k: int| 0 <= k < 5 ==> (#[trigger] all_default_bounds()[k]) == default_bounds_view(k),
{
}

/// Plausible ranges of shocks, under the factor names.
pub fn default_factor_bounds() -> (res: Table<Bounds>)
    ensures
        res@ == table::rows_of(
            data::factor_names_view(),
            all_default_bounds(),
            data::FACTOR_COUNT as int,
        ),
{
    let names = data::factor_names();
    let mut bounds: Vec<Bounds> = Vec::new();
    let mut k: usize = 0;
    while k < data::FACTOR_COUNT
        invariant
            k <= data::FACTOR_COUNT,
            bounds@ == all_default_bounds().take(k as int),
        decreases data::FACTOR_COUNT - k,
    {
        bounds.push(default_bounds_at(k));
        k += 1;
        assert(bounds@ =~= all_default_bounds().take(k as int));
    }
    assert(all_default_bounds().take(data::FACTOR_COUNT as int) =~= all_default_bounds());
    Table::of(&names, &bounds)
}

/// How unusual a shock is, in words.
pub open spec fn severity_words(severity: Double) -> Seq<char> {
    if severity.below(Double { bits: crate::double::ONE_BITS }) {
        "within 1\u{3c3}"@
    } else if severity.below(Double { bits: TWO_BITS }) {
        "1\u{2013}2\u{3c3}"@
    } else if severity.below(Double { bits: THREE_BITS }) {
        "2\u{2013}3\u{3c3}"@
    } else {
        ">3\u{3c3}"@
    }
}

/// A severity is told by the whole numbers it lies between: below one, from one
/// to below two, from two to below three, and from three on or not a number.
pub proof fn lemma_severity_words(severity: Double)
    ensures
        severity.below(Double { bits: 0x3ff0_0000_0000_0000 }) ==> severity_words(severity)
            == "within 1\u{3c3}"@,
        (Double { bits: 0x3ff0_0000_0000_0000 }).at_most(severity) && severity.below(
            Double { bits: 0x4000_0000_0000_0000 },
        ) ==> severity_words(severity) == "1\u{2013}2\u{3c3}"@,
        (Double { bits: 0x4000_0000_0000_0000 }).at_most(severity) && severity.below(
            Double { bits: 0x4008_0000_0000_0000 },
        ) ==> severity_words(severity) == "2\u{2013}3\u{3c3}"@,
        (Double { bits: 0x4008_0000_0000_0000 }).at_most(severity) ==> severity_words(severity)
            == ">3\u{3c3}"@,
        severity.nan() ==> severity_words(severity) == ">3\u{3c3}"@,
{
}

/// Puts a severity into words.
pub fn severity_label(severity: Double) -> (res: String)
    ensures
        res@ == severity_words(severity),
{
    if severity.lt(Double { bits: crate::double::ONE_BITS }) {
        text::copy("within 1\u{3c3}")
    } else if severity.lt(Double { bits: TWO_BITS }) {
        text::copy("1\u{2013}2\u{3c3}")
    } else if severity.lt(Double { bits: THREE_BITS }) {
        text::copy("2\u{2013}3\u{3c3}")
    } else {
        text::copy(">3\u{3c3}")
    }
}

// ---------------------------------------------------------------------------
// Bounds and feasibility
// ---------------------------------------------------------------------------

/// The bounds of the factor at `place`: those given, or the default ones.
pub open spec fn bounds_at(given: Rows<Bounds>, place: int) -> Bounds {
    match table::value_of(given, data::factor_names_view()[place]) {
        Some(bounds) => bounds,
        None => default_bounds_view(place),
    }
}

/// The message for bounds the wrong way round.
pub open spec fn crossed_bounds(name: Seq<char>, bounds: Bounds) -> Seq<PieceView> {
    seq![
        PieceView::Text("factor_bounds for "@),
        PieceView::Text(name),
        PieceView::Text(": lower bound "@),
        PieceView::Number(bounds.lower, Style::Plain),
        PieceView::Text(" exceeds upper bound "@),
        PieceView::Number(bounds.upper, Style::Plain),
    ]
}

/// The first factor below `n` whose bounds are the wrong way round.
pub open spec fn first_crossed(given: Rows<Bounds>, n: int) -> Option<int>
    decreases n,
{
    if n <= 0 {
        None
    } else {
        match first_crossed(given, n - 1) {
            Some(k) => Some(k),
            None => if bounds_at(given, n - 1).upper.below(bounds_at(given, n - 1).lower) {
                Some(n - 1)
            } else {
                None
            },
        }
    }
}

proof fn lemma_crossed_stays(given: Rows<Bounds>, n: int, m: int)
    requires
        first_crossed(given, n) is Some,
        n <= m,
    ensures
        first_crossed(given, m) == first_crossed(given, n),
    decreases m - n,
{
    if n < m {
        lemma_crossed_stays(given, n, m - 1);
    }
}

/// The bounds that were given.
pub open spec fn given_bounds(input: ReverseStressInput) -> Rows<Bounds> {
    match input.factor_bounds {
        Some(given) => given@,
        None => seq![],
    }
}

/// The message for a threshold that is not above zero.
pub open spec fn bad_threshold(threshold: Double) -> Seq<PieceView> {
    seq![
        PieceView::Text("loss_threshold_inr must be > 0, got "@),
        PieceView::Number(threshold, Style::Plain),
    ]
}

/// What is wrong with a question for the mildest shock.
pub open spec fn stress_fault(
    input: ReverseStressInput,
    portfolio: Portfolio,
    model_tickers: Seq<String>,
) -> Option<Seq<PieceView>> {
    if portfolio.tickers_view() != text::views(model_tickers) {
        Some(message::plain(experiments::TICKER_MISMATCH@))
    } else if input.loss_threshold_inr.at_most(Double { bits: 0 }) {
        Some(bad_threshold(input.loss_threshold_inr))
    } else {
        match first_crossed(given_bounds(input), data::FACTOR_COUNT as int) {
            Some(k) => Some(
                crossed_bounds(
                    data::factor_names_view()[k],
                    bounds_at(given_bounds(input), k),
                ),
            ),
            None => None,
        }
    }
}

proof fn lemma_first_crossed(given: Rows<Bounds>, n: int)
    ensures
        match first_crossed(given, n) {
            Some(k) => 0 <= k < n && bounds_at(given, k).upper.below(bounds_at(given, k).lower)
                && forall|j: int|
                0 <= j < k ==> !(#[trigger] bounds_at(given, j)).upper.below(
                    bounds_at(given, j).lower,
                ),
            None => forall|j: int|
                0 <= j < n ==> !(#[trigger] bounds_at(given, j)).upper.below(
                    bounds_at(given, j).lower,
                ),
        },
    decreases n,
{
    if n > 0 {
        lemma_first_crossed(given, n - 1);
    }
}

/// A question is refused exactly where the stocks are not those of the model,
/// the loss is not above zero, or some factor's bounds are the wrong way
/// round. Bounds count as given, and by default where a factor has none.
pub proof fn lemma_refused_questions(
    input: ReverseStressInput,
    portfolio: Portfolio,
    model_tickers: Seq<String>,
)
    ensures
        stress_fault(input, portfolio, model_tickers) is None <==> {
            &&& portfolio.tickers_view() == text::views(model_tickers)
            &&& input.loss_threshold_inr.nan() || input.loss_threshold_inr.rank() > 0
            &&& forall|k: int|
                0 <= k < 5 ==> !(#[trigger] bounds_at(given_bounds(input), k)).upper.below(
                    bounds_at(given_bounds(input), k).lower,
                )
        },
        forall|k: int|
            #![trigger bounds_at(given_bounds(input), k)]
            0 <= k < 5 ==> match table::value_of(
                given_bounds(input),
                data::factor_names_view()[k],
            ) {
                Some(bounds) => bounds_at(given_bounds(input), k) == bounds,
                None => bounds_at(given_bounds(input), k) == default_bounds_view(k),
            },
        input.factor_bounds is Some ==> given_bounds(input) == input.factor_bounds->Some_0@,
{
    lemma_first_crossed(given_bounds(input), data::FACTOR_COUNT as int);
}

/// What is told of a question that is refused, and of a loss out of reach: the
/// factor with its lower and then its upper bound; the threshold; the threshold
/// and then the largest loss that can be reached.
pub proof fn lemma_what_is_told(
    name: Seq<char>,
    bounds: Bounds,
    threshold: Double,
    corner_pnl: Double,
)
    ensures
        crossed_bounds(name, bounds)[1] == PieceView::Text(name),
        crossed_bounds(name, bounds)[3] == PieceView::Number(bounds.lower, Style::Plain),
        crossed_bounds(name, bounds)[5] == PieceView::Number(bounds.upper, Style::Plain),
        bad_threshold(threshold)[1] == PieceView::Number(threshold, Style::Plain),
        infeasible_sentence(threshold, corner_pnl)[1] == PieceView::Number(
            threshold,
            Style::Rupees,
        ),
        infeasible_sentence(threshold, corner_pnl)[3] is Number,
        infeasible_sentence(threshold, corner_pnl)[3]->Number_0.rank() == -corner_pnl.rank(),
{
}

/// The search ends after two hundred rounds at the latest, follows a gradient
/// from a millionth on, and tells by name how it ended.
pub proof fn lemma_search_limits(course: Descent, norm: Double)
    ensures
        course.sound() ==> course.rounds <= 200,
        course.sound() && course.status == DescentStatus::MaxIter ==> course.rounds == 200,
        course.sound() && course.status == DescentStatus::Optimal ==> course.rounds == 0,
        course.sound() && course.status == DescentStatus::Running ==> course.rounds < 200,
        worth_following(norm) <==> (Double { bits: 0x3eb0_c6f7_a0b5_ed8d }).at_most(norm),
        status_text(DescentStatus::Optimal) == "optimal"@,
        status_text(DescentStatus::Converged) == "converged"@,
        status_text(DescentStatus::MaxIter) == "max_iter"@,
{
}

/// The bounds of all factors, in the order of the factors. Fails as
/// [`stress_fault`] says.
pub fn plan_reverse_stress(
    input: &ReverseStressInput,
    portfolio: &Portfolio,
    model_tickers: &Vec<String>,
) -> (res: Result<Vec<Bounds>, ComputeError>)
    ensures
        match stress_fault(*input, *portfolio, model_tickers@) {
            Some(fault) => res is Err && res->Err_0@ == ComputeErrorView::InvalidInput(fault),
            None => {
                &&& res is Ok
                &&& res->Ok_0@.len() == data::FACTOR_COUNT
                &&& forall|k: int|
                    0 <= k < data::FACTOR_COUNT ==> (#[trigger] res->Ok_0@[k]) == bounds_at(
                        given_bounds(*input),
                        k,
                    )
            },
        },
{
    match experiments::check_tickers(portfolio, model_tickers) {
        Ok(_) => {},
        Err(e) => {
            return Err(e);
        },
    }
    if input.loss_threshold_inr.le(Double::zero()) {
        let mut m = Message::of("loss_threshold_inr must be > 0, got ");
        m.number(input.loss_threshold_inr, Style::Plain);
        assert(m@ =~= bad_threshold(input.loss_threshold_inr));
        return Err(ComputeError::InvalidInput(m));
    }
    let ghost given = given_bounds(*input);
    let names = data::factor_names();
    let mut out: Vec<Bounds> = Vec::new();
    let mut k: usize = 0;
    while k < names.len()
        invariant
            k <= names@.len(),
            names@.len() == data::FACTOR_COUNT,
            text::views(names@) == data::factor_names_view(),
            given == given_bounds(*input),
            portfolio.tickers_view() == text::views(model_tickers@),
            !input.loss_threshold_inr.at_most(Double { bits: 0 }),
            first_crossed(given, k as int) is None,
            out@.len() == k,
            forall|j: int| 0 <= j < k ==> (#[trigger] out@[j]) == bounds_at(given, j),
        decreases names.len() - k,
    {
        assert(text::views(names@)[k as int] == names@[k as int]@);
        let found = match &input.factor_bounds {
            Some(table) => table.get(names[k].as_str()),
            None => None,
        };
        assert(found == table::value_of(given, data::factor_names_view()[k as int]));
        let bounds = match found {
            Some(b) => b,
            None => default_bounds_at(k),
        };
        if bounds.upper.lt(bounds.lower) {
            let mut m = Message::of("factor_bounds for ");
            m.text(names[k].as_str());
            m.text(": lower bound ");
            m.number(bounds.lower, Style::Plain);
            m.text(" exceeds upper bound ");
            m.number(bounds.upper, Style::Plain);
            proof {
                lemma_crossed_stays(given, k as int + 1, data::FACTOR_COUNT as int);
                assert(m@ =~= crossed_bounds(names@[k as int]@, bounds));
            }
            return Err(ComputeError::InvalidInput(m));
        }
        out.push(bounds);
        k += 1;
    }
    Ok(out)
}

/// The corner of the box with the largest loss: the lower bound where the
/// portfolio gains with the factor or is indifferent, the upper one otherwise.
pub open spec fn corner_at(sensitivity: Double, lower: Double, upper: Double) -> Double {
    if (Double { bits: 0 }).at_most(sensitivity) {
        lower
    } else {
        upper
    }
}

/// The corner of the box with the largest loss.
pub fn worst_corner(sensitivities: &Vec<Double>, lower: &Vec<Double>, upper: &Vec<Double>) -> (res: Vec<
    Double,
>)
    requires
        sensitivities@.len() == lower@.len(),
        sensitivities@.len() == upper@.len(),
    ensures
        res@.len() == sensitivities@.len(),
        forall|i: int|
            0 <= i < res@.len() ==> (#[trigger] res@[i]) == corner_at(
                sensitivities@[i],
                lower@[i],
                upper@[i],
            ),
        forall|i: int|
            0 <= i < res@.len() && (Double { bits: 0 }).below(#[trigger] sensitivities@[i])
                ==> res@[i] == lower@[i],
        forall|i: int|
            0 <= i < res@.len() && (#[trigger] sensitivities@[i]).below(Double { bits: 0 })
                ==> res@[i] == upper@[i],
{
    let zero = Double::zero();
    let mut out: Vec<Double> = Vec::new();
    let mut i: usize = 0;
    while i < sensitivities.len()
        invariant
            i <= sensitivities@.len(),
            sensitivities@.len() == lower@.len(),
            sensitivities@.len() == upper@.len(),
            zero == (Double { bits: 0 }),
            out@.len() == i,
            forall|k: int|
                0 <= k < i ==> (#[trigger] out@[k]) == corner_at(
                    sensitivities@[k],
                    lower@[k],
                    upper@[k],
                ),
        decreases sensitivities.len() - i,
    {
        if zero.le(sensitivities[i]) {
            out.push(lower[i]);
        } else {
            out.push(upper[i]);
        }
        i += 1;
    }
    out
}

/// The result of a shock to first order, exactly: the sum of the products of
/// sensitivities and moves, in units of the smallest doubles.
pub open spec fn linear_result(sensitivities: Seq<Double>, point: Seq<Double>, n: int) -> int
    decreases n,
{
    if n <= 0 {
        0
    } else {
        linear_result(sensitivities, point, n - 1) + sensitivities[n - 1].units()
            * point[n - 1].units()
    }
}

/// No point of the box has a lower result than the worst corner, which is a
/// point of the box itself.
pub proof fn lemma_worst_corner_is_worst(
    sensitivities: Seq<Double>,
    lower: Seq<Double>,
    upper: Seq<Double>,
    corner: Seq<Double>,
    point: Seq<Double>,
    n: int,
)
    requires
        0 <= n <= sensitivities.len(),
        lower.len() == sensitivities.len(),
        upper.len() == sensitivities.len(),
        corner.len() == sensitivities.len(),
        point.len() == sensitivities.len(),
        forall|i: int|
            0 <= i < sensitivities.len() ==> (#[trigger] sensitivities[i]).finite()
                && lower[i].finite() && upper[i].finite() && point[i].finite(),
        forall|i: int|
            0 <= i < sensitivities.len() ==> (#[trigger] lower[i]).at_most(point[i])
                && point[i].at_most(upper[i]),
        forall|i: int|
            0 <= i < sensitivities.len() ==> (#[trigger] corner[i]) == corner_at(
                sensitivities[i],
                lower[i],
                upper[i],
            ),
    ensures
        linear_result(sensitivities, corner, n) <= linear_result(sensitivities, point, n),
        forall|i: int|
            0 <= i < n ==> lower[i].units() <= (#[trigger] corner[i]).units()
                <= upper[i].units(),
    decreases n,
{
    if n > 0 {
        lemma_worst_corner_is_worst(sensitivities, lower, upper, corner, point, n - 1);
        let k = n - 1;
        let (s, lo, hi) = (sensitivities[k], lower[k], upper[k]);
        let (c, p) = (corner[k], point[k]);
        assert(lower[k].at_most(point[k]) && corner[k] == corner_at(s, lo, hi));
        crate::double::lemma_order_is_numeric(Double { bits: 0 }, s);
        crate::double::lemma_order_is_numeric(lo, p);
        crate::double::lemma_order_is_numeric(p, hi);
        crate::double::lemma_zero_is_nought();
        let (su, cu, pu) = (s.units(), c.units(), p.units());
        if 0 <= su {
            assert(su * cu <= su * pu) by (nonlinear_arith)
                requires
                    0 <= su,
                    cu <= pu,
            ;
        } else {
            assert(su * cu <= su * pu) by (nonlinear_arith)
                requires
                    su < 0,
                    pu <= cu,
            ;
        }
    }
}

/// What is said where the loss cannot be reached.
pub open spec fn infeasible_sentence(threshold: Double, corner_pnl: Double) -> Seq<PieceView> {
    seq![
        PieceView::Text("The loss threshold "@),
        PieceView::Number(threshold, Style::Rupees),
        PieceView::Text(
            " cannot be breached within the specified factor bounds. Maximum feasible loss is "@,
        ),
        PieceView::Number(corner_pnl.negated(), Style::Rupees),
        PieceView::Text("."@),
    ]
}

/// Accepts a loss that the worst corner reaches; `corner_pnl` is the result
/// there, to first order.
pub fn check_reachable(threshold: Double, corner_pnl: Double) -> (res: Result<(), ComputeError>)
    ensures
        res is Err <==> threshold.negated().below(corner_pnl),
        res is Err ==> res->Err_0@ == ComputeErrorView::ReverseStressInfeasible(
            infeasible_sentence(threshold, corner_pnl),
        ),
{
    if threshold.neg().lt(corner_pnl) {
        let mut m = Message::of("The loss threshold ");
        m.number(threshold, Style::Rupees);
        m.text(" cannot be breached within the specified factor bounds. Maximum feasible loss is ");
        m.number(corner_pnl.neg(), Style::Rupees);
        m.text(".");
        assert(m@ =~= infeasible_sentence(threshold, corner_pnl));
        return Err(ComputeError::ReverseStressInfeasible(m));
    }
    Ok(())
}

/// Whether each lower bound is at most its upper bound.
pub open spec fn box_sound(lower: Seq<Double>, upper: Seq<Double>) -> bool {
    lower.len() == upper.len() && forall|i: int|
        0 <= i < lower.len() ==> (#[trigger] lower[i]).at_most(upper[i])
}

/// The point of the box that is nearest in every direction.
pub fn clip(point: &Vec<Double>, lower: &Vec<Double>, upper: &Vec<Double>) -> (res: Vec<Double>)
    requires
        box_sound(lower@, upper@),
        point@.len() == lower@.len(),
    ensures
        res@.len() == point@.len(),
        forall|i: int|
            0 <= i < res@.len() ==> (#[trigger] res@[i]) == point@[i].clamped(lower@[i], upper@[i]),
        forall|i: int|
            0 <= i < res@.len() && !point@[i].nan() ==> lower@[i].at_most(#[trigger] res@[i])
                && res@[i].at_most(upper@[i]),
{
    let mut out: Vec<Double> = Vec::new();
    let mut i: usize = 0;
    while i < point.len()
        invariant
            i <= point@.len(),
            point@.len() == lower@.len(),
            box_sound(lower@, upper@),
            out@.len() == i,
            forall|k: int|
                0 <= k < i ==> (#[trigger] out@[k]) == point@[k].clamped(lower@[k], upper@[k]),
            forall|k: int|
                0 <= k < i && !point@[k].nan() ==> lower@[k].at_most(#[trigger] out@[k])
                    && out@[k].at_most(upper@[k]),
        decreases point.len() - i,
    {
        assert(lower@[i as int].at_most(upper@[i as int]));
        out.push(point[i].clamp(lower[i], upper[i]));
        i += 1;
    }
    out
}

// ---------------------------------------------------------------------------
// The search
// ---------------------------------------------------------------------------

/// Where a descent stands.
#[derive(Clone, Copy, Debug, PartialEq, Eq, Structural)]
pub enum DescentStatus {
    /// The starting point was already best.
    Optimal,
    /// No better point could be found.
    Converged,
    /// All rounds are used up.
    MaxIter,
    /// Another round is due.
    Running,
}

/// The course of a projected gradient descent.
#[derive(Clone, Copy, Debug)]
pub struct Descent {
    pub rounds: u32,
    pub gradient_norm: Double,
    pub status: DescentStatus,
}

/// Whether a gradient is long enough to follow.
pub open spec fn worth_following(norm: Double) -> bool {
    (Double { bits: GRADIENT_NORM_TOLERANCE_BITS }).at_most(norm)
}

impl Descent {
    /// Whether the rounds are within bounds and a running descent has one
    /// left.
    pub open spec fn sound(self) -> bool {
        &&& self.rounds <= MAX_GRADIENT_ITERS
        &&& self.status == DescentStatus::Running ==> self.rounds < MAX_GRADIENT_ITERS
        &&& self.status == DescentStatus::MaxIter ==> self.rounds == MAX_GRADIENT_ITERS
        &&& self.status == DescentStatus::Optimal ==> self.rounds == 0
    }

    /// The course at its start, where the gradient has the given length.
    pub fn start(gradient_norm: Double) -> (res: Descent)
        ensures
            res.sound(),
            res.rounds == 0,
            res.gradient_norm == gradient_norm,
            res.status == (if worth_following(gradient_norm) {
                DescentStatus::Running
            } else {
                DescentStatus::Optimal
            }),
    {
        let running = (Double { bits: GRADIENT_NORM_TOLERANCE_BITS }).le(gradient_norm);
        Descent {
            rounds: 0,
            gradient_norm,
            status: if running {
                DescentStatus::Running
            } else {
                DescentStatus::Optimal
            },
        }
    }

    /// Whether another round is due.
    pub fn running(&self) -> (res: bool)
        ensures
            res == (self.status == DescentStatus::Running),
    {
        match self.status {
            DescentStatus::Running => true,
            _ => false,
        }
    }

    /// A round found a gradient of the given length; too short a gradient
    /// ends the descent. Tells whether a step is to be looked for.
    pub fn round(&mut self, gradient_norm: Double) -> (search: bool)
        requires
            old(self).sound(),
            old(self).status == DescentStatus::Running,
        ensures
            final(self).rounds == old(self).rounds + 1,
            final(self).gradient_norm == gradient_norm,
            search == !gradient_norm.below(Double { bits: GRADIENT_NORM_TOLERANCE_BITS }),
            final(self).status == (if search {
                DescentStatus::Running
            } else {
                DescentStatus::Converged
            }),
            final(self).rounds <= MAX_GRADIENT_ITERS,
            !search ==> final(self).sound(),
    {
        self.rounds = self.rounds + 1;
        self.gradient_norm = gradient_norm;
        if gradient_norm.lt(Double { bits: GRADIENT_NORM_TOLERANCE_BITS }) {
            self.status = DescentStatus::Converged;
            false
        } else {
            true
        }
    }

    /// No step of the round was good enough: the descent ends.
    pub fn no_step(&mut self)
        requires
            old(self).rounds <= MAX_GRADIENT_ITERS,
            old(self).rounds > 0,
        ensures
            final(self).rounds == old(self).rounds,
            final(self).gradient_norm == old(self).gradient_norm,
            final(self).status == DescentStatus::Converged,
            final(self).sound(),
    {
        self.status = DescentStatus::Converged;
    }

    /// A step of the round changed the objective by `change` in magnitude: too
    /// small a change ends the descent, and so does the last round.
    pub fn step_taken(&mut self, change: Double)
        requires
            0 < old(self).rounds <= MAX_GRADIENT_ITERS,
        ensures
            final(self).rounds == old(self).rounds,
            final(self).gradient_norm == old(self).gradient_norm,
            final(self).status == (if change.below(
                Double { bits: OBJECTIVE_CHANGE_TOLERANCE_BITS },
            ) {
                DescentStatus::Converged
            } else if old(self).rounds == MAX_GRADIENT_ITERS {
                DescentStatus::MaxIter
            } else {
                DescentStatus::Running
            }),
            final(self).sound(),
    {
        if change.lt(Double { bits: OBJECTIVE_CHANGE_TOLERANCE_BITS }) {
            self.status = DescentStatus::Converged;
        } else if self.rounds == MAX_GRADIENT_ITERS {
            self.status = DescentStatus::MaxIter;
        } else {
            self.status = DescentStatus::Running;
        }
    }

    /// The name of the status.
    pub fn status_name(&self) -> (res: &'static str)
        ensures
            res@ == status_text(self.status),
    {
        match self.status {
            DescentStatus::Optimal => "optimal",
            DescentStatus::Converged => "converged",
            DescentStatus::MaxIter => "max_iter",
            DescentStatus::Running => "running",
        }
    }
}

/// The name of a status.
pub open spec fn status_text(status: DescentStatus) -> Seq<char> {
    match status {
        DescentStatus::Optimal => "optimal"@,
        DescentStatus::Converged => "converged"@,
        DescentStatus::MaxIter => "max_iter"@,
        DescentStatus::Running => "running"@,
    }
}

/// Whether a step is good enough: the objective it reaches is at most the
/// bound for its size.
pub fn step_accepted(objective: Double, bound: Double) -> (res: bool)
    ensures
        res == objective.at_most(bound),
{
    objective.le(bound)
}

// ---------------------------------------------------------------------------
// The result
// ---------------------------------------------------------------------------

/// The mildest shock with a given loss.
#[derive(Debug)]
pub struct ReverseStressOutputs {
    pub shock_vector: Table<Double>,
    pub shock_vector_log: Table<Double>,
    pub mahalanobis_severity: Double,
    pub severity_label: String,
    pub portfolio_pnl_inr: Double,
    pub loss_threshold_inr: Double,
    pub holding_pnl: Table<Double>,
    pub factor_attribution: Table<Double>,
    /// The three holdings that lose most, the worst first.
    pub most_vulnerable_holdings: Vec<String>,
    pub solver_status: String,
    pub n_iterations: u32,
    pub gradient_norm_final: Double,
    pub linearisation_error_inr: Double,
    pub factor_bounds_used: Table<Bounds>,
}

/// The figures of a shock that was found.
#[derive(Debug)]
pub struct StressFigures {
    /// In simple percent, one per factor.
    pub shock_pct: Vec<Double>,
    /// As log returns, one per factor.
    pub shock_log: Vec<Double>,
    pub severity: Double,
    pub pnl_inr: Double,
    /// One per holding.
    pub holding_pnl: Vec<Double>,
    /// One per factor.
    pub attribution: Vec<Double>,
    pub linearisation_error_inr: Double,
}

impl StressFigures {
    /// Whether there is a figure for every factor and every holding.
    pub open spec fn fits(self, portfolio: Portfolio) -> bool {
        &&& self.shock_pct@.len() == data::FACTOR_COUNT
        &&& self.shock_log@.len() == data::FACTOR_COUNT
        &&& self.attribution@.len() == data::FACTOR_COUNT
        &&& self.holding_pnl@.len() == portfolio.holdings@.len()
        &&& select::comparable(self.holding_pnl@)
    }
}

/// The values of a table, in order.
pub open spec fn row_values(rows: Rows<Double>) -> Seq<Double> {
    rows.map_values(|r: (Seq<char>, Double)| r.1)
}

fn table_values(table: &Table<Double>) -> (res: Vec<Double>)
    ensures
        res@ == row_values(table@),
{
    let mut out: Vec<Double> = Vec::new();
    let mut i: usize = 0;
    while i < table.entries.len()
        invariant
            i <= table.entries@.len(),
            out@ == row_values(table@).take(i as int),
        decreases table.entries.len() - i,
    {
        out.push(table.entries[i].value);
        i += 1;
        assert(out@ =~= row_values(table@).take(i as int));
    }
    assert(row_values(table@).take(table@.len() as int) =~= row_values(table@));
    out
}

/// The number of holdings named as most vulnerable.
pub open spec fn vulnerable_count(holdings: int) -> int {
    if holdings < 3 {
        holdings
    } else {
        3
    }
}

/// Whether `names` are the three names with the smallest values, the smallest
/// first, equal ones in the order of their names.
pub open spec fn are_most_vulnerable(rows: Rows<Double>, names: Seq<String>) -> bool {
    &&& names.len() == vulnerable_count(rows.len() as int)
    &&& exists|order: Seq<usize>| #[trigger]
        select::is_sorted_order(row_values(rows), false, order) && forall|i: int|
            0 <= i < names.len() ==> (#[trigger] names[i])@ == rows[order[i] as int].0
}

/// Of the holdings named as most vulnerable none loses less than one that comes
/// behind it or is not named: each has the smallest value of all that the ones
/// before it leave over. There are three, or all where there are fewer.
pub proof fn lemma_most_vulnerable_lose_most(rows: Rows<Double>, names: Seq<String>, i: int, q: int)
    requires
        are_most_vulnerable(rows, names),
        table::in_order(rows),
        0 <= i < names.len(),
        0 <= q < rows.len(),
        forall|t: int| 0 <= t < i ==> (#[trigger] names[t])@ != rows[q].0,
    ensures
        names.len() <= 3,
        names.len() == 3 || names.len() == rows.len(),
        names.len() <= rows.len(),
        exists|p: int|
            0 <= p < rows.len() && (#[trigger] rows[p]).0 == names[i]@ && rows[p].1.rank()
                <= rows[q].1.rank(),
{
    let values = row_values(rows);
    let order = choose|order: Seq<usize>| #[trigger]
        select::is_sorted_order(values, false, order) && forall|i: int|
            0 <= i < names.len() ==> (#[trigger] names[i])@ == rows[order[i] as int].0;
    select::lemma_sorted_order(values, false, order);
    assert(select::is_listed(order, q));
    let at = choose|at: int| 0 <= at < order.len() && #[trigger] order[at] == q;
    assert(order[at] == q);
    if at < i {
        assert(names[at]@ == rows[q].0);
    }
    let p = order[i] as int;
    assert(rows[p].0 == names[i]@);
    assert(values[p] == rows[p].1 && values[q] == rows[q].1);
    if i < at {
        assert(values[order[i] as int].rank() <= values[order[at] as int].rank());
    }
}

/// The three names with the smallest values.
pub fn most_vulnerable(pnl: &Table<Double>) -> (res: Vec<String>)
    requires
        select::comparable(row_values(pnl@)),
    ensures
        are_most_vulnerable(pnl@, res@),
{
    let values = table_values(pnl);
    let order = select::sorted_order(&values, false);
    let count: usize = if order.len() < 3 {
        order.len()
    } else {
        3
    };
    let mut out: Vec<String> = Vec::new();
    let mut i: usize = 0;
    while i < count
        invariant
            i <= count <= order@.len(),
            select::is_sorted_order(row_values(pnl@), false, order@),
            out@.len() == i,
            forall|k: int| 0 <= k < i ==> (#[trigger] out@[k])@ == pnl@[order@[k] as int].0,
        decreases count - i,
    {
        let place: usize = order[i];
        out.push(text::copy(pnl.entries[place].name.as_str()));
        i += 1;
    }
    out
}

proof fn lemma_rows_comparable(names: Seq<Seq<char>>, values: Seq<Double>, n: int)
    requires
        0 <= n <= values.len(),
        select::comparable(values),
    ensures
        select::comparable(row_values(table::rows_of(names, values, n))),
    decreases n,
{
    if n > 0 {
        lemma_rows_comparable(names, values, n - 1);
        lemma_with_row_comparable(table::rows_of(names, values, n - 1), names[n - 1], values[n - 1]);
    }
}

proof fn lemma_with_row_comparable(rows: Rows<Double>, name: Seq<char>, value: Double)
    requires
        select::comparable(row_values(rows)),
        !value.nan(),
    ensures
        select::comparable(row_values(table::with_row(rows, name, value))),
    decreases rows.len(),
{
    let result = table::with_row(rows, name, value);
    if rows.len() > 0 {
        let rest = rows.drop_first();
        assert forall|i: int| 0 <= i < row_values(rest).len() implies !(
        #[trigger] row_values(rest)[i]).nan() by {
            assert(row_values(rest)[i] == row_values(rows)[i + 1]);
        }
        lemma_with_row_comparable(rest, name, value);
    }
    assert forall|i: int| 0 <= i < row_values(result).len() implies !(
    #[trigger] row_values(result)[i]).nan() by {
        if rows.len() > 0 {
            if rows[0].0 == name {
                if i > 0 {
                    assert(row_values(result)[i] == row_values(rows)[i]);
                }
            } else if text::precedes(name, rows[0].0) {
                if i > 0 {
                    assert(row_values(result)[i] == row_values(rows)[i - 1]);
                }
            } else if i > 0 {
                assert(row_values(result)[i] == row_values(
                    table::with_row(rows.drop_first(), name, value),
                )[i - 1]);
            } else {
                assert(row_values(result)[0] == row_values(rows)[0]);
            }
        }
    }
}

/// Puts the mildest shock together: the shock under the factor names, its
/// severity in words, the result of every holding, and the three that lose
/// most.
pub fn run_reverse_stress(
    input: &ReverseStressInput,
    portfolio: &Portfolio,
    bounds: &Vec<Bounds>,
    descent: &Descent,
    figures: &StressFigures,
) -> (res: ReverseStressOutputs)
    requires
        bounds@.len() == data::FACTOR_COUNT,
        figures.fits(*portfolio),
    ensures
        res.shock_vector@ == experiments::factor_rows(figures.shock_pct@),
        res.shock_vector_log@ == experiments::factor_rows(figures.shock_log@),
        res.mahalanobis_severity == figures.severity,
        res.severity_label@ == severity_words(figures.severity),
        res.portfolio_pnl_inr == figures.pnl_inr,
        res.loss_threshold_inr == input.loss_threshold_inr,
        res.holding_pnl@ == table::rows_of(
            portfolio.tickers_view(),
            figures.holding_pnl@,
            portfolio.holdings@.len() as int,
        ),
        res.factor_attribution@ == experiments::factor_rows(figures.attribution@),
        are_most_vulnerable(res.holding_pnl@, res.most_vulnerable_holdings@),
        res.solver_status@ == status_text(descent.status),
        res.n_iterations == descent.rounds,
        res.gradient_norm_final == descent.gradient_norm,
        res.linearisation_error_inr == figures.linearisation_error_inr,
        res.factor_bounds_used@ == table::rows_of(
            data::factor_names_view(),
            bounds@,
            data::FACTOR_COUNT as int,
        ),
{
    let names = data::factor_names();
    let tickers = portfolio.tickers();
    let holding_pnl = Table::of(&tickers, &figures.holding_pnl);
    proof {
        lemma_rows_comparable(
            portfolio.tickers_view(),
            figures.holding_pnl@,
            portfolio.holdings@.len() as int,
        );
    }
    let vulnerable = most_vulnerable(&holding_pnl);
    ReverseStressOutputs {
        shock_vector: experiments::factor_table(&figures.shock_pct),
        shock_vector_log: experiments::factor_table(&figures.shock_log),
        mahalanobis_severity: figures.severity,
        severity_label: severity_label(figures.severity),
        portfolio_pnl_inr: figures.pnl_inr,
        loss_threshold_inr: input.loss_threshold_inr,
        holding_pnl,
        factor_attribution: experiments::factor_table(&figures.attribution),
        most_vulnerable_holdings: vulnerable,
        solver_status: text::copy(descent.status_name()),
        n_iterations: descent.rounds,
        gradient_norm_final: descent.gradient_norm,
        linearisation_error_inr: figures.linearisation_error_inr,
        factor_bounds_used: Table::of(&names, bounds),
    }
}

// ---------------------------------------------------------------------------
// Checks
// ---------------------------------------------------------------------------

/// The name of the check that the loss is reached.
pub const BREACH_CHECK: &'static str = "portfolio_pnl_inr <= -loss_threshold_inr * 0.999";

/// The name of the check on the attribution.
pub const ATTRIBUTION_CHECK: &'static str = "sum(factor_attribution) ~= portfolio_pnl_inr (approximate: log-space attribution vs. exp-converted simple P&L, per FactorShock's own convention)";

/// The name of the check on the bounds.
pub const BOUNDS_CHECK: &'static str = "shock_vector within factor_bounds_used";

/// The name of the check on the severity.
pub const SEVERITY_CHECK: &'static str = "mahalanobis_severity > 0";

/// What a shock that was found is checked with.
#[derive(Debug)]
pub struct StressCheckFigures {
    /// The threshold with its sign changed and a thousandth taken off.
    pub required_pnl: Double,
    /// A thousandth of the threshold.
    pub breach_tolerance: Double,
    pub attribution_sum: Double,
    /// The magnitude of the difference between that sum and the result.
    pub attribution_gap: Double,
    /// A hundredth of the threshold.
    pub attribution_tolerance: Double,
    /// The bounds as log returns, widened by a millionth.
    pub lenient_lower: Vec<Double>,
    pub lenient_upper: Vec<Double>,
}

/// Whether each number lies within its bounds.
pub open spec fn within(values: Seq<Double>, lower: Seq<Double>, upper: Seq<Double>) -> bool {
    forall|i: int|
        0 <= i < values.len() ==> lower[i].at_most(#[trigger] values[i]) && values[i].at_most(
            upper[i],
        )
}

fn all_within(values: &Vec<Double>, lower: &Vec<Double>, upper: &Vec<Double>) -> (res: bool)
    requires
        values@.len() == lower@.len(),
        values@.len() == upper@.len(),
    ensures
        res == within(values@, lower@, upper@),
{
    let mut i: usize = 0;
    while i < values.len()
        invariant
            i <= values@.len(),
            values@.len() == lower@.len(),
            values@.len() == upper@.len(),
            forall|k: int|
                0 <= k < i ==> lower@[k].at_most(#[trigger] values@[k]) && values@[k].at_most(
                    upper@[k],
                ),
        decreases values.len() - i,
    {
        if !lower[i].le(values[i]) || !values[i].le(upper[i]) {
            assert(!(lower@[i as int].at_most(values@[i as int]) && values@[i as int].at_most(
                upper@[i as int],
            )));
            return false;
        }
        i += 1;
    }
    true
}

/// The first `n` rows of a table, written out.
pub open spec fn listed(rows: Rows<Double>, n: int) -> Seq<PieceView>
    decreases n,
{
    if n <= 0 {
        seq![]
    } else {
        listed(rows, n - 1) + seq![
            PieceView::Text(if n == 1 {
                "\""@
            } else {
                ", \""@
            }),
            PieceView::Text(rows[n - 1].0),
            PieceView::Text("\": "@),
            PieceView::Number(rows[n - 1].1, Style::Debug),
        ]
    }
}

/// A table, written out behind a label.
pub open spec fn table_sentence(label: Seq<char>, rows: Rows<Double>) -> Seq<PieceView> {
    seq![PieceView::Text(label)] + listed(rows, rows.len() as int) + seq![PieceView::Text("}"@)]
}

fn table_message(label: &str, table: &Table<Double>) -> (res: Message)
    ensures
        res@ == table_sentence(label@, table@),
{
    let mut m = Message::of(label);
    let mut i: usize = 0;
    assert(m@ =~= seq![PieceView::Text(label@)] + listed(table@, 0));
    while i < table.entries.len()
        invariant
            i <= table.entries@.len(),
            m@ == seq![PieceView::Text(label@)] + listed(table@, i as int),
        decreases table.entries.len() - i,
    {
        if i == 0 {
            m.text("\"");
        } else {
            m.text(", \"");
        }
        m.text(table.entries[i].name.as_str());
        m.text("\": ");
        m.number(table.entries[i].value, Style::Debug);
        i += 1;
        assert(m@ =~= seq![PieceView::Text(label@)] + listed(table@, i as int));
    }
    m.text("}");
    assert(m@ =~= table_sentence(label@, table@));
    m
}

/// The checks of a shock: the loss is reached, the attribution adds up, the
/// shock keeps the bounds, and it is a shock at all.
pub fn stress_checks(output: &ReverseStressOutputs, shock_log: &Vec<Double>, f: &StressCheckFigures) -> (res:
    Vec<InvariantCheck>)
    requires
        shock_log@.len() == f.lenient_lower@.len(),
        shock_log@.len() == f.lenient_upper@.len(),
    ensures
        res@.len() == 4,
        res@[0].name@ == BREACH_CHECK@,
        res@[0].passed == output.portfolio_pnl_inr.at_most(f.required_pnl),
        res@[0].tolerance == f.breach_tolerance,
        res@[0].detail@ == seq![
            PieceView::Text("portfolio_pnl_inr="@),
            PieceView::Number(output.portfolio_pnl_inr, Style::Fixed(4)),
            PieceView::Text(" loss_threshold_inr="@),
            PieceView::Number(output.loss_threshold_inr, Style::Fixed(4)),
        ],
        res@[1].name@ == ATTRIBUTION_CHECK@,
        res@[1].passed == f.attribution_gap.at_most(f.attribution_tolerance),
        res@[1].tolerance == f.attribution_tolerance,
        res@[1].detail@ == crate::trace::comparison_detail(
            f.attribution_sum,
            output.portfolio_pnl_inr,
            f.attribution_gap,
        ),
        res@[2].name@ == BOUNDS_CHECK@,
        res@[2].passed == within(shock_log@, f.lenient_lower@, f.lenient_upper@),
        res@[2].tolerance == (Double { bits: GRADIENT_NORM_TOLERANCE_BITS }),
        res@[2].detail@ == table_sentence("shock_vector_log={"@, output.shock_vector_log@),
        res@[3].name@ == SEVERITY_CHECK@,
        res@[3].passed == (Double { bits: 0 }).below(output.mahalanobis_severity),
        res@[3].tolerance == (Double { bits: 0 }),
        res@[3].detail@ == seq![
            PieceView::Text("mahalanobis_severity="@),
            PieceView::Number(output.mahalanobis_severity, Style::Plain),
        ],
{
    let mut breach = Message::of("portfolio_pnl_inr=");
    breach.number(output.portfolio_pnl_inr, Style::Fixed(4));
    breach.text(" loss_threshold_inr=");
    breach.number(output.loss_threshold_inr, Style::Fixed(4));
    assert(breach@ =~= seq![
        PieceView::Text("portfolio_pnl_inr="@),
        PieceView::Number(output.portfolio_pnl_inr, Style::Fixed(4)),
        PieceView::Text(" loss_threshold_inr="@),
        PieceView::Number(output.loss_threshold_inr, Style::Fixed(4)),
    ]);
    let mut severity = Message::of("mahalanobis_severity=");
    severity.number(output.mahalanobis_severity, Style::Plain);
    assert(severity@ =~= seq![
        PieceView::Text("mahalanobis_severity="@),
        PieceView::Number(output.mahalanobis_severity, Style::Plain),
    ]);
    let mut out: Vec<InvariantCheck> = Vec::new();
    out.push(
        InvariantCheck {
            name: text::copy(BREACH_CHECK),
            passed: output.portfolio_pnl_inr.le(f.required_pnl),
            tolerance: f.breach_tolerance,
            detail: breach,
        },
    );
    out.push(
        InvariantCheck::approx_eq(
            ATTRIBUTION_CHECK,
            f.attribution_sum,
            output.portfolio_pnl_inr,
            f.attribution_gap,
            f.attribution_tolerance,
        ),
    );
    out.push(
        InvariantCheck {
            name: text::copy(BOUNDS_CHECK),
            passed: all_within(shock_log, &f.lenient_lower, &f.lenient_upper),
            tolerance: Double { bits: GRADIENT_NORM_TOLERANCE_BITS },
            detail: table_message("shock_vector_log={", &output.shock_vector_log),
        },
    );
    out.push(
        InvariantCheck {
            name: text::copy(SEVERITY_CHECK),
            passed: Double::zero().lt(output.mahalanobis_severity),
            tolerance: Double::zero(),
            detail: severity,
        },
    );
    out
}

// ---------------------------------------------------------------------------
// JSON
// ---------------------------------------------------------------------------

/// A table of bounds as a JSON object.
pub open spec fn bounds_json(rows: Rows<Bounds>) -> JsonView
    decreases rows.len(),
{
    if rows.len() == 0 {
        JsonView::empty()
    } else {
        bounds_json(rows.drop_last()).with(
            rows.last().0,
            JsonView::of_doubles(seq![rows.last().1.lower, rows.last().1.upper]),
        )
    }
}

/// Bounds under factor names as a JSON object.
pub fn bounds_table_json(bounds: &Table<Bounds>) -> (res: Json)
    ensures
        res@ == bounds_json(bounds@),
{
    let mut res = Json::object();
    let mut i: usize = 0;
    assert(bounds@.take(0) =~= seq![]);
    while i < bounds.entries.len()
        invariant
            i <= bounds.entries@.len(),
            res@ == bounds_json(bounds@.take(i as int)),
        decreases bounds.entries.len() - i,
    {
        assert(bounds@.take(i as int + 1).drop_last() =~= bounds@.take(i as int));
        let mut pair: Vec<Double> = Vec::new();
        pair.push(bounds.entries[i].value.lower);
        pair.push(bounds.entries[i].value.upper);
        assert(pair@ =~= seq![
            bounds.entries@[i as int].value.lower,
            bounds.entries@[i as int].value.upper,
        ]);
        res = res.with(bounds.entries[i].name.as_str(), Json::of_doubles(&pair));
        i += 1;
    }
    assert(bounds@.take(bounds@.len() as int) =~= bounds@);
    res
}

impl ReverseStressOutputs {
    /// The shock as a JSON object.
    pub open spec fn json(self) -> JsonView {
        JsonView::empty().with("shock_vector"@, table::numbers_json(self.shock_vector@)).with(
            "shock_vector_log"@,
            table::numbers_json(self.shock_vector_log@),
        ).with("mahalanobis_severity"@, JsonView::of_double(self.mahalanobis_severity)).with(
            "severity_label"@,
            JsonView::Text(self.severity_label@),
        ).with("portfolio_pnl_inr"@, JsonView::of_double(self.portfolio_pnl_inr)).with(
            "loss_threshold_inr"@,
            JsonView::of_double(self.loss_threshold_inr),
        ).with("holding_pnl"@, table::numbers_json(self.holding_pnl@)).with(
            "factor_attribution"@,
            table::numbers_json(self.factor_attribution@),
        ).with(
            "most_vulnerable_holdings"@,
            JsonView::of_texts(text::views(self.most_vulnerable_holdings@)),
        ).with("solver_status"@, JsonView::Text(self.solver_status@)).with(
            "n_iterations"@,
            JsonView::of_integer(self.n_iterations as int),
        ).with("gradient_norm_final"@, JsonView::of_double(self.gradient_norm_final)).with(
            "linearisation_error_inr"@,
            JsonView::of_double(self.linearisation_error_inr),
        ).with("factor_bounds_used"@, bounds_json(self.factor_bounds_used@))
    }

    /// Each field of the object holds the figure that it is named after.
    pub proof fn lemma_json_fields(self)
        ensures
            self.json().field("shock_vector"@) == Some(table::numbers_json(self.shock_vector@)),
            self.json().field("shock_vector_log"@) == Some(table::numbers_json(self.shock_vector_log@)),
            self.json().field("mahalanobis_severity"@) == Some(JsonView::of_double(self.mahalanobis_severity)),
            self.json().field("severity_label"@) == Some(JsonView::Text(self.severity_label@)),
            self.json().field("portfolio_pnl_inr"@) == Some(JsonView::of_double(self.portfolio_pnl_inr)),
            self.json().field("loss_threshold_inr"@) == Some(JsonView::of_double(self.loss_threshold_inr)),
            self.json().field("holding_pnl"@) == Some(table::numbers_json(self.holding_pnl@)),
            self.json().field("factor_attribution"@) == Some(table::numbers_json(self.factor_attribution@)),
            self.json().field("most_vulnerable_holdings"@) == Some(JsonView::of_texts(text::views(self.most_vulnerable_holdings@))),
            self.json().field("solver_status"@) == Some(JsonView::Text(self.solver_status@)),
            self.json().field("n_iterations"@) == Some(JsonView::of_integer(self.n_iterations as int)),
            self.json().field("gradient_norm_final"@) == Some(JsonView::of_double(self.gradient_norm_final)),
            self.json().field("linearisation_error_inr"@) == Some(JsonView::of_double(self.linearisation_error_inr)),
            self.json().field("factor_bounds_used"@) == Some(bounds_json(self.factor_bounds_used@)),
    {
        broadcast use crate::json::group_fields;

        reveal_strlit("shock_vector");
        reveal_strlit("shock_vector_log");
        reveal_strlit("mahalanobis_severity");
        reveal_strlit("severity_label");
        reveal_strlit("portfolio_pnl_inr");
        reveal_strlit("loss_threshold_inr");
        reveal_strlit("holding_pnl");
        reveal_strlit("factor_attribution");
        reveal_strlit("most_vulnerable_holdings");
        reveal_strlit("solver_status");
        reveal_strlit("n_iterations");
        reveal_strlit("gradient_norm_final");
        reveal_strlit("linearisation_error_inr");
        reveal_strlit("factor_bounds_used");
        assert("shock_vector"@.len() == 12);
        assert("shock_vector_log"@.len() == 16);
        assert("mahalanobis_severity"@.len() == 20);
        assert("severity_label"@.len() == 14);
        assert("portfolio_pnl_inr"@.len() == 17);
        assert("loss_threshold_inr"@.len() == 18);
        assert("holding_pnl"@.len() == 11);
        assert("factor_attribution"@.len() == 18);
        assert("most_vulnerable_holdings"@.len() == 24);
        assert("solver_status"@.len() == 13);
        assert("n_iterations"@.len() == 12);
        assert("gradient_norm_final"@.len() == 19);
        assert("linearisation_error_inr"@.len() == 23);
        assert("factor_bounds_used"@.len() == 18);
        assert("shock_vector"@[0] == 's');
        assert("n_iterations"@[0] == 'n');
        assert("loss_threshold_inr"@[0] == 'l');
        assert("factor_attribution"@[0] == 'f');
        assert("factor_bounds_used"@[0] == 'f');
        assert("factor_attribution"@[7] == 'a');
        assert("factor_bounds_used"@[7] == 'b');
    }

    /// The shock as a JSON object.
    pub fn to_json(&self) -> (res: Json)
        ensures
            res@ == self.json(),
    {
        Json::object().with("shock_vector", self.shock_vector.to_json()).with(
            "shock_vector_log",
            self.shock_vector_log.to_json(),
        ).with("mahalanobis_severity", Json::of_double(self.mahalanobis_severity)).with(
            "severity_label",
            Json::of_text(self.severity_label.as_str()),
        ).with("portfolio_pnl_inr", Json::of_double(self.portfolio_pnl_inr)).with(
            "loss_threshold_inr",
            Json::of_double(self.loss_threshold_inr),
        ).with("holding_pnl", self.holding_pnl.to_json()).with(
            "factor_attribution",
            self.factor_attribution.to_json(),
        ).with(
            "most_vulnerable_holdings",
            Json::of_texts(&self.most_vulnerable_holdings),
        ).with("solver_status", Json::of_text(self.solver_status.as_str())).with(
            "n_iterations",
            Json::of_integer(self.n_iterations as i64),
        ).with("gradient_norm_final", Json::of_double(self.gradient_norm_final)).with(
            "linearisation_error_inr",
            Json::of_double(self.linearisation_error_inr),
        ).with("factor_bounds_used", bounds_table_json(&self.factor_bounds_used))
    }
}

} // verus!
