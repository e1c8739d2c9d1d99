//! Which portfolios a request may carry.

use vstd::prelude::*;

use crate::api::{self, ApiError};
use crate::double::Double;
use crate::experiments::{Holding, Portfolio};
use crate::message::{Message, PieceView, Style};
use crate::text;

verus! {

/// The bit pattern of `0.01`: how far the weights may sum from one.
pub const WEIGHT_SUM_TOLERANCE_BITS: u64 = 0x3f84_7ae1_47ae_147b;

/// What is wrong with a portfolio of too few holdings.
pub open spec fn too_few(count: nat) -> Seq<PieceView> {
    seq![
        PieceView::Text("portfolio must have at least 2 holdings, got "@),
        PieceView::Text(text::decimal(count)),
    ]
}

/// What is wrong with a portfolio without value.
pub open spec fn no_value(total: Double) -> Seq<PieceView> {
    seq![
        PieceView::Text("total_value_inr must be > 0, got "@),
        PieceView::Number(total, Style::Plain),
    ]
}

/// What is wrong with a weight that is not positive.
pub open spec fn bad_weight(holding: Holding) -> Seq<PieceView> {
    seq![
        PieceView::Text("all weights must be > 0, but "@),
        PieceView::Text(holding.ticker@),
        PieceView::Text(" has weight "@),
        PieceView::Number(holding.weight, Style::Plain),
    ]
}

/// What is wrong with weights that do not sum to one.
pub open spec fn bad_sum(sum: Double) -> Seq<PieceView> {
    seq![
        PieceView::Text("weights must sum to 1.0 (+/- 0.01), got "@),
        PieceView::Number(sum, Style::Plain),
    ]
}

/// The place of the first holding from `from` on whose weight is not positive.
pub open spec fn first_bad(holdings: Seq<Holding>, from: nat) -> Option<nat>
    decreases holdings.len() - from,
{
    if from >= holdings.len() {
        None
    } else if holdings[from as int].weight.at_most(Double { bits: 0 }) {
        Some(from)
    } else {
        first_bad(holdings, from + 1)
    }
}

/// What is wrong with a portfolio, the first thing found. `sum` is the sum of
/// its weights and `distance` how far that lies from one.
pub open spec fn portfolio_fault(portfolio: Portfolio, sum: Double, distance: Double) -> Option<
    Seq<PieceView>,
> {
    if portfolio.holdings@.len() < 2 {
        Some(too_few(portfolio.holdings@.len()))
    } else if portfolio.total_value_inr.at_most(Double { bits: 0 }) {
        Some(no_value(portfolio.total_value_inr))
    } else {
        match first_bad(portfolio.holdings@, 0) {
            Some(i) => Some(bad_weight(portfolio.holdings@[i as int])),
            None => if (Double { bits: WEIGHT_SUM_TOLERANCE_BITS }).below(distance) {
                Some(bad_sum(sum))
            } else {
                None
            },
        }
    }
}

fn refuse(m: Message) -> (res: ApiError)
    ensures
        res@ == api::wrong_request("invalid_portfolio"@, m@),
{
    ApiError::bad_request("invalid_portfolio", m)
}

/// Accepts a portfolio of at least two holdings, each with a positive weight,
/// that has a value and whose weights sum to one.
pub fn validate_portfolio(portfolio: &Portfolio, sum: Double, distance: Double) -> (res: Result<
    (),
    ApiError,
>)
    ensures
        match portfolio_fault(*portfolio, sum, distance) {
            Some(fault) => res is Err && res->Err_0@ == api::wrong_request(
                "invalid_portfolio"@,
                fault,
            ),
            None => res is Ok,
        },
{
    let zero = Double::zero();
    if portfolio.holdings.len() < 2 {
        let mut m = Message::of("portfolio must have at least 2 holdings, got ");
        m.count(portfolio.holdings.len());
        assert(m@ =~= too_few(portfolio.holdings@.len()));
        return Err(refuse(m));
    }
    if portfolio.total_value_inr.le(zero) {
        let mut m = Message::of("total_value_inr must be > 0, got ");
        m.number(portfolio.total_value_inr, Style::Plain);
        assert(m@ =~= no_value(portfolio.total_value_inr));
        return Err(refuse(m));
    }
    let mut i: usize = 0;
    while i < portfolio.holdings.len()
        invariant
            i <= portfolio.holdings@.len(),
            portfolio.holdings@.len() >= 2,
            zero == (Double { bits: 0 }),
            !portfolio.total_value_inr.at_most(zero),
            first_bad(portfolio.holdings@, 0) == first_bad(portfolio.holdings@, i as nat),
        decreases portfolio.holdings.len() - i,
    {
        let holding = &portfolio.holdings[i];
        if holding.weight.le(zero) {
            let mut m = Message::of("all weights must be > 0, but ");
            m.text(holding.ticker.as_str());
            m.text(" has weight ");
            m.number(holding.weight, Style::Plain);
            assert(m@ =~= bad_weight(portfolio.holdings@[i as int]));
            return Err(refuse(m));
        }
        i += 1;
    }
    if (Double { bits: WEIGHT_SUM_TOLERANCE_BITS }).lt(distance) {
        let mut m = Message::of("weights must sum to 1.0 (+/- 0.01), got ");
        m.number(sum, Style::Plain);
        assert(m@ =~= bad_sum(sum));
        return Err(refuse(m));
    }
    Ok(())
}

proof fn lemma_none_bad(holdings: Seq<Holding>, from: nat)
    requires
        first_bad(holdings, from) is None,
    ensures
        forall|k: int|
            from <= k < holdings.len() ==> !(#[trigger] holdings[k]).weight.at_most(
                Double { bits: 0 },
            ),
    decreases holdings.len() - from,
{
    if from < holdings.len() {
        lemma_none_bad(holdings, from + 1);
    }
}

proof fn lemma_some_bad(holdings: Seq<Holding>, from: nat)
    requires
        first_bad(holdings, from) is Some,
    ensures
        from <= first_bad(holdings, from)->Some_0 < holdings.len(),
        holdings[first_bad(holdings, from)->Some_0 as int].weight.at_most(Double { bits: 0 }),
        forall|k: int|
            from <= k < first_bad(holdings, from)->Some_0 ==> !(
            #[trigger] holdings[k]).weight.at_most(Double { bits: 0 }),
    decreases holdings.len() - from,
{
    if !holdings[from as int].weight.at_most(Double { bits: 0 }) {
        lemma_some_bad(holdings, from + 1);
    }
}

/// A portfolio is refused for fewer than two holdings, for a value that is not
/// above zero, for a weight that is not above zero, which is named with its
/// ticker, and for weights that lie more than a hundredth from one; and for
/// nothing else.
pub proof fn lemma_refused_portfolios(portfolio: Portfolio, sum: Double, distance: Double)
    ensures
        portfolio_fault(portfolio, sum, distance) is Some <==> {
            ||| portfolio.holdings@.len() < 2
            ||| portfolio.total_value_inr.at_most(Double { bits: 0 })
            ||| exists|k: int|
                0 <= k < portfolio.holdings@.len() && (
                #[trigger] portfolio.holdings@[k]).weight.at_most(Double { bits: 0 })
            ||| (Double { bits: 0x3f84_7ae1_47ae_147b }).below(distance)
        },
        forall|k: int|
            0 <= k < portfolio.holdings@.len() && (
            #[trigger] portfolio.holdings@[k]).weight.at_most(Double { bits: 0 }) && (forall|j: int|
                0 <= j < k ==> !(#[trigger] portfolio.holdings@[j]).weight.at_most(
                    Double { bits: 0 },
                )) && portfolio.holdings@.len() >= 2 && !portfolio.total_value_inr.at_most(
                Double { bits: 0 },
            ) ==> portfolio_fault(portfolio, sum, distance)->Some_0[1] == PieceView::Text(
                portfolio.holdings@[k].ticker@,
            ) && portfolio_fault(portfolio, sum, distance)->Some_0[3] == PieceView::Number(
                portfolio.holdings@[k].weight,
                Style::Plain,
            ),
{
    if first_bad(portfolio.holdings@, 0) is None {
        lemma_none_bad(portfolio.holdings@, 0);
    } else {
        lemma_some_bad(portfolio.holdings@, 0);
    }
}

/// An accepted portfolio has at least two holdings and no weight that is zero
/// or negative.
pub proof fn lemma_accepted_portfolios(portfolio: Portfolio, sum: Double, distance: Double)
    requires
        portfolio_fault(portfolio, sum, distance) is None,
    ensures
        portfolio.holdings@.len() >= 2,
        !portfolio.total_value_inr.at_most(Double { bits: 0 }),
        forall|k: int|
            0 <= k < portfolio.holdings@.len() ==> !(
            #[trigger] portfolio.holdings@[k]).weight.at_most(Double { bits: 0 }),
        !(Double { bits: WEIGHT_SUM_TOLERANCE_BITS }).below(distance),
{
    lemma_none_bad(portfolio.holdings@, 0);
}

} // verus!
