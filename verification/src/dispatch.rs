//! What running an experiment takes: which tickers, over which window and at
//! which frequency; whether a factor model is fitted; and whether the policy of
//! the request is checked alongside.

use vstd::prelude::*;

use crate::cvar::CvarRebalanceInput;
use crate::drift::RiskDriftInput;
use crate::error::{ComputeError, ComputeErrorView};
use crate::experiments::{FactorShockInput, Portfolio, RiskDecompositionInput};
use crate::model::{self, Frequency, ModelConfig};
use crate::performance::PortfolioPerformanceInput;
use crate::policy::{self, PolicyCheckInput, PolicyResult};
use crate::reverse_stress::{self, ReverseStressInput};
use crate::text;
use crate::trace::EvidenceTrace;

verus! {

/// Where fetched price series are kept.
pub const CACHE_DIR: &'static str = "data/cache";

/// An experiment with its parameters.
#[derive(Debug)]
pub enum Experiment {
    FactorShock(FactorShockInput),
    RiskDecomposition(RiskDecompositionInput),
    CvarRebalance(CvarRebalanceInput),
    PortfolioPerformance(PortfolioPerformanceInput),
    RiskDrift(RiskDriftInput),
    ReverseStress(ReverseStressInput),
    PolicyCheck(PolicyCheckInput),
}

impl Experiment {
    /// The name under which an experiment is requested and recorded.
    pub open spec fn tag(self) -> Seq<char> {
        match self {
            Experiment::FactorShock(_) => "FactorShock"@,
            Experiment::RiskDecomposition(_) => "RiskDecomposition"@,
            Experiment::CvarRebalance(_) => "CvarRebalance"@,
            Experiment::PortfolioPerformance(_) => "PortfolioPerformance"@,
            Experiment::RiskDrift(_) => "RiskDrift"@,
            Experiment::ReverseStress(_) => "ReverseStress"@,
            Experiment::PolicyCheck(_) => "PolicyCheck"@,
        }
    }

    /// The name under which an experiment is requested and recorded.
    pub fn name(&self) -> (res: &'static str)
        ensures
            res@ == self.tag(),
    {
        match self {
            Experiment::FactorShock(_) => "FactorShock",
            Experiment::RiskDecomposition(_) => "RiskDecomposition",
            Experiment::CvarRebalance(_) => "CvarRebalance",
            Experiment::PortfolioPerformance(_) => "PortfolioPerformance",
            Experiment::RiskDrift(_) => "RiskDrift",
            Experiment::ReverseStress(_) => "ReverseStress",
            Experiment::PolicyCheck(_) => "PolicyCheck",
        }
    }
}

/// What running an experiment takes. The window is that of the model; a
/// rebalance looks at the whole history unless its own window says otherwise.
#[derive(Debug)]
pub struct RunPlan {
    pub tickers: Vec<String>,
    pub frequency: Frequency,
    pub window: usize,
    pub fits_model: bool,
    pub checks_policy: bool,
}

/// The frequency of an experiment; `None` where its name is none.
pub open spec fn frequency_of(experiment: Experiment) -> Option<Frequency> {
    match experiment {
        Experiment::FactorShock(input) => Some(input.frequency),
        Experiment::RiskDecomposition(input) => Some(input.frequency),
        Experiment::CvarRebalance(input) => Some(input.frequency),
        Experiment::PortfolioPerformance(input) => Some(input.frequency),
        Experiment::RiskDrift(input) => named_or_daily(input.frequency),
        Experiment::ReverseStress(input) => named_or_daily(input.frequency),
        Experiment::PolicyCheck(input) => named_or_daily(input.frequency),
    }
}

/// The frequency with a given name, daily where there is none.
pub open spec fn named_or_daily(name: Option<String>) -> Option<Frequency> {
    match name {
        Some(n) => model::frequency_named(n@),
        None => Some(Frequency::Daily),
    }
}

/// The name of the frequency that an experiment asks for.
pub open spec fn frequency_name(experiment: Experiment) -> Option<String> {
    match experiment {
        Experiment::RiskDrift(input) => input.frequency,
        Experiment::ReverseStress(input) => input.frequency,
        Experiment::PolicyCheck(input) => input.frequency,
        _ => None,
    }
}

/// The window that an experiment asks for.
pub open spec fn window_of(experiment: Experiment) -> Option<usize> {
    match experiment {
        Experiment::FactorShock(input) => input.window,
        Experiment::RiskDecomposition(input) => input.window,
        Experiment::CvarRebalance(input) => input.window,
        Experiment::PortfolioPerformance(input) => input.window,
        Experiment::RiskDrift(input) => input.window,
        Experiment::ReverseStress(input) => input.window,
        Experiment::PolicyCheck(input) => input.window,
    }
}

/// The portfolio of an experiment: its own where it has one, else that of the
/// request.
pub open spec fn portfolio_of(experiment: Experiment, request: Portfolio) -> Portfolio {
    match experiment {
        Experiment::FactorShock(input) => input.portfolio,
        Experiment::RiskDecomposition(input) => input.portfolio,
        Experiment::CvarRebalance(input) => input.portfolio,
        Experiment::PortfolioPerformance(input) => input.portfolio,
        _ => request,
    }
}

/// Whether running an experiment takes a factor model of its own: a rebalance
/// never does, and a look at past performance only for the policy.
pub open spec fn needs_model(experiment: Experiment, has_policy: bool) -> bool {
    match experiment {
        Experiment::CvarRebalance(_) => false,
        Experiment::PortfolioPerformance(_) => has_policy,
        _ => true,
    }
}

/// Whether the policy of a request is checked alongside an experiment: not
/// where the experiment sees to it itself, and not for a comparison with the
/// past.
pub open spec fn takes_passive_check(experiment: Experiment) -> bool {
    match experiment {
        Experiment::FactorShock(_) => true,
        Experiment::RiskDecomposition(_) => true,
        Experiment::PortfolioPerformance(_) => true,
        Experiment::ReverseStress(_) => true,
        _ => false,
    }
}

fn named_frequency(name: &Option<String>) -> (res: Result<Frequency, ComputeError>)
    ensures
        match named_or_daily(*name) {
            Some(f) => res == Ok::<Frequency, ComputeError>(f),
            None => res is Err && res->Err_0@ == ComputeErrorView::InvalidInput(
                model::unknown_frequency(name->Some_0@),
            ),
        },
{
    match name {
        Some(n) => Frequency::from_optional_str(Some(n.as_str())),
        None => Frequency::from_optional_str(None),
    }
}

/// Decides what running an experiment takes.
pub fn plan_experiment(experiment: &Experiment, portfolio: &Portfolio, has_policy: bool) -> (res:
    Result<RunPlan, ComputeError>)
    ensures
        match frequency_of(*experiment) {
            Some(f) => {
                &&& res is Ok
                &&& text::views(res->Ok_0.tickers@) == portfolio_of(
                    *experiment,
                    *portfolio,
                ).tickers_view()
                &&& res->Ok_0.frequency == f
                &&& res->Ok_0.window == model::window_or_default(window_of(*experiment), f)
                &&& res->Ok_0.fits_model == needs_model(*experiment, has_policy)
                &&& res->Ok_0.checks_policy == (has_policy && takes_passive_check(*experiment))
            },
            None => {
                &&& res is Err
                &&& res->Err_0@ == ComputeErrorView::InvalidInput(
                    model::unknown_frequency(frequency_name(*experiment)->Some_0@),
                )
            },
        },
{
    let (tickers, frequency, window): (Vec<String>, Frequency, Option<usize>) = match experiment {
        Experiment::FactorShock(input) => (
            input.portfolio.tickers(),
            input.frequency,
            input.window,
        ),
        Experiment::RiskDecomposition(input) => (
            input.portfolio.tickers(),
            input.frequency,
            input.window,
        ),
        Experiment::CvarRebalance(input) => (
            input.portfolio.tickers(),
            input.frequency,
            input.window,
        ),
        Experiment::PortfolioPerformance(input) => (
            input.portfolio.tickers(),
            input.frequency,
            input.window,
        ),
        Experiment::RiskDrift(input) => match input.resolved_frequency() {
            Ok(f) => (portfolio.tickers(), f, input.window),
            Err(e) => {
                return Err(e);
            },
        },
        Experiment::ReverseStress(input) => match reverse_stress::resolved_frequency(input) {
            Ok(f) => (portfolio.tickers(), f, input.window),
            Err(e) => {
                return Err(e);
            },
        },
        Experiment::PolicyCheck(input) => match named_frequency(&input.frequency) {
            Ok(f) => (portfolio.tickers(), f, input.window),
            Err(e) => {
                return Err(e);
            },
        },
    };
    let fits_model = match experiment {
        Experiment::CvarRebalance(_) => false,
        Experiment::PortfolioPerformance(_) => has_policy,
        _ => true,
    };
    let passive = match experiment {
        Experiment::FactorShock(_) => true,
        Experiment::RiskDecomposition(_) => true,
        Experiment::PortfolioPerformance(_) => true,
        Experiment::ReverseStress(_) => true,
        _ => false,
    };
    Ok(
        RunPlan {
            tickers,
            frequency,
            window: model::resolve_window(window, frequency),
            fits_model,
            checks_policy: has_policy && passive,
        },
    )
}

impl RunPlan {
    /// What the factor model of a run is fitted on. It is always split by
    /// market regime.
    pub fn model_config(&self) -> (res: ModelConfig)
        ensures
            res.window == self.window,
            res.frequency == self.frequency,
            res.regime_covariance,
    {
        ModelConfig::new(self.window, self.frequency).with_regime_covariance(true)
    }
}

/// Attaches the check of a policy to a trace, where there is one.
pub fn attach_policy(trace: EvidenceTrace, checked: Option<&PolicyResult>) -> (res: EvidenceTrace)
    requires
        checked is Some ==> policy::sums_up(*checked->Some_0),
    ensures
        match checked {
            Some(c) => {
                &&& res.policy_result is Some
                &&& res.policy_result->Some_0@ == c.json()
                &&& res == (EvidenceTrace { policy_result: res.policy_result, ..trace })
            },
            None => res == trace,
        },
{
    match checked {
        Some(c) => {
            let mut trace = trace;
            trace.policy_result = Some(c.to_json());
            trace
        },
        None => trace,
    }
}

/// What an experiment takes: a rebalance needs no model of its own, a
/// performance only for a policy, and every other experiment always. The policy
/// of the request is checked alongside a shock, a decomposition, a performance
/// and a stress. An experiment with a portfolio of its own looks at that, every
/// other at the one of the request.
pub proof fn lemma_what_experiments_take(
    experiment: Experiment,
    has_policy: bool,
    request: Portfolio,
)
    ensures
        needs_model(experiment, has_policy) <==> !(experiment is CvarRebalance) && (
        experiment is PortfolioPerformance ==> has_policy),
        takes_passive_check(experiment) <==> experiment is FactorShock
            || experiment is RiskDecomposition || experiment is PortfolioPerformance
            || experiment is ReverseStress,
        experiment is RiskDrift || experiment is ReverseStress || experiment is PolicyCheck
            ==> portfolio_of(experiment, request) == request,
        experiment is FactorShock ==> portfolio_of(experiment, request)
            == experiment->FactorShock_0.portfolio && window_of(experiment)
            == experiment->FactorShock_0.window && frequency_of(experiment) == Some(
            experiment->FactorShock_0.frequency,
        ),
        experiment is CvarRebalance ==> portfolio_of(experiment, request)
            == experiment->CvarRebalance_0.portfolio && window_of(experiment)
            == experiment->CvarRebalance_0.window && frequency_of(experiment) == Some(
            experiment->CvarRebalance_0.frequency,
        ),
        experiment is RiskDrift && experiment->RiskDrift_0.frequency is None ==> frequency_of(
            experiment,
        ) == Some(Frequency::Daily),
        experiment is PolicyCheck ==> window_of(experiment) == experiment->PolicyCheck_0.window,
        experiment is ReverseStress ==> window_of(experiment) == experiment->ReverseStress_0.window,
{
}

/// A policy is never checked twice: an experiment that checks it itself, or
/// that reports on it, takes no check alongside.
pub proof fn lemma_policy_checked_once(experiment: Experiment, has_policy: bool)
    ensures
        (experiment is PolicyCheck || experiment is CvarRebalance) ==> !(has_policy
            && takes_passive_check(experiment)),
        has_policy && takes_passive_check(experiment) ==> needs_model(experiment, has_policy),
{
}

} // verus!
