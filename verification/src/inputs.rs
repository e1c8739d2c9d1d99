//! The parameters of an experiment as JSON: the form in which they are
//! recorded in its trace.

use vstd::prelude::*;

use crate::cvar::{self, CvarRebalanceInput};
use crate::dispatch::Experiment;
use crate::drift::RiskDriftInput;
use crate::experiments::{FactorShockInput, Holding, Portfolio, RiskDecompositionInput};
use crate::json::{self, Json, JsonView};
use crate::performance::PortfolioPerformanceInput;
use crate::policy::{PolicyCheckInput, RiskPolicy, ScenarioLimit};
use crate::reverse_stress::{self, ReverseStressInput};
use crate::table;

verus! {

/// A count, or `null` where there is none.
pub open spec fn optional_count(n: Option<usize>) -> JsonView {
    match n {
        Some(k) => JsonView::of_integer(k as int),
        None => JsonView::Null,
    }
}

fn optional_count_json(n: Option<usize>) -> (res: Json)
    ensures
        res@ == optional_count(n),
{
    match n {
        Some(k) => Json::of_count(k),
        None => Json::Null,
    }
}

/// A text, or `null` where there is none.
pub open spec fn optional_text(value: Option<String>) -> JsonView {
    JsonView::of_optional_text(
        match value {
            Some(s) => Some(s@),
            None => None,
        },
    )
}

impl Holding {
    /// The line as a JSON object.
    pub open spec fn json(self) -> JsonView {
        JsonView::empty().with(
            "ticker"@,
            JsonView::Text(self.ticker@),
        ).with(
            "weight"@,
            JsonView::of_double(self.weight),
        )
    }

    /// Each field of the object holds the figure that it is named after.
    pub proof fn lemma_json_fields(self)
        ensures
            self.json().field("ticker"@) == Some(JsonView::Text(self.ticker@)),
            self.json().field("weight"@) == Some(JsonView::of_double(self.weight)),
    {
        broadcast use crate::json::group_fields;

        reveal_strlit("ticker");
        reveal_strlit("weight");
        assert("ticker"@.len() == 6);
        assert("weight"@.len() == 6);
        assert("ticker"@[0] == 't');
        assert("weight"@[0] == 'w');
    }

    /// The line as a JSON object.
    pub fn to_json(&self) -> (res: Json)
        ensures
            res@ == self.json(),
    {
        Json::object().with("ticker", Json::of_text(self.ticker.as_str())).with(
            "weight",
            Json::of_double(self.weight),
        )
    }
}

impl Portfolio {
    /// The portfolio as a JSON object.
    pub open spec fn json(self) -> JsonView {
        JsonView::empty().with(
            "holdings"@,
            JsonView::Array(self.holdings@.map_values(|e: Holding| e.json())),
        ).with(
            "total_value_inr"@,
            JsonView::of_double(self.total_value_inr),
        )
    }

    /// Each field of the object holds the figure that it is named after.
    pub proof fn lemma_json_fields(self)
        ensures
            self.json().field("holdings"@) == Some(JsonView::Array(self.holdings@.map_values(|e: Holding| e.json()))),
            self.json().field("total_value_inr"@) == Some(JsonView::of_double(self.total_value_inr)),
    {
        broadcast use crate::json::group_fields;

        reveal_strlit("holdings");
        reveal_strlit("total_value_inr");
        assert("holdings"@.len() == 8);
        assert("total_value_inr"@.len() == 15);
    }

    /// The portfolio as a JSON object.
    pub fn to_json(&self) -> (res: Json)
        ensures
            res@ == self.json(),
    {
        broadcast use json::lemma_array_view;

        let mut lines: Vec<Json> = Vec::new();
        let mut i: usize = 0;
        while i < self.holdings.len()
            invariant
                i <= self.holdings@.len(),
                lines@.len() == i,
                forall|k: int| 0 <= k < i ==> (#[trigger] lines@[k])@ == self.holdings@[k].json(),
            decreases self.holdings.len() - i,
        {
            lines.push(self.holdings[i].to_json());
            i += 1;
        }
        assert(json::items_view(lines@) =~= self.holdings@.map_values(|e: Holding| e.json()));
        Json::object().with("holdings", Json::Array(lines)).with(
            "total_value_inr",
            Json::of_double(self.total_value_inr),
        )
    }
}

impl ScenarioLimit {
    /// The limit as a JSON object.
    pub open spec fn json(self) -> JsonView {
        JsonView::empty().with(
            "scenario_id"@,
            JsonView::Text(self.scenario_id@),
        ).with(
            "max_loss_pct"@,
            JsonView::of_double(self.max_loss_pct),
        )
    }

    /// Each field of the object holds the figure that it is named after.
    pub proof fn lemma_json_fields(self)
        ensures
            self.json().field("scenario_id"@) == Some(JsonView::Text(self.scenario_id@)),
            self.json().field("max_loss_pct"@) == Some(JsonView::of_double(self.max_loss_pct)),
    {
        broadcast use crate::json::group_fields;

        reveal_strlit("scenario_id");
        reveal_strlit("max_loss_pct");
        assert("scenario_id"@.len() == 11);
        assert("max_loss_pct"@.len() == 12);
    }

    /// The limit as a JSON object.
    pub fn to_json(&self) -> (res: Json)
        ensures
            res@ == self.json(),
    {
        Json::object().with("scenario_id", Json::of_text(self.scenario_id.as_str())).with(
            "max_loss_pct",
            Json::of_double(self.max_loss_pct),
        )
    }
}

/// Limits under scenarios, or `null` where there are none.
pub open spec fn optional_limits(limits: Option<Vec<ScenarioLimit>>) -> JsonView {
    match limits {
        Some(list) => JsonView::Array(list@.map_values(|e: ScenarioLimit| e.json())),
        None => JsonView::Null,
    }
}

fn optional_limits_json(limits: &Option<Vec<ScenarioLimit>>) -> (res: Json)
    ensures
        res@ == optional_limits(*limits),
{
    broadcast use json::lemma_array_view;

    match limits {
        Some(list) => {
            let mut out: Vec<Json> = Vec::new();
            let mut i: usize = 0;
            while i < list.len()
                invariant
                    i <= list@.len(),
                    out@.len() == i,
                    forall|k: int| 0 <= k < i ==> (#[trigger] out@[k])@ == list@[k].json(),
                decreases list.len() - i,
            {
                out.push(list[i].to_json());
                i += 1;
            }
            assert(json::items_view(out@) =~= list@.map_values(|e: ScenarioLimit| e.json()));
            Json::Array(out)
        },
        None => Json::Null,
    }
}

impl RiskPolicy {
    /// The policy as a JSON object.
    pub open spec fn json(self) -> JsonView {
        JsonView::empty().with(
            "max_vol_annualized"@,
            cvar::optional_number(self.max_vol_annualized),
        ).with(
            "max_cvar_95"@,
            cvar::optional_number(self.max_cvar_95),
        ).with(
            "max_factor_contribution_share"@,
            cvar::optional_number(self.max_factor_contribution_share),
        ).with(
            "max_position_weight"@,
            cvar::optional_number(self.max_position_weight),
        ).with(
            "max_turnover"@,
            cvar::optional_number(self.max_turnover),
        ).with(
            "max_loss_under_scenarios"@,
            optional_limits(self.max_loss_under_scenarios),
        )
    }

    /// Each field of the object holds the figure that it is named after.
    pub proof fn lemma_json_fields(self)
        ensures
            self.json().field("max_vol_annualized"@) == Some(cvar::optional_number(self.max_vol_annualized)),
            self.json().field("max_cvar_95"@) == Some(cvar::optional_number(self.max_cvar_95)),
            self.json().field("max_factor_contribution_share"@) == Some(cvar::optional_number(self.max_factor_contribution_share)),
            self.json().field("max_position_weight"@) == Some(cvar::optional_number(self.max_position_weight)),
            self.json().field("max_turnover"@) == Some(cvar::optional_number(self.max_turnover)),
            self.json().field("max_loss_under_scenarios"@) == Some(optional_limits(self.max_loss_under_scenarios)),
    {
        broadcast use crate::json::group_fields;

        reveal_strlit("max_vol_annualized");
        reveal_strlit("max_cvar_95");
        reveal_strlit("max_factor_contribution_share");
        reveal_strlit("max_position_weight");
        reveal_strlit("max_turnover");
        reveal_strlit("max_loss_under_scenarios");
        assert("max_vol_annualized"@.len() == 18);
        assert("max_cvar_95"@.len() == 11);
        assert("max_factor_contribution_share"@.len() == 29);
        assert("max_position_weight"@.len() == 19);
        assert("max_turnover"@.len() == 12);
        assert("max_loss_under_scenarios"@.len() == 24);
    }

    /// The policy as a JSON object.
    pub fn to_json(&self) -> (res: Json)
        ensures
            res@ == self.json(),
    {
        Json::object().with(
            "max_vol_annualized",
            cvar::optional_number_json(self.max_vol_annualized),
        ).with("max_cvar_95", cvar::optional_number_json(self.max_cvar_95)).with(
            "max_factor_contribution_share",
            cvar::optional_number_json(self.max_factor_contribution_share),
        ).with("max_position_weight", cvar::optional_number_json(self.max_position_weight)).with(
            "max_turnover",
            cvar::optional_number_json(self.max_turnover),
        ).with("max_loss_under_scenarios", optional_limits_json(&self.max_loss_under_scenarios))
    }
}

/// A policy, or `null` where there is none.
pub open spec fn optional_policy(policy: Option<RiskPolicy>) -> JsonView {
    match policy {
        Some(p) => p.json(),
        None => JsonView::Null,
    }
}

fn optional_policy_json(policy: &Option<RiskPolicy>) -> (res: Json)
    ensures
        res@ == optional_policy(*policy),
{
    match policy {
        Some(p) => p.to_json(),
        None => Json::Null,
    }
}

impl FactorShockInput {
    /// The parameters as a JSON object.
    pub open spec fn json(self) -> JsonView {
        JsonView::empty().with(
            "portfolio"@,
            self.portfolio.json(),
        ).with(
            "shocks_pct"@,
            table::numbers_json(self.shocks_pct@),
        ).with(
            "propagate"@,
            JsonView::Bool(self.propagate),
        ).with(
            "linear_approximation"@,
            JsonView::Bool(self.linear_approximation),
        ).with(
            "frequency"@,
            JsonView::Text(self.frequency.json_name()),
        ).with(
            "window"@,
            optional_count(self.window),
        )
    }

    /// Each field of the object holds the figure that it is named after.
    pub proof fn lemma_json_fields(self)
        ensures
            self.json().field("portfolio"@) == Some(self.portfolio.json()),
            self.json().field("shocks_pct"@) == Some(table::numbers_json(self.shocks_pct@)),
            self.json().field("propagate"@) == Some(JsonView::Bool(self.propagate)),
            self.json().field("linear_approximation"@) == Some(JsonView::Bool(self.linear_approximation)),
            self.json().field("frequency"@) == Some(JsonView::Text(self.frequency.json_name())),
            self.json().field("window"@) == Some(optional_count(self.window)),
    {
        broadcast use crate::json::group_fields;

        reveal_strlit("portfolio");
        reveal_strlit("shocks_pct");
        reveal_strlit("propagate");
        reveal_strlit("linear_approximation");
        reveal_strlit("frequency");
        reveal_strlit("window");
        assert("portfolio"@.len() == 9);
        assert("shocks_pct"@.len() == 10);
        assert("propagate"@.len() == 9);
        assert("linear_approximation"@.len() == 20);
        assert("frequency"@.len() == 9);
        assert("window"@.len() == 6);
        assert("portfolio"@[1] == 'o');
        assert("propagate"@[1] == 'r');
        assert("portfolio"@[0] == 'p');
        assert("frequency"@[0] == 'f');
        assert("propagate"@[0] == 'p');
    }

    /// The parameters as a JSON object.
    pub fn to_json(&self) -> (res: Json)
        ensures
            res@ == self.json(),
    {
        Json::object().with("portfolio", self.portfolio.to_json()).with(
            "shocks_pct",
            self.shocks_pct.to_json(),
        ).with("propagate", Json::Bool(self.propagate)).with(
            "linear_approximation",
            Json::Bool(self.linear_approximation),
        ).with("frequency", Json::of_text(self.frequency.name())).with(
            "window",
            optional_count_json(self.window),
        )
    }
}

impl RiskDecompositionInput {
    /// The parameters as a JSON object.
    pub open spec fn json(self) -> JsonView {
        JsonView::empty().with(
            "portfolio"@,
            self.portfolio.json(),
        ).with(
            "frequency"@,
            JsonView::Text(self.frequency.json_name()),
        ).with(
            "window"@,
            optional_count(self.window),
        )
    }

    /// Each field of the object holds the figure that it is named after.
    pub proof fn lemma_json_fields(self)
        ensures
            self.json().field("portfolio"@) == Some(self.portfolio.json()),
            self.json().field("frequency"@) == Some(JsonView::Text(self.frequency.json_name())),
            self.json().field("window"@) == Some(optional_count(self.window)),
    {
        broadcast use crate::json::group_fields;

        reveal_strlit("portfolio");
        reveal_strlit("frequency");
        reveal_strlit("window");
        assert("portfolio"@.len() == 9);
        assert("frequency"@.len() == 9);
        assert("window"@.len() == 6);
        assert("portfolio"@[0] == 'p');
        assert("frequency"@[0] == 'f');
    }

    /// The parameters as a JSON object.
    pub fn to_json(&self) -> (res: Json)
        ensures
            res@ == self.json(),
    {
        Json::object().with("portfolio", self.portfolio.to_json()).with(
            "frequency",
            Json::of_text(self.frequency.name()),
        ).with("window", optional_count_json(self.window))
    }
}

impl CvarRebalanceInput {
    /// The parameters as a JSON object.
    pub open spec fn json(self) -> JsonView {
        JsonView::empty().with(
            "portfolio"@,
            self.portfolio.json(),
        ).with(
            "confidence_level"@,
            JsonView::of_double(self.confidence_level),
        ).with(
            "per_name_cap"@,
            cvar::optional_number(self.per_name_cap),
        ).with(
            "turnover_limit"@,
            JsonView::of_double(self.turnover_limit),
        ).with(
            "commission_bps"@,
            JsonView::of_double(self.commission_bps),
        ).with(
            "frequency"@,
            JsonView::Text(self.frequency.json_name()),
        ).with(
            "window"@,
            optional_count(self.window),
        ).with(
            "policy"@,
            optional_policy(self.policy),
        )
    }

    /// Each field of the object holds the figure that it is named after.
    pub proof fn lemma_json_fields(self)
        ensures
            self.json().field("portfolio"@) == Some(self.portfolio.json()),
            self.json().field("confidence_level"@) == Some(JsonView::of_double(self.confidence_level)),
            self.json().field("per_name_cap"@) == Some(cvar::optional_number(self.per_name_cap)),
            self.json().field("turnover_limit"@) == Some(JsonView::of_double(self.turnover_limit)),
            self.json().field("commission_bps"@) == Some(JsonView::of_double(self.commission_bps)),
            self.json().field("frequency"@) == Some(JsonView::Text(self.frequency.json_name())),
            self.json().field("window"@) == Some(optional_count(self.window)),
            self.json().field("policy"@) == Some(optional_policy(self.policy)),
    {
        broadcast use crate::json::group_fields;

        reveal_strlit("portfolio");
        reveal_strlit("confidence_level");
        reveal_strlit("per_name_cap");
        reveal_strlit("turnover_limit");
        reveal_strlit("commission_bps");
        reveal_strlit("frequency");
        reveal_strlit("window");
        reveal_strlit("policy");
        assert("portfolio"@.len() == 9);
        assert("confidence_level"@.len() == 16);
        assert("per_name_cap"@.len() == 12);
        assert("turnover_limit"@.len() == 14);
        assert("commission_bps"@.len() == 14);
        assert("frequency"@.len() == 9);
        assert("window"@.len() == 6);
        assert("policy"@.len() == 6);
        assert("portfolio"@[0] == 'p');
        assert("frequency"@[0] == 'f');
        assert("turnover_limit"@[0] == 't');
        assert("commission_bps"@[0] == 'c');
        assert("window"@[0] == 'w');
        assert("policy"@[0] == 'p');
    }

    /// The parameters as a JSON object.
    pub fn to_json(&self) -> (res: Json)
        ensures
            res@ == self.json(),
    {
        Json::object().with("portfolio", self.portfolio.to_json()).with(
            "confidence_level",
            Json::of_double(self.confidence_level),
        ).with("per_name_cap", cvar::optional_number_json(self.per_name_cap)).with(
            "turnover_limit",
            Json::of_double(self.turnover_limit),
        ).with("commission_bps", Json::of_double(self.commission_bps)).with(
            "frequency",
            Json::of_text(self.frequency.name()),
        ).with("window", optional_count_json(self.window)).with(
            "policy",
            optional_policy_json(&self.policy),
        )
    }
}

impl PortfolioPerformanceInput {
    /// The parameters as a JSON object.
    pub open spec fn json(self) -> JsonView {
        JsonView::empty().with(
            "portfolio"@,
            self.portfolio.json(),
        ).with(
            "frequency"@,
            JsonView::Text(self.frequency.json_name()),
        ).with(
            "window"@,
            optional_count(self.window),
        )
    }

    /// Each field of the object holds the figure that it is named after.
    pub proof fn lemma_json_fields(self)
        ensures
            self.json().field("portfolio"@) == Some(self.portfolio.json()),
            self.json().field("frequency"@) == Some(JsonView::Text(self.frequency.json_name())),
            self.json().field("window"@) == Some(optional_count(self.window)),
    {
        broadcast use crate::json::group_fields;

        reveal_strlit("portfolio");
        reveal_strlit("frequency");
        reveal_strlit("window");
        assert("portfolio"@.len() == 9);
        assert("frequency"@.len() == 9);
        assert("window"@.len() == 6);
        assert("portfolio"@[0] == 'p');
        assert("frequency"@[0] == 'f');
    }

    /// The parameters as a JSON object.
    pub fn to_json(&self) -> (res: Json)
        ensures
            res@ == self.json(),
    {
        Json::object().with("portfolio", self.portfolio.to_json()).with(
            "frequency",
            Json::of_text(self.frequency.name()),
        ).with("window", optional_count_json(self.window))
    }
}

impl RiskDriftInput {
    /// The parameters as a JSON object.
    pub open spec fn json(self) -> JsonView {
        JsonView::empty().with(
            "baseline_snapshot_id"@,
            optional_text(self.baseline_snapshot_id),
        ).with(
            "window"@,
            optional_count(self.window),
        ).with(
            "frequency"@,
            optional_text(self.frequency),
        )
    }

    /// Each field of the object holds the figure that it is named after.
    pub proof fn lemma_json_fields(self)
        ensures
            self.json().field("baseline_snapshot_id"@) == Some(optional_text(self.baseline_snapshot_id)),
            self.json().field("window"@) == Some(optional_count(self.window)),
            self.json().field("frequency"@) == Some(optional_text(self.frequency)),
    {
        broadcast use crate::json::group_fields;

        reveal_strlit("baseline_snapshot_id");
        reveal_strlit("window");
        reveal_strlit("frequency");
        assert("baseline_snapshot_id"@.len() == 20);
        assert("window"@.len() == 6);
        assert("frequency"@.len() == 9);
    }

    /// The parameters as a JSON object.
    pub fn to_json(&self) -> (res: Json)
        ensures
            res@ == self.json(),
    {
        Json::object().with(
            "baseline_snapshot_id",
            Json::of_optional_text(&self.baseline_snapshot_id),
        ).with("window", optional_count_json(self.window)).with(
            "frequency",
            Json::of_optional_text(&self.frequency),
        )
    }
}

/// Bounds under factor names, or `null` where there are none.
pub open spec fn optional_bounds(bounds: Option<table::Table<reverse_stress::Bounds>>) -> JsonView {
    match bounds {
        Some(b) => reverse_stress::bounds_json(b@),
        None => JsonView::Null,
    }
}

fn optional_bounds_json(bounds: &Option<table::Table<reverse_stress::Bounds>>) -> (res: Json)
    ensures
        res@ == optional_bounds(*bounds),
{
    match bounds {
        Some(b) => reverse_stress::bounds_table_json(b),
        None => Json::Null,
    }
}

impl ReverseStressInput {
    /// The parameters as a JSON object.
    pub open spec fn json(self) -> JsonView {
        JsonView::empty().with(
            "loss_threshold_inr"@,
            JsonView::of_double(self.loss_threshold_inr),
        ).with(
            "factor_bounds"@,
            optional_bounds(self.factor_bounds),
        ).with(
            "window"@,
            optional_count(self.window),
        ).with(
            "frequency"@,
            optional_text(self.frequency),
        )
    }

    /// Each field of the object holds the figure that it is named after.
    pub proof fn lemma_json_fields(self)
        ensures
            self.json().field("loss_threshold_inr"@) == Some(JsonView::of_double(self.loss_threshold_inr)),
            self.json().field("factor_bounds"@) == Some(optional_bounds(self.factor_bounds)),
            self.json().field("window"@) == Some(optional_count(self.window)),
            self.json().field("frequency"@) == Some(optional_text(self.frequency)),
    {
        broadcast use crate::json::group_fields;

        reveal_strlit("loss_threshold_inr");
        reveal_strlit("factor_bounds");
        reveal_strlit("window");
        reveal_strlit("frequency");
        assert("loss_threshold_inr"@.len() == 18);
        assert("factor_bounds"@.len() == 13);
        assert("window"@.len() == 6);
        assert("frequency"@.len() == 9);
    }

    /// The parameters as a JSON object.
    pub fn to_json(&self) -> (res: Json)
        ensures
            res@ == self.json(),
    {
        Json::object().with("loss_threshold_inr", Json::of_double(self.loss_threshold_inr)).with(
            "factor_bounds",
            optional_bounds_json(&self.factor_bounds),
        ).with("window", optional_count_json(self.window)).with(
            "frequency",
            Json::of_optional_text(&self.frequency),
        )
    }
}

impl PolicyCheckInput {
    /// The parameters as a JSON object.
    pub open spec fn json(self) -> JsonView {
        JsonView::empty().with(
            "policy"@,
            self.policy.json(),
        ).with(
            "window"@,
            optional_count(self.window),
        ).with(
            "frequency"@,
            optional_text(self.frequency),
        )
    }

    /// Each field of the object holds the figure that it is named after.
    pub proof fn lemma_json_fields(self)
        ensures
            self.json().field("policy"@) == Some(self.policy.json()),
            self.json().field("window"@) == Some(optional_count(self.window)),
            self.json().field("frequency"@) == Some(optional_text(self.frequency)),
    {
        broadcast use crate::json::group_fields;

        reveal_strlit("policy");
        reveal_strlit("window");
        reveal_strlit("frequency");
        assert("policy"@.len() == 6);
        assert("window"@.len() == 6);
        assert("frequency"@.len() == 9);
        assert("policy"@[0] == 'p');
        assert("window"@[0] == 'w');
    }

    /// The parameters as a JSON object.
    pub fn to_json(&self) -> (res: Json)
        ensures
            res@ == self.json(),
    {
        Json::object().with("policy", self.policy.to_json()).with(
            "window",
            optional_count_json(self.window),
        ).with("frequency", Json::of_optional_text(&self.frequency))
    }
}

impl Experiment {
    /// The parameters as a JSON object.
    pub open spec fn inputs(self) -> JsonView {
        match self {
            Experiment::FactorShock(input) => input.json(),
            Experiment::RiskDecomposition(input) => input.json(),
            Experiment::CvarRebalance(input) => input.json(),
            Experiment::PortfolioPerformance(input) => input.json(),
            Experiment::RiskDrift(input) => input.json(),
            Experiment::ReverseStress(input) => input.json(),
            Experiment::PolicyCheck(input) => input.json(),
        }
    }

    /// The parameters as a JSON object.
    pub fn inputs_json(&self) -> (res: Json)
        ensures
            res@ == self.inputs(),
    {
        match self {
            Experiment::FactorShock(input) => input.to_json(),
            Experiment::RiskDecomposition(input) => input.to_json(),
            Experiment::CvarRebalance(input) => input.to_json(),
            Experiment::PortfolioPerformance(input) => input.to_json(),
            Experiment::RiskDrift(input) => input.to_json(),
            Experiment::ReverseStress(input) => input.to_json(),
            Experiment::PolicyCheck(input) => input.to_json(),
        }
    }

    /// The experiment as it is requested: its parameters and its name.
    pub fn to_json(&self) -> (res: Json)
        ensures
            res@ == self.inputs().with("type"@, JsonView::Text(self.tag())),
    {
        self.inputs_json().with("type", Json::of_text(self.name()))
    }
}

} // verus!
