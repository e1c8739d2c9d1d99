//! Historical scenarios: fixed sets of factor shocks for well-known market
//! events.

use vstd::prelude::*;

use crate::data;
use crate::double::Double;
use crate::error::{ComputeError, ComputeErrorView};
use crate::json::{Json, JsonView};
use crate::message::{Message, PieceView};
use crate::table::{Rows, Table};
use crate::text;
use crate::trace::ScenarioProvenance;

verus! {

/// A market event and the moves of the factors in it.
#[derive(Debug)]
pub struct HistoricalScenario {
    pub id: String,
    pub name: String,
    pub date_range: String,
    pub description: String,
    /// Simple percent returns under factor names.
    pub shocks_pct: Table<Double>,
    pub propagate: bool,
}

/// The number of scenarios.
pub const SCENARIO_COUNT: usize = 3;

/// The bit pattern of `8.5`.
pub const EIGHT_AND_A_HALF_BITS: u64 = 0x4021_0000_0000_0000;

/// The bit pattern of `2.5`.
pub const TWO_AND_A_HALF_BITS: u64 = 0x4004_0000_0000_0000;

/// The identifier of a scenario.
pub open spec fn id_of(place: int) -> Seq<char> {
    if place == 0 {
        "covid_crash"@
    } else if place == 1 {
        "ilfs_contagion"@
    } else {
        "taper_tantrum_2013"@
    }
}

/// The name of a scenario.
pub open spec fn name_of(place: int) -> Seq<char> {
    if place == 0 {
        "COVID Crash (Mar 2020)"@
    } else if place == 1 {
        "IL&FS Contagion (Sep\u{2013}Oct 2018)"@
    } else {
        "Taper Tantrum (May\u{2013}Aug 2013)"@
    }
}

/// The dates of a scenario.
pub open spec fn date_range_of(place: int) -> Seq<char> {
    if place == 0 {
        "Feb 19 \u{2013} Mar 23, 2020"@
    } else if place == 1 {
        "Sep 21 \u{2013} Oct 26, 2018"@
    } else {
        "May 22 \u{2013} Aug 28, 2013"@
    }
}

/// What happened in a scenario.
pub open spec fn description_of(place: int) -> Seq<char> {
    if place == 0 {
        "Nifty fell 38% in 33 days; crude collapsed on the OPEC+ breakdown; INR hit 76."@
    } else if place == 1 {
        "IL&FS default triggered NBFC liquidity freeze; Nifty fell 15%; INR hit 74 on oil+EM selloff."@
    } else {
        "Fed taper signal sent INR to 68, Nifty fell 12%, gold sold off as dollar surged."@
    }
}

/// Whether a scenario is the one at `place`.
pub open spec fn is_scenario(scenario: HistoricalScenario, place: int) -> bool {
    &&& scenario.id@ == id_of(place)
    &&& scenario.name@ == name_of(place)
    &&& scenario.date_range@ == date_range_of(place)
    &&& scenario.description@ == description_of(place)
    &&& scenario.shocks_pct@ == shock_rows(place)
    &&& !scenario.propagate
}

/// The shocks of a scenario, in the order of the factor names.
pub open spec fn shocks_of(place: int) -> Seq<Double> {
    let whole = |n: int| crate::double::double_of_integer(n);
    if place == 0 {
        seq![whole(-38), (Double { bits: EIGHT_AND_A_HALF_BITS }), whole(-55), whole(3), whole(-6)]
    } else if place == 1 {
        seq![whole(-15), whole(7), whole(15), (Double { bits: TWO_AND_A_HALF_BITS }), whole(4)]
    } else {
        seq![whole(-12), whole(18), whole(-5), whole(-18), whole(5)]
    }
}

/// The shocks of a scenario under the factor names.
pub open spec fn shock_rows(place: int) -> Rows<Double> {
    crate::experiments::factor_rows(shocks_of(place))
}

fn scenario(
    id: &str,
    name: &str,
    date_range: &str,
    description: &str,
    shocks: &Vec<Double>,
) -> (res: HistoricalScenario)
    requires
        shocks@.len() == data::FACTOR_COUNT,
    ensures
        res.id@ == id@,
        res.name@ == name@,
        res.date_range@ == date_range@,
        res.description@ == description@,
        res.shocks_pct@ == crate::experiments::factor_rows(shocks@),
        !res.propagate,
{
    HistoricalScenario {
        id: text::copy(id),
        name: text::copy(name),
        date_range: text::copy(date_range),
        description: text::copy(description),
        shocks_pct: crate::experiments::factor_table(shocks),
        propagate: false,
    }
}

fn five(a: Double, b: Double, c: Double, d: Double, e: Double) -> (res: Vec<Double>)
    ensures
        res@ == seq![a, b, c, d, e],
{
    let mut out: Vec<Double> = Vec::new();
    out.push(a);
    out.push(b);
    out.push(c);
    out.push(d);
    out.push(e);
    assert(out@ =~= seq![a, b, c, d, e]);
    out
}

/// All scenarios. None of them propagates: each gives the move of every
/// factor.
pub fn all_scenarios() -> (res: Vec<HistoricalScenario>)
    ensures
        res@.len() == SCENARIO_COUNT,
        forall|i: int|
            0 <= i < SCENARIO_COUNT ==> is_scenario(#[trigger] res@[i], i),
{
    let mut out: Vec<HistoricalScenario> = Vec::new();
    out.push(
        scenario(
            "covid_crash",
            "COVID Crash (Mar 2020)",
            "Feb 19 \u{2013} Mar 23, 2020",
            "Nifty fell 38% in 33 days; crude collapsed on the OPEC+ breakdown; INR hit 76.",
            &five(
                Double::of_integer(-38),
                Double { bits: EIGHT_AND_A_HALF_BITS },
                Double::of_integer(-55),
                Double::of_integer(3),
                Double::of_integer(-6),
            ),
        ),
    );
    out.push(
        scenario(
            "ilfs_contagion",
            "IL&FS Contagion (Sep\u{2013}Oct 2018)",
            "Sep 21 \u{2013} Oct 26, 2018",
            "IL&FS default triggered NBFC liquidity freeze; Nifty fell 15%; INR hit 74 on oil+EM selloff.",
            &five(
                Double::of_integer(-15),
                Double::of_integer(7),
                Double::of_integer(15),
                Double { bits: TWO_AND_A_HALF_BITS },
                Double::of_integer(4),
            ),
        ),
    );
    out.push(
        scenario(
            "taper_tantrum_2013",
            "Taper Tantrum (May\u{2013}Aug 2013)",
            "May 22 \u{2013} Aug 28, 2013",
            "Fed taper signal sent INR to 68, Nifty fell 12%, gold sold off as dollar surged.",
            &five(
                Double::of_integer(-12),
                Double::of_integer(18),
                Double::of_integer(-5),
                Double::of_integer(-18),
                Double::of_integer(5),
            ),
        ),
    );
    out
}

/// The place of the scenario with the given identifier.
pub open spec fn place_of(id: Seq<char>) -> Option<int> {
    if id == id_of(0) {
        Some(0)
    } else if id == id_of(1) {
        Some(1)
    } else if id == id_of(2) {
        Some(2)
    } else {
        None
    }
}

/// The message for an identifier of no scenario.
pub open spec fn unknown_scenario(id: Seq<char>) -> Seq<PieceView> {
    seq![PieceView::Text("unknown scenario id "@), PieceView::Text(text::quoted(id))]
}

/// The scenario with the given identifier; any other is invalid input.
pub fn find_scenario(id: &str) -> (res: Result<HistoricalScenario, ComputeError>)
    ensures
        match place_of(id@) {
            Some(place) => res is Ok && is_scenario(res->Ok_0, place),
            None => res is Err && res->Err_0@ == ComputeErrorView::InvalidInput(
                unknown_scenario(id@),
            ),
        },
{
    let mut scenarios = all_scenarios();
    proof {
        reveal_strlit("covid_crash");
        reveal_strlit("ilfs_contagion");
        reveal_strlit("taper_tantrum_2013");
        assert(id_of(0).len() == 11 && id_of(1).len() == 14 && id_of(2).len() == 18);
    }
    let ghost all = scenarios@;
    while scenarios.len() > 0
        invariant
            all.len() == SCENARIO_COUNT,
            scenarios@.len() <= SCENARIO_COUNT,
            scenarios@ == all.take(scenarios@.len() as int),
            forall|i: int|
                0 <= i < SCENARIO_COUNT ==> is_scenario(#[trigger] all[i], i),
            forall|i: int| scenarios@.len() <= i < SCENARIO_COUNT ==> id@ != id_of(i),
            id_of(0).len() == 11 && id_of(1).len() == 14 && id_of(2).len() == 18,
        decreases scenarios@.len(),
    {
        let ghost place = scenarios@.len() - 1;
        match scenarios.pop() {
            Some(last) => {
                assert(last == all[place]);
                if text::same(last.id.as_str(), id) {
                    return Ok(last);
                }
            },
            None => {},
        }
        assert(scenarios@ =~= all.take(scenarios@.len() as int));
    }
    let mut message = Message::of("unknown scenario id ");
    let shown = text::quote(id);
    message.text(shown.as_str());
    assert(message@ =~= unknown_scenario(id@));
    Err(ComputeError::InvalidInput(message))
}

/// The scenario at `place` as a JSON object.
pub open spec fn scenario_json(place: int) -> JsonView {
    JsonView::empty().with("id"@, JsonView::Text(id_of(place))).with(
        "name"@,
        JsonView::Text(name_of(place)),
    ).with("date_range"@, JsonView::Text(date_range_of(place))).with(
        "description"@,
        JsonView::Text(description_of(place)),
    ).with("shocks_pct"@, crate::table::numbers_json(shock_rows(place))).with(
        "propagate"@,
        JsonView::Bool(false),
    )
}

impl HistoricalScenario {
    /// The scenario as a JSON object.
    pub open spec fn json(self) -> JsonView {
        JsonView::empty().with("id"@, JsonView::Text(self.id@)).with(
            "name"@,
            JsonView::Text(self.name@),
        ).with("date_range"@, JsonView::Text(self.date_range@)).with(
            "description"@,
            JsonView::Text(self.description@),
        ).with("shocks_pct"@, crate::table::numbers_json(self.shocks_pct@)).with(
            "propagate"@,
            JsonView::Bool(self.propagate),
        )
    }

    /// Each field of the object holds the figure that it is named after.
    pub proof fn lemma_json_fields(self)
        ensures
            self.json().field("id"@) == Some(JsonView::Text(self.id@)),
            self.json().field("name"@) == Some(JsonView::Text(self.name@)),
            self.json().field("date_range"@) == Some(JsonView::Text(self.date_range@)),
            self.json().field("description"@) == Some(JsonView::Text(self.description@)),
            self.json().field("shocks_pct"@) == Some(crate::table::numbers_json(self.shocks_pct@)),
            self.json().field("propagate"@) == Some(JsonView::Bool(self.propagate)),
    {
        broadcast use crate::json::group_fields;

        reveal_strlit("id");
        reveal_strlit("name");
        reveal_strlit("date_range");
        reveal_strlit("description");
        reveal_strlit("shocks_pct");
        reveal_strlit("propagate");
        assert("id"@.len() == 2);
        assert("name"@.len() == 4);
        assert("date_range"@.len() == 10);
        assert("description"@.len() == 11);
        assert("shocks_pct"@.len() == 10);
        assert("propagate"@.len() == 9);
        assert("date_range"@[0] == 'd');
        assert("shocks_pct"@[0] == 's');
    }

    /// The scenario as a JSON object.
    pub fn to_json(&self) -> (res: Json)
        ensures
            res@ == self.json(),
    {
        Json::object().with("id", Json::of_text(self.id.as_str())).with(
            "name",
            Json::of_text(self.name.as_str()),
        ).with("date_range", Json::of_text(self.date_range.as_str())).with(
            "description",
            Json::of_text(self.description.as_str()),
        ).with("shocks_pct", self.shocks_pct.to_json()).with(
            "propagate",
            Json::Bool(self.propagate),
        )
    }
}

/// The provenance of shocks that come from a scenario.
pub fn provenance(scenario: &HistoricalScenario) -> (res: ScenarioProvenance)
    ensures
        res.scenario_id@ == scenario.id@,
        res.scenario_name@ == scenario.name@,
        res.date_range@ == scenario.date_range@,
        res.description@ == scenario.description@,
{
    ScenarioProvenance {
        scenario_id: text::copy(scenario.id.as_str()),
        scenario_name: text::copy(scenario.name.as_str()),
        date_range: text::copy(scenario.date_range.as_str()),
        description: text::copy(scenario.description.as_str()),
    }
}

/// The moves of the three scenarios, in percent: in the crash of 2020 the
/// market fell by 38, the dollar rose by eight and a half, oil fell by 55, gold
/// rose by 3 and rates fell by 6; in the contagion of 2018 they moved by -15,
/// 7, 15, two and a half and 4; and in the tantrum of 2013 by -12, 18, -5, -18
/// and 5.
pub proof fn lemma_scenario_moves()
    ensures
        ({
            let at = |id: Seq<char>, factor: Seq<char>|
                crate::table::value_of(shock_rows(place_of(id)->Some_0), factor);
            let whole = |n: int| Some(crate::double::double_of_integer(n));
            &&& place_of("covid_crash"@) is Some
            &&& at("covid_crash"@, "MARKET"@) == whole(-38)
            &&& at("covid_crash"@, "USDINR"@) == Some(Double { bits: 0x4021_0000_0000_0000 })
            &&& at("covid_crash"@, "BRENT"@) == whole(-55)
            &&& at("covid_crash"@, "GOLD_USD"@) == whole(3)
            &&& at("covid_crash"@, "RATES_PROXY"@) == whole(-6)
            &&& place_of("ilfs_contagion"@) is Some
            &&& at("ilfs_contagion"@, "MARKET"@) == whole(-15)
            &&& at("ilfs_contagion"@, "USDINR"@) == whole(7)
            &&& at("ilfs_contagion"@, "BRENT"@) == whole(15)
            &&& at("ilfs_contagion"@, "GOLD_USD"@) == Some(Double { bits: 0x4004_0000_0000_0000 })
            &&& at("ilfs_contagion"@, "RATES_PROXY"@) == whole(4)
            &&& place_of("taper_tantrum_2013"@) is Some
            &&& at("taper_tantrum_2013"@, "MARKET"@) == whole(-12)
            &&& at("taper_tantrum_2013"@, "USDINR"@) == whole(18)
            &&& at("taper_tantrum_2013"@, "BRENT"@) == whole(-5)
            &&& at("taper_tantrum_2013"@, "GOLD_USD"@) == whole(-18)
            &&& at("taper_tantrum_2013"@, "RATES_PROXY"@) == whole(5)
        }),
{
    reveal_strlit("covid_crash");
    reveal_strlit("ilfs_contagion");
    reveal_strlit("taper_tantrum_2013");
    assert("covid_crash"@.len() == 11 && "ilfs_contagion"@.len() == 14);
    assert("taper_tantrum_2013"@.len() == 18);
    crate::experiments::lemma_factor_rows(shocks_of(0));
    crate::experiments::lemma_factor_rows(shocks_of(1));
    crate::experiments::lemma_factor_rows(shocks_of(2));
}

/// A scenario is found by its own identifier, and by no other.
pub proof fn lemma_scenarios_by_identifier(id: Seq<char>)
    ensures
        place_of(id) is Some <==> id == "covid_crash"@ || id == "ilfs_contagion"@ || id
            == "taper_tantrum_2013"@,
        place_of(id) is Some ==> id_of(place_of(id)->Some_0) == id,
{
}

/// Every scenario gives a move of every factor, and of nothing else: a shock
/// with its moves is never refused for an unknown factor and leaves no factor
/// to be implied.
pub proof fn lemma_scenarios_cover_all_factors(place: int, k: int)
    requires
        0 <= place < SCENARIO_COUNT,
        0 <= k < data::FACTOR_COUNT,
    ensures
        crate::table::value_of(shock_rows(place), data::factor_names_view()[k]) == Some(
            shocks_of(place)[k],
        ),
{
    reveal_strlit("MARKET");
    reveal_strlit("USDINR");
    reveal_strlit("BRENT");
    reveal_strlit("GOLD_USD");
    reveal_strlit("RATES_PROXY");
    let names = data::factor_names_view();
    assert(names[0].len() == 6 && names[1].len() == 6 && names[2].len() == 5 && names[3].len() == 8
        && names[4].len() == 11);
    assert(names[0][0] == 'M' && names[1][0] == 'U');
    crate::table::lemma_value_of_rows_of(names, shocks_of(place), data::FACTOR_COUNT as int, k);
}

} // verus!
