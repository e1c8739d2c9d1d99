//! Experiments, their building blocks and their traces.

use drift_risk::cvar::{
    check_cap, classify_resolution_error, failed_outcome, optimal_outcome, plan_scenarios,
    presolve, presolve_outcome, resolve_cap, reweighted, run_cvar_rebalance, solution_checks,
    value_at_risk, CvarPortfolioStats, CvarRebalanceInput, CvarRebalanceOutput, CvarStart,
    FeasibilityFigures, Presolved, Remediation, SolutionFigures, Solved, SolverFailure,
};
use drift_risk::data::{
    align_prices, align_to_calendar, cache_file_name, cached_row, chart_url, data_quality,
    factor_names, market_data, return_pairs, sanitize_for_filename, series_from_chart,
    urlencode_ticker, weekly_prices, weekly_resample_indices, Chart, ChartFault, ChartResult,
    DataQuality, MarketData, NamedSeries, PriceSeries,
};
use drift_risk::dispatch::{attach_policy, plan_experiment, Experiment};
use drift_risk::double::Double;
use drift_risk::drift::{
    compute_risk_drift, drift_checks, drift_trace, pair_up, plan_risk_drift, regime_severity,
    resolve_baseline, BaselineTrace, DriftFigures, RegimeReading, RiskDriftInput, RiskDriftOutputs,
};
use drift_risk::error::ComputeError;
use drift_risk::experiments::{
    check_tickers, decomposition_checks, full_shock, gold_inr_moves, outputs_plain,
    outputs_with_note, plan_factor_shock, run_factor_shock, run_risk_decomposition, shock_checks,
    Contribution, CorrelationMatrix, FactorContribution, FactorShockInput, Holding,
    HoldingFigures, Portfolio, PricedShock, RiskDecompositionInput, RiskDecompositionOutput,
    RiskFigures, ShockValue,
};
use drift_risk::format::{format_inr, group_indian, WholeRupees};
use drift_risk::json::Json;
use drift_risk::message::{Message, Piece, Style};
use drift_risk::model::{
    default_window, fit_factor_model_with_config, fit_inputs,
    regime_conditional_factor_covariance, regime_rows, resolve_window, FactorModel, Frequency,
    ModelConfig, RegimeEstimate, StockEstimate,
};
use drift_risk::performance::{
    performance_checks, plan_performance, run_portfolio_performance, running_peaks,
    standalone_params, HoldingReturn, PerformanceFigures, PortfolioPerformanceInput,
    PortfolioPerformanceOutput, PERFORMANCE_NOTE,
};
use drift_risk::policy::{
    check_policy, evaluate_policy, max_factor_contribution_share, max_position_weight,
    run_policy_check, tail_count, worst_losses, Measured, PolicyCheckInput, PolicyFigures,
    PolicyResult, RiskPolicy, ScenarioLimit,
};
use drift_risk::portfolio::{hex_encode, portfolio_hash, WeightLine};
use drift_risk::regime::{
    assign_clusters, best_predecessor, check_observations, estimation_done, initial_centers,
    label, nearest_center, regime_of_label, report_fit, viterbi_path, RawFit, RegimeState,
    StoredRegimeState, SMOOTHING_NOTE,
};
use drift_risk::reverse_stress::{
    check_reachable, clip, default_factor_bounds, most_vulnerable, plan_reverse_stress,
    run_reverse_stress, severity_label, step_accepted, stress_checks, worst_corner, Bounds,
    Descent, ReverseStressInput, StressCheckFigures, StressFigures,
};
use drift_risk::scenarios::{all_scenarios, find_scenario};
use drift_risk::select::{first_min, last_max, sorted_order};
use drift_risk::store::RiskSnapshot;
use drift_risk::table::Table;
use drift_risk::trace::{
    build_data_window, data_as_of, engine_commit, engine_version, evidence_trace, model_params,
    new_trace_id, Compared, DataWindow, EvidenceTrace, InvariantCheck, ModelParams,
};

fn d(x: f64) -> Double {
    Double { bits: x.to_bits() }
}

fn f(x: Double) -> f64 {
    f64::from_bits(x.bits)
}

fn ds(values: &[f64]) -> Vec<Double> {
    values.iter().map(|&x| d(x)).collect()
}

fn fs(values: &[Double]) -> Vec<f64> {
    values.iter().map(|&x| f(x)).collect()
}

fn close(a: f64, b: f64) -> bool {
    (a - b).abs() < 1e-9
}

fn whole(x: f64) -> WholeRupees {
    let rounded = x.round();
    WholeRupees { negative: rounded < 0.0, digits: format!("{:.0}", rounded.abs()) }
}

fn words(message: &Message) -> String {
    message
        .pieces
        .iter()
        .map(|piece| match piece {
            Piece::Text(s) => s.clone(),
            Piece::Number(x, Style::Fixed(n)) => format!("{:.*}", *n as usize, f(*x)),
            Piece::Number(x, Style::Percent(n)) => format!("{:.*}", *n as usize, f(*x) * 100.0),
            Piece::Number(x, Style::Exponent(n)) => format!("{:.*e}", *n as usize, f(*x)),
            Piece::Number(x, Style::Debug) => format!("{:?}", f(*x)),
            Piece::Number(x, Style::Plain) => format!("{}", f(*x)),
            Piece::Number(x, Style::Rupees) => format_inr(&whole(f(*x))),
        })
        .collect()
}

fn failure(error: ComputeError) -> String {
    words(&error.message())
}

fn table(rows: &[(&str, f64)]) -> Table<Double> {
    let mut out = Table::new();
    for (name, value) in rows {
        out.set(name, d(*value));
    }
    out
}

fn portfolio(rows: &[(&str, f64)]) -> Portfolio {
    Portfolio {
        holdings: rows
            .iter()
            .map(|(ticker, weight)| Holding { ticker: ticker.to_string(), weight: d(*weight) })
            .collect(),
        total_value_inr: d(1_000_000.0),
    }
}

fn names(list: &[&str]) -> Vec<String> {
    list.iter().map(|s| s.to_string()).collect()
}

fn day(year: i32, month: u32, date: u32) -> i32 {
    let found = chrono::NaiveDate::from_ymd_opt(year, month, date).unwrap();
    chrono::Datelike::num_days_from_ce(&found)
}

fn quality() -> DataQuality {
    DataQuality {
        date_range_start: day(2020, 1, 1),
        date_range_end: day(2026, 1, 1),
        trading_days: 1500,
        per_series: vec![],
    }
}

// --- amounts ------------------------------------------------------------

#[test]
fn positive_value_with_lakh_grouping() {
    assert_eq!(format_inr(&whole(1_177_846.39)), "\u{20b9}11,77,846");
}

#[test]
fn negative_value_uses_unicode_minus() {
    assert_eq!(format_inr(&whole(-1_177_846.39)), "\u{2212}\u{20b9}11,77,846");
}

#[test]
fn value_under_lakh_still_groups_thousands() {
    assert_eq!(format_inr(&whole(3_000.0)), "\u{20b9}3,000");
}

#[test]
fn value_under_a_thousand_is_ungrouped() {
    assert_eq!(format_inr(&whole(100.0)), "\u{20b9}100");
}

#[test]
fn grouping_only_adds_commas() {
    for digits in ["", "7", "123", "1234", "12345", "1234567890"] {
        assert_eq!(group_indian(digits).replace(',', ""), digits);
    }
    assert_eq!(group_indian("1234567890"), "1,23,45,67,890");
}

// --- the portfolio's identity ---------------------------------------------

fn lines(rows: &[(&str, f64)]) -> Vec<WeightLine> {
    rows.iter()
        .map(|(ticker, weight)| WeightLine {
            ticker: ticker.to_string(),
            weight: format!("{weight}"),
        })
        .collect()
}

#[test]
fn hash_is_independent_of_holding_order() {
    let a = lines(&[("RELIANCE.NS", 0.5), ("HDFCBANK.NS", 0.5)]);
    let b = lines(&[("HDFCBANK.NS", 0.5), ("RELIANCE.NS", 0.5)]);
    assert_eq!(portfolio_hash(&a), portfolio_hash(&b));
}

#[test]
fn different_weights_hash_differently() {
    let a = lines(&[("RELIANCE.NS", 0.5)]);
    let b = lines(&[("RELIANCE.NS", 0.6)]);
    assert_ne!(portfolio_hash(&a), portfolio_hash(&b));
}

#[test]
fn the_hash_is_sha256_of_the_sorted_lines() {
    let mut hasher = <sha2::Sha256 as sha2::Digest>::new();
    sha2::Digest::update(&mut hasher, b"A:0.25,B:0.75");
    let expected: String =
        sha2::Digest::finalize(hasher).iter().map(|b| format!("{b:02x}")).collect();
    assert_eq!(portfolio_hash(&lines(&[("B", 0.75), ("A", 0.25)])), expected);
    assert_eq!(hex_encode(&[0, 15, 16, 255]), "000f10ff");
}

#[test]
fn a_hash_is_64_lowercase_hexadecimal_digits() {
    for holdings in [lines(&[]), lines(&[("A", 1.0)]), lines(&[("\u{20b9}", 0.5), ("B", 0.5)])] {
        let hash = portfolio_hash(&holdings);
        assert_eq!(hash.len(), 64);
        assert!(hash.chars().all(|c| c.is_ascii_digit() || ('a'..='f').contains(&c)));
    }
}

// --- models and regimes ---------------------------------------------------

fn square(fill: f64) -> Vec<Vec<Double>> {
    (0..5).map(|_| ds(&[fill; 5])).collect()
}

fn same_matrix(a: &[Vec<Double>], b: &[Vec<Double>]) -> bool {
    a.len() == b.len() && a.iter().zip(b).all(|(x, y)| fs(x) == fs(y))
}

#[test]
fn fallback_warning_fires_for_a_regime_with_too_few_observations() {
    let own = vec![square(1.0), square(2.0), square(3.0)];
    let full_window_f = square(9.0);
    let mut viterbi_sequence = vec![0u8; 60];
    viterbi_sequence.extend(vec![1u8; 25]);
    viterbi_sequence.extend(vec![2u8; 15]);
    assert_eq!(viterbi_sequence.len(), 100);
    let (per_regime, warnings) =
        regime_conditional_factor_covariance(&own, &viterbi_sequence, &full_window_f);
    assert_eq!(warnings.len(), 2, "expected exactly 2 fallback warnings, got {warnings:?}");
    assert!(
        warnings[0].contains("regime_1")
            && warnings[0].contains("Bear")
            && warnings[0].contains("25")
    );
    assert!(
        warnings[1].contains("regime_2")
            && warnings[1].contains("Crisis")
            && warnings[1].contains("15")
    );
    assert!(!same_matrix(&per_regime[0], &full_window_f));
    assert!(same_matrix(&per_regime[1], &full_window_f));
    assert!(same_matrix(&per_regime[2], &full_window_f));
}

#[test]
fn no_fallback_warnings_when_every_regime_has_enough_observations() {
    let own = vec![square(1.0), square(2.0), square(3.0)];
    let viterbi_sequence: Vec<u8> = (0..90).map(|i| (i / 30) as u8).collect();
    let (_per_regime, warnings) =
        regime_conditional_factor_covariance(&own, &viterbi_sequence, &square(9.0));
    assert!(warnings.is_empty(), "unexpected warnings: {warnings:?}");
    assert_eq!(regime_rows(&viterbi_sequence, 1), (30..60).collect::<Vec<usize>>());
}

fn estimate(x: f64) -> StockEstimate {
    StockEstimate {
        intercept: d(x),
        betas: ds(&[x; 5]),
        residual_variance_daily: d(x * x),
        r_squared: d(0.5),
    }
}

#[test]
fn a_model_holds_one_fit_per_ticker_over_the_window() {
    let config = ModelConfig::new(90, Frequency::Weekly);
    let tickers = names(&["ZEBRA", "APPLE"]);
    let model = fit_factor_model_with_config(
        &tickers,
        config,
        square(9.0),
        d(0.25),
        vec![estimate(1.0), estimate(2.0)],
        None,
    );
    assert_eq!((model.frequency, model.window), (Frequency::Weekly, 90));
    assert_eq!(model.tickers, tickers);
    let fitted: Vec<(&str, f64, usize)> =
        model.fits.iter().map(|x| (x.ticker.as_str(), f(x.intercept), x.n_obs)).collect();
    assert_eq!(fitted, vec![("ZEBRA", 1.0, 90), ("APPLE", 2.0, 90)]);
    assert_eq!(fs(&model.fits[1].betas), vec![2.0; 5]);
    assert_eq!(f(model.shrinkage_intensity), 0.25);
    assert!(same_matrix(&model.factor_covariance_daily, &square(9.0)));
    assert!(model.regime_state.is_none() && model.regime_factor_covariance_daily.is_none());
    assert!(model.regime_fallback_warnings.is_empty());
}

#[test]
fn a_split_model_is_in_the_covariance_of_the_current_regime() {
    let config = ModelConfig::new(100, Frequency::Daily).with_regime_covariance(true);
    let fitted = |current: u8| {
        let mut state = regime_state(current, "Bear", [0.0, 1.0, 0.0]);
        state.viterbi_sequence = (0..100).map(|i| u8::from(i >= 60)).collect();
        let own = vec![square(1.0), square(2.0), square(3.0)];
        let regimes = Some(RegimeEstimate { state, own });
        fit_factor_model_with_config(
            &names(&["AAA"]),
            config,
            square(9.0),
            d(0.25),
            vec![estimate(1.0)],
            regimes,
        )
    };
    let model = fitted(1);
    assert!(same_matrix(&model.factor_covariance_daily, &square(2.0)));
    assert_eq!(model.regime_state.unwrap().current_regime, 1);
    let per_regime = model.regime_factor_covariance_daily.unwrap();
    assert!(same_matrix(&per_regime[0], &square(1.0)));
    assert!(same_matrix(&per_regime[2], &square(9.0)));
    assert_eq!(model.regime_fallback_warnings.len(), 1);
    assert!(same_matrix(&fitted(2).factor_covariance_daily, &square(9.0)));
}

#[test]
fn errors_on_too_few_observations() {
    assert!(check_observations(10).is_err());
    assert!(check_observations(90).is_ok());
}

#[test]
fn states_are_reported_in_the_order_of_their_variances() {
    let fit = RawFit {
        initial: [d(0.2), d(0.3), d(0.5)],
        transition: [
            [d(0.8), d(0.1), d(0.1)],
            [d(0.2), d(0.7), d(0.1)],
            [d(0.3), d(0.3), d(0.4)],
        ],
        means: [d(1.0), d(2.0), d(3.0)],
        variances: [d(0.9), d(0.1), d(0.5)],
        last_probs: [d(0.6), d(0.3), d(0.1)],
        path: vec![0, 1, 2, 0, 0],
        log_likelihood: d(-4.0),
        n_iter: 7,
    };
    let (model, state) = report_fit(&fit);
    assert_eq!(fs(&model.variances), vec![0.1, 0.5, 0.9]);
    assert_eq!(fs(&model.means), vec![2.0, 3.0, 1.0]);
    assert_eq!(state.viterbi_sequence, vec![2, 0, 1, 2, 2]);
    assert_eq!(state.obs_count_per_regime, [1, 1, 3]);
    assert_eq!(fs(&state.smoothed_probs), vec![0.3, 0.1, 0.6]);
    assert_eq!(state.current_regime, 2);
    assert_eq!(state.current_label, "Crisis");
    assert_eq!(state.smoothing_note, SMOOTHING_NOTE);
}

#[test]
fn state_labels_are_variance_ordered_regardless_of_segment_order_in_the_data() {
    let mut seed: u64 = 42;
    let mut next = || {
        seed ^= seed << 13;
        seed ^= seed >> 7;
        seed ^= seed << 17;
        let unit = (seed >> 11) as f64 / (1u64 << 53) as f64;
        unit * 2.0 - 1.0
    };
    let low: Vec<f64> = (0..100).map(|_| next() * 0.003).collect();
    let med: Vec<f64> = (0..100).map(|_| next() * 0.012).collect();
    let high: Vec<f64> = (0..100).map(|_| next() * 0.035).collect();
    // The states are numbered as the segments come: high, low, medium.
    let segments = [&high, &low, &med];
    let mean = |x: &Vec<f64>| x.iter().sum::<f64>() / 100.0;
    let variance =
        |x: &Vec<f64>| x.iter().map(|r| (r - mean(x)) * (r - mean(x))).sum::<f64>() / 100.0;
    let fit = RawFit {
        initial: [d(1.0), d(0.0), d(0.0)],
        transition: [
            [d(0.99), d(0.01), d(0.0)],
            [d(0.0), d(0.99), d(0.01)],
            [d(0.0), d(0.0), d(1.0)],
        ],
        means: segments.map(|s| d(mean(s))),
        variances: segments.map(|s| d(variance(s))),
        last_probs: [d(0.0), d(0.0), d(1.0)],
        path: (0..300).map(|t| t / 100).collect(),
        log_likelihood: d(900.0),
        n_iter: 20,
    };
    let (model, state) = report_fit(&fit);
    let variances = fs(&model.variances);
    assert!(
        variances[0] < variances[1] && variances[1] < variances[2],
        "variances not ascending: {variances:?}"
    );
    assert_eq!(f(model.means[2]), mean(&high));
    assert_eq!(state.viterbi_sequence[0], 2);
    assert_eq!(state.viterbi_sequence[150], 0);
    assert_eq!(state.current_label, "Bear");
    assert_eq!(state.obs_count_per_regime, [100, 100, 100]);
}

#[test]
fn other_state_numbers_give_the_same_report() {
    let first = RawFit {
        initial: [d(0.2), d(0.3), d(0.5)],
        transition: [
            [d(0.8), d(0.1), d(0.1)],
            [d(0.2), d(0.7), d(0.1)],
            [d(0.3), d(0.3), d(0.4)],
        ],
        means: [d(1.0), d(2.0), d(3.0)],
        variances: [d(0.9), d(0.1), d(0.5)],
        last_probs: [d(0.6), d(0.3), d(0.1)],
        path: vec![0, 1, 2, 0],
        log_likelihood: d(-4.0),
        n_iter: 7,
    };
    let old_number = [2, 0, 1];
    let pick = |values: &[Double; 3]| old_number.map(|k: usize| values[k]);
    let second = RawFit {
        initial: pick(&first.initial),
        transition: old_number.map(|k| pick(&first.transition[k])),
        means: pick(&first.means),
        variances: pick(&first.variances),
        last_probs: pick(&first.last_probs),
        path: vec![1, 2, 0, 1],
        log_likelihood: d(-4.0),
        n_iter: 7,
    };
    let (model_a, state_a) = report_fit(&first);
    let (model_b, state_b) = report_fit(&second);
    assert_eq!(fs(&model_a.initial), fs(&model_b.initial));
    assert_eq!(fs(&model_a.means), fs(&model_b.means));
    for j in 0..3 {
        assert_eq!(fs(&model_a.transition[j]), fs(&model_b.transition[j]));
    }
    assert_eq!(state_a.viterbi_sequence, state_b.viterbi_sequence);
    assert_eq!(state_a.obs_count_per_regime, state_b.obs_count_per_regime);
    assert_eq!(state_a.current_label, state_b.current_label);
}

#[test]
fn stored_regimes_are_restored_under_known_names_only() {
    let stored = |name: &str| StoredRegimeState {
        current_regime: 1,
        current_label: name.to_string(),
        smoothed_probs: [d(0.1), d(0.8), d(0.1)],
        viterbi_sequence: vec![0, 1, 1],
        obs_count_per_regime: [1, 2, 0],
        log_likelihood: d(12.5),
        n_iter: 9,
    };
    let state = stored("Bear").restore().unwrap();
    assert_eq!((state.current_regime, state.current_label), (1, "Bear"));
    assert_eq!(state.viterbi_sequence, vec![0, 1, 1]);
    assert_eq!(state.smoothing_note, SMOOTHING_NOTE);
    assert_eq!(stored("Sideways").restore().unwrap_err(), "unknown regime label \"Sideways\"");
}

#[test]
fn the_path_follows_the_best_predecessors() {
    let path = viterbi_path(&[d(-3.0), d(-1.0), d(-2.0)], &vec![[0, 0, 0], [2, 0, 1], [1, 2, 0]]);
    assert_eq!(path, vec![1, 2, 1]);
    assert_eq!(best_predecessor(&[d(1.0), d(3.0), d(3.0)]), 1);
}

#[test]
fn clusters_start_at_quantiles_and_settle() {
    let centers = initial_centers(&ds(&[5.0, 1.0, 3.0, 2.0, 4.0, 6.0]));
    assert!(f(centers[0]) < f(centers[1]) && f(centers[1]) < f(centers[2]));
    assert_eq!(nearest_center(&[d(2.0), d(0.5), d(0.5)]), 1);
    let mut assignments = vec![0, 0];
    let distances = vec![[d(1.0), d(0.0), d(2.0)], [d(0.0), d(1.0), d(2.0)]];
    assert!(assign_clusters(&mut assignments, &distances));
    assert_eq!(assignments, vec![1, 0]);
    assert!(!assign_clusters(&mut assignments, &distances));
    assert!(!estimation_done(1, d(0.0)));
    assert!(estimation_done(2, d(1e-9)));
    assert!(!estimation_done(2, d(1.0)));
    assert!(estimation_done(500, d(1.0)));
    assert_eq!(label(0), "Bull");
    assert_eq!(regime_of_label("Bear"), Some(1));
    assert_eq!(regime_of_label("Sideways"), None);
}

#[test]
fn frequencies_have_their_windows() {
    assert_eq!(default_window(), 252);
    assert_eq!(Frequency::Weekly.default_window(), 156);
    assert_eq!(Frequency::Daily.annualization_factor(), 252);
    assert_eq!(resolve_window(Some(60), Frequency::Daily), 60);
    assert_eq!(resolve_window(None, Frequency::Weekly), 156);
    let config = ModelConfig::new(60, Frequency::Daily);
    assert!(config.with_regime_covariance(false).window == 60);
    assert!(Frequency::from_optional_str(Some("hourly")).is_err());
    assert_eq!(Frequency::from_optional_str(Some("weekly")).unwrap(), Frequency::Weekly);
    assert_eq!(Frequency::from_optional_str(None).unwrap(), Frequency::Daily);
}

// --- scenarios ------------------------------------------------------------

#[test]
fn all_scenarios_returns_exactly_three() {
    assert_eq!(all_scenarios().len(), 3);
}

#[test]
fn every_shock_key_is_a_valid_factor_name() {
    for scenario in all_scenarios() {
        assert_eq!(scenario.shocks_pct.entries.len(), 5);
        for entry in &scenario.shocks_pct.entries {
            assert!(
                factor_names().contains(&entry.name),
                "scenario {} has unknown factor key {}",
                scenario.id,
                entry.name
            );
        }
    }
}

#[test]
fn scenarios_are_found_by_name() {
    let covid = find_scenario("covid_crash").unwrap();
    assert_eq!(f(covid.shocks_pct.get("MARKET").unwrap()), -38.0);
    assert_eq!(f(covid.shocks_pct.get("USDINR").unwrap()), 8.5);
    let ilfs = find_scenario("ilfs_contagion").unwrap();
    assert_eq!(f(ilfs.shocks_pct.get("GOLD_USD").unwrap()), 2.5);
    let tantrum = find_scenario("taper_tantrum_2013").unwrap();
    assert_eq!(f(tantrum.shocks_pct.get("GOLD_USD").unwrap()), -18.0);
    assert!(failure(find_scenario("nope").unwrap_err()).contains("\"nope\""));
}

// --- traces ---------------------------------------------------------------

fn sample_data_window() -> DataWindow {
    DataWindow {
        frequency: Frequency::Daily,
        window_periods: 252,
        start: day(2025, 9, 16),
        end: day(2026, 9, 24),
    }
}

#[test]
fn data_as_of_is_the_data_windows_end_date_as_an_iso8601_utc_timestamp() {
    let value = data_as_of(&sample_data_window());
    assert_eq!(value, "2026-09-24T00:00:00Z");
    chrono::DateTime::parse_from_rfc3339(&value)
        .expect("data_as_of must be a valid RFC 3339 timestamp");
}

#[test]
fn engine_commit_is_never_empty() {
    assert!(!engine_commit(None).is_empty());
    assert!(!engine_commit(Some("")).is_empty());
    assert_eq!(engine_commit(Some("abc123")), "abc123");
}

#[test]
fn engine_commit_never_leaks_vergens_own_placeholder_string() {
    assert_ne!(engine_commit(Some("VERGEN_IDEMPOTENT_OUTPUT")), "VERGEN_IDEMPOTENT_OUTPUT");
    assert_eq!(engine_commit(Some("VERGEN_IDEMPOTENT_OUTPUT")), "unknown");
}

#[test]
fn new_trace_id_produces_distinct_ids() {
    let a = new_trace_id();
    let b = new_trace_id();
    assert_ne!(a, b);
    assert!(!a.is_empty());
    assert_eq!(a.len(), 36);
    assert_eq!(a.as_bytes()[14], b'4');
}

#[test]
fn checks_say_what_they_compared() {
    let good = InvariantCheck::approx_eq("sum", d(1.0), d(1.0), d(0.0), d(1e-9));
    assert!(good.passed);
    let bad = InvariantCheck::approx_eq("sum", d(1.0), d(1.5), d(0.5), d(1e-9));
    assert!(!bad.passed);
    assert_eq!(words(&bad.detail), "lhs=1.000000000000 rhs=1.500000000000 abs_diff=5.000e-1");
    let window = build_data_window(&vec![10, 11, 12, 13], 3, Frequency::Daily);
    assert_eq!((window.start, window.end), (11, 13));
    assert_eq!(engine_version(), "0.1.0");
}

// --- drift ----------------------------------------------------------------

fn regime_state(index: u8, name: &'static str, probs: [f64; 3]) -> RegimeState {
    RegimeState {
        current_regime: index,
        current_label: name,
        smoothed_probs: [d(probs[0]), d(probs[1]), d(probs[2])],
        viterbi_sequence: vec![index; 10],
        obs_count_per_regime: [10, 0, 0],
        log_likelihood: d(-1.0),
        n_iter: 5,
        smoothing_note: SMOOTHING_NOTE,
    }
}

fn decomposition(
    vol: f64,
    by_factor: &[(&str, f64, f64)],
    specific: f64,
) -> RiskDecompositionOutput {
    let betas: Vec<(&str, f64)> = by_factor.iter().map(|(n, c, _)| (*n, *c * 2.0)).collect();
    RiskDecompositionOutput {
        portfolio_vol_annualized: d(vol),
        portfolio_vol_annualized_pct: d(vol * 100.0),
        by_stock: vec![],
        by_factor: by_factor
            .iter()
            .map(|(n, c, share)| FactorContribution {
                factor: n.to_string(),
                contribution: d(*c),
                fraction_of_vol: d(*share),
                fraction_of_vol_pct: d(*share * 100.0),
            })
            .collect(),
        specific_risk_contribution: d(specific * vol),
        specific_risk_fraction_of_vol: d(specific),
        specific_risk_fraction_of_vol_pct: d(specific * 100.0),
        portfolio_betas: table(&betas),
        factor_correlation: CorrelationMatrix {
            factor_names: by_factor.iter().map(|(n, _, _)| n.to_string()).collect(),
            rows: vec![ds(&[1.0, 0.1]), ds(&[0.1, 1.0])],
        },
    }
}

fn decomposition_trace(
    output: &RiskDecompositionOutput,
    regime: &RegimeState,
    end: i32,
) -> EvidenceTrace {
    let mut window = sample_data_window();
    window.start = day(2025, 1, 1);
    window.end = end;
    evidence_trace(
        "RiskDecomposition",
        Json::object(),
        window,
        quality(),
        ModelParams {
            frequency: Frequency::Daily,
            window_periods: 252,
            factor_names: names(&["MARKET", "USDINR"]),
            shrinkage_intensity: d(0.03),
            annualization_factor: 252,
            regime_state: Some(regime.to_json()),
            regime_fallback_warnings: vec![],
            cap_source: None,
        },
        outputs_plain(output.to_json()),
        vec![],
        None,
    )
}

fn reading(regime: &RegimeState) -> RegimeReading {
    RegimeReading {
        label: regime.current_label.to_string(),
        smoothed_probs: regime.smoothed_probs,
    }
}

fn snapshot(vol: f64) -> RiskSnapshot {
    RiskSnapshot {
        id: "baseline-id".to_string(),
        created_at: "2026-01-01T00:00:00Z".to_string(),
        portfolio_hash: "hash".to_string(),
        experiment_type: "RiskDecomposition".to_string(),
        engine_version: "0.1.0".to_string(),
        regime_label: None,
        smoothed_probs: None,
        portfolio_vol_annualized: Some(d(vol)),
        cvar_historical: None,
        trace_json: String::new(),
        narration: None,
        suggestion: None,
        grounding_warnings: None,
    }
}

type Factors<'a> = &'a [(&'a str, f64, f64)];

fn drift_between(
    before: (f64, Factors, &RegimeState),
    after: (f64, Factors, &RegimeState),
) -> (RiskDriftOutputs, EvidenceTrace) {
    let old = decomposition(before.0, before.1, 0.2);
    let baseline = BaselineTrace {
        experiment: "RiskDecomposition".to_string(),
        outputs: outputs_plain(old.to_json()),
        regime: Some(reading(before.2)),
        data_end: day(2026, 1, 1),
        window_periods: 252,
        frequency: Frequency::Daily,
        shrinkage_intensity: d(0.03),
    };
    let stored = snapshot(before.0);
    let current = decomposition(after.0, after.1, 0.2);
    let end = day(2026, 1, 31);
    let trace = decomposition_trace(&current, after.2, end);
    let plan = plan_risk_drift(&stored, &baseline, &current, &Some(reading(after.2))).unwrap();
    let deltas = |rows: &Table<drift_risk::drift::Change>| -> Vec<Double> {
        rows.entries.iter().map(|e| d(f(e.value.after) - f(e.value.before))).collect()
    };
    let contribution_deltas = deltas(&plan.contributions);
    let vol_change = f(plan.vol.after) - f(plan.vol.before);
    let sum: f64 = fs(&contribution_deltas).iter().sum();
    let figures = DriftFigures {
        vol_change_abs: d(vol_change),
        vol_change_pct: d(vol_change / f(plan.vol.before) * 100.0),
        beta_deltas: deltas(&plan.betas),
        correlation_deltas: deltas(&plan.correlations),
        specific_share_delta: d(f(plan.specific_share.after) - f(plan.specific_share.before)),
        largest_share_delta: d(f(plan.largest_share.after) - f(plan.largest_share.before)),
        contribution_delta_sum: d(sum),
        contribution_delta_gap: d((sum - vol_change).abs()),
        contribution_deltas,
    };
    let output = compute_risk_drift(&stored, baseline.data_end, end, plan, &figures);
    let checks = drift_checks(&output, &figures);
    let drifted =
        drift_trace(trace, Json::object(), &output, checks, &stored, &baseline, None);
    (output, drifted)
}

#[test]
fn vol_change_abs_and_pct_are_computed_correctly() {
    let bull = regime_state(0, "Bull", [0.9, 0.1, 0.0]);
    let (output, trace) = drift_between(
        (0.10, &[("MARKET", 0.05, 0.5), ("USDINR", 0.03, 0.3)], &bull),
        (0.15, &[("MARKET", 0.08, 0.53), ("USDINR", 0.04, 0.27)], &bull),
    );
    assert!((f(output.vol_before) - 0.10).abs() < 1e-12);
    assert!((f(output.vol_after) - 0.15).abs() < 1e-12);
    assert!((f(output.vol_change_abs) - 0.05).abs() < 1e-9);
    assert!((f(output.vol_change_pct) - 50.0).abs() < 1e-6);
    assert!(output.vol_increased);
    assert_eq!(output.days_elapsed, 30);
    assert_eq!(output.largest_contribution_increase, "MARKET");
    assert_eq!(trace.experiment, "RiskDrift");
    assert_eq!(trace.parent_trace_ids, vec!["baseline-id".to_string()]);
}

#[test]
fn factor_contribution_delta_residual_is_recorded_not_errored_when_it_does_not_sum_exactly() {
    let bull = regime_state(0, "Bull", [0.9, 0.1, 0.0]);
    let (output, trace) = drift_between(
        (0.10, &[("MARKET", 0.05, 0.5), ("USDINR", 0.03, 0.3)], &bull),
        (0.15, &[("MARKET", 0.06, 0.4), ("USDINR", 0.04, 0.27)], &bull),
    );
    let euler_sum: f64 = output.factor_contribution_delta.entries.iter().map(|e| f(e.value)).sum();
    assert!((euler_sum - 0.02).abs() < 1e-9);
    assert!((f(output.vol_change_abs) - 0.05).abs() < 1e-9);
    let residual_invariant = trace
        .invariants
        .iter()
        .find(|i| i.name.contains("vol_change_abs"))
        .expect("residual invariant should always be recorded");
    assert!(!residual_invariant.passed);
}

#[test]
fn regime_changed_is_true_when_regimes_differ_false_when_same() {
    let bull = regime_state(0, "Bull", [0.9, 0.1, 0.0]);
    let bear = regime_state(1, "Bear", [0.1, 0.8, 0.1]);
    let base: Factors = &[("MARKET", 0.05, 0.5), ("USDINR", 0.03, 0.3)];
    let (output, _) = drift_between(
        (0.10, base, &bull),
        (0.15, &[("MARKET", 0.08, 0.53), ("USDINR", 0.04, 0.27)], &bear),
    );
    assert!(output.regime_changed);
    assert_eq!(output.regime_before, "Bull");
    assert_eq!(output.regime_after, "Bear");
    assert!(output.regime_worsened, "Bull -> Bear should count as worsened");

    let calmer = regime_state(0, "Bull", [0.85, 0.1, 0.05]);
    let (output_same, _) = drift_between(
        (0.10, base, &bull),
        (0.11, &[("MARKET", 0.055, 0.5), ("USDINR", 0.033, 0.3)], &calmer),
    );
    assert!(!output_same.regime_changed);
    assert!(!output_same.regime_worsened);
    assert_eq!(regime_severity("Crisis"), Some(2));
    assert_eq!(regime_severity("?"), None);
}

#[test]
fn risk_became_more_concentrated_uses_a_5pp_threshold() {
    let bull = regime_state(0, "Bull", [0.9, 0.1, 0.0]);
    let base: Factors = &[("MARKET", 0.05, 0.50), ("USDINR", 0.03, 0.30)];
    let (output_more, _) = drift_between(
        (0.10, base, &bull),
        (0.12, &[("MARKET", 0.072, 0.60), ("USDINR", 0.03, 0.25)], &bull),
    );
    assert!(output_more.risk_became_more_concentrated);
    let (output_similar, _) = drift_between(
        (0.10, base, &bull),
        (0.10, &[("MARKET", 0.052, 0.52), ("USDINR", 0.03, 0.30)], &bull),
    );
    assert!(!output_similar.risk_became_more_concentrated);
}

fn drift_input(id: Option<&str>) -> RiskDriftInput {
    RiskDriftInput {
        baseline_snapshot_id: id.map(|s| s.to_string()),
        window: None,
        frequency: None,
    }
}

#[test]
fn no_baseline_snapshot_id_with_no_prior_snapshot_returns_no_prior_snapshot_error() {
    let result = resolve_baseline(&drift_input(None), "empty-hash", None);
    match result {
        Err(ComputeError::NoPriorSnapshot(message)) => {
            assert!(words(&message).contains("No prior snapshot found"));
        }
        other => panic!("expected ComputeError::NoPriorSnapshot, got {other:?}"),
    }
    assert!(resolve_baseline(&drift_input(Some("gone")), "hash", None).is_err());
    assert!(resolve_baseline(&drift_input(None), "hash", Some(snapshot(0.1))).is_ok());
}

#[test]
fn pairs_cover_both_sides_of_a_change() {
    let pairs = pair_up(&table(&[("A", 1.0), ("B", 2.0)]), &table(&[("B", 5.0), ("C", 3.0)]));
    let rows: Vec<(String, f64, f64)> = pairs
        .entries
        .iter()
        .map(|e| (e.name.clone(), f(e.value.before), f(e.value.after)))
        .collect();
    assert_eq!(
        rows,
        vec![
            ("A".to_string(), 1.0, 0.0),
            ("B".to_string(), 2.0, 5.0),
            ("C".to_string(), 0.0, 3.0)
        ]
    );
}

// --- shocks ---------------------------------------------------------------

fn shock_input(shocks: &[(&str, f64)], propagate: bool) -> FactorShockInput {
    FactorShockInput {
        portfolio: portfolio(&[("AAA", 0.6), ("BBB", 0.4)]),
        shocks_pct: table(shocks),
        propagate,
        linear_approximation: false,
        frequency: Frequency::Daily,
        window: Some(252),
    }
}

fn shock_value(pct: f64) -> ShockValue {
    ShockValue { simple: d(pct / 100.0), log: d((1.0 + pct / 100.0).ln()) }
}

fn priced(unknown: usize, known: usize) -> PricedShock {
    let holding = HoldingFigures {
        value_inr: d(1.0),
        log_return: d(-0.1),
        simple_return: d(-0.1),
        pnl_inr: d(-0.1),
    };
    let other = HoldingFigures { ..holding };
    PricedShock {
        implied: (0..unknown).map(|_| shock_value(1.0)).collect(),
        coefficients: (0..unknown).map(|_| ds(&vec![0.5; known])).collect(),
        per_holding: vec![holding, other],
        portfolio_pnl_inr: d(-1234.6),
        portfolio_log_pnl_inr: d(-1200.0),
        attribution: ds(&[0.0; 5]),
    }
}

#[test]
fn conditional_propagation_is_noop_when_all_factors_given() {
    let input = shock_input(
        &[
            ("MARKET", -12.0),
            ("USDINR", 2.0),
            ("BRENT", 20.0),
            ("GOLD_USD", 5.0),
            ("RATES_PROXY", 1.0),
        ],
        true,
    );
    let plan = plan_factor_shock(&input, &names(&["AAA", "BBB"]), Some(2)).unwrap();
    assert!(plan.unknown.is_empty() && !plan.conditioned);
    let given: Vec<ShockValue> = plan.known_pct.iter().map(|&p| shock_value(f(p))).collect();
    let output = run_factor_shock(
        &input,
        &plan,
        &given,
        &priced(0, 5),
        &None,
        &whole(-1234.6),
        shock_value(0.0),
        &square(1.0),
    );
    assert!(output.implied_shocks.entries.is_empty());
    assert_eq!(output.formatted_pnl_inr, "\u{2212}\u{20b9}1,235");
    let order = full_shock(&plan, &ds(&[1.0, 2.0, 3.0, 4.0, 5.0]), &vec![]);
    assert_eq!(fs(&order), vec![1.0, 2.0, 3.0, 4.0, 5.0]);
}

#[test]
fn factor_shock_crisis_comparison_present_when_current_regime_is_not_crisis() {
    let input = shock_input(&[("MARKET", -12.0), ("BRENT", 20.0)], true);
    let plan = plan_factor_shock(&input, &names(&["AAA", "BBB"]), Some(0)).unwrap();
    assert!(plan.crisis_rerun && plan.conditioned);
    let given: Vec<ShockValue> = plan.known_pct.iter().map(|&p| shock_value(f(p))).collect();
    let output = run_factor_shock(
        &input,
        &plan,
        &given,
        &priced(3, 2),
        &Some(priced(3, 2)),
        &whole(-1.0),
        shock_value(0.0),
        &square(1.0),
    );
    assert!(output.crisis_comparison.is_some());
    assert!(output.crisis_comparison_note.is_some());
    assert_eq!(output.implied_shocks.entries.len(), 3);
    assert_eq!(output.given_shocks.entries.len(), 2);
}

#[test]
fn factor_shock_crisis_comparison_absent_when_current_regime_is_crisis() {
    let input = shock_input(&[("MARKET", -12.0), ("BRENT", 20.0)], true);
    let plan = plan_factor_shock(&input, &names(&["AAA", "BBB"]), Some(2)).unwrap();
    assert!(!plan.crisis_rerun);
    let given: Vec<ShockValue> = plan.known_pct.iter().map(|&p| shock_value(f(p))).collect();
    let output = run_factor_shock(
        &input,
        &plan,
        &given,
        &priced(3, 2),
        &None,
        &whole(-1.0),
        shock_value(0.0),
        &square(1.0),
    );
    assert!(output.crisis_comparison.is_none());
    assert!(output.crisis_comparison_note.is_none());
}

#[test]
fn gold_in_rupees_moves_with_gold_and_with_the_dollar() {
    let moves = |shocks: &[(&str, f64)], propagate: bool| {
        let input = shock_input(shocks, propagate);
        let plan = plan_factor_shock(&input, &names(&["AAA", "BBB"]), Some(2)).unwrap();
        let given: Vec<ShockValue> = plan.known_pct.iter().map(|&p| shock_value(f(p))).collect();
        let mut figures = priced(plan.unknown.len(), plan.known.len());
        figures.implied = plan.unknown.iter().map(|&k| shock_value(10.0 + k as f64)).collect();
        let (gold, dollar) = gold_inr_moves(&input, &plan, &given, &figures);
        (f(gold), f(dollar))
    };
    let log = |pct: f64| f(shock_value(pct).log);
    assert_eq!(moves(&[("GOLD_USD", 5.0), ("USDINR", 2.0)], true), (log(5.0), log(2.0)));
    assert_eq!(moves(&[("GOLD_USD", 5.0)], true), (log(5.0), log(11.0)));
    assert_eq!(moves(&[("USDINR", 2.0), ("BRENT", 1.0)], true), (log(13.0), log(2.0)));
    assert_eq!(moves(&[("MARKET", -12.0)], true), (log(13.0), log(11.0)));
    assert_eq!(moves(&[("USDINR", 2.0)], false), (0.0, log(2.0)));
}

#[test]
fn datasets_of_equal_columns_are_rectangular() {
    let even = market(&[("AAA", vec![0.01; 4]), ("BBB", vec![0.0; 4])]);
    assert!(even.is_rectangular());
    assert!(!market(&[("AAA", vec![0.01; 4]), ("BBB", vec![0.0; 3])]).is_rectangular());
    let mut short = market(&[("AAA", vec![0.01; 4])]);
    short.factor_returns[4].values.pop();
    assert!(!short.is_rectangular());
    short.dates = vec![];
    assert!(!short.is_rectangular());
}

#[test]
fn shocks_and_decompositions_are_checked_against_their_sums() {
    let off = compared(1.0, 3.0);
    let even = compared(2.0, 2.0);
    let checks = shock_checks(false, even, off, off, d(0.5));
    let passed: Vec<bool> = checks.iter().map(|c| c.passed).collect();
    assert_eq!(passed, vec![true, false]);
    assert_eq!(checks[0].name, "sum(per_holding.pnl_inr) == portfolio_pnl_inr");
    let checks = shock_checks(true, even, even, off, d(0.5));
    assert_eq!(checks.len(), 3);
    assert!(checks[1].passed && !checks[2].passed);
    assert_eq!(
        checks[2].name,
        "linear_approximation: portfolio_log_pnl_inr == portfolio_pnl_inr"
    );
    let checks = decomposition_checks(even, compared(0.1, 0.1 + 1e-8));
    assert!(checks[0].passed && !checks[1].passed);
    assert_eq!(f(checks[1].tolerance), 1e-9);
}

#[test]
fn unknown_factors_and_other_tickers_are_refused() {
    let input = shock_input(&[("SILVER", -12.0)], true);
    let reason = failure(plan_factor_shock(&input, &names(&["AAA", "BBB"]), None).unwrap_err());
    assert!(reason.contains("SILVER"));
    let input = shock_input(&[("MARKET", -12.0)], false);
    assert!(plan_factor_shock(&input, &names(&["BBB", "AAA"]), None).is_err());
    assert!(check_tickers(&input.portfolio, &names(&["AAA", "BBB"])).is_ok());
}

#[test]
fn decompositions_keep_the_order_of_holdings_and_factors() {
    let input = RiskDecompositionInput {
        portfolio: portfolio(&[("AAA", 0.6), ("BBB", 0.4)]),
        frequency: Frequency::Daily,
        window: Some(252),
    };
    let part = |x: f64| Contribution { amount: d(x), fraction: d(x / 0.2), fraction_pct: d(x * 5e2) };
    let figures = RiskFigures {
        vol: d(0.2),
        vol_pct: d(20.0),
        stocks: vec![part(0.15), part(0.05)],
        factors: vec![part(0.1), part(0.02), part(0.01), part(0.03), part(0.01)],
        specific: part(0.03),
        betas: ds(&[1.0, 0.1, 0.2, 0.3, 0.4]),
        correlation: square(1.0),
    };
    let output = run_risk_decomposition(&input, &names(&["AAA", "BBB"]), &figures).unwrap();
    assert_eq!(output.by_stock[1].ticker, "BBB");
    assert!(close(f(output.by_stock[1].contribution), 0.05));
    assert_eq!(output.by_factor[3].factor, "GOLD_USD");
    assert_eq!(f(output.portfolio_betas.get("RATES_PROXY").unwrap()), 0.4);
    assert!(run_risk_decomposition(&input, &names(&["AAA"]), &figures).is_err());
}

// --- policies -------------------------------------------------------------

const ACTUAL_VOL: f64 = 0.1834;

fn policy_portfolio() -> Portfolio {
    portfolio(&[("AAA", 0.75), ("BBB", 0.25)])
}

const SHARES: [f64; 5] = [0.61, 0.05, -0.02, 0.11, 0.07];

fn evaluated(policy: &RiskPolicy) -> PolicyResult {
    let measured = |actual: f64, limit: Option<Double>| Measured {
        actual: d(actual),
        distance: d(actual - limit.map_or(0.0, f)),
    };
    let figures = PolicyFigures {
        vol: measured(ACTUAL_VOL, policy.max_vol_annualized),
        cvar_95: measured(0.021, policy.max_cvar_95),
        factor_shares: ds(&SHARES),
        share_distance: d(0.61 - policy.max_factor_contribution_share.map_or(0.0, f)),
        weight_distance: d(0.75 - policy.max_position_weight.map_or(0.0, f)),
        scenario_losses: vec![],
    };
    evaluate_policy(policy, &policy_portfolio(), &figures)
}

#[test]
fn max_vol_annualized_breach_reports_the_correct_magnitude() {
    let policy =
        RiskPolicy { max_vol_annualized: Some(d(ACTUAL_VOL - 0.02)), ..Default::default() };
    let result = evaluated(&policy);
    assert!(!result.all_passed);
    assert_eq!(result.breach_count, 1);
    let check = &result.checks[0];
    assert_eq!(check.rule, "max_vol_annualized");
    assert!(!check.passed);
    assert!((f(check.breach_magnitude) - 0.02).abs() < 1e-9);
    assert!(words(&check.evidence).contains("volatility"));
}

#[test]
fn max_position_weight_breach_reports_the_correct_magnitude() {
    let actual_max_weight = f(max_position_weight(&policy_portfolio()));
    assert!((actual_max_weight - 0.75).abs() < 1e-12);
    let policy = RiskPolicy { max_position_weight: Some(d(0.20)), ..Default::default() };
    let result = evaluated(&policy);
    assert!(!result.all_passed);
    let check = result.checks.iter().find(|c| c.rule == "max_position_weight").unwrap();
    assert!(!check.passed);
    assert!((f(check.breach_magnitude) - 0.55).abs() < 1e-9);
}

#[test]
fn max_factor_contribution_share_breach_is_detected() {
    let (dominant_factor, actual_share) = max_factor_contribution_share(&ds(&SHARES));
    let policy = RiskPolicy {
        max_factor_contribution_share: Some(d(f(actual_share) - 0.05)),
        ..Default::default()
    };
    let result = evaluated(&policy);
    assert!(!result.all_passed);
    let check = result.checks.iter().find(|c| c.rule == "max_factor_contribution_share").unwrap();
    assert!(!check.passed);
    assert!((f(check.breach_magnitude) - 0.05).abs() < 1e-9);
    assert!(words(&check.evidence).contains(&dominant_factor));
}

#[test]
fn all_rules_pass_when_limits_are_loose() {
    let policy = RiskPolicy {
        max_vol_annualized: Some(d(10.0)),
        max_cvar_95: Some(d(10.0)),
        max_factor_contribution_share: Some(d(1.0)),
        max_position_weight: Some(d(1.0)),
        max_turnover: None,
        max_loss_under_scenarios: None,
    };
    let result = evaluated(&policy);
    assert!(result.all_passed);
    assert_eq!(result.breach_count, 0);
    assert!(result.most_severe_breach.is_none());
    assert_eq!(result.checks.len(), 4);
}

#[test]
fn a_policy_without_rules_is_kept() {
    let result = evaluated(&RiskPolicy::default());
    assert!(result.all_passed);
    assert!(result.checks.is_empty());
}

#[test]
fn most_severe_breach_is_the_one_with_the_largest_breach_magnitude() {
    let policy = RiskPolicy {
        max_vol_annualized: Some(d(ACTUAL_VOL - 0.01)),
        max_position_weight: Some(d(0.20)),
        ..Default::default()
    };
    let result = evaluated(&policy);
    assert_eq!(result.breach_count, 2);
    let most_severe = result.most_severe_breach.expect("expected a most severe breach");
    assert_eq!(result.checks[most_severe].rule, "max_position_weight");
}

fn market(series: &[(&str, Vec<f64>)]) -> MarketData {
    let n = series[0].1.len();
    let tickers: Vec<String> = series.iter().map(|(t, _)| t.to_string()).collect();
    market_data(
        (0..=n as i32).map(|i| day(2024, 1, 1) + i).collect(),
        &tickers,
        series.iter().map(|(_, values)| ds(values)).collect(),
        (0..5).map(|k| ds(&vec![0.001 * (k + 1) as f64; n])).collect(),
        quality(),
    )
}

#[test]
fn policies_name_known_scenarios_and_a_policy_check_reports_losses() {
    let data = market(&[("AAA", vec![0.01; 4]), ("BBB", vec![0.0; 4])]);
    let tickers = names(&["AAA", "BBB"]);
    let wrong = RiskPolicy {
        max_loss_under_scenarios: Some(vec![ScenarioLimit {
            scenario_id: "nope".to_string(),
            max_loss_pct: d(0.1),
        }]),
        ..Default::default()
    };
    assert!(check_policy(&wrong, &policy_portfolio(), &tickers, &data).is_err());
    let right = RiskPolicy {
        max_loss_under_scenarios: Some(vec![ScenarioLimit {
            scenario_id: "covid_crash".to_string(),
            max_loss_pct: d(0.1),
        }]),
        ..Default::default()
    };
    assert!(check_policy(&right, &policy_portfolio(), &tickers, &data).is_ok());
    let input = PolicyCheckInput { policy: right, window: None, frequency: None };
    let figures = PolicyFigures {
        vol: Measured { actual: d(0.2), distance: d(0.0) },
        cvar_95: Measured { actual: d(0.03), distance: d(0.0) },
        factor_shares: ds(&SHARES),
        share_distance: d(0.0),
        weight_distance: d(0.0),
        scenario_losses: vec![Measured { actual: d(0.3), distance: d(0.2) }],
    };
    let output = run_policy_check(&input, &policy_portfolio(), "Bull", &figures);
    assert_eq!(output.policy_result.breach_count, 1);
    assert_eq!(output.policy_result.checks[0].rule, "max_loss_under_scenarios[covid_crash]");
    assert_eq!(f(output.scenario_losses.get("covid_crash").unwrap()), 0.3);
    assert_eq!(f(output.max_factor_share), 0.61);
    let json = output.to_json();
    assert!(json.at_path(&["policy_result", "most_severe_breach", "rule"]).is_some());
    assert_eq!(fs(&worst_losses(&ds(&[0.1, 0.5, -0.2]), 2)), vec![0.5, 0.1]);
}

// --- rebalancing ----------------------------------------------------------

fn rebalance_input(cap: Option<f64>) -> CvarRebalanceInput {
    CvarRebalanceInput {
        portfolio: portfolio(&[("CRASH", 0.5), ("SAFE", 0.5)]),
        confidence_level: d(0.95),
        per_name_cap: cap.map(d),
        turnover_limit: d(1.5),
        commission_bps: d(10.0),
        frequency: Frequency::Daily,
        window: None,
        policy: None,
    }
}

fn start(policy: Option<PolicyResult>) -> CvarStart {
    CvarStart {
        scenario_count: 100,
        tail_scenario_count: 5,
        stats_before: CvarPortfolioStats {
            historical_var: d(0.01),
            historical_cvar: d(0.16),
        },
        regime_vol_before: None,
        policy_result_before: policy,
    }
}

#[test]
fn cap_too_tight_for_full_investment_is_reported_as_infeasible() {
    let input = rebalance_input(Some(0.2));
    let (output, invariants) = stopped(&input, start(None));
    assert_eq!(output.status, "infeasible");
    assert!(output.diagnostics.is_some());
    assert!(output.weights_after.is_none());
    assert!(invariants.iter().any(|i| !i.passed));
}

fn feasibility(input: &CvarRebalanceInput) -> FeasibilityFigures {
    let cap = f(resolve_cap(input.per_name_cap).0);
    let weights = fs(&input.portfolio.weights());
    let sells: f64 = weights.iter().map(|w| (w - cap).max(0.0)).sum();
    FeasibilityFigures {
        capacity: d(cap * weights.len() as f64),
        required_sells: d(sells),
        required_turnover: d(2.0 * sells),
        lenient_limit: d(f(input.turnover_limit) + 1e-9),
    }
}

fn stopped(
    input: &CvarRebalanceInput,
    start: CvarStart,
) -> (CvarRebalanceOutput, Vec<InvariantCheck>) {
    match presolve_outcome(input, start, &feasibility(input)).unwrap() {
        Presolved::Stopped(output, checks) => (output, checks),
        Presolved::Go(_) => panic!("the obstacle was not found"),
    }
}

#[test]
fn an_obstacle_gives_a_result_with_one_failed_check() {
    let returns = [0.5_f64.ln(), 0.75_f64.ln(), 0.0, 0.0, 0.0, 0.0];
    let data = market(&[("A", returns.to_vec()), ("B", vec![0.0; 6])]);
    let input = CvarRebalanceInput {
        portfolio: portfolio(&[("A", 0.5), ("B", 0.5)]),
        confidence_level: d(0.75),
        ..rebalance_input(Some(0.25))
    };
    let series = plan_scenarios(&data, &input).unwrap();
    let losses: Vec<f64> = (0..series[0].len())
        .map(|t| series.iter().map(|s| 0.5 * (1.0 - f(s[t]).exp())).sum())
        .collect();
    let count = tail_count((losses.len() as f64 * 0.25).round() as usize);
    let worst = fs(&worst_losses(&ds(&losses), count));
    let (output, checks) = stopped(
        &input,
        CvarStart {
            scenario_count: losses.len(),
            tail_scenario_count: count,
            stats_before: CvarPortfolioStats {
                historical_var: value_at_risk(&ds(&losses), count),
                historical_cvar: d(worst.iter().sum::<f64>() / worst.len() as f64),
            },
            ..start(None)
        },
    );
    assert_eq!(output.status, "infeasible");
    assert_eq!(output.scenario_count, 6);
    assert_eq!(output.tail_scenario_count, 2);
    assert!(close(f(output.stats_before.historical_var), 0.125));
    assert!(close(f(output.stats_before.historical_cvar), 0.1875));
    assert!(output.weights_after.is_none() && output.stats_after.is_none());
    assert!(output.turnover.is_none() && output.lp_objective_cvar.is_none());
    assert!(output.commission_cost_inr.is_none());
    assert_eq!(f(output.weights_before.get("A").unwrap()), 0.5);
    assert_eq!(checks.len(), 1);
    assert!(!checks[0].passed);
    assert_eq!(checks[0].name, "pre-solve: per_name_cap * n_stocks >= 1");
    assert_eq!(f(checks[0].tolerance), 1e-9);
    let sentence = words(&output.diagnostics.unwrap());
    assert!(sentence.starts_with("per_name_cap (0.25) * n_stocks (2) = 0.5000 < 1"), "{sentence}");
    assert_eq!(words(&checks[0].detail), sentence);
}

#[test]
fn too_little_turnover_is_an_obstacle_too() {
    let input = CvarRebalanceInput {
        portfolio: portfolio(&[("A", 0.9), ("B", 0.1)]),
        turnover_limit: d(0.5),
        ..rebalance_input(Some(0.6))
    };
    let (output, checks) = stopped(&input, start(None));
    assert_eq!(output.status, "infeasible");
    assert_eq!(checks.len(), 1);
    assert!(checks[0].name.starts_with("pre-solve: minimum turnover") && !checks[0].passed);
    assert!(presolve(&input, &feasibility(&input)).is_some());
    let roomy = CvarRebalanceInput { turnover_limit: d(0.6), ..input };
    assert!(presolve(&roomy, &feasibility(&roomy)).is_none());
    let go = presolve_outcome(&roomy, start(None), &feasibility(&roomy)).unwrap();
    assert!(matches!(go, Presolved::Go(CvarStart { scenario_count: 100, .. })));
}

#[test]
fn caps_outside_their_range_are_refused_before_the_solve() {
    for cap in [-0.1, 0.0, 1.5] {
        let input = rebalance_input(Some(cap));
        let refused = presolve_outcome(&input, start(None), &feasibility(&input)).unwrap_err();
        assert!(matches!(refused, ComputeError::InvalidInput(_)));
        assert!(failure(refused).contains("per_name_cap must be in (0, 1]"));
    }
    let input = rebalance_input(Some(1.0));
    assert!(presolve_outcome(&input, start(None), &feasibility(&input)).is_ok());
}

#[test]
fn failed_solves_give_a_result_with_one_failed_check() {
    let input = rebalance_input(Some(0.9));
    let (output, checks) = failed_outcome(&input, start(None), &SolverFailure::Infeasible);
    assert_eq!(output.status, "infeasible");
    assert_eq!(checks.len(), 1);
    assert_eq!(checks[0].name, "solver status == optimal");
    assert!(!checks[0].passed && f(checks[0].tolerance) == 0.0);
    let other = SolverFailure::Other("numerical trouble".to_string());
    let (output, checks) = failed_outcome(&input, start(None), &other);
    assert_eq!(output.status, "solver_error");
    assert_eq!(words(&output.diagnostics.unwrap()), "solver error: numerical trouble");
    assert_eq!(words(&checks[0].detail), "solver error: numerical trouble");
    assert!(output.weights_after.is_none() && output.remediation_iterations == 0);
}

fn solution_figures() -> SolutionFigures {
    SolutionFigures {
        weight_sum: d(1.0),
        weight_gap: d(0.0),
        lenient_limit: d(1.5 + 1e-6),
        objective_gap: d(0.0),
    }
}

#[test]
fn solutions_are_reported_with_their_three_checks() {
    let input = rebalance_input(None);
    let (output, checks) =
        optimal_outcome(&input, start(None), &solved(0.95), &solution_figures());
    assert_eq!(output.status, "optimal");
    assert!(output.diagnostics.is_none() && output.policy_result_after.is_none());
    assert_eq!(f(output.turnover.unwrap()), 1.0);
    assert_eq!(checks.len(), 3);
    assert!(checks.iter().all(|c| c.passed));
    assert_eq!(checks[0].name, "sum(weights_after) == 1");
    assert_eq!(words(&checks[1].detail), "turnover=1.000000 turnover_limit=1.5");
}

#[test]
fn cvar_rebalance_with_policy_does_not_care_about_ticker_alphabetical_order() {
    let input = CvarRebalanceInput {
        portfolio: portfolio(&[("ZEBRA", 0.5), ("MANGO", 0.3), ("APPLE", 0.2)]),
        confidence_level: d(0.95),
        per_name_cap: Some(d(0.9)),
        turnover_limit: d(0.5),
        commission_bps: d(10.0),
        frequency: Frequency::Daily,
        window: None,
        policy: Some(RiskPolicy { max_vol_annualized: Some(d(0.0001)), ..Default::default() }),
    };
    let policy = input.policy.as_ref().unwrap();
    let data = market(&[
        ("ZEBRA", vec![0.01; 4]),
        ("MANGO", vec![0.0; 4]),
        ("APPLE", vec![-0.01; 4]),
    ]);
    let hold = |weights: &[f64], vol: f64| {
        let held = reweighted(&input.portfolio, &ds(weights));
        assert_eq!(held.tickers(), names(&["ZEBRA", "MANGO", "APPLE"]));
        assert_eq!(fs(&held.weights()), weights);
        assert!(check_policy(policy, &held, &input.portfolio.tickers(), &data).is_ok());
        let figures = PolicyFigures {
            vol: Measured { actual: d(vol), distance: d(vol - 0.0001) },
            cvar_95: Measured { actual: d(0.021), distance: d(0.021) },
            factor_shares: ds(&SHARES),
            share_distance: d(0.61),
            weight_distance: d(0.5),
            scenario_losses: vec![],
        };
        evaluate_policy(policy, &held, &figures)
    };
    let before = hold(&[0.5, 0.3, 0.2], 0.2);
    let after = |confidence: f64| Solved { weights: ds(&[0.4, 0.3, 0.3]), ..solved(confidence) };
    let mut course = Remediation::start(after(0.95), hold(&[0.4, 0.3, 0.3], 0.15));
    while course.wants_retry() {
        let next = f(course.next_confidence(d(f(course.solved.confidence_level) + 0.01)));
        course.retry_solved(after(next), hold(&[0.4, 0.3, 0.3], 0.15));
    }
    let (output, _) = run_cvar_rebalance(&input, start(Some(before)), course, &solution_figures());
    assert_eq!(output.status, "optimal");
    assert_eq!(f(output.weights_after.unwrap().get("ZEBRA").unwrap()), 0.4);
    let before = output.policy_result_before.expect("policy_result_before should be Some");
    assert!(!before.all_passed, "a near-zero vol limit should always breach");
}

#[test]
fn cvar_rebalance_with_policy_reports_pre_rebalance_breach() {
    let limit = ACTUAL_VOL - 0.01;
    let input = CvarRebalanceInput {
        portfolio: policy_portfolio(),
        confidence_level: d(0.95),
        per_name_cap: Some(d(0.9)),
        turnover_limit: d(0.5),
        commission_bps: d(10.0),
        frequency: Frequency::Daily,
        window: None,
        policy: Some(RiskPolicy { max_vol_annualized: Some(d(limit)), ..Default::default() }),
    };
    let figures = |vol: f64| PolicyFigures {
        vol: Measured { actual: d(vol), distance: d(vol - limit) },
        cvar_95: Measured { actual: d(0.021), distance: d(0.021) },
        factor_shares: ds(&SHARES),
        share_distance: d(0.61),
        weight_distance: d(0.75),
        scenario_losses: vec![],
    };
    let policy = input.policy.as_ref().unwrap();
    let before = evaluate_policy(policy, &input.portfolio, &figures(ACTUAL_VOL));
    let after = evaluate_policy(policy, &input.portfolio, &figures(limit - 0.001));
    let course = Remediation::start(solved(0.95), after);
    assert!(!course.wants_retry());
    let (output, _) = run_cvar_rebalance(&input, start(Some(before)), course, &solution_figures());

    let before = output.policy_result_before.expect("policy_result_before should be Some");
    assert!(!before.all_passed);
    assert_eq!(before.breach_count, 1);
    assert_eq!(before.checks.len(), 1);
    assert_eq!(before.checks[0].rule, "max_vol_annualized");
    assert!((f(before.checks[0].breach_magnitude) - 0.01).abs() < 1e-9);
    assert!(output.policy_result_after.expect("policy_result_after should be Some").all_passed);
}

fn solved(confidence: f64) -> Solved {
    let count = tail_count((100.0 * (1.0 - confidence)).round() as usize);
    Solved {
        confidence_level: d(confidence),
        tail_scenario_count: count,
        stats_before: CvarPortfolioStats {
            historical_var: d(0.01),
            historical_cvar: d(0.8 / count as f64),
        },
        weights: ds(&[0.0, 1.0]),
        stats: CvarPortfolioStats { historical_var: d(0.004), historical_cvar: d(0.005) },
        turnover: d(1.0),
        commission_cost_inr: d(1000.0),
        lp_objective_cvar: d(0.005),
        regime_vol: Some(d(0.1)),
    }
}

#[test]
fn remediation_stops_after_five_attempts_or_success() {
    let tight =
        RiskPolicy { max_vol_annualized: Some(d(ACTUAL_VOL - 0.01)), ..Default::default() };
    let loose = RiskPolicy { max_vol_annualized: Some(d(1.0)), ..Default::default() };
    let mut course = Remediation::start(solved(0.95), evaluated(&tight));
    let mut tries = 0;
    while course.wants_retry() {
        tries += 1;
        let next = f(course.next_confidence(d(0.95 + 0.01 * tries as f64)));
        assert!(next <= 0.999);
        course.retry_solved(solved(next), evaluated(&tight));
    }
    assert_eq!(tries, 5);
    assert_eq!(course.remaining(), names(&["max_vol_annualized"]));
    assert!(course.resolved().is_empty());

    let mut course = Remediation::start(solved(0.95), evaluated(&tight));
    course.retry_solved(solved(0.96), evaluated(&loose));
    assert!(!course.wants_retry());
    assert_eq!(course.resolved(), names(&["max_vol_annualized"]));
    let input = rebalance_input(None);
    let (output, _) = run_cvar_rebalance(&input, start(None), course, &solution_figures());
    assert_eq!(output.status, "optimal");
    assert_eq!(output.remediation_iterations, 1);
    assert_eq!(f(output.confidence_level), 0.96);
    assert_eq!(output.scenario_count, 100);
    assert_eq!(output.tail_scenario_count, 4);
    assert_eq!(f(output.stats_before.historical_cvar), 0.2);
    assert_eq!(f(output.weights_after.unwrap().get("SAFE").unwrap()), 1.0);

    let mut course = Remediation::start(solved(0.95), evaluated(&tight));
    course.retry_failed();
    assert!(!course.wants_retry());
    let (output, checks) = run_cvar_rebalance(&input, start(None), course, &solution_figures());
    assert_eq!(checks.len(), 3);
    assert_eq!(f(output.confidence_level), 0.95);
    assert_eq!(output.tail_scenario_count, 5);
    assert_eq!(f(output.stats_before.historical_cvar), 0.16);
}

#[test]
fn a_tail_holds_at_least_one_scenario() {
    assert_eq!(tail_count(0), 1);
    assert_eq!(tail_count(1), 1);
    assert_eq!(tail_count(13), 13);
}

#[test]
fn caps_and_solver_failures_are_classified() {
    assert_eq!(f(resolve_cap(None).0), 0.20);
    assert!(check_cap(d(0.0)).is_err());
    assert!(check_cap(d(0.5)).is_ok());
    assert_eq!(classify_resolution_error(&SolverFailure::Infeasible).0, "infeasible");
    let (status, message) =
        classify_resolution_error(&SolverFailure::Other("numerical trouble".to_string()));
    assert_ne!(status, "infeasible");
    assert!(words(&message).contains("numerical trouble"));
    assert_eq!(f(value_at_risk(&ds(&[0.1, 0.5, 0.3]), 2)), 0.3);
    let input = CvarRebalanceInput { turnover_limit: d(0.2), ..rebalance_input(None) };
    let traded = Solved { turnover: d(0.3), ..solved(0.95) };
    let figures = SolutionFigures { lenient_limit: d(0.2 + 1e-6), ..solution_figures() };
    let checks = solution_checks(&input, &traded, &figures);
    assert_eq!(checks.iter().map(|c| c.passed).collect::<Vec<bool>>(), vec![true, false, true]);
}

// --- performance ----------------------------------------------------------

fn stdev(values: &[f64]) -> f64 {
    let n = values.len() as f64;
    let mean = values.iter().sum::<f64>() / n;
    (values.iter().map(|x| (x - mean) * (x - mean)).sum::<f64>() / (n - 1.0)).sqrt()
}

fn performance(
    series: &[(&str, Vec<f64>)],
    weights: &[f64],
    value_inr: f64,
) -> (PortfolioPerformanceOutput, EvidenceTrace) {
    let n = series[0].1.len();
    let rows: Vec<(&str, f64)> =
        series.iter().zip(weights).map(|((t, _), w)| (*t, *w)).collect();
    let input = PortfolioPerformanceInput {
        portfolio: Portfolio { total_value_inr: d(value_inr), ..portfolio(&rows) },
        frequency: Frequency::Daily,
        window: Some(n),
    };
    let windows = plan_performance(&market(series), &input.portfolio, input.resolved_window())
        .unwrap();
    let simple: Vec<Vec<f64>> =
        windows.iter().map(|w| fs(w).iter().map(|r| r.exp() - 1.0).collect()).collect();
    let periods: Vec<f64> = (0..n)
        .map(|t| simple.iter().zip(weights).map(|(s, w)| s[t] * w).sum())
        .collect();
    let mut value = 1.0;
    let mut cumulative = Vec::new();
    for r in &periods {
        value *= 1.0 + r;
        cumulative.push(value);
    }
    let peaks = fs(&running_peaks(&ds(&cumulative)));
    let round2 = |x: f64| (x * 100.0).round() / 100.0;
    let holdings = simple
        .iter()
        .zip(weights)
        .map(|(s, w)| {
            let total = s.iter().fold(1.0, |v, r| v * (1.0 + r)) - 1.0;
            let total_pct = round2(total * 100.0);
            HoldingReturn {
                total_return_pct: d(total_pct),
                annualized_vol_pct: d(round2(stdev(s) * 252f64.sqrt() * 100.0)),
                contribution_to_portfolio_return_pct: d(round2(w * total_pct)),
            }
        })
        .collect();
    let total = value - 1.0;
    let figures = PerformanceFigures {
        end_value_inr: d(value_inr * value),
        total_return: d(total),
        annualized_return: d((1.0 + total).powf(252.0 / n as f64) - 1.0),
        annualized_vol_realized: d(stdev(&periods) * 252f64.sqrt()),
        drawdowns: cumulative.iter().zip(&peaks).map(|(c, p)| d(c / p - 1.0)).collect(),
        period_returns: ds(&periods),
        holdings,
    };
    let output = run_portfolio_performance(&input, &figures, None);
    let (end, expected) = (value_inr * value, value_inr * (1.0 + total));
    let checks = performance_checks(compared(end, expected), d(1e-6 * value_inr.max(1.0)));
    let trace = evidence_trace(
        "PortfolioPerformance",
        input.to_json(),
        sample_data_window(),
        quality(),
        standalone_params(Frequency::Daily, n, 252, None, vec![], None),
        outputs_with_note(output.to_json(), PERFORMANCE_NOTE),
        checks,
        None,
    );
    (output, trace)
}

fn compared(lhs: f64, rhs: f64) -> Compared {
    Compared { lhs: d(lhs), rhs: d(rhs), gap: d((lhs - rhs).abs()) }
}

fn all_pass(trace: &EvidenceTrace) -> bool {
    !trace.invariants.is_empty() && trace.invariants.iter().all(|i| i.passed)
}

#[test]
fn constant_positive_return_compounds_correctly_with_zero_vol_and_drawdown() {
    let n = 100;
    let log_r = 0.01_f64;
    let (output, trace) = performance(&[("STEADY", vec![log_r; n])], &[1.0], 1_000_000.0);
    let simple_r = log_r.exp() - 1.0;
    let expected_total_return = (1.0 + simple_r).powi(n as i32) - 1.0;
    assert!((f(output.total_return) - expected_total_return).abs() < 1e-9);
    assert!(f(output.annualized_vol_realized).abs() < 1e-9);
    assert!(f(output.max_drawdown).abs() < 1e-9);
    assert!(f(output.end_value_inr) > f(output.start_value_inr));
    assert!(all_pass(&trace));
}

fn next_signed(state: &mut u64) -> f64 {
    *state ^= *state << 13;
    *state ^= *state >> 7;
    *state ^= *state << 17;
    let unit = (*state >> 11) as f64 / (1u64 << 53) as f64;
    unit * 2.0 - 1.0
}

#[test]
fn two_holding_portfolio_satisfies_its_own_value_invariant() {
    let n = 50;
    let mut state = 11;
    let a: Vec<f64> = (0..n).map(|_| next_signed(&mut state) * 0.01).collect();
    let b: Vec<f64> = (0..n).map(|_| next_signed(&mut state) * 0.015).collect();
    let (output, trace) = performance(&[("A", a), ("B", b)], &[0.3, 0.7], 2_500_000.0);
    let expected = f(output.start_value_inr) * (1.0 + f(output.total_return));
    assert!((f(output.end_value_inr) - expected).abs() < 1.0);
    assert!(all_pass(&trace));
    assert_eq!(trace.experiment, "PortfolioPerformance");
    assert!(trace.model_params.regime_state.is_none());
    assert!(check_observations(n).is_err());
}

#[test]
fn drawdown_is_captured_even_when_total_return_recovers_to_near_zero() {
    let mut returns = vec![(0.5_f64).ln()];
    returns.extend(vec![(2.0_f64).ln()]);
    returns.extend(vec![0.0; 8]);
    let (output, _) = performance(&[("VSHAPE", returns)], &[1.0], 1_000_000.0);
    assert!(f(output.max_drawdown) < -0.45);
    assert!(f(output.total_return).abs() < 1e-6);
    assert!(close(f(output.best_period_return), 1.0));
    assert!(close(f(output.worst_period_return), -0.5));
}

#[test]
fn best_and_worst_performer_are_identified_from_per_holding_returns() {
    let n = 60;
    let (output, _) = performance(
        &[("WINNER", vec![0.01_f64; n]), ("LOSER", vec![-0.01_f64; n])],
        &[0.4, 0.6],
        1_000_000.0,
    );
    assert_eq!(output.best_performer, "WINNER");
    assert_eq!(output.worst_performer, "LOSER");
    assert_eq!(output.holding_returns.entries.len(), 2);
    let winner = output.holding_returns.get("WINNER").unwrap();
    let loser = output.holding_returns.get("LOSER").unwrap();
    assert!(f(winner.total_return_pct) > 0.0);
    assert!(f(loser.total_return_pct) < 0.0);
    assert!(f(winner.annualized_vol_pct).abs() < 1e-6);
    let expected = (0.4 * f(winner.total_return_pct) * 100.0).round() / 100.0;
    assert!((f(winner.contribution_to_portfolio_return_pct) - expected).abs() < 1e-9);
}

#[test]
fn performance_needs_holdings_and_enough_data() {
    let data = market(&[("AAA", vec![0.01; 4])]);
    assert!(plan_performance(&data, &portfolio(&[]), 3).is_err());
    assert!(plan_performance(&data, &portfolio(&[("AAA", 1.0)]), 9).is_err());
    assert!(plan_performance(&data, &portfolio(&[("ZZZ", 1.0)]), 3).is_err());
}

// --- reverse stress -------------------------------------------------------

#[test]
fn severity_label_buckets_correctly() {
    assert_eq!(severity_label(d(0.5)), "within 1\u{3c3}");
    assert_eq!(severity_label(d(0.999)), "within 1\u{3c3}");
    assert_eq!(severity_label(d(1.0)), "1\u{2013}2\u{3c3}");
    assert_eq!(severity_label(d(1.5)), "1\u{2013}2\u{3c3}");
    assert_eq!(severity_label(d(2.0)), "2\u{2013}3\u{3c3}");
    assert_eq!(severity_label(d(2.9)), "2\u{2013}3\u{3c3}");
    assert_eq!(severity_label(d(3.0)), ">3\u{3c3}");
    assert_eq!(severity_label(d(10.0)), ">3\u{3c3}");
}

fn stress_input(bounds: Option<&[(&str, f64, f64)]>, threshold: f64) -> ReverseStressInput {
    ReverseStressInput {
        loss_threshold_inr: d(threshold),
        factor_bounds: bounds.map(|rows| {
            let mut out = Table::new();
            for (name, lower, upper) in rows {
                out.set(name, Bounds { lower: d(*lower), upper: d(*upper) });
            }
            out
        }),
        window: Some(252),
        frequency: None,
    }
}

/// The profit under log shocks, with the betas of the two stocks.
fn profit(shock: &[f64]) -> f64 {
    let betas = [[0.9, 0.1, 0.0, 0.2, 0.3], [0.4, -0.3, 0.5, 0.0, -0.1]];
    let values = [600_000.0, 400_000.0];
    betas
        .iter()
        .zip(values)
        .map(|(b, v)| {
            let log: f64 = b.iter().zip(shock).map(|(x, s)| x * s).sum();
            v * (log.exp() - 1.0)
        })
        .sum()
}

const SENSITIVITIES: [f64; 5] = [700_000.0, -60_000.0, 200_000.0, 120_000.0, 140_000.0];

#[test]
fn infeasible_threshold_returns_the_correct_max_feasible_loss() {
    let tight = [
        ("MARKET", -0.01, 0.01),
        ("USDINR", -0.01, 0.01),
        ("BRENT", -0.01, 0.01),
        ("GOLD_USD", -0.01, 0.01),
        ("RATES_PROXY", -0.01, 0.01),
    ];
    let input = stress_input(Some(&tight), 10_000_000.0);
    let holdings = portfolio(&[("AAA", 0.6), ("BBB", 0.4)]);
    let bounds = plan_reverse_stress(&input, &holdings, &names(&["AAA", "BBB"])).unwrap();
    let lower: Vec<Double> = bounds.iter().map(|b| d((1.0 + f(b.lower) / 100.0).ln())).collect();
    let upper: Vec<Double> = bounds.iter().map(|b| d((1.0 + f(b.upper) / 100.0).ln())).collect();
    let corner = worst_corner(&ds(&SENSITIVITIES), &lower, &upper);
    match check_reachable(input.loss_threshold_inr, d(profit(&fs(&corner)))) {
        Err(ComputeError::ReverseStressInfeasible(message)) => {
            let text = words(&message);
            assert!(text.contains("cannot be breached"), "unexpected message: {text}");
            assert!(text.contains("Maximum feasible loss"), "unexpected message: {text}");
        }
        other => panic!("expected ComputeError::ReverseStressInfeasible, got {other:?}"),
    }
}

#[test]
fn solution_respects_factor_bounds() {
    let rows = [
        ("MARKET", -15.0, 5.0),
        ("USDINR", -3.0, 8.0),
        ("BRENT", -20.0, 20.0),
        ("GOLD_USD", -10.0, 10.0),
        ("RATES_PROXY", -5.0, 5.0),
    ];
    let input = stress_input(Some(&rows), 50_000.0);
    let holdings = portfolio(&[("AAA", 0.6), ("BBB", 0.4)]);
    let bounds = plan_reverse_stress(&input, &holdings, &names(&["AAA", "BBB"])).unwrap();
    let to_log = |x: Double| d((1.0 + f(x) / 100.0).ln());
    let lower: Vec<Double> = bounds.iter().map(|b| to_log(b.lower)).collect();
    let upper: Vec<Double> = bounds.iter().map(|b| to_log(b.upper)).collect();
    let shock = clip(&ds(&[-0.4, 0.2, -0.9, 0.0, -0.5]), &lower, &upper);
    let pct: Vec<Double> = shock.iter().map(|x| d((f(*x).exp() - 1.0) * 100.0)).collect();
    let figures = StressFigures {
        shock_pct: pct,
        shock_log: ds(&fs(&shock)),
        severity: d(1.7),
        pnl_inr: d(profit(&fs(&shock))),
        holding_pnl: ds(&[-90_000.0, -20_000.0]),
        attribution: ds(&[-1.0; 5]),
        linearisation_error_inr: d(12.0),
    };
    let mut descent = Descent::start(d(1.0));
    assert!(descent.running());
    assert!(descent.round(d(0.5)));
    descent.step_taken(d(1e-12));
    assert!(!descent.running());
    let output = run_reverse_stress(&input, &holdings, &bounds, &descent, &figures);
    for (factor, lb, ub) in rows {
        let shock = f(output.shock_vector.get(factor).unwrap());
        assert!(
            shock >= lb - 1e-6 && shock <= ub + 1e-6,
            "{factor} shock {shock} out of bounds [{lb}, {ub}]"
        );
    }
    let lenient = |values: &[Double], by: f64| -> Vec<Double> {
        values.iter().map(|x| d(f(*x) + by)).collect()
    };
    let checks = stress_checks(
        &output,
        &figures.shock_log,
        &StressCheckFigures {
            required_pnl: d(-50_000.0 * 0.999),
            breach_tolerance: d(50.0),
            attribution_sum: d(-5.0),
            attribution_gap: d(0.0),
            attribution_tolerance: d(1.0),
            lenient_lower: lenient(&lower, -1e-6),
            lenient_upper: lenient(&upper, 1e-6),
        },
    );
    let bounds_invariant = checks
        .iter()
        .find(|i| i.name.contains("factor_bounds_used"))
        .expect("bounds invariant should be recorded");
    assert!(bounds_invariant.passed);
    assert_eq!(output.solver_status, "converged");
    assert_eq!(output.most_vulnerable_holdings[0], "AAA");
}

#[test]
fn a_descent_ends_in_one_of_three_ways() {
    assert_eq!(Descent::start(d(1e-9)).status_name(), "optimal");
    let mut stuck = Descent::start(d(1.0));
    stuck.round(d(1.0));
    stuck.no_step();
    assert!(!stuck.running());
    let mut long = Descent::start(d(1.0));
    let mut rounds = 0;
    while long.running() {
        rounds += 1;
        if long.round(d(1.0)) {
            long.step_taken(d(1.0));
        }
    }
    assert_eq!(long.status_name(), "max_iter");
    assert_eq!(rounds, 200);
    assert!(step_accepted(d(1.0), d(2.0)) && !step_accepted(d(3.0), d(2.0)));
    assert_eq!(default_factor_bounds().entries.len(), 5);
    let losses = table(&[("A", -3.0), ("B", -9.0), ("C", 1.0), ("D", -5.0)]);
    assert_eq!(most_vulnerable(&losses), names(&["B", "D", "A"]));
}

#[test]
fn bounds_have_to_be_sound_and_thresholds_positive() {
    let holdings = portfolio(&[("AAA", 1.0)]);
    let tickers = names(&["AAA"]);
    let upside_down = [("MARKET", 5.0, -5.0)];
    assert!(plan_reverse_stress(&stress_input(Some(&upside_down), 1.0), &holdings, &tickers)
        .is_err());
    assert!(plan_reverse_stress(&stress_input(None, 0.0), &holdings, &tickers).is_err());
    assert_eq!(
        plan_reverse_stress(&stress_input(None, 1.0), &holdings, &tickers).unwrap().len(),
        5
    );
}

// --- prices ---------------------------------------------------------------

fn series(ticker: &str, rows: &[(i32, f64)]) -> PriceSeries {
    PriceSeries {
        ticker: ticker.to_string(),
        dates: rows.iter().map(|r| r.0).collect(),
        closes: rows.iter().map(|r| d(r.1)).collect(),
    }
}

#[test]
fn gaps_are_filled_for_three_days_and_then_dropped() {
    let calendar: Vec<i32> = (1..=7).collect();
    let (prices, filled, dropped) =
        align_to_calendar(&series("A", &[(1, 10.0), (7, 11.0)]), &calendar);
    let shown: Vec<Option<f64>> = prices.iter().map(|p| p.map(f)).collect();
    assert_eq!(
        shown,
        vec![Some(10.0), Some(10.0), Some(10.0), Some(10.0), None, None, Some(11.0)]
    );
    assert_eq!((filled, dropped), (3, 2));
}

#[test]
fn alignment_starts_where_every_series_has_a_price() {
    let market = series("^NSEI", &[(1, 1.0), (2, 2.0), (3, 3.0), (4, 4.0)]);
    let late = series("LATE", &[(3, 5.0), (4, 6.0)]);
    let aligned = align_prices(&vec![late, market], 1);
    assert_eq!(aligned.calendar, vec![3, 4]);
    let quality = data_quality(aligned);
    assert_eq!(quality.trading_days, 2);
    assert_eq!(quality.per_series[0].ticker, "LATE");
}

#[test]
fn weeks_end_on_their_last_trading_day() {
    let monday = day(2026, 9, 21);
    let days: Vec<i32> = vec![monday, monday + 1, monday + 4, monday + 7, monday + 9];
    assert_eq!(weekly_resample_indices(&days), vec![2, 4]);
    let aligned = align_prices(
        &vec![PriceSeries {
            ticker: "^NSEI".to_string(),
            dates: days,
            closes: ds(&[1.0, 2.0, 3.0, 4.0, 5.0]),
        }],
        0,
    );
    let (ends, columns) = weekly_prices(&aligned);
    assert_eq!(ends, vec![monday + 4, monday + 9]);
    assert_eq!(columns[0].iter().map(|p| p.map(f)).collect::<Vec<_>>(), vec![Some(3.0), Some(5.0)]);
}

#[test]
fn returns_need_prices_on_both_days() {
    let pairs = return_pairs(&vec![Some(d(1.0)), Some(d(2.0)), Some(d(3.0))]).unwrap();
    assert_eq!(
        pairs.iter().map(|p| (f(p.0), f(p.1))).collect::<Vec<_>>(),
        vec![(1.0, 2.0), (2.0, 3.0)]
    );
    assert!(return_pairs(&vec![Some(d(1.0)), None]).is_err());
}

#[test]
fn charts_become_series() {
    let noon = 1_758_672_000;
    let chart = Chart {
        error: None,
        results: Some(vec![ChartResult {
            timestamps: Some(vec![noon, noon + 86_400]),
            adjusted: Some(vec![vec![Some(d(10.0)), None]]),
            quoted: vec![],
        }]),
    };
    let found = series_from_chart("TCS.NS", &chart).unwrap();
    assert_eq!(found.dates, vec![day(2025, 9, 24)]);
    assert_eq!(fs(&found.closes), vec![10.0]);
    let failed = Chart {
        error: Some(ChartFault { null: false, text: "Not Found".to_string() }),
        results: None,
    };
    assert!(failure(series_from_chart("TCS.NS", &failed).unwrap_err()).contains("Not Found"));
    assert!(series_from_chart("TCS.NS", &Chart { error: None, results: None }).is_err());
}

#[test]
fn cached_rows_are_read_and_named() {
    assert_eq!(cached_row("A", "2026-09-24", Ok(d(1.5))).unwrap().0, day(2026, 9, 24));
    assert!(cached_row("A", "yesterday", Ok(d(1.5))).is_err());
    assert!(cached_row("A", "2026-09-24", Err("no number".to_string())).is_err());
    assert_eq!(sanitize_for_filename("^NSEI"), "_NSEI");
    assert_eq!(cache_file_name("BZ=F"), "BZ_F.csv");
    assert_eq!(urlencode_ticker("^NSEI"), "%5ENSEI");
    assert!(chart_url("INR=X").contains("INR%3DX"));
}

// --- choosing -------------------------------------------------------------

#[test]
fn extremes_and_orders_are_stable() {
    assert_eq!(last_max(&ds(&[1.0, 3.0, 3.0])), Some(2));
    assert_eq!(first_min(&ds(&[1.0, 0.5, 0.5])), Some(1));
    assert_eq!(last_max(&vec![]), None);
    assert_eq!(sorted_order(&ds(&[2.0, 1.0, 2.0]), false), vec![1, 0, 2]);
    assert_eq!(sorted_order(&ds(&[2.0, 1.0, 2.0]), true), vec![0, 2, 1]);
    assert!(d(-0.0).le(d(0.0)) && d(0.0).le(d(-0.0)));
    assert!(!d(f64::NAN).le(d(f64::NAN)));
    assert_eq!(f(Double::of_count(9_007_199_254_740_993)), 9_007_199_254_740_992.0);
    assert_eq!(f(Double::of_integer(-42)), -42.0);
}

// --- running --------------------------------------------------------------

#[test]
fn experiments_are_planned_with_their_windows() {
    let holdings = portfolio(&[("AAA", 0.6), ("BBB", 0.4)]);
    let drift = Experiment::RiskDrift(drift_input(None));
    assert_eq!(drift.name(), "RiskDrift");
    let plan = plan_experiment(&drift, &holdings, true).unwrap();
    assert_eq!(plan.tickers, names(&["AAA", "BBB"]));
    let config = plan.model_config();
    assert_eq!((config.window, config.regime_covariance), (252, true));
    assert!(!ModelConfig::new(252, Frequency::Daily).regime_covariance);
    let wrong = Experiment::RiskDrift(RiskDriftInput {
        baseline_snapshot_id: None,
        window: None,
        frequency: Some("hourly".to_string()),
    });
    assert!(plan_experiment(&wrong, &holdings, false).is_err());
    let bull = regime_state(0, "Bull", [0.9, 0.1, 0.0]);
    let output = decomposition(0.1, &[("MARKET", 0.05, 0.5), ("USDINR", 0.03, 0.3)], 0.2);
    let trace = decomposition_trace(&output, &bull, day(2026, 1, 31));
    let checked = evaluated(&RiskPolicy { max_position_weight: Some(d(0.2)), ..Default::default() });
    let with_policy = attach_policy(trace, Some(&checked));
    assert!(with_policy.policy_result.is_some());
}

#[test]
fn models_are_fitted_on_the_end_of_the_data() {
    let rising: Vec<f64> = (0..9).map(|i| 0.1 * i as f64).collect();
    let data = market(&[("AAA", vec![0.0; 9]), ("BBB", rising.clone())]);
    let daily = |window: usize| ModelConfig::new(window, Frequency::Daily);
    let inputs = fit_inputs(&data, &names(&["BBB"]), daily(7)).unwrap();
    assert_eq!(fs(&inputs.stocks[0]), rising[2..].to_vec());
    assert_eq!(inputs.factors.len(), 5);
    assert!(fit_inputs(&data, &names(&["ZZZ"]), daily(7)).is_err());
    assert!(fit_inputs(&data, &names(&["AAA"]), daily(10)).is_err());
    assert!(fit_inputs(&data, &names(&["AAA"]), daily(5)).is_err());

    let mut older: Vec<f64> = vec![7.5; 20];
    older.extend(&rising[2..]);
    let longer = market(&[("BBB", older)]);
    let again = fit_inputs(&longer, &names(&["BBB"]), daily(7)).unwrap();
    assert!(same_matrix(&again.stocks, &inputs.stocks));
    assert!(same_matrix(&again.factors, &inputs.factors));
    let model = FactorModel {
        frequency: Frequency::Daily,
        window: 2,
        tickers: names(&["BBB"]),
        fits: vec![],
        factor_covariance_daily: square(1.0),
        shrinkage_intensity: d(0.1),
        regime_state: None,
        regime_factor_covariance_daily: None,
        regime_fallback_warnings: vec![],
    };
    let params = model_params(&model);
    assert_eq!(params.factor_names, factor_names());
    assert_eq!(params.annualization_factor, 252);
    let empty = NamedSeries { name: "x".to_string(), values: vec![] };
    assert_eq!(empty.values.len(), 0);
}
