//! Uploads, reports, what is stored and what is sent back.

use drift_risk::api::{health, ApiError, BackendError, RealBackend};
use drift_risk::conversation::ConversationTurn;
use drift_risk::data::{DataQuality, SeriesQuality};
use drift_risk::double::Double;
use drift_risk::error::ComputeError;
use drift_risk::dispatch::Experiment;
use drift_risk::experiments::{Holding, Portfolio, RiskDecompositionInput};
use drift_risk::gemini::{FunctionDeclaration, GeminiError};
use drift_risk::grounding::GroundedNarration;
use drift_risk::json::{Json, JsonNumber};
use drift_risk::message::{Message, Piece, Style};
use drift_risk::model::Frequency;
use drift_risk::orchestrator::OrchestratorError;
use drift_risk::parse::ParseError;
use drift_risk::pipeline::{
    combined_summary, debug_texts, experiment_from_trace, experiment_summary, PipelineError,
};
use drift_risk::report::{
    char_width, key_numbers, pdf_safe, render_report, Font, Mark, Row, WrappedText,
};
use drift_risk::routes::{
    accept_warnings, ask_response, found_execution_trace, found_snapshot, historical_cvar,
    invalid_experiment, scenarios_json, snapshot_from_trace, splice_portfolio, storage_failure, stored_warnings,
    with_answer,
};
use drift_risk::schema::{
    experiment_function_declarations, has_finite_references, sanitized_schema,
    without_caller_fields, ArgumentSchemas,
};
use drift_risk::store::{
    migration_statements, row_of, snapshot_of, ResultStore, RiskSnapshot, SqlValue,
};
use drift_risk::text::split_words;
use drift_risk::trace::{evidence_trace, DataWindow, EvidenceTrace, InvariantCheck, ModelParams};
use drift_risk::upload::{
    build_value_based, build_weight_based, cell_to_string, csv_rows, detect_layout, field,
    finish_upload, normalise_ticker, number_texts, read_upload, records_of_csv, records_of_xlsx,
    xlsx_rows, Cell, CsvFault, CsvTable, Layout, UploadResponse, XlsxFault, BROKEN_WORKBOOK,
};
use drift_risk::validate::validate_portfolio;

fn d(x: f64) -> Double {
    Double { bits: x.to_bits() }
}

fn f(x: Double) -> f64 {
    f64::from_bits(x.bits)
}

fn ds(values: &[f64]) -> Vec<Double> {
    values.iter().map(|&x| d(x)).collect()
}

fn names(list: &[&str]) -> Vec<String> {
    list.iter().map(|s| s.to_string()).collect()
}

fn words(message: &Message) -> String {
    message
        .pieces
        .iter()
        .map(|piece| match piece {
            Piece::Text(s) => s.clone(),
            Piece::Number(x, Style::Fixed(n)) => format!("{:.*}", *n as usize, f(*x)),
            Piece::Number(x, Style::Percent(n)) => format!("{:.*}", *n as usize, f(*x) * 100.0),
            Piece::Number(x, _) => format!("{}", f(*x)),
        })
        .collect()
}

fn json_of(value: &serde_json::Value) -> Json {
    match value {
        serde_json::Value::Null => Json::Null,
        serde_json::Value::Bool(b) => Json::Bool(*b),
        serde_json::Value::Number(n) => Json::Number(JsonNumber {
            double: d(n.as_f64().unwrap()),
            integer: n.as_i64().map(i128::from),
        }),
        serde_json::Value::String(s) => Json::of_text(s),
        serde_json::Value::Array(items) => Json::Array(items.iter().map(json_of).collect()),
        serde_json::Value::Object(fields) => fields
            .iter()
            .fold(Json::object(), |object, (name, value)| object.with(name, json_of(value))),
    }
}

fn json(text: &str) -> Json {
    json_of(&serde_json::from_str::<serde_json::Value>(text).unwrap())
}

fn day(year: i32, month: u32, date: u32) -> i32 {
    let found = chrono::NaiveDate::from_ymd_opt(year, month, date).unwrap();
    chrono::Datelike::num_days_from_ce(&found)
}

fn sample_portfolio() -> Portfolio {
    Portfolio {
        holdings: vec![
            Holding { ticker: "RELIANCE.NS".to_string(), weight: d(0.6) },
            Holding { ticker: "TCS.NS".to_string(), weight: d(0.4) },
        ],
        total_value_inr: d(1_000_000.0),
    }
}

fn trace_of(experiment: &str, result: &str) -> EvidenceTrace {
    evidence_trace(
        experiment,
        json(r#"{"window": 60}"#),
        DataWindow {
            frequency: Frequency::Daily,
            window_periods: 252,
            start: day(2025, 9, 16),
            end: day(2026, 9, 24),
        },
        DataQuality {
            date_range_start: day(2021, 9, 27),
            date_range_end: day(2026, 9, 24),
            trading_days: 1234,
            per_series: vec![
                SeriesQuality {
                    ticker: "A".to_string(),
                    raw_observations: 9,
                    forward_filled_days: 2,
                    dropped_days: 1,
                },
                SeriesQuality {
                    ticker: "B".to_string(),
                    raw_observations: 9,
                    forward_filled_days: 3,
                    dropped_days: 0,
                },
            ],
        },
        ModelParams {
            frequency: Frequency::Daily,
            window_periods: 252,
            factor_names: names(&["MARKET"]),
            shrinkage_intensity: d(0.0374),
            annualization_factor: 252,
            regime_state: Some(json(
                r#"{"current_label": "Bull", "smoothed_probs": [0.7, 0.2, 0.1]}"#,
            )),
            regime_fallback_warnings: vec![],
            cap_source: None,
        },
        Json::object().with("result", json(result)),
        vec![InvariantCheck::approx_eq("sum", d(1.0), d(1.0), d(0.0), d(1e-9))],
        None,
    )
}

fn sample_trace() -> EvidenceTrace {
    trace_of("RiskDecomposition", r#"{"portfolio_vol_annualized": 0.1552}"#)
}

// --- the service ----------------------------------------------------------

#[test]
fn health_returns_200_and_expected_json() {
    let body = health().to_json();
    assert_eq!(body.text_at(&["status"]).as_deref(), Some("ok"));
    assert_eq!(body.text_at(&["version"]).as_deref(), Some("0.1.0"));
    let backend = RealBackend::new(1, 2);
    assert_eq!((backend.gemini, backend.store), (1, 2));
}

fn checked(portfolio: &Portfolio) -> Result<(), ApiError> {
    let sum: f64 = portfolio.holdings.iter().map(|h| f(h.weight)).sum();
    validate_portfolio(portfolio, d(sum), d((sum - 1.0).abs()))
}

#[test]
fn experiment_with_weights_not_summing_to_one_returns_400() {
    let mut portfolio = sample_portfolio();
    portfolio.holdings[1].weight = d(0.6);
    let error = checked(&portfolio).unwrap_err();
    assert_eq!(error.status, 400);
    assert_eq!(error.code, "invalid_portfolio");
    assert!(words(&error.message).contains("sum to 1.0"));
    assert_eq!(error.body().text_at(&["code"]).as_deref(), Some("invalid_portfolio"));
    assert!(checked(&sample_portfolio()).is_ok());
}

#[test]
fn portfolios_need_value_and_positive_weights() {
    let mut worthless = sample_portfolio();
    worthless.total_value_inr = d(0.0);
    assert!(words(&checked(&worthless).unwrap_err().message).contains("total_value_inr"));
    let mut short = sample_portfolio();
    short.holdings[0].weight = d(-0.1);
    assert!(words(&checked(&short).unwrap_err().message).contains("RELIANCE.NS"));
}

#[test]
fn experiment_with_valid_request_returns_a_trace() {
    let requested = splice_portfolio(json(r#"{"type": "RiskDecomposition"}"#), &sample_portfolio())
        .unwrap();
    assert_eq!(requested.text_at(&["type"]).as_deref(), Some("RiskDecomposition"));
    assert!(requested.at_path(&["portfolio", "holdings"]).is_some());
    let body = sample_trace().to_json();
    assert_eq!(body.text_at(&["experiment"]).as_deref(), Some("RiskDecomposition"));
    let path = ["outputs", "result", "portfolio_vol_annualized"];
    assert_eq!(f(body.double_at(&path).unwrap()), 0.1552);
    assert!(splice_portfolio(json("3"), &sample_portfolio()).is_err());
    assert_eq!(invalid_experiment("no type").code, "invalid_experiment");
}

#[test]
fn regime_state_is_non_null_in_every_experiment_response() {
    let body = sample_trace().to_json();
    assert_eq!(
        body.text_at(&["model_params", "regime_state", "current_label"]).as_deref(),
        Some("Bull")
    );
}

#[test]
fn ask_with_mocked_pipeline_returns_grounding_warnings() {
    let experiment = Experiment::RiskDecomposition(RiskDecompositionInput {
        portfolio: sample_portfolio(),
        frequency: Frequency::Daily,
        window: None,
    });
    let narration = GroundedNarration {
        narration: "Vol is 99% (unverified).".to_string(),
        grounding_warnings: names(&["unverified number '99%' at byte position 7 in the narration"]),
    };
    let body = ask_response(
        experiment.to_json(),
        &sample_trace(),
        &narration,
        "What if I reduce my turnover to 20%?",
        "some-id",
    );
    assert_eq!(body.text_at(&["narration"]).as_deref(), Some("Vol is 99% (unverified)."));
    match body.get("grounding_warnings") {
        Some(Json::Array(warnings)) => assert_eq!(warnings.len(), 1),
        _ => panic!("no warnings"),
    }
    assert_eq!(body.text_at(&["experiment", "type"]).as_deref(), Some("RiskDecomposition"));
    assert_eq!(body.text_at(&["assistant_turn", "role"]).as_deref(), Some("assistant"));
    assert_eq!(
        body.text_at(&["assistant_turn", "content"]).as_deref(),
        Some("Vol is 99% (unverified).")
    );
    assert_eq!(
        body.text_at(&["suggestion"]).as_deref(),
        Some("What if I reduce my turnover to 20%?")
    );
    assert_eq!(body.text_at(&["result_id"]).as_deref(), Some("some-id"));
    let turn = ConversationTurn::user("hi").to_json();
    assert_eq!(turn.text_at(&["role"]).as_deref(), Some("user"));
}

#[test]
fn report_route_returns_404_for_an_unknown_id() {
    let error = found_snapshot("6f0c", None).unwrap_err();
    assert_eq!(error.status, 404);
    assert!(words(&error.message).contains("6f0c"));
}

#[test]
fn unknown_execution_traces_are_not_found() {
    let error = found_execution_trace("6f0c", None).unwrap_err();
    assert_eq!((error.status, error.code), (404, "result_not_found"));
    assert_eq!(words(&error.message), "no stored execution trace for id 6f0c");
    assert_eq!(found_execution_trace("6f0c", Some("{}".to_string())).unwrap(), "{}");
}

#[test]
fn scenarios_route_returns_three_scenarios_with_expected_fields() {
    match scenarios_json() {
        Json::Array(scenarios) => {
            assert_eq!(scenarios.len(), 3);
            for scenario in scenarios {
                assert!(scenario.text_at(&["id"]).is_some());
                assert!(scenario.text_at(&["name"]).is_some());
                assert!(matches!(scenario.get("shocks_pct"), Some(Json::Object(_))));
            }
        }
        _ => panic!("expected a JSON array"),
    }
}

#[test]
fn failures_have_their_statuses() {
    let status = |err: BackendError| ApiError::from_backend(err).status;
    assert_eq!(status(BackendError::from_gemini(&GeminiError::NoCandidates)), 503);
    assert_eq!(status(BackendError::from_parse(&ParseError::Unrecognised("?".to_string()))), 422);
    assert_eq!(status(BackendError::from_compute(&ComputeError::Data(Message::of("no data")))), 500);
    let unreachable_loss = ComputeError::ReverseStressInfeasible(Message::of("too much"));
    assert_eq!(status(BackendError::from_compute(&unreachable_loss)), 422);
    let declined = OrchestratorError::Unrecognised("?".to_string());
    assert_eq!(status(BackendError::from_orchestrator(&declined)), 422);
    let failed = PipelineError::AllToolsFailed(names(&["a", "b"]));
    assert_eq!(words(&failed.message()), "every planned tool failed: [\"a\", \"b\"]");
    assert_eq!(debug_texts(&names(&["it's \"so\""])), "[\"it's \\\"so\\\"\"]");
    assert_eq!(storage_failure("cannot store", "disk full").status, 500);
    assert_eq!(ApiError::invalid_json(415, "no JSON").status, 415);
    assert_eq!(ApiError::invalid_json(400, "cut short").status, 400);
    let missing = ApiError::invalid_json(422, "missing field `portfolio`");
    assert_eq!((missing.status, missing.code), (400, "invalid_json"));
}

// --- uploads --------------------------------------------------------------

fn numbers(texts: Vec<Option<String>>) -> Vec<Option<Double>> {
    texts.into_iter().map(|t| t.and_then(|s| s.parse::<f64>().ok()).map(d)).collect()
}

fn uploaded(filename: &str, bytes: &[u8]) -> Result<UploadResponse, ApiError> {
    let (layout, records) = read_upload(Some(filename.to_string()), Some(bytes.to_vec()))?;
    let portfolio = match layout {
        Layout::Weight => {
            build_weight_based(&records, numbers(number_texts(&records, "weight")))?
        }
        Layout::Value => {
            let shares = numbers(number_texts(&records, "shares"));
            let prices = numbers(number_texts(&records, "avg_price_inr"));
            let values: Vec<f64> = shares
                .iter()
                .zip(&prices)
                .map(|(s, p)| s.map_or(0.0, f) * p.map_or(0.0, f))
                .collect();
            let total: f64 = values.iter().sum();
            let weights: Vec<f64> =
                values.iter().map(|v| (v / total * 1e6).round() / 1e6).collect();
            build_value_based(&records, shares, prices, &ds(&weights), d(total))?
        }
    };
    let sum: f64 = portfolio.portfolio.holdings.iter().map(|h| f(h.weight)).sum();
    finish_upload(layout, portfolio, d(sum), d((sum - 1.0).abs()))
}

#[test]
fn upload_weight_based_csv_returns_200_and_correct_portfolio() {
    let csv = "ticker,weight\nRELIANCE.NS,0.6\nTCS.NS,0.4\n";
    let body = uploaded("portfolio.csv", csv.as_bytes()).unwrap();
    assert_eq!(body.layout_detected, "weight");
    assert_eq!(body.row_count, 2);
    let holdings = &body.portfolio.holdings;
    assert_eq!(holdings.len(), 2);
    assert_eq!(holdings[0].ticker, "RELIANCE.NS");
    assert_eq!(f(holdings[0].weight), 0.6);
    assert_eq!(holdings[1].ticker, "TCS.NS");
    assert_eq!(f(holdings[1].weight), 0.4);
    assert_eq!(f(body.portfolio.total_value_inr), 1_000_000.0);
    assert_eq!(f(body.to_json().double_at(&["row_count"]).unwrap()), 2.0);
}

#[test]
fn upload_value_based_csv_returns_200_and_weights_sum_to_one() {
    let csv = "ticker,shares,avg_price_inr\nRELIANCE.NS,10,2850.00\nHDFCBANK.NS,25,1640.00\n";
    let body = uploaded("portfolio.csv", csv.as_bytes()).unwrap();
    assert_eq!(body.layout_detected, "value");
    let sum: f64 = body.portfolio.holdings.iter().map(|h| f(h.weight)).sum();
    assert!((sum - 1.0).abs() < 1e-6, "weights should sum to 1.0 within 1e-6, got {sum}");
    assert_eq!(f(body.portfolio.total_value_inr), 69_500.0);
}

fn crc32(bytes: &[u8]) -> u32 {
    let mut crc = 0xffff_ffff_u32;
    for &byte in bytes {
        crc ^= u32::from(byte);
        for _ in 0..8 {
            crc = if crc & 1 == 1 { (crc >> 1) ^ 0xedb8_8320 } else { crc >> 1 };
        }
    }
    !crc
}

/// A ZIP archive whose files are stored as they are.
fn archive(files: &[(&str, &str)]) -> Vec<u8> {
    let mut out: Vec<u8> = Vec::new();
    let mut directory: Vec<u8> = Vec::new();
    for (name, content) in files {
        let offset = out.len() as u32;
        let size = content.len() as u32;
        let mut common: Vec<u8> = Vec::new();
        common.extend(20u16.to_le_bytes());
        common.extend([0u8; 8]);
        common.extend(crc32(content.as_bytes()).to_le_bytes());
        common.extend(size.to_le_bytes());
        common.extend(size.to_le_bytes());
        common.extend((name.len() as u16).to_le_bytes());
        common.extend(0u16.to_le_bytes());
        out.extend(b"PK\x03\x04");
        out.extend(&common);
        out.extend(name.as_bytes());
        out.extend(content.as_bytes());
        directory.extend(b"PK\x01\x02");
        directory.extend(20u16.to_le_bytes());
        directory.extend(&common);
        directory.extend([0u8; 10]);
        directory.extend(offset.to_le_bytes());
        directory.extend(name.as_bytes());
    }
    let start = out.len() as u32;
    out.extend(&directory);
    out.extend(b"PK\x05\x06");
    out.extend([0u8; 4]);
    out.extend((files.len() as u16).to_le_bytes());
    out.extend((files.len() as u16).to_le_bytes());
    out.extend((directory.len() as u32).to_le_bytes());
    out.extend(start.to_le_bytes());
    out.extend(0u16.to_le_bytes());
    out
}

fn sample_workbook() -> Vec<u8> {
    workbook(None)
}

/// A workbook, with a list of shared strings where one is given.
fn workbook(strings: Option<&str>) -> Vec<u8> {
    let main = "http://schemas.openxmlformats.org/spreadsheetml/2006/main";
    let office = "http://schemas.openxmlformats.org/officeDocument/2006/relationships";
    let package = "http://schemas.openxmlformats.org/package/2006";
    let types = format!(
        "<Types xmlns=\"{package}/content-types\"><Default Extension=\"xml\" ContentType=\"application/xml\"/></Types>"
    );
    let workbook = format!(
        "<workbook xmlns=\"{main}\" xmlns:r=\"{office}\"><sheets><sheet name=\"Sheet1\" sheetId=\"1\" r:id=\"rId1\"/></sheets></workbook>"
    );
    let relations = format!(
        "<Relationships xmlns=\"{package}/relationships\"><Relationship Id=\"rId1\" Type=\"{office}/worksheet\" Target=\"worksheets/sheet1.xml\"/></Relationships>"
    );
    let text = |at: &str, s: &str| format!("<c r=\"{at}\" t=\"inlineStr\"><is><t>{s}</t></is></c>");
    let sheet = format!(
        "<worksheet xmlns=\"{main}\"><sheetData><row r=\"1\">{}{}</row><row r=\"2\">{}<c r=\"B2\"><v>0.6</v></c></row><row r=\"3\">{}<c r=\"B3\"><v>0.4</v></c></row></sheetData></worksheet>",
        text("A1", "Ticker"),
        text("B1", "Weight"),
        text("A2", "RELIANCE"),
        text("A3", "TCS.NS"),
    );
    let mut files: Vec<(&str, &str)> = vec![
        ("[Content_Types].xml", &types),
        ("xl/workbook.xml", &workbook),
        ("xl/_rels/workbook.xml.rels", &relations),
        ("xl/worksheets/sheet1.xml", &sheet),
    ];
    if let Some(list) = strings {
        files.push(("xl/sharedStrings.xml", list));
    }
    archive(&files)
}

#[test]
fn workbooks_that_cannot_be_read_to_the_end_are_refused() {
    let fair = workbook(Some("<sst uniqueCount=\"1\"><si><t>x</t></si></sst>"));
    assert_eq!(uploaded("portfolio.xlsx", &fair).unwrap().row_count, 2);
    let list = format!("<sst uniqueCount=\"{}\"><si><t>x</t></si></sst>", usize::MAX);
    let error = uploaded("portfolio.xlsx", &workbook(Some(&list))).unwrap_err();
    assert_eq!((error.status, error.code), (400, "invalid_upload"));
    assert_eq!(words(&error.message), BROKEN_WORKBOOK);
    assert_eq!(xlsx_rows(Err(XlsxFault::Unwound)).unwrap_err().code, "invalid_upload");
}

#[test]
fn upload_xlsx_returns_200() {
    let body = uploaded("portfolio.xlsx", &sample_workbook()).unwrap();
    assert_eq!(body.layout_detected, "weight");
    assert_eq!(body.row_count, 2);
    assert_eq!(body.portfolio.holdings[0].ticker, "RELIANCE.NS");
    assert_eq!(f(body.portfolio.holdings[0].weight), 0.6);
    assert_eq!(body.tickers_normalised, names(&["RELIANCE -> RELIANCE.NS"]));
}

#[test]
fn upload_unsupported_file_type_returns_400() {
    let error = uploaded("portfolio.txt", b"not a real portfolio file").unwrap_err();
    assert_eq!(error.status, 400);
    assert_eq!(error.code, "unsupported_file_type");
    assert!(uploaded("PORTFOLIO.CSV", b"ticker,weight\nA,0.5\nB,0.5\n").is_ok());
}

#[test]
fn upload_weights_not_summing_to_one_returns_400() {
    let csv = "ticker,weight\nRELIANCE.NS,0.6\nTCS.NS,0.6\n";
    let error = uploaded("portfolio.csv", csv.as_bytes()).unwrap_err();
    assert_eq!(error.status, 400);
    assert_eq!(error.code, "invalid_portfolio");
}

#[test]
fn upload_single_holding_returns_400() {
    let csv = "ticker,weight\nRELIANCE.NS,1.0\n";
    let error = uploaded("portfolio.csv", csv.as_bytes()).unwrap_err();
    assert_eq!(error.status, 400);
    assert_eq!(error.code, "invalid_portfolio");
}

#[test]
fn other_wrong_uploads_are_told_apart() {
    let code = |name: &str, bytes: &[u8]| uploaded(name, bytes).unwrap_err().code;
    assert_eq!(code("a.csv", b""), "empty_file");
    assert_eq!(code("a.csv", b"ticker,weight\n"), "empty_file");
    assert_eq!(code("a.csv", b"name,amount\nx,1\n"), "missing_columns");
    assert_eq!(code("a.csv", b"ticker,weight\nA,0.5,9\n"), "invalid_upload");
    assert_eq!(code("a.xlsx", b"no workbook"), "invalid_upload");
    assert_eq!(read_upload(None, Some(vec![1])).unwrap_err().code, "invalid_upload");
    let wrong = uploaded("a.csv", b"ticker,weight\nA,half\nB,0.5\n").unwrap_err();
    assert_eq!(words(&wrong.message), "row 0: \"weight\" is not a number: \"half\"");
    let broken = csv_rows(Err(CsvFault::Headers("bad bytes".to_string()))).unwrap_err();
    assert_eq!(words(&broken.message), "failed to read CSV headers: bad bytes");
    let empty = xlsx_rows(Err(XlsxFault::NoSheets)).unwrap_err();
    assert_eq!(words(&empty.message), "XLSX file has no sheets");
}

#[test]
fn headers_are_trimmed_and_lowered_and_cells_become_texts() {
    let table = CsvTable {
        headers: names(&[" Ticker ", "WEIGHT"]),
        rows: vec![names(&[" A ", "0.5"]), names(&["B"])],
    };
    let records = records_of_csv(&table);
    assert_eq!(field(&records[0], "ticker"), Some("A"));
    assert_eq!(field(&records[1], "weight"), None);
    assert!(matches!(detect_layout(&records[0]), Ok(Layout::Weight)));
    assert!(detect_layout(&records[1]).is_err());
    assert_eq!(cell_to_string(&Cell::Integer(-12)), "-12");
    assert_eq!(cell_to_string(&Cell::Number("1.5".to_string())), "1.5");
    assert_eq!(cell_to_string(&Cell::Other(None)), "");
    let rows = vec![
        vec![Cell::Text("Ticker".to_string()), Cell::Text("Shares".to_string())],
        vec![Cell::Text("A".to_string()), Cell::Integer(3)],
    ];
    let records = records_of_xlsx(&rows);
    assert_eq!(records.len(), 1);
    assert_eq!(field(&records[0], "shares"), Some("3"));
}

#[test]
fn tickers_get_their_suffix_once() {
    assert_eq!(normalise_ticker(" INFY "), ("INFY.NS".to_string(), Some("INFY -> INFY.NS".to_string())));
    assert_eq!(normalise_ticker("INFY.NS"), ("INFY.NS".to_string(), None));
    assert_eq!(normalise_ticker("M&M"), ("M&M".to_string(), None));
    assert_eq!(normalise_ticker(""), (String::new(), None));
}

// --- what is stored -------------------------------------------------------

#[test]
fn oldest_is_evicted_once_over_capacity_and_the_newest_20_remain() {
    let mut store: ResultStore<usize> = ResultStore::with_capacity(20);
    let ids: Vec<String> = (0..21).map(|i| store.insert(i)).collect();
    assert!(store.get(&ids[0]).is_none(), "oldest (index 0) should have been evicted");
    for (i, id) in ids.iter().enumerate().skip(1) {
        assert_eq!(store.get(id), Some(&i), "entry {id} should still be retrievable");
    }
    assert_eq!(ids.len(), 21);
    let empty: ResultStore<usize> = ResultStore::new();
    assert_eq!(empty.capacity, 20);
}

#[test]
fn missing_columns_are_added_once() {
    let all = names(&["id", "narration", "suggestion", "grounding_warnings"]);
    assert!(migration_statements(&all).is_empty());
    let old = names(&["id", "suggestion"]);
    assert_eq!(
        migration_statements(&old),
        names(&[
            "ALTER TABLE risk_snapshots ADD COLUMN narration TEXT",
            "ALTER TABLE risk_snapshots ADD COLUMN grounding_warnings TEXT",
        ])
    );
}

fn stored_answer(warnings: &[&str]) -> RiskSnapshot {
    let trace = sample_trace();
    let snapshot = snapshot_from_trace(&trace, "hash", historical_cvar(&trace), "{}".to_string());
    let narration = GroundedNarration {
        narration: "Vol is 15.5% annualised.".to_string(),
        grounding_warnings: names(warnings),
    };
    with_answer(snapshot, &narration, "What if I reduce my turnover to 20%?")
}

#[test]
fn snapshots_are_made_from_traces_and_read_back_from_rows() {
    let snapshot = stored_answer(&["unverified number '99%'"]);
    assert_eq!(snapshot.regime_label.as_deref(), Some("Bull"));
    assert_eq!(snapshot.smoothed_probs.map(|p| f(p[1])), Some(0.2));
    assert_eq!(snapshot.portfolio_vol_annualized.map(f), Some(0.1552));
    let row = row_of(&snapshot, "id-1", "2026-09-24", &Some("[0.7,0.2,0.1]".to_string()));
    assert_eq!(row.len(), 13);
    let read = snapshot_of(&row, snapshot.smoothed_probs).unwrap();
    assert_eq!(read.id, "id-1");
    assert_eq!(read.created_at, "2026-09-24");
    assert_eq!(read.portfolio_hash, snapshot.portfolio_hash);
    assert_eq!(read.narration, snapshot.narration);
    assert_eq!(read.grounding_warnings, snapshot.grounding_warnings);
    assert_eq!(read.portfolio_vol_annualized, snapshot.portfolio_vol_annualized);
    assert!(snapshot_of(&vec![SqlValue::Null], None).is_none());
    let mut wrong = row_of(&snapshot, "id-1", "2026-09-24", &None);
    wrong[0] = SqlValue::Number(d(1.0));
    assert!(snapshot_of(&wrong, None).is_none());
}

#[test]
fn narration_and_grounding_warnings_are_null_for_an_experiment_originated_snapshot() {
    let snapshot = snapshot_from_trace(&sample_trace(), "hash", None, "{}".to_string());
    assert!(snapshot.narration.is_none());
    assert!(snapshot.suggestion.is_none());
    assert!(snapshot.grounding_warnings.is_none());
    assert!(stored_warnings(&snapshot).unwrap().is_empty());
}

#[test]
fn warnings_read_back_as_they_were_stored() {
    let warnings = ["it \"says\" 99%", "second\nline"];
    let snapshot = stored_answer(&warnings);
    assert_eq!(
        snapshot.grounding_warnings.as_deref(),
        Some("[\"it \\\"says\\\" 99%\",\"second\\nline\"]")
    );
    assert_eq!(stored_warnings(&snapshot).unwrap(), names(&warnings));
    assert!(stored_answer(&[]).grounding_warnings.is_none());
    let mut broken = stored_answer(&warnings);
    broken.grounding_warnings = Some("[1]".to_string());
    assert_eq!(stored_warnings(&broken).unwrap_err().status, 500);
    assert!(accept_warnings(Err("no list".to_string())).is_err());
}

// --- summaries ------------------------------------------------------------

#[test]
fn traces_are_summed_up_and_name_their_experiment() {
    let shock = trace_of("FactorShock", r#"{"portfolio_pnl_inr": -1234.5}"#);
    assert_eq!(
        words(&experiment_summary(&shock)),
        "FactorShock experiment result: portfolio P&L is -1234.50 INR."
    );
    let both = combined_summary(&vec![shock, sample_trace()]);
    assert!(words(&both).ends_with("annualised portfolio vol is 0.155200."));
    let recorded = experiment_from_trace(&sample_trace());
    assert_eq!(recorded.text_at(&["type"]).as_deref(), Some("RiskDecomposition"));
    assert_eq!(f(recorded.double_at(&["window"]).unwrap()), 60.0);
}

// --- the report -----------------------------------------------------------

fn rows(experiment: &str, result: &str) -> Vec<(String, String, String)> {
    let value = json(result);
    key_numbers(experiment, Some(&value), &Some("Bull".to_string()), d(0.01))
        .iter()
        .map(|r: &Row| (words(&r.first), words(&r.second), words(&r.third)))
        .collect()
}

#[test]
fn key_numbers_follow_the_experiment() {
    let decomposition = rows(
        "RiskDecomposition",
        r#"{"portfolio_vol_annualized": 0.1552, "specific_risk_fraction_of_vol": 0.2,
            "by_factor": [{"factor": "BRENT", "fraction_of_vol": 0.1},
                          {"factor": "MARKET", "fraction_of_vol": 0.6},
                          {"factor": "USDINR", "fraction_of_vol": -0.3}]}"#,
    );
    let labels: Vec<&str> = decomposition.iter().map(|r| r.0.as_str()).collect();
    assert_eq!(
        labels,
        vec![
            "Portfolio Vol (annualised)",
            "Top factor by Euler contribution: MARKET",
            "Second factor: USDINR",
            "Specific risk share",
            "Current regime"
        ]
    );
    assert_eq!(decomposition[0].1, "15.52");
    assert_eq!(decomposition[2].1, "-30.00");
    let shock = rows(
        "FactorShock",
        r#"{"portfolio_pnl_inr": -5, "given_shocks": {"MARKET": {"simple": -0.12}},
            "implied_shocks": {"BRENT": {"simple": -0.05}, "ODD": {}},
            "crisis_comparison": {"portfolio_pnl_inr": -9}}"#,
    );
    let labels: Vec<&str> = shock.iter().map(|r| r.0.as_str()).collect();
    assert_eq!(
        labels,
        vec![
            "Portfolio P&L",
            "Given shock: MARKET",
            "Implied shock: BRENT (model-estimated)",
            "Current regime",
            "Crisis-regime P&L"
        ]
    );
    let rebalance = rows(
        "CvarRebalance",
        r#"{"stats_before": {"historical_cvar": 0.03}, "stats_after": {"historical_cvar": 0.02}}"#,
    );
    assert_eq!(rebalance.len(), 3);
    assert_eq!(rebalance[2].1, "1.00");
    assert_eq!(rows("PortfolioPerformance", "{}").len(), 4);
    assert!(rows("PolicyCheck", "{}").is_empty());
    assert!(key_numbers("FactorShock", None, &None, d(0.0)).is_empty());
}

fn page(narration: Option<Vec<String>>, warnings: &[&str]) -> Vec<Mark> {
    render_report(
        &sample_trace(),
        &narration,
        &names(warnings),
        "2026-09-24 10:00 UTC",
        d(0.0),
    )
}

fn texts(marks: &[Mark]) -> Vec<String> {
    marks
        .iter()
        .filter_map(|m| match m {
            Mark::Text { text, .. } | Mark::TextRight { text, .. } => Some(words(text)),
            Mark::Rule { .. } => None,
        })
        .collect()
}

#[test]
fn reports_hold_every_section_in_order() {
    let lines = names(&["Vol is 15.5%", "annualised."]);
    let marks = page(Some(lines), &["unverified"]);
    let shown = texts(&marks);
    let position = |wanted: &str| shown.iter().position(|s| s == wanted).expect(wanted);
    assert!(position("Analysis") < position("Vol is 15.5%"));
    assert!(position("annualised.") < position("Key Numbers"));
    assert!(position("Key Numbers") < position("Evidence Trace"));
    assert!(shown.contains(&"RiskDecomposition | generated 2026-09-24 10:00 UTC".to_string()));
    assert!(shown.iter().any(|s| s.starts_with("[!]")));
    assert!(shown.contains(
        &"Model: window=252 periods, frequency=Daily, shrinkage_intensity=0.0374, regime=Bull"
            .to_string()
    ));
    assert!(shown.contains(
        &"Data quality: 2021-09-27 to 2026-09-24 (1234 trading days), 5 forward-filled, 1 dropped"
            .to_string()
    ));
    match &marks[0] {
        Mark::Text { x, y, font, size, .. } => {
            assert_eq!((*x, *y, *font, *size), (40, 554, Font::Bold, 18))
        }
        other => panic!("{other:?}"),
    }
    let silent = texts(&page(None, &["unverified"]));
    assert!(silent.contains(&"No narrative \u{2014} direct experiment result.".to_string()));
    assert!(!silent.iter().any(|s| s.starts_with("[!]")));
}

#[test]
fn characters_that_the_fonts_lack_are_replaced() {
    assert_eq!(pdf_safe("\u{2212}\u{20b9}5 \u{2713}\u{2717}\u{26a0}"), "-Rs.5 YN!");
    assert_eq!(pdf_safe(&pdf_safe("\u{20b9}5")), "Rs.5");
    assert_eq!((char_width('i'), char_width('W'), char_width('7')), (280, 830, 556));
}

#[test]
fn lines_keep_every_word() {
    let text = "one two  three\nfour five";
    let mut wrapped = WrappedText::new();
    for word in split_words(text) {
        let too_wide = wrapped.candidate(&word).len() > 9;
        wrapped.place(&word, too_wide);
    }
    assert_eq!(wrapped.finish(), names(&["one two", "three", "four five"]));
}

// --- schemas --------------------------------------------------------------

fn argument_schema() -> &'static str {
    r##"{"$schema": "http://json-schema.org/draft-07/schema#", "title": "Input", "type": "object",
        "required": ["portfolio", "frequency"],
        "properties": {
            "portfolio": {"$ref": "#/definitions/Portfolio"},
            "frequency": {"allOf": [{"$ref": "#/definitions/Frequency"}], "default": "Daily"},
            "window": {"type": ["integer", "null"], "minimum": 0.0},
            "shocks_pct": {"type": "object", "additionalProperties": {"type": "number"}}},
        "definitions": {
            "Frequency": {"type": "string", "enum": ["Daily", "Weekly"]},
            "Portfolio": {"type": "object", "properties": {"holdings": {"type": "array"}}}}}"##
}

fn declarations() -> Vec<FunctionDeclaration> {
    experiment_function_declarations(&ArgumentSchemas {
        factor_shock: json(argument_schema()),
        risk_decomposition: json(argument_schema()),
        cvar_rebalance: json(argument_schema()),
        portfolio_performance: json(argument_schema()),
        risk_drift: json(argument_schema()),
    })
}

fn assert_no_incompatible_keywords(value: &Json) {
    match value {
        Json::Object(fields) => {
            for keyword in
                ["$schema", "$ref", "definitions", "$defs", "additionalProperties", "allOf"]
            {
                assert!(value.get(keyword).is_none(), "found {keyword}: {value:?}");
            }
            assert!(!matches!(value.get("type"), Some(Json::Array(_))));
            for child in fields {
                assert_no_incompatible_keywords(&child.value);
            }
        }
        Json::Array(items) => items.iter().for_each(assert_no_incompatible_keywords),
        _ => {}
    }
}

#[test]
fn sanitized_schemas_have_no_gemini_incompatible_keywords() {
    assert!(has_finite_references(&without_caller_fields(&json(argument_schema()))));
    assert_eq!(declarations().len(), 5);
    for declaration in declarations() {
        assert_no_incompatible_keywords(&declaration.parameters);
    }
}

#[test]
fn function_schemas_have_no_type_discriminator_or_oneof() {
    for declaration in declarations() {
        let parameters = &declaration.parameters;
        assert!(parameters.get("oneOf").is_none());
        assert!(parameters.at_path(&["properties", "type"]).is_none());
        assert!(parameters.at_path(&["properties", "portfolio"]).is_none());
    }
}

#[test]
fn references_and_combinations_are_merged() {
    let cleaned = sanitized_schema(&json(argument_schema()));
    let path = ["properties", "frequency", "type"];
    assert_eq!(cleaned.text_at(&path).as_deref(), Some("string"));
    let path = ["properties", "frequency", "default"];
    assert_eq!(cleaned.text_at(&path).as_deref(), Some("Daily"));
    let path = ["properties", "window", "type"];
    assert_eq!(cleaned.text_at(&path).as_deref(), Some("integer"));
    match cleaned.get("required") {
        Some(Json::Array(required)) => assert_eq!(required.len(), 1),
        _ => panic!("nothing required"),
    }
    let endless = json(r##"{"$ref": "#/definitions/A", "definitions": {"A": {"$ref": "#/definitions/A"}}}"##);
    assert!(!has_finite_references(&endless));
}
