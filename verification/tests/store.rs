//! Snapshots in a database: the statements and the rows.

use drift_risk::double::Double;
use drift_risk::store::{
    migration_statements, row_of, snapshot_of, RiskSnapshot, SqlValue, INSERT_EXECUTION_TRACE,
    INSERT_SNAPSHOT, SCHEMA, SELECT_BY_ID, SELECT_BY_PORTFOLIO, SELECT_EXECUTION_TRACE,
    SELECT_RECENT,
};
use drift_risk::trace::new_trace_id;
use rusqlite::types::Value;
use rusqlite::{params_from_iter, Connection, OptionalExtension};

const NOW: &str = "2026-01-01T00:00:00Z";

fn d(x: f64) -> Double {
    Double { bits: x.to_bits() }
}

fn f(x: Double) -> f64 {
    f64::from_bits(x.bits)
}

struct Store {
    conn: Connection,
}

impl Store {
    fn open(conn: Connection) -> Store {
        conn.execute_batch(SCHEMA).unwrap();
        let mut names = conn.prepare("SELECT name FROM pragma_table_info('risk_snapshots')").unwrap();
        let existing: Vec<String> =
            names.query_map([], |row| row.get(0)).unwrap().map(|name| name.unwrap()).collect();
        drop(names);
        for statement in migration_statements(&existing) {
            conn.execute(&statement, []).unwrap();
        }
        Store { conn }
    }

    fn in_memory() -> Store {
        Store::open(Connection::open_in_memory().unwrap())
    }

    fn insert(&self, snapshot: &RiskSnapshot) -> String {
        let id = new_trace_id();
        let probabilities = snapshot
            .smoothed_probs
            .map(|p| serde_json::to_string(&p.map(f)).unwrap());
        let cells = row_of(snapshot, &id, NOW, &probabilities);
        let cells = cells.into_iter().map(|cell| match cell {
            SqlValue::Null => Value::Null,
            SqlValue::Text(s) => Value::Text(s),
            SqlValue::Number(x) => Value::Real(f(x)),
        });
        assert_eq!(self.conn.execute(INSERT_SNAPSHOT, params_from_iter(cells)).unwrap(), 1);
        id
    }

    fn get(&self, id: &str) -> Option<RiskSnapshot> {
        self.conn.query_row(SELECT_BY_ID, [id], |row| Ok(read(row))).optional().unwrap()
    }

    fn latest_for_portfolio(&self, hash: &str, limit: i64) -> Vec<RiskSnapshot> {
        let mut statement = self.conn.prepare(SELECT_BY_PORTFOLIO).unwrap();
        let rows = statement.query_map((hash, limit), |row| Ok(read(row))).unwrap();
        rows.map(|row| row.unwrap()).collect()
    }

    fn list_recent(&self, limit: i64) -> Vec<RiskSnapshot> {
        let mut statement = self.conn.prepare(SELECT_RECENT).unwrap();
        let rows = statement.query_map([limit], |row| Ok(read(row))).unwrap();
        rows.map(|row| row.unwrap()).collect()
    }

    fn get_execution_trace(&self, id: &str) -> Option<String> {
        let found = self.conn.query_row(SELECT_EXECUTION_TRACE, [id], |row| row.get(0));
        found.optional().unwrap()
    }
}

fn read(row: &rusqlite::Row) -> RiskSnapshot {
    let cells: Vec<SqlValue> = (0..13)
        .map(|i| match row.get::<usize, Value>(i).unwrap() {
            Value::Null => SqlValue::Null,
            Value::Text(s) => SqlValue::Text(s),
            Value::Real(x) => SqlValue::Number(d(x)),
            other => panic!("unexpected cell {other:?}"),
        })
        .collect();
    let probabilities = match &cells[6] {
        SqlValue::Text(s) => Some(serde_json::from_str::<[f64; 3]>(s).unwrap().map(d)),
        _ => None,
    };
    snapshot_of(&cells, probabilities).unwrap()
}

fn sample_snapshot(portfolio_hash: &str, experiment_type: &str) -> RiskSnapshot {
    RiskSnapshot {
        id: String::new(),
        created_at: String::new(),
        portfolio_hash: portfolio_hash.to_string(),
        experiment_type: experiment_type.to_string(),
        engine_version: "0.1.0".to_string(),
        regime_label: Some("Bull".to_string()),
        smoothed_probs: Some([d(0.7), d(0.2), d(0.1)]),
        portfolio_vol_annualized: Some(d(0.15)),
        cvar_historical: None,
        trace_json: format!("{{\"experiment\":\"{experiment_type}\"}}"),
        narration: Some("Vol is 15.5% annualised.".to_string()),
        suggestion: Some("What if I reduce my turnover to 20%?".to_string()),
        grounding_warnings: Some("[\"unverified number '99%'\"]".to_string()),
    }
}

#[test]
fn insert_and_get_round_trips_the_full_snapshot() {
    let store = Store::in_memory();
    let snapshot = sample_snapshot("abc123", "RiskDecomposition");
    let id = store.insert(&snapshot);
    let fetched = store.get(&id).expect("just-inserted snapshot should be found");
    assert_eq!(fetched.id, id);
    assert_eq!(fetched.portfolio_hash, "abc123");
    assert_eq!(fetched.experiment_type, "RiskDecomposition");
    assert_eq!(fetched.engine_version, "0.1.0");
    assert_eq!(fetched.regime_label.as_deref(), Some("Bull"));
    assert_eq!(fetched.smoothed_probs.map(|p| p.map(f)), Some([0.7, 0.2, 0.1]));
    assert_eq!(fetched.portfolio_vol_annualized.map(f), Some(0.15));
    assert_eq!(fetched.cvar_historical.map(f), None);
    assert_eq!(fetched.trace_json, snapshot.trace_json);
    assert_eq!(fetched.narration, snapshot.narration);
    assert_eq!(fetched.suggestion, snapshot.suggestion);
    assert_eq!(fetched.grounding_warnings, snapshot.grounding_warnings);
}

#[test]
fn get_returns_none_for_an_unknown_id() {
    assert!(Store::in_memory().get("nonexistent").is_none());
}

#[test]
fn latest_for_portfolio_returns_newest_first_and_respects_limit() {
    let store = Store::in_memory();
    let ids: Vec<String> = (0..5)
        .map(|i| store.insert(&sample_snapshot("hash-a", &format!("Type{i}"))))
        .collect();
    store.insert(&sample_snapshot("hash-b", "Other"));

    // All were stored at the same time, so the order of insertion decides.
    let latest = store.latest_for_portfolio("hash-a", 3);
    assert_eq!(latest.len(), 3);
    assert_eq!(latest[0].id, ids[4]);
    assert_eq!(latest[1].id, ids[3]);
    assert_eq!(latest[2].id, ids[2]);
    for snapshot in &latest {
        assert_eq!(snapshot.portfolio_hash, "hash-a");
    }
}

#[test]
fn list_recent_returns_newest_first_and_respects_limit() {
    let store = Store::in_memory();
    let ids: Vec<String> = (0..5)
        .map(|i| store.insert(&sample_snapshot(&format!("hash-{i}"), "RiskDecomposition")))
        .collect();
    let recent = store.list_recent(2);
    assert_eq!(recent.len(), 2);
    assert_eq!(recent[0].id, ids[4]);
    assert_eq!(recent[1].id, ids[3]);
}

#[test]
fn open_migrates_a_pre_existing_database_missing_the_new_columns() {
    let conn = Connection::open_in_memory().unwrap();
    conn.execute_batch(
        "CREATE TABLE risk_snapshots (
            id TEXT PRIMARY KEY, created_at TEXT NOT NULL, portfolio_hash TEXT NOT NULL,
            experiment_type TEXT NOT NULL, engine_version TEXT NOT NULL, regime_label TEXT,
            smoothed_probs TEXT, portfolio_vol_annualized REAL, cvar_historical REAL,
            trace_json TEXT NOT NULL
        );",
    )
    .unwrap();
    conn.execute(
        "INSERT INTO risk_snapshots (id, created_at, portfolio_hash, experiment_type, engine_version, trace_json)
         VALUES ('old-id', '2026-01-01T00:00:00Z', 'hash', 'RiskDecomposition', '0.1.0', '{}')",
        [],
    )
    .unwrap();

    let store = Store::open(conn);
    let old_row = store.get("old-id").expect("pre-existing row should survive the migration");
    assert_eq!(old_row.narration, None);
    assert_eq!(old_row.suggestion, None);
    assert_eq!(old_row.grounding_warnings, None);

    let new_snapshot = sample_snapshot("hash2", "CvarRebalance");
    let new_id = store.insert(&new_snapshot);
    let fetched = store.get(&new_id).unwrap();
    assert_eq!(fetched.narration, new_snapshot.narration);
}

#[test]
fn opening_a_migrated_database_again_changes_nothing() {
    let store = Store::in_memory();
    let id = store.insert(&sample_snapshot("hash", "RiskDecomposition"));
    let again = Store::open(store.conn);
    assert!(again.get(&id).is_some());
}

#[test]
fn execution_trace_round_trips_through_the_store() {
    let store = Store::in_memory();
    let json = r#"{"id":"exec-1","narration":"hi"}"#;
    store.conn.execute(INSERT_EXECUTION_TRACE, ["exec-1", NOW, json]).unwrap();
    assert_eq!(store.get_execution_trace("exec-1").as_deref(), Some(json));
}

#[test]
fn get_execution_trace_returns_none_for_an_unknown_id() {
    assert!(Store::in_memory().get_execution_trace("nonexistent").is_none());
}

#[test]
fn inserting_25_snapshots_does_not_evict_any() {
    let store = Store::in_memory();
    let ids: Vec<String> = (0..25)
        .map(|i| store.insert(&sample_snapshot(&format!("hash-{i}"), "RiskDecomposition")))
        .collect();
    for id in &ids {
        assert!(store.get(id).is_some(), "snapshot {id} should not have been evicted");
    }
    assert_eq!(store.list_recent(100).len(), 25);
}
