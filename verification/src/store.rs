//! What is kept of results: snapshots of a portfolio's risk, and the latest
//! results for the report.

use vstd::prelude::*;

use crate::double::Double;
use crate::text;
use crate::trace;

verus! {

/// A stored result with the figures that are searched for.
#[derive(Debug)]
pub struct RiskSnapshot {
    pub id: String,
    pub created_at: String,
    pub portfolio_hash: String,
    pub experiment_type: String,
    pub engine_version: String,
    pub regime_label: Option<String>,
    pub smoothed_probs: Option<[Double; 3]>,
    pub portfolio_vol_annualized: Option<Double>,
    pub cvar_historical: Option<Double>,
    pub trace_json: String,
    pub narration: Option<String>,
    pub suggestion: Option<String>,
    pub grounding_warnings: Option<String>,
}

// ---------------------------------------------------------------------------
// Migration
// ---------------------------------------------------------------------------

/// The columns that a table of snapshots may lack, in the order in which they
/// came to it.
pub open spec fn additive_columns() -> Seq<Seq<char>> {
    seq!["narration"@, "suggestion"@, "grounding_warnings"@]
}

/// The statement that adds a column.
pub open spec fn alter_statement(column: Seq<char>) -> Seq<char> {
    "ALTER TABLE risk_snapshots ADD COLUMN "@ + column + " TEXT"@
}

/// The statements for those of the first `n` columns that are not there.
pub open spec fn alter_statements(existing: Seq<Seq<char>>, n: int) -> Seq<Seq<char>>
    decreases n,
{
    if n <= 0 {
        seq![]
    } else if existing.contains(additive_columns()[n - 1]) {
        alter_statements(existing, n - 1)
    } else {
        alter_statements(existing, n - 1).push(alter_statement(additive_columns()[n - 1]))
    }
}

/// The statements that bring a table of snapshots up to date, given the names
/// of its columns.
pub fn migration_statements(existing: &Vec<String>) -> (res: Vec<String>)
    ensures
        text::views(res@) == alter_statements(text::views(existing@), 3),
{
    let mut columns: Vec<String> = Vec::new();
    columns.push(text::copy("narration"));
    columns.push(text::copy("suggestion"));
    columns.push(text::copy("grounding_warnings"));
    let ghost names = text::views(existing@);
    let mut out: Vec<String> = Vec::new();
    let mut i: usize = 0;
    assert(text::views(out@) =~= seq![]);
    while i < columns.len()
        invariant
            i <= columns@.len(),
            columns@.len() == 3,
            names == text::views(existing@),
            forall|k: int| 0 <= k < 3 ==> (#[trigger] columns@[k])@ == additive_columns()[k],
            text::views(out@) == alter_statements(names, i as int),
        decreases columns.len() - i,
    {
        let ghost before = out@;
        let ghost column = columns@[i as int]@;
        match text::position(existing, columns[i].as_str()) {
            Some(k) => {
                assert(names[k as int] == column);
            },
            None => {
                proof {
                    if names.contains(column) {
                        let k = choose|k: int| 0 <= k < names.len() && names[k] == column;
                        assert(existing@[k]@ == column);
                    }
                }
                out.push(
                    text::join3(
                        "ALTER TABLE risk_snapshots ADD COLUMN ",
                        columns[i].as_str(),
                        " TEXT",
                    ),
                );
                assert(text::views(out@) =~= text::views(before).push(alter_statement(column)));
            },
        }
        i += 1;
    }
    out
}

/// A column that a table lacks is added, one that it has is not touched.
pub proof fn lemma_missing_columns_are_added(existing: Seq<Seq<char>>, n: int, k: int)
    requires
        0 <= k < n <= 3,
    ensures
        additive_columns() == seq!["narration"@, "suggestion"@, "grounding_warnings"@],
        !existing.contains(additive_columns()[k]) ==> alter_statements(existing, n).contains(
            "ALTER TABLE risk_snapshots ADD COLUMN "@ + additive_columns()[k] + " TEXT"@,
        ),
        alter_statements(existing, n).len() <= n,
        existing.contains(additive_columns()[k]) ==> alter_statements(existing, n).len() < n,
    decreases n,
{
    let (before, all) = (alter_statements(existing, n - 1), alter_statements(existing, n));
    if n == 1 {
        assert(before.len() == 0);
    }
    if k < n - 1 {
        lemma_missing_columns_are_added(existing, n - 1, k);
        if !existing.contains(additive_columns()[k]) {
            let own = alter_statement(additive_columns()[k]);
            let i = choose|i: int| 0 <= i < before.len() && before[i] == own;
            assert(all[i] == own);
        }
    } else {
        if n > 1 {
            lemma_missing_columns_are_added(existing, n - 1, n - 2);
        }
        if !existing.contains(additive_columns()[k]) {
            assert(all[before.len() as int] == alter_statement(additive_columns()[k]));
        }
    }
}

/// A table that has all columns needs no statement: the migration may be run
/// again.
pub proof fn lemma_migration_is_idempotent(existing: Seq<Seq<char>>, n: int)
    requires
        0 <= n <= 3,
        forall|k: int| 0 <= k < 3 ==> existing.contains(#[trigger] additive_columns()[k]),
    ensures
        alter_statements(existing, n) == Seq::<Seq<char>>::empty(),
    decreases n,
{
    if n > 0 {
        assert(existing.contains(additive_columns()[n - 1]));
        lemma_migration_is_idempotent(existing, n - 1);
    }
}

// ---------------------------------------------------------------------------
// Rows
// ---------------------------------------------------------------------------

/// The statements that create what is missing of a database.
pub const SCHEMA: &'static str =
    "
CREATE TABLE IF NOT EXISTS risk_snapshots (
    id          TEXT PRIMARY KEY,
    created_at  TEXT NOT NULL,
    portfolio_hash TEXT NOT NULL,
    experiment_type TEXT NOT NULL,
    engine_version TEXT NOT NULL,
    regime_label TEXT,
    smoothed_probs TEXT,
    portfolio_vol_annualized REAL,
    cvar_historical REAL,
    trace_json TEXT NOT NULL,
    narration TEXT,
    suggestion TEXT,
    grounding_warnings TEXT
);
CREATE INDEX IF NOT EXISTS risk_snapshots_portfolio_hash_created_at
    ON risk_snapshots (portfolio_hash, created_at);
CREATE TABLE IF NOT EXISTS agent_execution_traces (
    id          TEXT PRIMARY KEY,
    created_at  TEXT NOT NULL,
    execution_trace_json TEXT NOT NULL
);
";

/// Adds a snapshot; its cells are in the order of [`row_of`].
pub const INSERT_SNAPSHOT: &'static str =
    "INSERT INTO risk_snapshots (
    id, created_at, portfolio_hash, experiment_type, engine_version,
    regime_label, smoothed_probs, portfolio_vol_annualized, cvar_historical, trace_json,
    narration, suggestion, grounding_warnings
) VALUES (?1, ?2, ?3, ?4, ?5, ?6, ?7, ?8, ?9, ?10, ?11, ?12, ?13)";

/// Finds one snapshot; the cells come in the order of [`row_of`], here and
/// below.
pub const SELECT_BY_ID: &'static str =
    "SELECT id, created_at, portfolio_hash, experiment_type, engine_version,
    regime_label, smoothed_probs, portfolio_vol_annualized, cvar_historical, trace_json,
    narration, suggestion, grounding_warnings
FROM risk_snapshots WHERE id = ?1";

/// Finds the latest snapshots of a portfolio, the newest first.
pub const SELECT_BY_PORTFOLIO: &'static str =
    "SELECT id, created_at, portfolio_hash, experiment_type, engine_version,
    regime_label, smoothed_probs, portfolio_vol_annualized, cvar_historical, trace_json,
    narration, suggestion, grounding_warnings
FROM risk_snapshots WHERE portfolio_hash = ?1
ORDER BY created_at DESC, rowid DESC LIMIT ?2";

/// Finds the latest snapshots, the newest first.
pub const SELECT_RECENT: &'static str =
    "SELECT id, created_at, portfolio_hash, experiment_type, engine_version,
    regime_label, smoothed_probs, portfolio_vol_annualized, cvar_historical, trace_json,
    narration, suggestion, grounding_warnings
FROM risk_snapshots ORDER BY created_at DESC, rowid DESC LIMIT ?1";

/// Stores the record of an orchestration: its id, the time, and its JSON.
pub const INSERT_EXECUTION_TRACE: &'static str =
    "INSERT INTO agent_execution_traces (id, created_at, execution_trace_json)
VALUES (?1, ?2, ?3)";

/// Finds the JSON of an orchestration.
pub const SELECT_EXECUTION_TRACE: &'static str =
    "SELECT execution_trace_json FROM agent_execution_traces WHERE id = ?1";

/// One cell of a table.
#[derive(Debug)]
pub enum SqlValue {
    Null,
    Text(String),
    Number(Double),
}

/// What a cell holds.
pub enum SqlView {
    Null,
    Text(Seq<char>),
    Number(Double),
}

impl View for SqlValue {
    type V = SqlView;

    open spec fn view(&self) -> SqlView {
        match self {
            SqlValue::Null => SqlView::Null,
            SqlValue::Text(s) => SqlView::Text(s@),
            SqlValue::Number(x) => SqlView::Number(*x),
        }
    }
}

/// What the cells of a row hold.
pub open spec fn cells_view(cells: Seq<SqlValue>) -> Seq<SqlView> {
    cells.map_values(|c: SqlValue| c@)
}

/// The cell of a text that may be missing.
pub open spec fn text_cell(value: Option<String>) -> SqlView {
    match value {
        Some(s) => SqlView::Text(s@),
        None => SqlView::Null,
    }
}

/// The cell of a number that may be missing.
pub open spec fn number_cell(value: Option<Double>) -> SqlView {
    match value {
        Some(x) => SqlView::Number(x),
        None => SqlView::Null,
    }
}

/// The row of a snapshot that is stored under an identifier at a time.
/// `probabilities` are its regime probabilities, written as JSON.
pub open spec fn row_cells(
    snapshot: RiskSnapshot,
    id: Seq<char>,
    created_at: Seq<char>,
    probabilities: Option<String>,
) -> Seq<SqlView> {
    seq![
        SqlView::Text(id),
        SqlView::Text(created_at),
        SqlView::Text(snapshot.portfolio_hash@),
        SqlView::Text(snapshot.experiment_type@),
        SqlView::Text(snapshot.engine_version@),
        text_cell(snapshot.regime_label),
        text_cell(probabilities),
        number_cell(snapshot.portfolio_vol_annualized),
        number_cell(snapshot.cvar_historical),
        SqlView::Text(snapshot.trace_json@),
        text_cell(snapshot.narration),
        text_cell(snapshot.suggestion),
        text_cell(snapshot.grounding_warnings),
    ]
}

fn optional_text(value: &Option<String>) -> (res: SqlValue)
    ensures
        res@ == text_cell(*value),
{
    match value {
        Some(s) => SqlValue::Text(text::copy(s.as_str())),
        None => SqlValue::Null,
    }
}

fn optional_double(value: Option<Double>) -> (res: SqlValue)
    ensures
        res@ == number_cell(value),
{
    match value {
        Some(x) => SqlValue::Number(x),
        None => SqlValue::Null,
    }
}

fn plain_text(value: &str) -> (res: SqlValue)
    ensures
        res@ == SqlView::Text(value@),
{
    SqlValue::Text(text::copy(value))
}

/// Writes a snapshot as a row. Its own identifier and time are not looked at.
pub fn row_of(
    snapshot: &RiskSnapshot,
    id: &str,
    created_at: &str,
    probabilities: &Option<String>,
) -> (res: Vec<SqlValue>)
    ensures
        cells_view(res@) == row_cells(*snapshot, id@, created_at@, *probabilities),
{
    let mut cells: Vec<SqlValue> = Vec::new();
    cells.push(plain_text(id));
    cells.push(plain_text(created_at));
    cells.push(plain_text(snapshot.portfolio_hash.as_str()));
    cells.push(plain_text(snapshot.experiment_type.as_str()));
    cells.push(plain_text(snapshot.engine_version.as_str()));
    cells.push(optional_text(&snapshot.regime_label));
    cells.push(optional_text(probabilities));
    cells.push(optional_double(snapshot.portfolio_vol_annualized));
    cells.push(optional_double(snapshot.cvar_historical));
    cells.push(plain_text(snapshot.trace_json.as_str()));
    cells.push(optional_text(&snapshot.narration));
    cells.push(optional_text(&snapshot.suggestion));
    cells.push(optional_text(&snapshot.grounding_warnings));
    assert(cells_view(cells@) =~= row_cells(*snapshot, id@, created_at@, *probabilities));
    cells
}

/// Whether a cell holds a text or nothing.
pub open spec fn may_be_text(cell: SqlView) -> bool {
    cell !is Number
}

/// Whether a cell holds a number or nothing.
pub open spec fn may_be_number(cell: SqlView) -> bool {
    cell !is Text
}

/// Whether a row has the cells of a snapshot.
pub open spec fn is_row(cells: Seq<SqlView>) -> bool {
    &&& cells.len() == 13
    &&& cells[0] is Text && cells[1] is Text && cells[2] is Text && cells[3] is Text
    &&& cells[4] is Text && may_be_text(cells[5]) && may_be_text(cells[6])
    &&& may_be_number(cells[7]) && may_be_number(cells[8]) && cells[9] is Text
    &&& may_be_text(cells[10]) && may_be_text(cells[11]) && may_be_text(cells[12])
}

/// Whether a snapshot is what a row says, given its regime probabilities.
pub open spec fn is_from_row(
    snapshot: RiskSnapshot,
    cells: Seq<SqlView>,
    probabilities: Option<[Double; 3]>,
) -> bool {
    &&& cells[0] == SqlView::Text(snapshot.id@)
    &&& cells[1] == SqlView::Text(snapshot.created_at@)
    &&& cells[2] == SqlView::Text(snapshot.portfolio_hash@)
    &&& cells[3] == SqlView::Text(snapshot.experiment_type@)
    &&& cells[4] == SqlView::Text(snapshot.engine_version@)
    &&& cells[5] == text_cell(snapshot.regime_label)
    &&& snapshot.smoothed_probs == probabilities
    &&& cells[7] == number_cell(snapshot.portfolio_vol_annualized)
    &&& cells[8] == number_cell(snapshot.cvar_historical)
    &&& cells[9] == SqlView::Text(snapshot.trace_json@)
    &&& cells[10] == text_cell(snapshot.narration)
    &&& cells[11] == text_cell(snapshot.suggestion)
    &&& cells[12] == text_cell(snapshot.grounding_warnings)
}

fn as_text(cell: &SqlValue) -> (res: Option<String>)
    ensures
        match res {
            Some(s) => cell@ == SqlView::Text(s@),
            None => cell@ !is Text,
        },
{
    match cell {
        SqlValue::Text(s) => Some(text::copy(s.as_str())),
        _ => None,
    }
}

fn as_optional_text(cell: &SqlValue) -> (res: Option<Option<String>>)
    ensures
        match res {
            Some(value) => cell@ == text_cell(value),
            None => !may_be_text(cell@),
        },
{
    match cell {
        SqlValue::Null => Some(None),
        SqlValue::Text(s) => Some(Some(text::copy(s.as_str()))),
        SqlValue::Number(_) => None,
    }
}

fn as_optional_double(cell: &SqlValue) -> (res: Option<Option<Double>>)
    ensures
        match res {
            Some(value) => cell@ == number_cell(value),
            None => !may_be_number(cell@),
        },
{
    match cell {
        SqlValue::Null => Some(None),
        SqlValue::Number(x) => Some(Some(*x)),
        SqlValue::Text(_) => None,
    }
}

/// Reads a snapshot from a row; `None` where a cell is not of its kind.
/// `probabilities` are the regime probabilities that its cell was read as.
pub fn snapshot_of(cells: &Vec<SqlValue>, probabilities: Option<[Double; 3]>) -> (res: Option<
    RiskSnapshot,
>)
    ensures
        match res {
            Some(snapshot) => is_row(cells_view(cells@)) && is_from_row(
                snapshot,
                cells_view(cells@),
                probabilities,
            ),
            None => !is_row(cells_view(cells@)),
        },
{
    if cells.len() != 13 {
        return None;
    }
    assert(forall|i: int| 0 <= i < 13 ==> cells_view(cells@)[i] == (#[trigger] cells@[i])@);
    let id = as_text(&cells[0])?;
    let created_at = as_text(&cells[1])?;
    let portfolio_hash = as_text(&cells[2])?;
    let experiment_type = as_text(&cells[3])?;
    let engine_version = as_text(&cells[4])?;
    let regime_label = as_optional_text(&cells[5])?;
    let _ = as_optional_text(&cells[6])?;
    let portfolio_vol_annualized = as_optional_double(&cells[7])?;
    let cvar_historical = as_optional_double(&cells[8])?;
    let trace_json = as_text(&cells[9])?;
    let narration = as_optional_text(&cells[10])?;
    let suggestion = as_optional_text(&cells[11])?;
    let grounding_warnings = as_optional_text(&cells[12])?;
    Some(
        RiskSnapshot {
            id,
            created_at,
            portfolio_hash,
            experiment_type,
            engine_version,
            regime_label,
            smoothed_probs: probabilities,
            portfolio_vol_annualized,
            cvar_historical,
            trace_json,
            narration,
            suggestion,
            grounding_warnings,
        },
    )
}

/// The cells of a row stand in the order of the columns that the statements
/// name.
pub proof fn lemma_cells_in_column_order(
    snapshot: RiskSnapshot,
    id: Seq<char>,
    created_at: Seq<char>,
    probabilities: Option<String>,
)
    ensures
        ({
            let cells = row_cells(snapshot, id, created_at, probabilities);
            &&& cells.len() == 13
            &&& cells[0] == SqlView::Text(id) && cells[1] == SqlView::Text(created_at)
            &&& cells[2] == SqlView::Text(snapshot.portfolio_hash@)
            &&& cells[3] == SqlView::Text(snapshot.experiment_type@)
            &&& cells[4] == SqlView::Text(snapshot.engine_version@)
            &&& snapshot.regime_label is Some ==> cells[5] == SqlView::Text(
                snapshot.regime_label->Some_0@,
            )
            &&& probabilities is Some ==> cells[6] == SqlView::Text(probabilities->Some_0@)
            &&& snapshot.portfolio_vol_annualized is Some ==> cells[7] == SqlView::Number(
                snapshot.portfolio_vol_annualized->Some_0,
            )
            &&& snapshot.cvar_historical is Some ==> cells[8] == SqlView::Number(
                snapshot.cvar_historical->Some_0,
            )
            &&& cells[9] == SqlView::Text(snapshot.trace_json@)
            &&& snapshot.narration is Some ==> cells[10] == SqlView::Text(
                snapshot.narration->Some_0@,
            )
            &&& snapshot.suggestion is Some ==> cells[11] == SqlView::Text(
                snapshot.suggestion->Some_0@,
            )
            &&& snapshot.grounding_warnings is Some ==> cells[12] == SqlView::Text(
                snapshot.grounding_warnings->Some_0@,
            )
            &&& snapshot.regime_label is None ==> cells[5] is Null
            &&& snapshot.portfolio_vol_annualized is None ==> cells[7] is Null
            &&& snapshot.cvar_historical is None ==> cells[8] is Null
            &&& snapshot.narration is None ==> cells[10] is Null
            &&& snapshot.suggestion is None ==> cells[11] is Null
            &&& snapshot.grounding_warnings is None ==> cells[12] is Null
        }),
{
}

/// A snapshot reads back from the row it was written as, under the identifier
/// and the time it was stored with.
pub proof fn lemma_rows_read_back(
    snapshot: RiskSnapshot,
    id: String,
    created_at: String,
    probabilities: Option<String>,
)
    ensures
        ({
            let cells = row_cells(snapshot, id@, created_at@, probabilities);
            &&& is_row(cells)
            &&& is_from_row(
                (RiskSnapshot { id, created_at, ..snapshot }),
                cells,
                snapshot.smoothed_probs,
            )
        }),
{
}

// ---------------------------------------------------------------------------
// The latest results
// ---------------------------------------------------------------------------

/// How many results are kept where nothing is said.
pub const DEFAULT_CAPACITY: usize = 20;

/// The latest results, the oldest first, each under its identifier.
#[derive(Debug)]
pub struct ResultStore<R> {
    pub entries: Vec<(String, R)>,
    pub capacity: usize,
}

impl<R> ResultStore<R> {
    /// The identifiers and results, the oldest first.
    pub open spec fn contents(self) -> Seq<(Seq<char>, R)> {
        self.entries@.map_values(|e: (String, R)| (e.0@, e.1))
    }

    /// What the store keeps at most: its capacity, but always one.
    pub open spec fn bound(self) -> int {
        if self.capacity == 0 {
            1
        } else {
            self.capacity as int
        }
    }

    /// Whether no more is kept than that.
    pub open spec fn well_formed(self) -> bool {
        self.entries@.len() <= self.bound()
    }

    /// An empty store of the default capacity.
    pub fn new() -> (res: Self)
        ensures
            res.well_formed(),
            res.contents() == Seq::<(Seq<char>, R)>::empty(),
            res.capacity == DEFAULT_CAPACITY,
    {
        Self::with_capacity(DEFAULT_CAPACITY)
    }

    /// An empty store.
    pub fn with_capacity(capacity: usize) -> (res: Self)
        ensures
            res.well_formed(),
            res.contents() == Seq::<(Seq<char>, R)>::empty(),
            res.capacity == capacity,
    {
        let res = ResultStore { entries: Vec::new(), capacity };
        assert(res.contents() =~= Seq::empty());
        res
    }

    /// Adds a result under a fresh identifier, which is returned; where the
    /// store is full, the oldest result leaves it.
    pub fn insert(&mut self, result: R) -> (id: String)
        requires
            old(self).well_formed(),
        ensures
            trace::is_random_uuid(id@),
            final(self).well_formed(),
            final(self).capacity == old(self).capacity,
            final(self).contents() == after_insert(
                old(self).contents(),
                old(self).capacity as int,
                id@,
                result,
            ),
    {
        let id = trace::random_uuid();
        let ghost before = self.contents();
        if self.entries.len() >= self.capacity && self.entries.len() > 0 {
            let _ = self.entries.remove(0);
            assert(self.contents() =~= before.drop_first());
        }
        let ghost kept = self.contents();
        self.entries.push((text::copy(id.as_str()), result));
        assert(self.contents() =~= kept.push((id@, result)));
        id
    }

    /// The place of the result under an identifier.
    pub fn find(&self, id: &str) -> (res: Option<usize>)
        ensures
            match res {
                Some(i) => i < self.entries@.len() && self.contents()[i as int].0 == id@
                    && forall|k: int| 0 <= k < i ==> self.contents()[k].0 != id@,
                None => forall|k: int|
                    0 <= k < self.contents().len() ==> self.contents()[k].0 != id@,
            },
    {
        let mut i: usize = 0;
        while i < self.entries.len()
            invariant
                i <= self.entries@.len(),
                forall|k: int| 0 <= k < i ==> self.contents()[k].0 != id@,
            decreases self.entries.len() - i,
        {
            if text::same(self.entries[i].0.as_str(), id) {
                return Some(i);
            }
            i += 1;
        }
        None
    }

    /// The result under an identifier, `None` where it has left the store or
    /// never was in it.
    pub fn get(&self, id: &str) -> (res: Option<&R>)
        ensures
            match res {
                Some(r) => exists|i: int|
                    {
                        &&& 0 <= i < self.contents().len()
                        &&& #[trigger] self.contents()[i] == (id@, *r)
                        &&& forall|k: int| 0 <= k < i ==> self.contents()[k].0 != id@
                    },
                None => forall|k: int|
                    0 <= k < self.contents().len() ==> self.contents()[k].0 != id@,
            },
    {
        match self.find(id) {
            Some(i) => {
                assert(self.contents()[i as int] == (id@, self.entries@[i as int].1));
                Some(&self.entries[i].1)
            },
            None => None,
        }
    }
}

/// The contents of a store after a result was added.
pub open spec fn after_insert<R>(
    contents: Seq<(Seq<char>, R)>,
    capacity: int,
    id: Seq<char>,
    result: R,
) -> Seq<(Seq<char>, R)> {
    let kept = if contents.len() >= capacity && contents.len() > 0 {
        contents.drop_first()
    } else {
        contents
    };
    kept.push((id, result))
}

/// The contents of an empty store after the given results were added in turn.
pub open spec fn after_inserts<R>(capacity: int, added: Seq<(Seq<char>, R)>) -> Seq<(Seq<char>, R)>
    decreases added.len(),
{
    if added.len() == 0 {
        seq![]
    } else {
        after_insert(
            after_inserts(capacity, added.drop_last()),
            capacity,
            added.last().0,
            added.last().1,
        )
    }
}

/// A store without capacity keeps the very last result.
pub proof fn lemma_last_remains<R>(added: Seq<(Seq<char>, R)>)
    requires
        added.len() > 0,
    ensures
        after_inserts(0, added) == seq![added.last()],
    decreases added.len(),
{
    let front = added.drop_last();
    if front.len() > 0 {
        lemma_last_remains(front);
        assert(after_inserts(0, front).drop_first() =~= seq![]);
    } else {
        assert(after_inserts::<R>(0, front) =~= seq![]);
    }
    assert(added.last() == (added.last().0, added.last().1));
    assert(after_inserts(0, added) =~= seq![added.last()]);
}

/// A store keeps the newest results: after any number of additions it holds
/// the last `capacity` of them, in the order in which they were added.
pub proof fn lemma_newest_remain<R>(capacity: int, added: Seq<(Seq<char>, R)>)
    requires
        capacity > 0,
    ensures
        after_inserts(capacity, added) == (if added.len() <= capacity {
            added
        } else {
            added.skip(added.len() - capacity)
        }),
    decreases added.len(),
{
    if added.len() > 0 {
        let front = added.drop_last();
        lemma_newest_remain(capacity, front);
        let before = after_inserts(capacity, front);
        if front.len() < capacity {
            assert(before =~= front);
            assert(front.push(added.last()) =~= added);
        } else {
            assert(before.len() == capacity);
            assert(after_inserts(capacity, added) =~= added.skip(added.len() - capacity));
        }
        assert(added.last() == (added.last().0, added.last().1));
    } else {
        assert(after_inserts(capacity, added) =~= added);
    }
}

} // verus!
