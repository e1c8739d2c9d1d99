//! How the risk of a portfolio has changed since a stored decomposition.
//!
//! The comparison first reads both sides ([`plan_risk_drift`]); the
//! differences are then computed from the numbers it pairs up; and
//! [`compute_risk_drift`] puts the result together.

use vstd::prelude::*;

use crate::double::Double;
use crate::error::{ComputeError, ComputeErrorView};
use crate::experiments::{CorrelationMatrix, FactorContribution, RiskDecompositionOutput};
use crate::json::{self, Fields, Json, JsonView};
use crate::message::{self, Message, PieceView};
use crate::model::{self, Frequency};
use crate::regime;
use crate::select;
use crate::store::RiskSnapshot;
use crate::table::{self, Rows, Table};
use crate::text;
use crate::trace::{self, BaselineModelParams, EvidenceTrace, InvariantCheck};

verus! {

/// The bit pattern of `0.05`: a larger rise of the largest share means that
/// risk became more concentrated.
pub const CONCENTRATION_RISE_BITS: u64 = 0x3fa9_9999_9999_999a;

/// The bit pattern of `1e-6`.
pub const SUM_TOLERANCE_BITS: u64 = 0x3eb0_c6f7_a0b5_ed8d;

/// A question for the change since a stored decomposition.
#[derive(Debug)]
pub struct RiskDriftInput {
    /// The snapshot to compare with; the most recent one of the portfolio
    /// where it is left out.
    pub baseline_snapshot_id: Option<String>,
    pub window: Option<usize>,
    pub frequency: Option<String>,
}

impl RiskDriftInput {
    /// The frequency asked for.
    pub fn resolved_frequency(&self) -> (res: Result<Frequency, ComputeError>)
        ensures
            match self.frequency {
                None => res == Ok::<Frequency, ComputeError>(Frequency::Daily),
                Some(n) => match model::frequency_named(n@) {
                    Some(f) => res == Ok::<Frequency, ComputeError>(f),
                    None => res is Err && res->Err_0@ == ComputeErrorView::InvalidInput(
                        model::unknown_frequency(n@),
                    ),
                },
            },
    {
        match &self.frequency {
            Some(name) => Frequency::from_optional_str(Some(name.as_str())),
            None => Frequency::from_optional_str(None),
        }
    }
}

// ---------------------------------------------------------------------------
// The baseline
// ---------------------------------------------------------------------------

/// The message for an identifier that no snapshot has.
pub open spec fn no_such_snapshot(id: Seq<char>) -> Seq<PieceView> {
    seq![PieceView::Text("no stored snapshot found for id "@), PieceView::Text(text::quoted(id))]
}

/// The message for a snapshot of another portfolio.
pub open spec fn foreign_snapshot(id: Seq<char>) -> Seq<PieceView> {
    seq![
        PieceView::Text("snapshot "@),
        PieceView::Text(id),
        PieceView::Text(" belongs to a different portfolio than the current request"@),
    ]
}

/// The message for a portfolio without a snapshot.
pub const NO_PRIOR_SNAPSHOT: &'static str =
    "No prior snapshot found for this portfolio. Run a RiskDecomposition first to establish a baseline.";

/// Decides on the baseline, given what the store found: under the identifier
/// where one was asked for, else the most recent snapshot of the portfolio.
pub fn resolve_baseline(
    input: &RiskDriftInput,
    portfolio_hash: &str,
    found: Option<RiskSnapshot>,
) -> (res: Result<RiskSnapshot, ComputeError>)
    ensures
        match (input.baseline_snapshot_id, found) {
            (Some(id), None) => res is Err && res->Err_0@ == ComputeErrorView::NoPriorSnapshot(
                no_such_snapshot(id@),
            ),
            (Some(id), Some(snapshot)) => if snapshot.portfolio_hash@ == portfolio_hash@ {
                res == Ok::<RiskSnapshot, ComputeError>(snapshot)
            } else {
                res is Err && res->Err_0@ == ComputeErrorView::InvalidInput(foreign_snapshot(id@))
            },
            (None, Some(snapshot)) => res == Ok::<RiskSnapshot, ComputeError>(snapshot),
            (None, None) => res is Err && res->Err_0@ == ComputeErrorView::NoPriorSnapshot(
                message::plain(NO_PRIOR_SNAPSHOT@),
            ),
        },
{
    match &input.baseline_snapshot_id {
        Some(id) => match found {
            None => {
                let mut m = Message::of("no stored snapshot found for id ");
                let shown = text::quote(id.as_str());
                m.text(shown.as_str());
                assert(m@ =~= no_such_snapshot(id@));
                Err(ComputeError::NoPriorSnapshot(m))
            },
            Some(snapshot) => {
                if text::same(snapshot.portfolio_hash.as_str(), portfolio_hash) {
                    Ok(snapshot)
                } else {
                    let mut m = Message::of("snapshot ");
                    m.text(id.as_str());
                    m.text(" belongs to a different portfolio than the current request");
                    assert(m@ =~= foreign_snapshot(id@));
                    Err(ComputeError::InvalidInput(m))
                }
            },
        },
        None => match found {
            Some(snapshot) => Ok(snapshot),
            None => Err(ComputeError::NoPriorSnapshot(Message::of(NO_PRIOR_SNAPSHOT))),
        },
    }
}

/// The regime of a trace, as far as a comparison reads it.
#[derive(Debug)]
pub struct RegimeReading {
    pub label: String,
    pub smoothed_probs: [Double; 3],
}

/// A stored trace, as far as a comparison reads it.
#[derive(Debug)]
pub struct BaselineTrace {
    pub experiment: String,
    pub outputs: Json,
    pub regime: Option<RegimeReading>,
    /// The last day of its data.
    pub data_end: i32,
    pub window_periods: usize,
    pub frequency: Frequency,
    pub shrinkage_intensity: Double,
}

// ---------------------------------------------------------------------------
// Reading the stored result
// ---------------------------------------------------------------------------

/// The number in a field of a value.
pub open spec fn number_in(value: JsonView, name: Seq<char>) -> Option<Double> {
    match value.field(name) {
        Some(v) => v.double(),
        None => None,
    }
}

/// The text in a field of a value.
pub open spec fn text_in(value: JsonView, name: Seq<char>) -> Option<Seq<char>> {
    match value.field(name) {
        Some(v) => v.text(),
        None => None,
    }
}

/// The list in a field of a value.
pub open spec fn list_in(value: JsonView, name: Seq<char>) -> Option<Seq<JsonView>> {
    match value.field(name) {
        Some(JsonView::Array(items)) => Some(items),
        _ => None,
    }
}

/// The message for a number that is not there.
pub open spec fn missing_number(name: Seq<char>) -> Seq<PieceView> {
    seq![
        PieceView::Text("baseline trace is missing \""@),
        PieceView::Text(name),
        PieceView::Text("\""@),
    ]
}

fn required_number(value: &Json, name: &str) -> (res: Result<Double, ComputeError>)
    ensures
        match number_in(value@, name@) {
            Some(x) => res == Ok::<Double, ComputeError>(x),
            None => res is Err && res->Err_0@ == ComputeErrorView::InvalidInput(
                missing_number(name@),
            ),
        },
{
    let found = match value.get(name) {
        Some(v) => v.as_double(),
        None => None,
    };
    match found {
        Some(x) => Ok(x),
        None => {
            let mut m = Message::of("baseline trace is missing \"");
            m.text(name);
            m.text("\"");
            assert(m@ =~= missing_number(name@));
            Err(ComputeError::InvalidInput(m))
        },
    }
}

/// The message for a factor entry that lacks a field.
pub open spec fn entry_lacks(name: Seq<char>) -> Seq<PieceView> {
    seq![
        PieceView::Text("by_factor entry missing \""@),
        PieceView::Text(name),
        PieceView::Text("\""@),
    ]
}

fn entry_error(name: &str) -> (res: ComputeError)
    ensures
        res@ == ComputeErrorView::InvalidInput(entry_lacks(name@)),
{
    let mut m = Message::of("by_factor entry missing \"");
    m.text(name);
    m.text("\"");
    assert(m@ =~= entry_lacks(name@));
    ComputeError::InvalidInput(m)
}

/// The numbers in `field` of the first `n` factor entries, each under the
/// name of its factor; or what is wrong with the first entry that lacks one
/// of the two.
pub open spec fn entry_rows(items: Seq<JsonView>, field: Seq<char>, n: int) -> Result<
    Rows<Double>,
    Seq<PieceView>,
>
    decreases n,
{
    if n <= 0 {
        Ok(seq![])
    } else {
        match entry_rows(items, field, n - 1) {
            Err(e) => Err(e),
            Ok(rows) => match text_in(items[n - 1], "factor"@) {
                None => Err(entry_lacks("factor"@)),
                Some(factor) => match number_in(items[n - 1], field) {
                    None => Err(entry_lacks(field)),
                    Some(x) => Ok(table::with_row(rows, factor, x)),
                },
            },
        }
    }
}

proof fn lemma_entry_error_stays(items: Seq<JsonView>, field: Seq<char>, n: int, all: int)
    requires
        n <= all,
        entry_rows(items, field, n) is Err,
    ensures
        entry_rows(items, field, all) == entry_rows(items, field, n),
    decreases all - n,
{
    if n < all {
        lemma_entry_error_stays(items, field, n, all - 1);
    }
}

/// What a stored result says of its factors in `field`.
pub open spec fn factor_rows(result: JsonView, field: Seq<char>) -> Result<
    Rows<Double>,
    Seq<PieceView>,
> {
    match list_in(result, "by_factor"@) {
        None => Err(message::plain("baseline trace is missing by_factor"@)),
        Some(items) => entry_rows(items, field, items.len() as int),
    }
}

/// Reads `field` of the factor entries of a stored result.
pub fn factor_field_map(result: &Json, field: &str) -> (res: Result<Table<Double>, ComputeError>)
    ensures
        match factor_rows(result@, field@) {
            Ok(rows) => res is Ok && res->Ok_0@ == rows,
            Err(e) => res is Err && res->Err_0@ == ComputeErrorView::InvalidInput(e),
        },
{
    broadcast use json::lemma_array_view;

    let items = match result.get("by_factor") {
        Some(Json::Array(items)) => items,
        _ => {
            return Err(
                ComputeError::InvalidInput(Message::of("baseline trace is missing by_factor")),
            );
        },
    };
    let ghost views = json::items_view(items@);
    let mut out: Table<Double> = Table::new();
    let mut i: usize = 0;
    while i < items.len()
        invariant
            i <= items@.len(),
            views == json::items_view(items@),
            list_in(result@, "by_factor"@) == Some(views),
            entry_rows(views, field@, i as int) == Ok::<Rows<Double>, Seq<PieceView>>(out@),
        decreases items.len() - i,
    {
        assert(views[i as int] == items@[i as int]@);
        let factor = match items[i].get("factor") {
            Some(v) => v.as_text(),
            None => None,
        };
        let value = match items[i].get(field) {
            Some(v) => v.as_double(),
            None => None,
        };
        match factor {
            None => {
                assert(entry_rows(views, field@, i + 1) is Err);
                proof {
                    lemma_entry_error_stays(views, field@, i + 1, views.len() as int);
                }
                return Err(entry_error("factor"));
            },
            Some(name) => match value {
                None => {
                    assert(entry_rows(views, field@, i + 1) is Err);
                    proof {
                        lemma_entry_error_stays(views, field@, i + 1, views.len() as int);
                    }
                    return Err(entry_error(field));
                },
                Some(x) => {
                    out.set(name, x);
                },
            },
        }
        i += 1;
    }
    Ok(out)
}

/// The numbers among the first `n` fields.
pub open spec fn number_rows(fields: Fields, n: int) -> Rows<Double>
    decreases n,
{
    if n <= 0 {
        seq![]
    } else {
        match fields[n - 1].1.double() {
            Some(x) => table::with_row(number_rows(fields, n - 1), fields[n - 1].0, x),
            None => number_rows(fields, n - 1),
        }
    }
}

/// The numbers of an object, none for any other value.
pub open spec fn numbers_of(value: Option<JsonView>) -> Rows<Double> {
    match value {
        Some(JsonView::Object(fields)) => number_rows(fields, fields.len() as int),
        _ => seq![],
    }
}

/// Reads the numbers of an object; a value that is absent or no object has
/// none.
pub fn betas_map(value: Option<&Json>) -> (res: Table<Double>)
    ensures
        res@ == numbers_of(
            match value {
                Some(v) => Some(v@),
                None => None,
            },
        ),
{
    broadcast use json::lemma_object_view;

    let mut out: Table<Double> = Table::new();
    if let Some(Json::Object(fields)) = value {
        let ghost views = json::fields_view(fields@);
        let mut i: usize = 0;
        while i < fields.len()
            invariant
                i <= fields@.len(),
                views == json::fields_view(fields@),
                out@ == number_rows(views, i as int),
            decreases fields.len() - i,
        {
            assert(views[i as int] == (fields@[i as int].name@, fields@[i as int].value@));
            if let Some(x) = fields[i].value.as_double() {
                out.set(fields[i].name.as_str(), x);
            }
            i += 1;
        }
    }
    out
}

// ---------------------------------------------------------------------------
// Correlations
// ---------------------------------------------------------------------------

/// The entry of a grid at row `i` and column `j`.
pub open spec fn cell(cells: Seq<Seq<Option<Double>>>, i: int, j: int) -> Option<Double> {
    if 0 <= i < cells.len() && 0 <= j < cells[i].len() {
        cells[i][j]
    } else {
        None
    }
}

/// The name of a pair of factors.
pub open spec fn pair_name(a: Seq<char>, b: Seq<char>) -> Seq<char> {
    a + ":"@ + b
}

/// `start` with the entries of row `i` right of the diagonal and left of
/// column `j`.
pub open spec fn row_pairs(
    names: Seq<Seq<char>>,
    cells: Seq<Seq<Option<Double>>>,
    i: int,
    j: int,
    start: Rows<Double>,
) -> Rows<Double>
    decreases j,
{
    if j <= i + 1 || j <= 0 {
        start
    } else {
        let before = row_pairs(names, cells, i, j - 1, start);
        match cell(cells, i, j - 1) {
            Some(x) => table::with_row(before, pair_name(names[i], names[j - 1]), x),
            None => before,
        }
    }
}

/// The entries above the diagonal in the first `i` rows, each under the names
/// of its two factors.
pub open spec fn triangle_rows(
    names: Seq<Seq<char>>,
    cells: Seq<Seq<Option<Double>>>,
    i: int,
) -> Rows<Double>
    decreases i,
{
    if i <= 0 {
        seq![]
    } else {
        row_pairs(names, cells, i - 1, names.len() as int, triangle_rows(names, cells, i - 1))
    }
}

/// The entries of a grid.
pub open spec fn grid(cells: Seq<Vec<Option<Double>>>) -> Seq<Seq<Option<Double>>> {
    cells.map_values(|r: Vec<Option<Double>>| r@)
}

fn upper_triangle(names: &Vec<String>, cells: &Vec<Vec<Option<Double>>>) -> (res: Table<Double>)
    ensures
        res@ == triangle_rows(text::views(names@), grid(cells@), names@.len() as int),
{
    let ghost words = text::views(names@);
    let ghost entries = grid(cells@);
    let mut out: Table<Double> = Table::new();
    let mut i: usize = 0;
    while i < names.len()
        invariant
            i <= names@.len(),
            words == text::views(names@),
            entries == grid(cells@),
            out@ == triangle_rows(words, entries, i as int),
        decreases names.len() - i,
    {
        let mut j: usize = i + 1;
        while j < names.len()
            invariant
                i < j <= names@.len(),
                words == text::views(names@),
                entries == grid(cells@),
                out@ == row_pairs(
                    words,
                    entries,
                    i as int,
                    j as int,
                    triangle_rows(words, entries, i as int),
                ),
            decreases names.len() - j,
        {
            let entry = if i < cells.len() && j < cells[i].len() {
                cells[i][j]
            } else {
                None
            };
            assert(entry == cell(entries, i as int, j as int));
            if let Some(x) = entry {
                let name = text::join3(names[i].as_str(), ":", names[j].as_str());
                out.set(name.as_str(), x);
            }
            j += 1;
        }
        i += 1;
    }
    out
}

/// The texts among the first `n` values.
pub open spec fn texts_of(items: Seq<JsonView>, n: int) -> Seq<Seq<char>>
    decreases n,
{
    if n <= 0 {
        seq![]
    } else {
        match items[n - 1].text() {
            Some(s) => texts_of(items, n - 1).push(s),
            None => texts_of(items, n - 1),
        }
    }
}

fn texts_in(items: &Vec<Json>) -> (res: Vec<String>)
    ensures
        text::views(res@) == texts_of(json::items_view(items@), items@.len() as int),
{
    let ghost views = json::items_view(items@);
    let mut out: Vec<String> = Vec::new();
    let mut i: usize = 0;
    assert(text::views(out@) =~= seq![]);
    while i < items.len()
        invariant
            i <= items@.len(),
            views == json::items_view(items@),
            text::views(out@) == texts_of(views, i as int),
        decreases items.len() - i,
    {
        let ghost before = out@;
        assert(views[i as int] == items@[i as int]@);
        if let Some(s) = items[i].as_text() {
            out.push(text::copy(s));
            assert(text::views(out@) =~= text::views(before).push(s@));
        }
        i += 1;
    }
    out
}

/// The numbers of a list, `None` for an entry that is no number; no entries
/// for any other value.
pub open spec fn cells_of_row(row: JsonView) -> Seq<Option<Double>> {
    match row {
        JsonView::Array(items) => items.map_values(|v: JsonView| v.double()),
        _ => seq![],
    }
}

/// The correlations in a stored result: those of the pairs of its factors for
/// which it holds a number.
pub open spec fn stored_correlations(value: Option<JsonView>) -> Rows<Double> {
    match value {
        None => seq![],
        Some(v) => match list_in(v, "rows"@) {
            None => seq![],
            Some(rows) => {
                let names = match list_in(v, "factor_names"@) {
                    Some(items) => texts_of(items, items.len() as int),
                    None => seq![],
                };
                triangle_rows(
                    names,
                    rows.map_values(|r: JsonView| cells_of_row(r)),
                    names.len() as int,
                )
            },
        },
    }
}

fn row_cells(row: &Json) -> (res: Vec<Option<Double>>)
    ensures
        res@ == cells_of_row(row@),
{
    broadcast use json::lemma_array_view;

    let mut out: Vec<Option<Double>> = Vec::new();
    if let Json::Array(items) = row {
        let mut j: usize = 0;
        while j < items.len()
            invariant
                j <= items@.len(),
                out@.len() == j,
                forall|k: int| 0 <= k < j ==> (#[trigger] out@[k]) == items@[k]@.double(),
            decreases items.len() - j,
        {
            out.push(items[j].as_double());
            j += 1;
        }
    }
    assert(out@ =~= cells_of_row(row@));
    out
}

/// Reads the correlations of a stored result.
pub fn correlation_map_from_json(value: Option<&Json>) -> (res: Table<Double>)
    ensures
        res@ == stored_correlations(
            match value {
                Some(v) => Some(v@),
                None => None,
            },
        ),
{
    broadcast use json::lemma_array_view;

    let value = match value {
        Some(v) => v,
        None => {
            return Table::new();
        },
    };
    let names = match value.get("factor_names") {
        Some(Json::Array(items)) => texts_in(items),
        _ => Vec::new(),
    };
    assert(list_in(value@, "factor_names"@) is None ==> text::views(names@) =~= seq![]);
    let rows = match value.get("rows") {
        Some(Json::Array(rows)) => rows,
        _ => {
            return Table::new();
        },
    };
    let mut cells: Vec<Vec<Option<Double>>> = Vec::new();
    let mut i: usize = 0;
    while i < rows.len()
        invariant
            i <= rows@.len(),
            cells@.len() == i,
            forall|k: int| 0 <= k < i ==> (#[trigger] cells@[k])@ == cells_of_row(rows@[k]@),
        decreases rows.len() - i,
    {
        cells.push(row_cells(&rows[i]));
        i += 1;
    }
    assert(grid(cells@) =~= json::items_view(rows@).map_values(|r: JsonView| cells_of_row(r)));
    upper_triangle(&names, &cells)
}

/// Whether a matrix has a row and a column for every one of its factors.
pub open spec fn is_square(m: CorrelationMatrix) -> bool {
    &&& m.factor_names@.len() <= m.rows@.len()
    &&& forall|i: int|
        0 <= i < m.factor_names@.len() ==> m.factor_names@.len() <= (#[trigger] m.rows@[i])@.len()
}

/// The entries of a matrix as a grid.
pub open spec fn matrix_cells(rows: Seq<Vec<Double>>) -> Seq<Seq<Option<Double>>> {
    rows.map_values(|r: Vec<Double>| r@.map_values(|x: Double| Some(x)))
}

/// The correlations of a matrix.
pub open spec fn matrix_correlations(m: CorrelationMatrix) -> Rows<Double> {
    triangle_rows(text::views(m.factor_names@), matrix_cells(m.rows@), m.factor_names@.len() as int)
}

/// The correlations of a matrix, each under the names of its two factors.
pub fn correlation_map_from_matrix(m: &CorrelationMatrix) -> (res: Table<Double>)
    requires
        is_square(*m),
    ensures
        res@ == matrix_correlations(*m),
{
    let mut cells: Vec<Vec<Option<Double>>> = Vec::new();
    let mut i: usize = 0;
    while i < m.rows.len()
        invariant
            i <= m.rows@.len(),
            cells@.len() == i,
            forall|k: int|
                0 <= k < i ==> (#[trigger] cells@[k])@ == m.rows@[k]@.map_values(
                    |x: Double| Some(x),
                ),
        decreases m.rows.len() - i,
    {
        let row = &m.rows[i];
        let mut copied: Vec<Option<Double>> = Vec::new();
        let mut j: usize = 0;
        while j < row.len()
            invariant
                j <= row@.len(),
                copied@.len() == j,
                forall|k: int| 0 <= k < j ==> (#[trigger] copied@[k]) == Some(row@[k]),
            decreases row.len() - j,
        {
            copied.push(Some(row[j]));
            j += 1;
        }
        assert(copied@ =~= row@.map_values(|x: Double| Some(x)));
        cells.push(copied);
        i += 1;
    }
    assert(grid(cells@) =~= matrix_cells(m.rows@));
    upper_triangle(&m.factor_names, &cells)
}

/// Whether no two of the names are the same and none holds a colon.
pub open spec fn plain_names(names: Seq<Seq<char>>) -> bool {
    &&& forall|a: int, b: int| 0 <= a < b < names.len() ==> names[a] != names[b]
    &&& forall|a: int| 0 <= a < names.len() ==> !(#[trigger] names[a]).contains(':')
}

proof fn lemma_colon()
    ensures
        ":"@ == seq![':'],
{
    reveal_strlit(":");
    assert(":"@ =~= seq![':']);
}

proof fn lemma_parts_of_a_pair(a: Seq<char>, b: Seq<char>, c: Seq<char>, d: Seq<char>)
    requires
        a + ":"@ + b == c + ":"@ + d,
        !a.contains(':'),
        !c.contains(':'),
    ensures
        a == c,
        b == d,
{
    lemma_colon();
    let (x, y) = (a + ":"@ + b, c + ":"@ + d);
    assert(x[a.len() as int] == ':' && y[c.len() as int] == ':');
    if a.len() < c.len() {
        assert(c[a.len() as int] == y[a.len() as int]);
    }
    if c.len() < a.len() {
        assert(a[c.len() as int] == x[c.len() as int]);
    }
    assert forall|k: int| 0 <= k < a.len() implies a[k] == c[k] by {
        assert(x[k] == a[k] && y[k] == c[k]);
    }
    assert(a =~= c);
    assert(x.len() == a.len() + 1 + b.len() && y.len() == c.len() + 1 + d.len());
    assert forall|k: int| 0 <= k < b.len() implies b[k] == d[k] by {
        assert(x[a.len() + 1 + k] == b[k] && y[c.len() + 1 + k] == d[k]);
    }
    assert(b =~= d);
}

/// Whether `r` is an entry above the diagonal, under its two names, in a row
/// before `i`, or in row `i` before column `j`.
spec fn listed(
    names: Seq<Seq<char>>,
    cells: Seq<Seq<Option<Double>>>,
    i: int,
    j: int,
    r: (Seq<char>, Double),
) -> bool {
    exists|a: int, b: int|
        {
            &&& 0 <= a < b < names.len()
            &&& a < i || (a == i && b < j)
            &&& a < cells.len() && b < cells[a].len()
            &&& #[trigger] cells[a][b] == Some(r.1)
            &&& r.0 == names[a] + ":"@ + names[b]
        }
}

proof fn lemma_row_pairs_hold(
    names: Seq<Seq<char>>,
    cells: Seq<Seq<Option<Double>>>,
    i: int,
    j: int,
    start: Rows<Double>,
)
    requires
        plain_names(names),
        0 <= i < names.len(),
        i + 1 <= j <= names.len(),
        table::in_order(start),
        forall|r: (Seq<char>, Double)| #[trigger]
            start.contains(r) <==> listed(names, cells, i, i + 1, r),
    ensures
        table::in_order(row_pairs(names, cells, i, j, start)),
        forall|r: (Seq<char>, Double)| #[trigger]
            row_pairs(names, cells, i, j, start).contains(r) <==> listed(names, cells, i, j, r),
    decreases j,
{
    if j > i + 1 {
        lemma_row_pairs_hold(names, cells, i, j - 1, start);
        let before = row_pairs(names, cells, i, j - 1, start);
        let name = names[i] + ":"@ + names[j - 1];
        let after = row_pairs(names, cells, i, j, start);
        if i < cells.len() && j - 1 < cells[i].len() && cells[i][j - 1] is Some {
            let x = cells[i][j - 1]->Some_0;
            table::lemma_with_row_in_order(before, name, x);
            table::lemma_with_row_holds(before, name, x);
            assert(after == table::with_row(before, name, x));
        } else {
            assert(after == before);
        }
        assert forall|r: (Seq<char>, Double)| #[trigger] after.contains(r) <==> listed(
            names,
            cells,
            i,
            j,
            r,
        ) by {
            assert(before.contains(r) <==> listed(names, cells, i, j - 1, r));
            if listed(names, cells, i, j, r) {
                let (a, b) = choose|a: int, b: int|
                    {
                        &&& 0 <= a < b < names.len()
                        &&& a < i || (a == i && b < j)
                        &&& a < cells.len() && b < cells[a].len()
                        &&& #[trigger] cells[a][b] == Some(r.1)
                        &&& r.0 == names[a] + ":"@ + names[b]
                    };
                if a == i && b == j - 1 {
                    assert(r == (name, cells[i][j - 1]->Some_0));
                } else {
                    assert(cells[a][b] == Some(r.1));
                    assert(listed(names, cells, i, j - 1, r));
                    if r.0 == name {
                        lemma_parts_of_a_pair(names[a], names[b], names[i], names[j - 1]);
                    }
                }
            }
            if listed(names, cells, i, j - 1, r) {
                let (a, b) = choose|a: int, b: int|
                    {
                        &&& 0 <= a < b < names.len()
                        &&& a < i || (a == i && b < j - 1)
                        &&& a < cells.len() && b < cells[a].len()
                        &&& #[trigger] cells[a][b] == Some(r.1)
                        &&& r.0 == names[a] + ":"@ + names[b]
                    };
                assert(cells[a][b] == Some(r.1));
                assert(listed(names, cells, i, j, r));
            }
            if i < cells.len() && j - 1 < cells[i].len() && cells[i][j - 1] is Some && r == (
                name,
                cells[i][j - 1]->Some_0,
            ) {
                assert(cells[i][j - 1] == Some(r.1));
                assert(listed(names, cells, i, j, r));
            }
        }
    }
}

proof fn lemma_triangle_holds(names: Seq<Seq<char>>, cells: Seq<Seq<Option<Double>>>, i: int)
    requires
        plain_names(names),
        0 <= i <= names.len(),
    ensures
        table::in_order(triangle_rows(names, cells, i)),
        forall|r: (Seq<char>, Double)| #[trigger]
            triangle_rows(names, cells, i).contains(r) <==> listed(names, cells, i, i + 1, r),
    decreases i,
{
    if i > 0 {
        lemma_triangle_holds(names, cells, i - 1);
        let start = triangle_rows(names, cells, i - 1);
        let n = names.len() as int;
        lemma_row_pairs_hold(names, cells, i - 1, n, start);
        assert forall|r: (Seq<char>, Double)| #[trigger]
            triangle_rows(names, cells, i).contains(r) <==> listed(names, cells, i, i + 1, r) by {
            assert(row_pairs(names, cells, i - 1, n, start).contains(r) <==> listed(
                names,
                cells,
                i - 1,
                n,
                r,
            ));
            if listed(names, cells, i - 1, n, r) {
                let (a, b) = choose|a: int, b: int|
                    {
                        &&& 0 <= a < b < names.len()
                        &&& a < i - 1 || (a == i - 1 && b < n)
                        &&& a < cells.len() && b < cells[a].len()
                        &&& #[trigger] cells[a][b] == Some(r.1)
                        &&& r.0 == names[a] + ":"@ + names[b]
                    };
                assert(cells[a][b] == Some(r.1));
                assert(listed(names, cells, i, i + 1, r));
            }
            if listed(names, cells, i, i + 1, r) {
                let (a, b) = choose|a: int, b: int|
                    {
                        &&& 0 <= a < b < names.len()
                        &&& a < i || (a == i && b < i + 1)
                        &&& a < cells.len() && b < cells[a].len()
                        &&& #[trigger] cells[a][b] == Some(r.1)
                        &&& r.0 == names[a] + ":"@ + names[b]
                    };
                assert(cells[a][b] == Some(r.1));
                assert(listed(names, cells, i - 1, n, r));
            }
        }
    } else {
        assert forall|r: (Seq<char>, Double)| #[trigger]
            triangle_rows(names, cells, i).contains(r) <==> listed(names, cells, i, i + 1, r) by {
            assert(!listed(names, cells, 0, 1, r));
        }
    }
}

/// The correlations of a matrix are its entries above the diagonal: the one in
/// row `i` and column `j` is held under the `i`th and the `j`th name with a
/// colon between them, and nothing else is held.
pub proof fn lemma_matrix_correlations(m: CorrelationMatrix)
    requires
        is_square(m),
        plain_names(text::views(m.factor_names@)),
    ensures
        table::in_order(matrix_correlations(m)),
        forall|i: int, j: int|
            0 <= i < j < m.factor_names@.len() ==> table::value_of(
                matrix_correlations(m),
                #[trigger] m.factor_names@[i]@ + ":"@ + #[trigger] m.factor_names@[j]@,
            ) == Some(m.rows@[i]@[j]),
        forall|r: (Seq<char>, Double)| #[trigger]
            matrix_correlations(m).contains(r) ==> exists|i: int, j: int|
                0 <= i < j < m.factor_names@.len() && r.0 == #[trigger] m.factor_names@[i]@ + ":"@
                    + #[trigger] m.factor_names@[j]@ && r.1 == m.rows@[i]@[j],
{
    let names = text::views(m.factor_names@);
    let cells = matrix_cells(m.rows@);
    let n = names.len() as int;
    let rows = matrix_correlations(m);
    lemma_triangle_holds(names, cells, n);
    assert forall|i: int, j: int| 0 <= i < j < n implies table::value_of(
        rows,
        #[trigger] m.factor_names@[i]@ + ":"@ + #[trigger] m.factor_names@[j]@,
    ) == Some(m.rows@[i]@[j]) by {
        let r = (m.factor_names@[i]@ + ":"@ + m.factor_names@[j]@, m.rows@[i]@[j]);
        assert(m.rows@[i]@.len() >= n);
        assert(cells[i][j] == Some(r.1));
        assert(names[i] == m.factor_names@[i]@ && names[j] == m.factor_names@[j]@);
        assert(listed(names, cells, n, n + 1, r));
        assert(rows.contains(r));
        table::lemma_found_is_held(rows, r.0, r.1);
    }
    assert forall|r: (Seq<char>, Double)| #[trigger] rows.contains(r) implies exists|i: int, j: int|
        0 <= i < j < m.factor_names@.len() && r.0 == #[trigger] m.factor_names@[i]@ + ":"@
            + #[trigger] m.factor_names@[j]@ && r.1 == m.rows@[i]@[j] by {
        assert(listed(names, cells, n, n + 1, r));
        let (a, b) = choose|a: int, b: int|
            {
                &&& 0 <= a < b < names.len()
                &&& a < n || (a == n && b < n + 1)
                &&& a < cells.len() && b < cells[a].len()
                &&& #[trigger] cells[a][b] == Some(r.1)
                &&& r.0 == names[a] + ":"@ + names[b]
            };
        assert(m.rows@[a]@.len() >= n);
        assert(r.0 == m.factor_names@[a]@ + ":"@ + m.factor_names@[b]@ && r.1 == m.rows@[a]@[b]);
    }
}

proof fn lemma_texts_of_texts(items: Seq<JsonView>, names: Seq<Seq<char>>, n: int)
    requires
        0 <= n <= items.len(),
        names.len() == items.len(),
        forall|k: int| 0 <= k < items.len() ==> (#[trigger] items[k]) == JsonView::Text(names[k]),
    ensures
        texts_of(items, n) == names.take(n),
    decreases n,
{
    if n > 0 {
        lemma_texts_of_texts(items, names, n - 1);
        assert(items[n - 1] == JsonView::Text(names[n - 1]));
        assert(names.take(n - 1).push(names[n - 1]) =~= names.take(n));
    } else {
        assert(texts_of(items, n) =~= names.take(n));
    }
}

/// The correlations read back from a stored matrix are its numbers above the
/// diagonal, each under the names of its row and its column, and nothing else.
pub proof fn lemma_stored_correlations(
    stored: JsonView,
    labels: Seq<JsonView>,
    names: Seq<Seq<char>>,
    grid: Seq<JsonView>,
)
    requires
        stored.field("factor_names"@) == Some(JsonView::Array(labels)),
        stored.field("rows"@) == Some(JsonView::Array(grid)),
        labels.len() == names.len(),
        forall|k: int| 0 <= k < labels.len() ==> (#[trigger] labels[k]) == JsonView::Text(names[k]),
        plain_names(names),
    ensures
        table::in_order(stored_correlations(Some(stored))),
        forall|i: int, j: int|
            0 <= i < j < names.len() && i < grid.len() && #[trigger] grid[i] is Array && j
                < grid[i]->Array_0.len() && grid[i]->Array_0[j] is Number ==> table::value_of(
                stored_correlations(Some(stored)),
                names[i] + ":"@ + #[trigger] names[j],
            ) == Some(grid[i]->Array_0[j]->Number_0.double),
        forall|r: (Seq<char>, Double)| #[trigger]
            stored_correlations(Some(stored)).contains(r) ==> exists|i: int, j: int|
                0 <= i < j < names.len() && r.0 == #[trigger] names[i] + ":"@ + #[trigger] names[j],
{
    let cells = grid.map_values(|r: JsonView| cells_of_row(r));
    let rows = stored_correlations(Some(stored));
    let n = names.len() as int;
    lemma_texts_of_texts(labels, names, n);
    assert(names.take(n) =~= names);
    assert(rows == triangle_rows(names, cells, n));
    lemma_triangle_holds(names, cells, n);
    assert forall|i: int, j: int|
        0 <= i < j < names.len() && i < grid.len() && #[trigger] grid[i] is Array && j
            < grid[i]->Array_0.len() && grid[i]->Array_0[j] is Number implies table::value_of(
        rows,
        names[i] + ":"@ + #[trigger] names[j],
    ) == Some(grid[i]->Array_0[j]->Number_0.double) by {
        let x = grid[i]->Array_0[j]->Number_0;
        let r = (names[i] + ":"@ + names[j], x.double);
        assert(cells[i] == cells_of_row(grid[i]));
        assert(cells[i][j] == Some(r.1));
        assert(listed(names, cells, n, n + 1, r));
        assert(rows.contains(r));
        table::lemma_found_is_held(rows, r.0, r.1);
    }
    assert forall|r: (Seq<char>, Double)| #[trigger] rows.contains(r) implies exists|i: int, j: int|
        0 <= i < j < names.len() && r.0 == #[trigger] names[i] + ":"@ + #[trigger] names[j] by {
        assert(listed(names, cells, n, n + 1, r));
        let (a, b) = choose|a: int, b: int|
            {
                &&& 0 <= a < b < names.len()
                &&& a < n || (a == n && b < n + 1)
                &&& a < cells.len() && b < cells[a].len()
                &&& #[trigger] cells[a][b] == Some(r.1)
                &&& r.0 == names[a] + ":"@ + names[b]
            };
        assert(r.0 == names[a] + ":"@ + names[b]);
    }
}

// ---------------------------------------------------------------------------
// Pairing both sides
// ---------------------------------------------------------------------------

/// A number before and after.
#[derive(Clone, Copy, Debug, PartialEq, Eq, Structural)]
pub struct Change {
    pub before: Double,
    pub after: Double,
}

/// The number under `name`, zero where there is none.
pub open spec fn value_or_zero(rows: Rows<Double>, name: Seq<char>) -> Double {
    match table::value_of(rows, name) {
        Some(x) => x,
        None => Double { bits: 0 },
    }
}

/// The number under `name` on both sides.
pub open spec fn change_of(before: Rows<Double>, after: Rows<Double>, name: Seq<char>) -> Change {
    Change { before: value_or_zero(before, name), after: value_or_zero(after, name) }
}

/// The names of a table.
pub open spec fn names_of<T>(rows: Rows<T>) -> Seq<Seq<char>> {
    rows.map_values(|r: (Seq<char>, T)| r.0)
}

/// The numbers on both sides under every name that stands on either.
pub open spec fn paired(before: Rows<Double>, after: Rows<Double>) -> Rows<Change> {
    let names = names_of(before) + names_of(after);
    table::rows_of(
        names,
        names.map_values(|name: Seq<char>| change_of(before, after, name)),
        names.len() as int,
    )
}

fn value_here(table: &Table<Double>, name: &str) -> (res: Double)
    ensures
        res == value_or_zero(table@, name@),
{
    match table.get(name) {
        Some(x) => x,
        None => Double::zero(),
    }
}

fn append_names(names: &mut Vec<String>, table: &Table<Double>)
    ensures
        text::views(final(names)@) == text::views(old(names)@) + names_of(table@),
{
    let ghost start = text::views(names@);
    let mut i: usize = 0;
    assert(text::views(names@) =~= start + names_of(table@).take(0));
    while i < table.entries.len()
        invariant
            i <= table.entries@.len(),
            text::views(names@) == start + names_of(table@).take(i as int),
        decreases table.entries.len() - i,
    {
        let ghost before = names@;
        names.push(text::copy(table.entries[i].name.as_str()));
        assert(text::views(names@) =~= text::views(before).push(table.entries@[i as int].name@));
        i += 1;
        assert(text::views(names@) =~= start + names_of(table@).take(i as int));
    }
    assert(names_of(table@).take(names_of(table@).len() as int) =~= names_of(table@));
}

/// Pairs the numbers of two tables by name, with zero on the side where a name
/// is missing.
pub fn pair_up(before: &Table<Double>, after: &Table<Double>) -> (res: Table<Change>)
    ensures
        res@ == paired(before@, after@),
{
    let mut names: Vec<String> = Vec::new();
    append_names(&mut names, before);
    append_names(&mut names, after);
    let ghost all = names_of(before@) + names_of(after@);
    assert(text::views(names@) =~= all);
    let mut changes: Vec<Change> = Vec::new();
    let mut i: usize = 0;
    while i < names.len()
        invariant
            i <= names@.len(),
            text::views(names@) == all,
            changes@.len() == i,
            forall|k: int|
                0 <= k < i ==> (#[trigger] changes@[k]) == change_of(before@, after@, all[k]),
        decreases names.len() - i,
    {
        assert(all[i as int] == names@[i as int]@);
        changes.push(
            Change {
                before: value_here(before, names[i].as_str()),
                after: value_here(after, names[i].as_str()),
            },
        );
        i += 1;
    }
    assert(changes@ =~= all.map_values(|name: Seq<char>| change_of(before@, after@, name)));
    Table::of(&names, &changes)
}

proof fn lemma_value_of_pairs(names: Seq<Seq<char>>, values: Seq<Change>, n: int, name: Seq<char>)
    requires
        0 <= n <= names.len(),
        forall|a: int, b: int|
            0 <= a < n && 0 <= b < n && #[trigger] names[a] == #[trigger] names[b] ==> values[a]
                == values[b],
    ensures
        forall|k: int|
            0 <= k < n && (#[trigger] names[k]) == name ==> table::value_of(
                table::rows_of(names, values, n),
                name,
            ) == Some(values[k]),
        (forall|k: int| 0 <= k < n ==> (#[trigger] names[k]) != name) ==> table::value_of(
            table::rows_of(names, values, n),
            name,
        ) is None,
    decreases n,
{
    if n > 0 {
        lemma_value_of_pairs(names, values, n - 1, name);
        table::lemma_value_of_with_row(
            table::rows_of(names, values, n - 1),
            names[n - 1],
            values[n - 1],
            name,
        );
    }
}

proof fn lemma_value_is_under_its_name<T>(rows: Rows<T>, name: Seq<char>)
    ensures
        (table::value_of(rows, name) is Some) == names_of(rows).contains(name),
    decreases rows.len(),
{
    if rows.len() > 0 {
        let rest = rows.drop_first();
        lemma_value_is_under_its_name(rest, name);
        assert(names_of(rest) =~= names_of(rows).drop_first());
        if names_of(rows).contains(name) && rows[0].0 != name {
            let k = choose|k: int| 0 <= k < names_of(rows).len() && names_of(rows)[k] == name;
            assert(names_of(rest)[k - 1] == name);
        }
        if names_of(rest).contains(name) {
            let k = choose|k: int| 0 <= k < names_of(rest).len() && names_of(rest)[k] == name;
            assert(names_of(rows)[k + 1] == name);
        }
        assert(names_of(rows)[0] == rows[0].0);
    }
}

/// A comparison covers every factor of either side: a name that stands in one
/// of the two tables is paired with its number in both, zero where it is
/// missing, and no other name is.
pub proof fn lemma_pairing_covers_both_sides(
    before: Rows<Double>,
    after: Rows<Double>,
    name: Seq<char>,
)
    ensures
        table::value_of(paired(before, after), name) == (if table::value_of(before, name) is Some
            || table::value_of(after, name) is Some {
            Some(change_of(before, after, name))
        } else {
            None
        }),
{
    let names = names_of(before) + names_of(after);
    let values = names.map_values(|n: Seq<char>| change_of(before, after, n));
    lemma_value_of_pairs(names, values, names.len() as int, name);
    lemma_value_is_under_its_name(before, name);
    lemma_value_is_under_its_name(after, name);
    if names_of(before).contains(name) {
        let k = choose|k: int| 0 <= k < names_of(before).len() && names_of(before)[k] == name;
        assert(names[k] == name);
    } else if names_of(after).contains(name) {
        let k = choose|k: int| 0 <= k < names_of(after).len() && names_of(after)[k] == name;
        assert(names[names_of(before).len() + k] == name);
    } else {
        assert forall|k: int| 0 <= k < names.len() implies (#[trigger] names[k]) != name by {
            if k < names_of(before).len() {
                assert(names[k] == names_of(before)[k]);
            } else {
                assert(names[k] == names_of(after)[k - names_of(before).len()]);
            }
        }
    }
}

// ---------------------------------------------------------------------------
// The plan
// ---------------------------------------------------------------------------

/// Both sides of a comparison.
#[derive(Debug)]
pub struct DriftPlan {
    pub vol: Change,
    pub contributions_before: Table<Double>,
    pub contributions_after: Table<Double>,
    pub contributions: Table<Change>,
    pub betas_before: Table<Double>,
    pub betas_after: Table<Double>,
    pub betas: Table<Change>,
    pub correlations_before: Table<Double>,
    pub correlations_after: Table<Double>,
    pub correlations: Table<Change>,
    pub specific_share: Change,
    /// The largest share of a single factor.
    pub largest_share: Change,
    pub regime_before: RegimeReading,
    pub regime_after: RegimeReading,
}

/// What a name pairs: the earlier number first and the later one second, and
/// zero on a side that lacks the name.
pub proof fn lemma_pairing_keeps_the_sides(
    before: Rows<Double>,
    after: Rows<Double>,
    name: Seq<char>,
)
    requires
        table::value_of(before, name) is Some || table::value_of(after, name) is Some,
    ensures
        table::value_of(paired(before, after), name) is Some,
        ({
            let pair = table::value_of(paired(before, after), name)->Some_0;
            &&& match table::value_of(before, name) {
                Some(x) => pair.before == x,
                None => pair.before.bits == 0,
            }
            &&& match table::value_of(after, name) {
                Some(x) => pair.after == x,
                None => pair.after.bits == 0,
            }
        }),
{
    lemma_pairing_covers_both_sides(before, after, name);
}

/// The largest number of a table, the most negative double where it has none.
pub open spec fn largest_value(rows: Rows<Double>, n: int) -> Double
    decreases n,
{
    if n <= 0 {
        Double { bits: crate::double::SMALLEST_BITS }
    } else {
        largest_value(rows, n - 1).larger(rows[n - 1].1)
    }
}

fn largest_of(table: &Table<Double>) -> (res: Double)
    ensures
        res == largest_value(table@, table@.len() as int),
{
    let mut best = Double { bits: crate::double::SMALLEST_BITS };
    let mut i: usize = 0;
    while i < table.entries.len()
        invariant
            i <= table.entries@.len(),
            best == largest_value(table@, i as int),
        decreases table.entries.len() - i,
    {
        best = best.max(table.entries[i].value);
        i += 1;
    }
    best
}

/// What a decomposition says of its first `n` factors: their contributions, or
/// their shares.
pub open spec fn contribution_rows(factors: Seq<FactorContribution>, shares: bool, n: int) -> Rows<
    Double,
>
    decreases n,
{
    if n <= 0 {
        seq![]
    } else {
        table::with_row(
            contribution_rows(factors, shares, n - 1),
            factors[n - 1].factor@,
            if shares {
                factors[n - 1].fraction_of_vol
            } else {
                factors[n - 1].contribution
            },
        )
    }
}

fn contribution_table(factors: &Vec<FactorContribution>, shares: bool) -> (res: Table<Double>)
    ensures
        res@ == contribution_rows(factors@, shares, factors@.len() as int),
{
    let mut out: Table<Double> = Table::new();
    let mut i: usize = 0;
    while i < factors.len()
        invariant
            i <= factors@.len(),
            out@ == contribution_rows(factors@, shares, i as int),
        decreases factors.len() - i,
    {
        let f = &factors[i];
        if shares {
            out.set(f.factor.as_str(), f.fraction_of_vol);
        } else {
            out.set(f.factor.as_str(), f.contribution);
        }
        i += 1;
    }
    out
}

/// An equal table.
fn copy_table(table: &Table<Double>) -> (res: Table<Double>)
    ensures
        res@ == table@,
{
    let mut entries: Vec<table::Entry<Double>> = Vec::new();
    let mut i: usize = 0;
    while i < table.entries.len()
        invariant
            i <= table.entries@.len(),
            entries@.len() == i,
            forall|k: int|
                0 <= k < i ==> (#[trigger] entries@[k]).name@ == table.entries@[k].name@
                    && entries@[k].value == table.entries@[k].value,
        decreases table.entries.len() - i,
    {
        entries.push(
            table::Entry {
                name: text::copy(table.entries[i].name.as_str()),
                value: table.entries[i].value,
            },
        );
        i += 1;
    }
    let res = Table { entries };
    assert(res@ =~= table@);
    res
}

proof fn lemma_largest_value(rows: Rows<Double>, n: int)
    requires
        0 <= n <= rows.len(),
    ensures
        !largest_value(rows, n).nan(),
        forall|k: int|
            0 <= k < n && !(#[trigger] rows[k]).1.nan() ==> rows[k].1.rank() <= largest_value(
                rows,
                n,
            ).rank(),
        (exists|k: int| 0 <= k < n && (#[trigger] rows[k]).1 == largest_value(rows, n))
            || largest_value(rows, n).bits == 0xffef_ffff_ffff_ffff,
    decreases n,
{
    if n > 0 {
        lemma_largest_value(rows, n - 1);
        let (best, next) = (largest_value(rows, n - 1), rows[n - 1].1);
        if best.below(next) {
            assert(rows[n - 1].1 == largest_value(rows, n));
        } else {
            assert(largest_value(rows, n) == best);
            if best.bits != 0xffef_ffff_ffff_ffff {
                let k = choose|k: int| 0 <= k < n - 1 && (#[trigger] rows[k]).1 == best;
                assert(rows[k].1 == largest_value(rows, n));
            }
        }
    }
}

proof fn lemma_contribution_rows(factors: Seq<FactorContribution>, shares: bool, n: int, i: int)
    requires
        0 <= i < n <= factors.len(),
        forall|a: int, b: int|
            0 <= a < b < factors.len() ==> (#[trigger] factors[a]).factor@ != (
            #[trigger] factors[b]).factor@,
    ensures
        table::value_of(contribution_rows(factors, shares, n), factors[i].factor@) == Some(
            if shares {
                factors[i].fraction_of_vol
            } else {
                factors[i].contribution
            },
        ),
    decreases n,
{
    table::lemma_value_of_with_row(
        contribution_rows(factors, shares, n - 1),
        factors[n - 1].factor@,
        if shares {
            factors[n - 1].fraction_of_vol
        } else {
            factors[n - 1].contribution
        },
        factors[i].factor@,
    );
    if i < n - 1 {
        assert(factors[i].factor@ != factors[n - 1].factor@);
        lemma_contribution_rows(factors, shares, n - 1, i);
    }
}

/// Where every factor entry names a factor of its own and has a number in the
/// field, each factor is read with the number of its own entry.
pub proof fn lemma_entries_by_factor(
    items: Seq<JsonView>,
    field: Seq<char>,
    names: Seq<Seq<char>>,
    values: Seq<Double>,
    n: int,
)
    requires
        0 <= n <= items.len(),
        names.len() == items.len(),
        values.len() == items.len(),
        forall|k: int|
            0 <= k < items.len() ==> (#[trigger] items[k]).field("factor"@) == Some(
                JsonView::Text(names[k]),
            ),
        forall|k: int|
            0 <= k < items.len() ==> (#[trigger] items[k]).field(field) is Some && items[k].field(
                field,
            )->Some_0.double() == Some(values[k]),
        forall|a: int, b: int| 0 <= a < b < names.len() ==> names[a] != names[b],
    ensures
        entry_rows(items, field, n) is Ok,
        forall|i: int|
            0 <= i < n ==> table::value_of(
                entry_rows(items, field, n)->Ok_0,
                #[trigger] names[i],
            ) == Some(values[i]),
    decreases n,
{
    if n > 0 {
        lemma_entries_by_factor(items, field, names, values, n - 1);
        let rows = entry_rows(items, field, n - 1)->Ok_0;
        let last = items[n - 1];
        assert(last.field("factor"@) == Some(JsonView::Text(names[n - 1])));
        assert(text_in(last, "factor"@) == Some(names[n - 1]));
        assert(number_in(last, field) == Some(values[n - 1]));
        assert forall|i: int| 0 <= i < n implies table::value_of(
            entry_rows(items, field, n)->Ok_0,
            #[trigger] names[i],
        ) == Some(values[i]) by {
            table::lemma_value_of_with_row(rows, names[n - 1], values[n - 1], names[i]);
        }
    }
}

/// A factor entry without a factor, or without a number in the field, fails the
/// reading.
pub proof fn lemma_entry_lacking(items: Seq<JsonView>, field: Seq<char>, n: int, k: int)
    requires
        0 <= k < n <= items.len(),
        items[k].field("factor"@) is None || items[k].field(field) is None,
    ensures
        entry_rows(items, field, n) is Err,
    decreases n,
{
    if k < n - 1 {
        lemma_entry_lacking(items, field, n - 1, k);
    }
}

/// A plan sets the stored decomposition against the present one: the stored
/// volatility, specific share, contributions and betas stand before, the
/// present ones after, and the largest shares are the largest of each side.
pub proof fn lemma_plan_holds_both_sides(
    plan: DriftPlan,
    baseline: BaselineTrace,
    current: RiskDecompositionOutput,
    current_regime: Option<RegimeReading>,
)
    requires
        is_plan(plan, baseline, current, current_regime),
        baseline.outputs@.field("result"@) is Some,
        forall|a: int, b: int|
            0 <= a < b < current.by_factor@.len() ==> (#[trigger] current.by_factor@[a]).factor@
                != (#[trigger] current.by_factor@[b]).factor@,
    ensures
        plan.vol.after == current.portfolio_vol_annualized,
        plan.specific_share.after == current.specific_risk_fraction_of_vol,
        ({
            let result = baseline.outputs@.field("result"@)->Some_0;
            &&& result.field("portfolio_vol_annualized"@) is Some ==> Some(plan.vol.before)
                == result.field("portfolio_vol_annualized"@)->Some_0.double()
                || result.field("portfolio_vol_annualized"@)->Some_0.double() is None
            &&& result.field("specific_risk_fraction_of_vol"@) is Some ==> Some(
                plan.specific_share.before,
            ) == result.field("specific_risk_fraction_of_vol"@)->Some_0.double()
                || result.field("specific_risk_fraction_of_vol"@)->Some_0.double() is None
        }),
        forall|i: int|
            0 <= i < current.by_factor@.len() ==> table::value_of(
                plan.contributions_after@,
                (#[trigger] current.by_factor@[i]).factor@,
            ) == Some(current.by_factor@[i].contribution),
        forall|i: int|
            0 <= i < current.by_factor@.len() && !(
            #[trigger] current.by_factor@[i]).fraction_of_vol.nan()
                ==> current.by_factor@[i].fraction_of_vol.rank() <= plan.largest_share.after.rank(),
        plan.betas_after == current.portfolio_betas || plan.betas_after@
            == current.portfolio_betas@,
        current_regime is Some ==> plan.regime_after.label@ == current_regime->Some_0.label@
            && plan.regime_after.smoothed_probs == current_regime->Some_0.smoothed_probs,
        baseline.regime is Some ==> plan.regime_before.label@ == baseline.regime->Some_0.label@
            && plan.regime_before.smoothed_probs == baseline.regime->Some_0.smoothed_probs,
        forall|name: Seq<char>|
            #![trigger table::value_of(plan.contributions@, name)]
            table::value_of(plan.contributions_before@, name) is Some || table::value_of(
                plan.contributions_after@,
                name,
            ) is Some ==> table::value_of(plan.contributions@, name) is Some && match table::value_of(
                plan.contributions_after@,
                name,
            ) {
                Some(x) => table::value_of(plan.contributions@, name)->Some_0.after == x,
                None => table::value_of(plan.contributions@, name)->Some_0.after.bits == 0,
            },
{
    let factors = current.by_factor@;
    let n = factors.len() as int;
    let shares = contribution_rows(factors, true, n);
    assert forall|i: int| 0 <= i < n implies table::value_of(
        plan.contributions_after@,
        (#[trigger] factors[i]).factor@,
    ) == Some(factors[i].contribution) by {
        lemma_contribution_rows(factors, false, n, i);
    }
    lemma_largest_value(shares, shares.len() as int);
    assert forall|i: int|
        0 <= i < n && !(#[trigger] factors[i]).fraction_of_vol.nan() implies factors[i].fraction_of_vol.rank()
        <= plan.largest_share.after.rank() by {
        lemma_contribution_rows(factors, true, n, i);
        lemma_found_has_a_place(shares, factors[i].factor@);
    }
    assert forall|name: Seq<char>|
        #![trigger table::value_of(plan.contributions@, name)]
        table::value_of(plan.contributions_before@, name) is Some || table::value_of(
            plan.contributions_after@,
            name,
        ) is Some implies table::value_of(plan.contributions@, name) is Some
        && match table::value_of(plan.contributions_after@, name) {
        Some(x) => table::value_of(plan.contributions@, name)->Some_0.after == x,
        None => table::value_of(plan.contributions@, name)->Some_0.after.bits == 0,
    } by {
        lemma_pairing_keeps_the_sides(
            plan.contributions_before@,
            plan.contributions_after@,
            name,
        );
    }
}

proof fn lemma_found_has_a_place(rows: Rows<Double>, name: Seq<char>)
    requires
        table::value_of(rows, name) is Some,
    ensures
        exists|k: int|
            0 <= k < rows.len() && (#[trigger] rows[k]).0 == name && rows[k].1 == table::value_of(
                rows,
                name,
            )->Some_0,
    decreases rows.len(),
{
    if rows[0].0 != name {
        let rest = rows.drop_first();
        lemma_found_has_a_place(rest, name);
        let k = choose|k: int|
            0 <= k < rest.len() && (#[trigger] rest[k]).0 == name && rest[k].1 == table::value_of(
                rest,
                name,
            )->Some_0;
        assert(rows[k + 1] == rest[k]);
    } else {
        assert(rows[0].1 == table::value_of(rows, name)->Some_0);
    }
}

/// The message for a baseline that is no decomposition.
pub open spec fn wrong_experiment(experiment: Seq<char>) -> Seq<PieceView> {
    seq![
        PieceView::Text("baseline snapshot must be a RiskDecomposition result, got "@),
        PieceView::Text(experiment),
    ]
}

/// The message for a baseline from before betas and correlations were kept.
pub open spec fn too_old(engine_version: Seq<char>) -> Seq<PieceView> {
    seq![
        PieceView::Text("baseline snapshot (engine_version "@),
        PieceView::Text(engine_version),
        PieceView::Text(
            ") predates portfolio_betas/factor_correlation support; rerun RiskDecomposition to create a compatible baseline"@,
        ),
    ]
}

/// Why two sides cannot be compared, the first reason found.
pub open spec fn plan_fault(
    snapshot: RiskSnapshot,
    baseline: BaselineTrace,
    current: RiskDecompositionOutput,
    current_regime: Option<RegimeReading>,
) -> Option<Seq<PieceView>> {
    if baseline.experiment@ != "RiskDecomposition"@ {
        Some(wrong_experiment(baseline.experiment@))
    } else {
        match baseline.outputs@.field("result"@) {
            None => Some(message::plain("baseline trace has no outputs.result"@)),
            Some(result) => if number_in(result, "portfolio_vol_annualized"@) is None {
                Some(missing_number("portfolio_vol_annualized"@))
            } else if factor_rows(result, "contribution"@) is Err {
                Some(factor_rows(result, "contribution"@)->Err_0)
            } else if factor_rows(result, "fraction_of_vol"@) is Err {
                Some(factor_rows(result, "fraction_of_vol"@)->Err_0)
            } else if number_in(result, "specific_risk_fraction_of_vol"@) is None {
                Some(missing_number("specific_risk_fraction_of_vol"@))
            } else if numbers_of(result.field("portfolio_betas"@)).len() == 0
                || stored_correlations(result.field("factor_correlation"@)).len() == 0 {
                Some(too_old(snapshot.engine_version@))
            } else if baseline.regime is None {
                Some(message::plain("baseline trace has no regime_state"@))
            } else if current_regime is None {
                Some(message::plain("current trace has no regime_state"@))
            } else if factor_rows(result, "contribution"@)->Ok_0.len() == 0
                && current.by_factor@.len() == 0 {
                Some(message::plain("no factor contributions to compare"@))
            } else {
                None
            },
        }
    }
}

/// Two sides can be compared exactly where the stored one is a decomposition
/// whose result has its volatility, its specific share, for each factor its
/// contribution and its share, its betas and its correlations; where both sides
/// know their regime; and where either names a factor.
pub proof fn lemma_what_a_comparison_needs(
    snapshot: RiskSnapshot,
    baseline: BaselineTrace,
    current: RiskDecompositionOutput,
    current_regime: Option<RegimeReading>,
)
    ensures
        plan_fault(snapshot, baseline, current, current_regime) is None <==> {
            let result = baseline.outputs@.field("result"@)->Some_0;
            &&& baseline.experiment@ == "RiskDecomposition"@
            &&& baseline.outputs@.field("result"@) is Some
            &&& result.field("portfolio_vol_annualized"@) is Some && result.field(
                "portfolio_vol_annualized"@,
            )->Some_0.double() is Some
            &&& result.field("specific_risk_fraction_of_vol"@) is Some && result.field(
                "specific_risk_fraction_of_vol"@,
            )->Some_0.double() is Some
            &&& result.field("by_factor"@) is Some && result.field("by_factor"@)->Some_0 is Array
            &&& entry_rows(
                result.field("by_factor"@)->Some_0->Array_0,
                "contribution"@,
                result.field("by_factor"@)->Some_0->Array_0.len() as int,
            ) is Ok
            &&& entry_rows(
                result.field("by_factor"@)->Some_0->Array_0,
                "fraction_of_vol"@,
                result.field("by_factor"@)->Some_0->Array_0.len() as int,
            ) is Ok
            &&& numbers_of(result.field("portfolio_betas"@)).len() > 0
            &&& stored_correlations(result.field("factor_correlation"@)).len() > 0
            &&& baseline.regime is Some
            &&& current_regime is Some
            &&& factor_rows(result, "contribution"@)->Ok_0.len() > 0 || current.by_factor@.len() > 0
        },
{
}

/// The numbers of an object are read each under its own name, and what is no
/// number is left out.
pub proof fn lemma_number_rows(fields: Fields, n: int, i: int)
    requires
        0 <= i < n <= fields.len(),
        forall|a: int, b: int| 0 <= a < b < fields.len() ==> fields[a].0 != fields[b].0,
    ensures
        table::value_of(number_rows(fields, n), fields[i].0) == fields[i].1.double(),
    decreases n,
{
    if i < n - 1 {
        lemma_number_rows(fields, n - 1, i);
    } else {
        lemma_no_number_row(fields, n - 1, fields[i].0);
    }
    if let Some(x) = fields[n - 1].1.double() {
        table::lemma_value_of_with_row(
            number_rows(fields, n - 1),
            fields[n - 1].0,
            x,
            fields[i].0,
        );
    }
}

proof fn lemma_no_number_row(fields: Fields, n: int, name: Seq<char>)
    requires
        0 <= n <= fields.len(),
        forall|a: int| 0 <= a < n ==> (#[trigger] fields[a]).0 != name,
    ensures
        table::value_of(number_rows(fields, n), name) is None,
    decreases n,
{
    if n > 0 {
        lemma_no_number_row(fields, n - 1, name);
        assert(fields[n - 1].0 != name);
        if let Some(x) = fields[n - 1].1.double() {
            table::lemma_value_of_with_row(
                number_rows(fields, n - 1),
                fields[n - 1].0,
                x,
                name,
            );
        }
    }
}

/// Whether a plan holds both sides.
pub open spec fn is_plan(
    plan: DriftPlan,
    baseline: BaselineTrace,
    current: RiskDecompositionOutput,
    current_regime: Option<RegimeReading>,
) -> bool {
    let result = baseline.outputs@.field("result"@)->Some_0;
    let n = current.by_factor@.len() as int;
    let shares_before = factor_rows(result, "fraction_of_vol"@)->Ok_0;
    let shares_after = contribution_rows(current.by_factor@, true, n);
    &&& plan.vol == (Change {
        before: number_in(result, "portfolio_vol_annualized"@)->Some_0,
        after: current.portfolio_vol_annualized,
    })
    &&& plan.contributions_before@ == factor_rows(result, "contribution"@)->Ok_0
    &&& plan.contributions_after@ == contribution_rows(current.by_factor@, false, n)
    &&& plan.betas_before@ == numbers_of(result.field("portfolio_betas"@))
    &&& plan.betas_after@ == current.portfolio_betas@
    &&& plan.correlations_before@ == stored_correlations(result.field("factor_correlation"@))
    &&& plan.correlations_after@ == matrix_correlations(current.factor_correlation)
    &&& plan.specific_share == (Change {
        before: number_in(result, "specific_risk_fraction_of_vol"@)->Some_0,
        after: current.specific_risk_fraction_of_vol,
    })
    &&& plan.largest_share == (Change {
        before: largest_value(shares_before, shares_before.len() as int),
        after: largest_value(shares_after, shares_after.len() as int),
    })
    &&& plan.regime_before.label@ == baseline.regime->Some_0.label@
    &&& plan.regime_before.smoothed_probs == baseline.regime->Some_0.smoothed_probs
    &&& plan.regime_after.label@ == current_regime->Some_0.label@
    &&& plan.regime_after.smoothed_probs == current_regime->Some_0.smoothed_probs
    &&& plan.well_formed()
}

impl DriftPlan {
    /// Whether the sides are paired by name and there are factors to compare.
    pub open spec fn well_formed(self) -> bool {
        &&& self.contributions@ == paired(self.contributions_before@, self.contributions_after@)
        &&& self.betas@ == paired(self.betas_before@, self.betas_after@)
        &&& self.correlations@ == paired(self.correlations_before@, self.correlations_after@)
        &&& self.contributions@.len() > 0
    }
}

proof fn lemma_with_row_not_empty<T>(rows: Rows<T>, name: Seq<char>, value: T)
    ensures
        table::with_row(rows, name, value).len() > 0,
    decreases rows.len(),
{
    if rows.len() > 0 {
        lemma_with_row_not_empty(rows.drop_first(), name, value);
    }
}

proof fn lemma_paired_not_empty(before: Rows<Double>, after: Rows<Double>)
    ensures
        paired(before, after).len() > 0 <==> before.len() > 0 || after.len() > 0,
{
    let names = names_of(before) + names_of(after);
    let values = names.map_values(|n: Seq<char>| change_of(before, after, n));
    if names.len() > 0 {
        lemma_with_row_not_empty(
            table::rows_of(names, values, names.len() - 1),
            names[names.len() - 1],
            values[names.len() - 1],
        );
    }
}

proof fn lemma_contributions_not_empty(factors: Seq<FactorContribution>, shares: bool, n: int)
    requires
        0 <= n <= factors.len(),
    ensures
        contribution_rows(factors, shares, n).len() > 0 <==> n > 0,
{
    if n > 0 {
        lemma_with_row_not_empty(
            contribution_rows(factors, shares, n - 1),
            factors[n - 1].factor@,
            if shares {
                factors[n - 1].fraction_of_vol
            } else {
                factors[n - 1].contribution
            },
        );
    }
}

fn invalid(words: &str) -> (res: ComputeError)
    ensures
        res@ == ComputeErrorView::InvalidInput(message::plain(words@)),
{
    ComputeError::InvalidInput(Message::of(words))
}

fn copy_regime(reading: &RegimeReading) -> (res: RegimeReading)
    ensures
        res.label@ == reading.label@,
        res.smoothed_probs == reading.smoothed_probs,
{
    RegimeReading {
        label: text::copy(reading.label.as_str()),
        smoothed_probs: reading.smoothed_probs,
    }
}

/// Reads both sides of a comparison with the decomposition stored in a
/// snapshot.
pub fn plan_risk_drift(
    snapshot: &RiskSnapshot,
    baseline: &BaselineTrace,
    current: &RiskDecompositionOutput,
    current_regime: &Option<RegimeReading>,
) -> (res: Result<DriftPlan, ComputeError>)
    requires
        is_square(current.factor_correlation),
    ensures
        match plan_fault(*snapshot, *baseline, *current, *current_regime) {
            Some(e) => res is Err && res->Err_0@ == ComputeErrorView::InvalidInput(e),
            None => res is Ok && is_plan(res->Ok_0, *baseline, *current, *current_regime),
        },
{
    if !text::same(baseline.experiment.as_str(), "RiskDecomposition") {
        let mut m = Message::of("baseline snapshot must be a RiskDecomposition result, got ");
        m.text(baseline.experiment.as_str());
        assert(m@ =~= wrong_experiment(baseline.experiment@));
        return Err(ComputeError::InvalidInput(m));
    }
    let result = match baseline.outputs.get("result") {
        Some(r) => r,
        None => {
            return Err(invalid("baseline trace has no outputs.result"));
        },
    };
    let vol_before = match required_number(result, "portfolio_vol_annualized") {
        Ok(x) => x,
        Err(e) => {
            return Err(e);
        },
    };
    let contributions_before = match factor_field_map(result, "contribution") {
        Ok(t) => t,
        Err(e) => {
            return Err(e);
        },
    };
    let shares_before = match factor_field_map(result, "fraction_of_vol") {
        Ok(t) => t,
        Err(e) => {
            return Err(e);
        },
    };
    let betas_before = betas_map(result.get("portfolio_betas"));
    let correlations_before = correlation_map_from_json(result.get("factor_correlation"));
    let specific_before = match required_number(result, "specific_risk_fraction_of_vol") {
        Ok(x) => x,
        Err(e) => {
            return Err(e);
        },
    };
    assert(betas_before@.len() == betas_before.entries@.len());
    assert(correlations_before@.len() == correlations_before.entries@.len());
    if betas_before.entries.len() == 0 || correlations_before.entries.len() == 0 {
        let mut m = Message::of("baseline snapshot (engine_version ");
        m.text(snapshot.engine_version.as_str());
        m.text(
            ") predates portfolio_betas/factor_correlation support; rerun RiskDecomposition to create a compatible baseline",
        );
        assert(m@ =~= too_old(snapshot.engine_version@));
        return Err(ComputeError::InvalidInput(m));
    }
    let regime_before = match &baseline.regime {
        Some(r) => copy_regime(r),
        None => {
            return Err(invalid("baseline trace has no regime_state"));
        },
    };
    let regime_after = match current_regime {
        Some(r) => copy_regime(r),
        None => {
            return Err(invalid("current trace has no regime_state"));
        },
    };
    let contributions_after = contribution_table(&current.by_factor, false);
    let shares_after = contribution_table(&current.by_factor, true);
    let betas_after = copy_table(&current.portfolio_betas);
    let correlations_after = correlation_map_from_matrix(&current.factor_correlation);
    let contributions = pair_up(&contributions_before, &contributions_after);
    let betas = pair_up(&betas_before, &betas_after);
    let correlations = pair_up(&correlations_before, &correlations_after);
    proof {
        lemma_paired_not_empty(contributions_before@, contributions_after@);
        lemma_contributions_not_empty(
            current.by_factor@,
            false,
            current.by_factor@.len() as int,
        );
        assert(contributions@.len() == contributions.entries@.len());
    }
    if contributions.entries.len() == 0 {
        return Err(invalid("no factor contributions to compare"));
    }
    Ok(
        DriftPlan {
            vol: Change { before: vol_before, after: current.portfolio_vol_annualized },
            contributions_before,
            contributions_after,
            contributions,
            betas_before,
            betas_after,
            betas,
            correlations_before,
            correlations_after,
            correlations,
            specific_share: Change {
                before: specific_before,
                after: current.specific_risk_fraction_of_vol,
            },
            largest_share: Change {
                before: largest_of(&shares_before),
                after: largest_of(&shares_after),
            },
            regime_before,
            regime_after,
        },
    )
}

// ---------------------------------------------------------------------------
// The result
// ---------------------------------------------------------------------------

/// The differences of a comparison: each "after" less "before", those of a
/// table in its order.
#[derive(Debug)]
pub struct DriftFigures {
    pub vol_change_abs: Double,
    /// Means something only where the volatility was not zero.
    pub vol_change_pct: Double,
    pub contribution_deltas: Vec<Double>,
    pub beta_deltas: Vec<Double>,
    pub correlation_deltas: Vec<Double>,
    pub specific_share_delta: Double,
    pub largest_share_delta: Double,
    /// The sum of the contribution deltas.
    pub contribution_delta_sum: Double,
    /// The magnitude of that sum less the change of the volatility.
    pub contribution_delta_gap: Double,
}

/// The change of a portfolio's risk.
#[derive(Debug)]
pub struct RiskDriftOutputs {
    pub baseline_snapshot_id: String,
    pub baseline_created_at: String,
    pub current_as_of: i32,
    /// The days between the last days of the two datasets.
    pub days_elapsed: i64,
    pub vol_before: Double,
    pub vol_after: Double,
    pub vol_change_abs: Double,
    pub vol_change_pct: Double,
    pub factor_contributions_before: Table<Double>,
    pub factor_contributions_after: Table<Double>,
    pub factor_contribution_delta: Table<Double>,
    pub largest_contribution_increase: String,
    pub largest_contribution_decrease: String,
    pub portfolio_betas_before: Table<Double>,
    pub portfolio_betas_after: Table<Double>,
    pub portfolio_beta_delta: Table<Double>,
    /// The pairs of factors, under both names with a colon between.
    pub correlation_before: Table<Double>,
    pub correlation_after: Table<Double>,
    pub correlation_delta: Table<Double>,
    pub largest_correlation_change: String,
    pub regime_before: String,
    pub regime_after: String,
    pub regime_changed: bool,
    pub smoothed_probs_before: [Double; 3],
    pub smoothed_probs_after: [Double; 3],
    pub specific_risk_share_before: Double,
    pub specific_risk_share_after: Double,
    pub specific_risk_share_delta: Double,
    pub vol_increased: bool,
    pub regime_worsened: bool,
    pub top_growing_risk_factor: String,
    /// Whether the largest share of a single factor rose by more than five
    /// percentage points.
    pub risk_became_more_concentrated: bool,
}

/// How severe the regime with a given name is, from calm to crisis.
pub fn regime_severity(label: &str) -> (res: Option<usize>)
    ensures
        res == severity_of(label@),
{
    regime::regime_of_label(label)
}

/// How severe the regime with a given name is.
pub open spec fn severity_of(label: Seq<char>) -> Option<usize> {
    if label == regime::label_of(0) {
        Some(0)
    } else if label == regime::label_of(1) {
        Some(1)
    } else if label == regime::label_of(2) {
        Some(2)
    } else {
        None
    }
}

/// Whether the market went into a more severe regime.
pub open spec fn worsened(before: Seq<char>, after: Seq<char>) -> bool {
    match (severity_of(before), severity_of(after)) {
        (Some(b), Some(a)) => a > b,
        _ => false,
    }
}

/// The names of a table with other values.
pub open spec fn renumbered<T>(rows: Rows<T>, values: Seq<Double>) -> Rows<Double> {
    Seq::new(rows.len(), |k: int| (rows[k].0, values[k]))
}

fn with_values(table: &Table<Change>, values: &Vec<Double>) -> (res: Table<Double>)
    requires
        values@.len() == table@.len(),
    ensures
        res@ == renumbered(table@, values@),
{
    let mut entries: Vec<table::Entry<Double>> = Vec::new();
    let mut i: usize = 0;
    while i < table.entries.len()
        invariant
            i <= table.entries@.len(),
            values@.len() == table.entries@.len(),
            entries@.len() == i,
            forall|k: int|
                0 <= k < i ==> (#[trigger] entries@[k]).name@ == table.entries@[k].name@
                    && entries@[k].value == values@[k],
        decreases table.entries.len() - i,
    {
        entries.push(
            table::Entry { name: text::copy(table.entries[i].name.as_str()), value: values[i] },
        );
        i += 1;
    }
    let res = Table { entries };
    assert(res@ =~= renumbered(table@, values@));
    res
}

/// Whether figures match a plan: one difference for each pair, and none that
/// cannot be compared where several are.
pub open spec fn figures_fit(plan: DriftPlan, figures: DriftFigures) -> bool {
    &&& figures.contribution_deltas@.len() == plan.contributions@.len()
    &&& figures.beta_deltas@.len() == plan.betas@.len()
    &&& figures.correlation_deltas@.len() == plan.correlations@.len()
    &&& figures.contribution_deltas@.len() > 1 ==> select::comparable(figures.contribution_deltas@)
    &&& figures.correlation_deltas@.len() > 1 ==> select::comparable(figures.correlation_deltas@)
}

/// Whether `name` stands at the place of the largest of `values`, the last of
/// several.
pub open spec fn names_largest<T>(name: Seq<char>, rows: Rows<T>, values: Seq<Double>) -> bool {
    exists|k: int| #[trigger] select::is_last_max(values, k) && name == rows[k].0
}

/// Whether `name` stands at the place of the smallest of `values`, the first
/// of several.
pub open spec fn names_smallest<T>(name: Seq<char>, rows: Rows<T>, values: Seq<Double>) -> bool {
    exists|k: int| #[trigger] select::is_first_min(values, k) && name == rows[k].0
}

/// Whether `out` is what a plan and its figures come to.
pub open spec fn is_drift(
    out: RiskDriftOutputs,
    snapshot: RiskSnapshot,
    baseline_end: i32,
    current_end: i32,
    plan: DriftPlan,
    figures: DriftFigures,
) -> bool {
    &&& out.baseline_snapshot_id@ == snapshot.id@
    &&& out.baseline_created_at@ == snapshot.created_at@
    &&& out.current_as_of == current_end
    &&& out.days_elapsed == current_end - baseline_end
    &&& out.vol_before == plan.vol.before
    &&& out.vol_after == plan.vol.after
    &&& out.vol_change_abs == figures.vol_change_abs
    &&& out.vol_change_pct == (if plan.vol.before.magnitude() == 0 {
        Double { bits: 0 }
    } else {
        figures.vol_change_pct
    })
    &&& out.factor_contributions_before == plan.contributions_before
    &&& out.factor_contributions_after == plan.contributions_after
    &&& out.factor_contribution_delta@ == renumbered(
        plan.contributions@,
        figures.contribution_deltas@,
    )
    &&& names_largest(
        out.largest_contribution_increase@,
        plan.contributions@,
        figures.contribution_deltas@,
    )
    &&& names_smallest(
        out.largest_contribution_decrease@,
        plan.contributions@,
        figures.contribution_deltas@,
    )
    &&& out.portfolio_betas_before == plan.betas_before
    &&& out.portfolio_betas_after == plan.betas_after
    &&& out.portfolio_beta_delta@ == renumbered(plan.betas@, figures.beta_deltas@)
    &&& out.correlation_before == plan.correlations_before
    &&& out.correlation_after == plan.correlations_after
    &&& out.correlation_delta@ == renumbered(plan.correlations@, figures.correlation_deltas@)
    &&& if plan.correlations@.len() == 0 {
        out.largest_correlation_change@.len() == 0
    } else {
        names_largest(
            out.largest_correlation_change@,
            plan.correlations@,
            select::magnitudes(figures.correlation_deltas@),
        )
    }
    &&& out.regime_before@ == plan.regime_before.label@
    &&& out.regime_after@ == plan.regime_after.label@
    &&& out.regime_changed == (plan.regime_before.label@ != plan.regime_after.label@)
    &&& out.smoothed_probs_before == plan.regime_before.smoothed_probs
    &&& out.smoothed_probs_after == plan.regime_after.smoothed_probs
    &&& out.specific_risk_share_before == plan.specific_share.before
    &&& out.specific_risk_share_after == plan.specific_share.after
    &&& out.specific_risk_share_delta == figures.specific_share_delta
    &&& out.vol_increased == plan.vol.before.below(plan.vol.after)
    &&& out.regime_worsened == worsened(plan.regime_before.label@, plan.regime_after.label@)
    &&& out.top_growing_risk_factor@ == out.largest_contribution_increase@
    &&& out.risk_became_more_concentrated == (Double { bits: CONCENTRATION_RISE_BITS }).below(
        figures.largest_share_delta,
    )
}

/// What a comparison says: volatility went up where the later number is the
/// larger one; the regime worsened from bull to bear or crisis and from bear to
/// crisis, and in no other case; risk became more concentrated where the
/// largest share rose by more than five hundredths; the named factors are those
/// whose contributions rose and fell most, and the named pair is the one whose
/// correlation moved furthest either way.
pub proof fn lemma_drift_tells_what_changed(
    out: RiskDriftOutputs,
    snapshot: RiskSnapshot,
    baseline_end: i32,
    current_end: i32,
    plan: DriftPlan,
    figures: DriftFigures,
)
    requires
        is_drift(out, snapshot, baseline_end, current_end, plan, figures),
        plan.well_formed(),
        figures_fit(plan, figures),
    ensures
        out.baseline_snapshot_id@ == snapshot.id@,
        out.baseline_created_at@ == snapshot.created_at@,
        out.current_as_of == current_end,
        out.days_elapsed + baseline_end == current_end,
        out.vol_increased <==> !plan.vol.before.nan() && !plan.vol.after.nan()
            && plan.vol.before.rank() < plan.vol.after.rank(),
        out.vol_before == plan.vol.before && out.vol_after == plan.vol.after,
        (plan.vol.before.bits == 0 || plan.vol.before.bits == 0x8000_0000_0000_0000)
            ==> out.vol_change_pct.bits == 0,
        plan.vol.before.rank() != 0 ==> out.vol_change_pct == figures.vol_change_pct,
        out.regime_worsened <==> (plan.regime_before.label@ == "Bull"@ && (
        plan.regime_after.label@ == "Bear"@ || plan.regime_after.label@ == "Crisis"@)) || (
        plan.regime_before.label@ == "Bear"@ && plan.regime_after.label@ == "Crisis"@),
        out.regime_changed <==> out.regime_before@ != out.regime_after@,
        out.regime_before@ == plan.regime_before.label@ && out.regime_after@
            == plan.regime_after.label@,
        out.risk_became_more_concentrated <==> (Double { bits: 0x3fa9_9999_9999_999a }).below(
            figures.largest_share_delta,
        ),
        exists|k: int|
            0 <= k < plan.contributions@.len() && (#[trigger] plan.contributions@[k]).0
                == out.largest_contribution_increase@ && forall|j: int|
                0 <= j < figures.contribution_deltas@.len() ==> (
                #[trigger] figures.contribution_deltas@[j]).rank()
                    <= figures.contribution_deltas@[k].rank() && (j > k
                    ==> figures.contribution_deltas@[j].rank()
                    < figures.contribution_deltas@[k].rank()),
        exists|k: int|
            0 <= k < plan.contributions@.len() && (#[trigger] plan.contributions@[k]).0
                == out.largest_contribution_decrease@ && forall|j: int|
                0 <= j < figures.contribution_deltas@.len()
                    ==> figures.contribution_deltas@[k].rank() <= (
                #[trigger] figures.contribution_deltas@[j]).rank() && (j < k
                    ==> figures.contribution_deltas@[k].rank()
                    < figures.contribution_deltas@[j].rank()),
        out.top_growing_risk_factor@ == out.largest_contribution_increase@,
        plan.correlations@.len() > 0 ==> exists|k: int|
            0 <= k < plan.correlations@.len() && (#[trigger] plan.correlations@[k]).0
                == out.largest_correlation_change@ && forall|j: int|
                0 <= j < figures.correlation_deltas@.len() ==> {
                    let (x, y) = (
                        (#[trigger] figures.correlation_deltas@[j]).rank(),
                        figures.correlation_deltas@[k].rank(),
                    );
                    -y <= x <= y || y <= x <= -y
                },
        forall|k: int|
            0 <= k < plan.contributions@.len() ==> (
            #[trigger] out.factor_contribution_delta@[k]).0 == plan.contributions@[k].0
                && out.factor_contribution_delta@[k].1 == figures.contribution_deltas@[k],
        forall|k: int|
            0 <= k < plan.betas@.len() ==> (#[trigger] out.portfolio_beta_delta@[k]).0
                == plan.betas@[k].0 && out.portfolio_beta_delta@[k].1 == figures.beta_deltas@[k],
        forall|k: int|
            0 <= k < plan.correlations@.len() ==> (#[trigger] out.correlation_delta@[k]).0
                == plan.correlations@[k].0 && out.correlation_delta@[k].1
                == figures.correlation_deltas@[k],
        out.factor_contributions_before == plan.contributions_before
            && out.factor_contributions_after == plan.contributions_after,
        out.portfolio_betas_before == plan.betas_before && out.portfolio_betas_after
            == plan.betas_after,
        out.correlation_before == plan.correlations_before && out.correlation_after
            == plan.correlations_after,
        out.specific_risk_share_before == plan.specific_share.before
            && out.specific_risk_share_after == plan.specific_share.after
            && out.specific_risk_share_delta == figures.specific_share_delta,
        out.smoothed_probs_before == plan.regime_before.smoothed_probs && out.smoothed_probs_after
            == plan.regime_after.smoothed_probs,
{
    reveal_strlit("Bull");
    reveal_strlit("Bear");
    reveal_strlit("Crisis");
    assert("Bull"@.len() == 4 && "Bear"@.len() == 4 && "Crisis"@.len() == 6);
    assert("Bull"@[1] == 'u' && "Bear"@[1] == 'e');
    let deltas = figures.contribution_deltas@;
    let up = choose|k: int| #[trigger]
        select::is_last_max(deltas, k) && out.largest_contribution_increase@
            == plan.contributions@[k].0;
    assert(plan.contributions@[up].0 == out.largest_contribution_increase@);
    let down = choose|k: int| #[trigger]
        select::is_first_min(deltas, k) && out.largest_contribution_decrease@
            == plan.contributions@[k].0;
    assert(plan.contributions@[down].0 == out.largest_contribution_decrease@);
    if plan.correlations@.len() > 0 {
        let moves = figures.correlation_deltas@;
        let sizes = select::magnitudes(moves);
        select::lemma_magnitudes(moves);
        let far = choose|k: int| #[trigger]
            select::is_last_max(sizes, k) && out.largest_correlation_change@
                == plan.correlations@[k].0;
        assert(plan.correlations@[far].0 == out.largest_correlation_change@);
        assert forall|j: int| 0 <= j < moves.len() implies ({
            let (x, y) = ((#[trigger] moves[j]).rank(), moves[far].rank());
            -y <= x <= y || y <= x <= -y
        }) by {
            assert(sizes[j].rank() <= sizes[far].rank());
        }
    }
}

fn is_zero(x: Double) -> (res: bool)
    ensures
        res == (x.magnitude() == 0),
{
    x.le(Double::zero()) && Double::zero().le(x)
}

/// Puts the change of a portfolio's risk together from both sides and their
/// differences.
pub fn compute_risk_drift(
    snapshot: &RiskSnapshot,
    baseline_end: i32,
    current_end: i32,
    plan: DriftPlan,
    figures: &DriftFigures,
) -> (res: RiskDriftOutputs)
    requires
        plan.well_formed(),
        figures_fit(plan, *figures),
    ensures
        is_drift(res, *snapshot, baseline_end, current_end, plan, *figures),
{
    let increase = match select::last_max(&figures.contribution_deltas) {
        Some(k) => text::copy(plan.contributions.entries[k].name.as_str()),
        None => String::new(),
    };
    assert(names_largest(increase@, plan.contributions@, figures.contribution_deltas@));
    let decrease = match select::first_min(&figures.contribution_deltas) {
        Some(k) => text::copy(plan.contributions.entries[k].name.as_str()),
        None => String::new(),
    };
    assert(names_smallest(decrease@, plan.contributions@, figures.contribution_deltas@));
    let sizes = select::absolute(&figures.correlation_deltas);
    let correlation_change = match select::last_max(&sizes) {
        Some(k) => text::copy(plan.correlations.entries[k].name.as_str()),
        None => String::new(),
    };
    assert(plan.correlations@.len() > 0 ==> names_largest(
        correlation_change@,
        plan.correlations@,
        select::magnitudes(figures.correlation_deltas@),
    ));
    let contribution_delta = with_values(&plan.contributions, &figures.contribution_deltas);
    let beta_delta = with_values(&plan.betas, &figures.beta_deltas);
    let correlation_delta = with_values(&plan.correlations, &figures.correlation_deltas);
    let regime_changed = !text::same(
        plan.regime_before.label.as_str(),
        plan.regime_after.label.as_str(),
    );
    let regime_worsened = match (
        regime_severity(plan.regime_before.label.as_str()),
        regime_severity(plan.regime_after.label.as_str()),
    ) {
        (Some(b), Some(a)) => a > b,
        _ => false,
    };
    RiskDriftOutputs {
        baseline_snapshot_id: text::copy(snapshot.id.as_str()),
        baseline_created_at: text::copy(snapshot.created_at.as_str()),
        current_as_of: current_end,
        days_elapsed: current_end as i64 - baseline_end as i64,
        vol_before: plan.vol.before,
        vol_after: plan.vol.after,
        vol_change_abs: figures.vol_change_abs,
        vol_change_pct: if is_zero(plan.vol.before) {
            Double::zero()
        } else {
            figures.vol_change_pct
        },
        factor_contributions_before: plan.contributions_before,
        factor_contributions_after: plan.contributions_after,
        factor_contribution_delta: contribution_delta,
        top_growing_risk_factor: text::copy(increase.as_str()),
        largest_contribution_increase: increase,
        largest_contribution_decrease: decrease,
        portfolio_betas_before: plan.betas_before,
        portfolio_betas_after: plan.betas_after,
        portfolio_beta_delta: beta_delta,
        correlation_before: plan.correlations_before,
        correlation_after: plan.correlations_after,
        correlation_delta,
        largest_correlation_change: correlation_change,
        regime_before: plan.regime_before.label,
        regime_after: plan.regime_after.label,
        regime_changed,
        smoothed_probs_before: plan.regime_before.smoothed_probs,
        smoothed_probs_after: plan.regime_after.smoothed_probs,
        specific_risk_share_before: plan.specific_share.before,
        specific_risk_share_after: plan.specific_share.after,
        specific_risk_share_delta: figures.specific_share_delta,
        vol_increased: plan.vol.before.lt(plan.vol.after),
        regime_worsened,
        risk_became_more_concentrated: (Double { bits: CONCENTRATION_RISE_BITS }).lt(
            figures.largest_share_delta,
        ),
    }
}

/// A regime can only have worsened where it has changed.
pub proof fn lemma_worsened_means_changed(before: Seq<char>, after: Seq<char>)
    ensures
        worsened(before, after) ==> before != after,
        worsened(before, after) ==> !worsened(after, before),
{
}

// ---------------------------------------------------------------------------
// The trace
// ---------------------------------------------------------------------------

/// The name of the check on the sum of the contribution deltas.
pub const SUM_CHECK: &'static str =
    "sum(factor_contribution_delta) ~= vol_change_abs (approximate: Euler additivity across two different fits is not exact)";

/// The name of the check on the regimes.
pub const REGIME_CHECK: &'static str = "regime_changed == (regime_before != regime_after)";

fn truth(value: bool) -> (res: &'static str)
    ensures
        res@ == truth_word(value),
{
    if value {
        "true"
    } else {
        "false"
    }
}

/// A truth value in words.
pub open spec fn truth_word(value: bool) -> Seq<char> {
    if value {
        "true"@
    } else {
        "false"@
    }
}

/// The checked identities of a comparison.
pub fn drift_checks(output: &RiskDriftOutputs, figures: &DriftFigures) -> (res: Vec<InvariantCheck>)
    ensures
        res@.len() == 2,
        res@[0].name@ == SUM_CHECK@,
        res@[0].passed == figures.contribution_delta_gap.at_most(
            Double { bits: SUM_TOLERANCE_BITS },
        ),
        res@[0].tolerance == (Double { bits: SUM_TOLERANCE_BITS }),
        res@[0].detail@ == trace::comparison_detail(
            figures.contribution_delta_sum,
            figures.vol_change_abs,
            figures.contribution_delta_gap,
        ),
        res@[1].name@ == REGIME_CHECK@,
        res@[1].passed == (output.regime_changed == (output.regime_before@ != output.regime_after@)),
        res@[1].tolerance == (Double { bits: 0 }),
        res@[1].detail@ == seq![
            PieceView::Text("regime_before="@),
            PieceView::Text(output.regime_before@),
            PieceView::Text(" regime_after="@),
            PieceView::Text(output.regime_after@),
            PieceView::Text(" regime_changed="@),
            PieceView::Text(truth_word(output.regime_changed)),
        ],
{
    let mut out: Vec<InvariantCheck> = Vec::new();
    out.push(
        InvariantCheck::approx_eq(
            SUM_CHECK,
            figures.contribution_delta_sum,
            figures.vol_change_abs,
            figures.contribution_delta_gap,
            Double { bits: SUM_TOLERANCE_BITS },
        ),
    );
    let mut detail = Message::of("regime_before=");
    detail.text(output.regime_before.as_str());
    detail.text(" regime_after=");
    detail.text(output.regime_after.as_str());
    detail.text(" regime_changed=");
    detail.text(truth(output.regime_changed));
    assert(detail@ =~= seq![
        PieceView::Text("regime_before="@),
        PieceView::Text(output.regime_before@),
        PieceView::Text(" regime_after="@),
        PieceView::Text(output.regime_after@),
        PieceView::Text(" regime_changed="@),
        PieceView::Text(truth_word(output.regime_changed)),
    ]);
    let differs = !text::same(output.regime_before.as_str(), output.regime_after.as_str());
    out.push(
        InvariantCheck {
            name: text::copy(REGIME_CHECK),
            passed: output.regime_changed == differs,
            tolerance: Double::zero(),
            detail,
        },
    );
    out
}

/// The trace of a comparison: that of the current decomposition, with the
/// comparison as its result and the baseline as its parent.
pub fn drift_trace(
    current: EvidenceTrace,
    inputs: Json,
    output: &RiskDriftOutputs,
    checks: Vec<InvariantCheck>,
    snapshot: &RiskSnapshot,
    baseline: &BaselineTrace,
    commit: Option<&str>,
) -> (res: EvidenceTrace)
    requires
        current.valid(),
        crate::dates::is_day(output.current_as_of as int),
    ensures
        trace::is_random_uuid(res.id@),
        res.experiment@ == "RiskDrift"@,
        res.inputs == inputs,
        res.data_as_of == current.data_as_of,
        res.data_window == current.data_window,
        res.data_quality == current.data_quality,
        res.model_params == current.model_params,
        res.outputs@ == JsonView::empty().with("result"@, output.json()),
        res.invariants == checks,
        res.engine_version@ == trace::ENGINE_VERSION@,
        res.engine_commit@ == trace::shown_commit(
            match commit {
                Some(s) => Some(s@),
                None => None,
            },
        ),
        res.scenario_provenance is None,
        text::views(res.parent_trace_ids@) == seq![snapshot.id@],
        match res.baseline_model_params {
            Some(p) => {
                &&& p.window_periods == baseline.window_periods
                &&& p.frequency == baseline.frequency
                &&& p.shrinkage_intensity == baseline.shrinkage_intensity
                &&& match baseline.regime {
                    Some(r) => p.regime_label is Some && p.regime_label->Some_0@ == r.label@,
                    None => p.regime_label is None,
                }
            },
            None => false,
        },
        res.policy_result is None,
        res.valid(),
{
    let mut parents: Vec<String> = Vec::new();
    parents.push(text::copy(snapshot.id.as_str()));
    assert(text::views(parents@) =~= seq![snapshot.id@]);
    EvidenceTrace {
        id: trace::new_trace_id(),
        experiment: text::copy("RiskDrift"),
        inputs,
        data_as_of: current.data_as_of,
        data_window: current.data_window,
        data_quality: current.data_quality,
        model_params: current.model_params,
        outputs: crate::experiments::outputs_plain(output.to_json()),
        invariants: checks,
        engine_version: trace::engine_version(),
        engine_commit: trace::engine_commit(commit),
        scenario_provenance: None,
        parent_trace_ids: parents,
        baseline_model_params: Some(
            BaselineModelParams {
                window_periods: baseline.window_periods,
                frequency: baseline.frequency,
                shrinkage_intensity: baseline.shrinkage_intensity,
                regime_label: match &baseline.regime {
                    Some(r) => Some(text::copy(r.label.as_str())),
                    None => None,
                },
            },
        ),
        policy_result: None,
    }
}

// ---------------------------------------------------------------------------
// JSON
// ---------------------------------------------------------------------------

fn probabilities_json(probs: &[Double; 3]) -> (res: Json)
    ensures
        res@ == JsonView::of_doubles(probs@),
{
    let mut values: Vec<Double> = Vec::new();
    values.push(probs[0]);
    values.push(probs[1]);
    values.push(probs[2]);
    assert(values@ =~= probs@);
    Json::of_doubles(&values)
}

impl RiskDriftOutputs {
    /// The change as a JSON object.
    pub open spec fn json(self) -> JsonView {
        JsonView::empty().with(
            "baseline_snapshot_id"@,
            JsonView::Text(self.baseline_snapshot_id@),
        ).with(
            "baseline_created_at"@,
            JsonView::Text(self.baseline_created_at@),
        ).with(
            "current_as_of"@,
            JsonView::Text(crate::dates::date_text(self.current_as_of as int)),
        ).with(
            "days_elapsed"@,
            JsonView::of_integer(self.days_elapsed as int),
        ).with(
            "vol_before"@,
            JsonView::of_double(self.vol_before),
        ).with(
            "vol_after"@,
            JsonView::of_double(self.vol_after),
        ).with(
            "vol_change_abs"@,
            JsonView::of_double(self.vol_change_abs),
        ).with(
            "vol_change_pct"@,
            JsonView::of_double(self.vol_change_pct),
        ).with(
            "factor_contributions_before"@,
            table::numbers_json(self.factor_contributions_before@),
        ).with(
            "factor_contributions_after"@,
            table::numbers_json(self.factor_contributions_after@),
        ).with(
            "factor_contribution_delta"@,
            table::numbers_json(self.factor_contribution_delta@),
        ).with(
            "largest_contribution_increase"@,
            JsonView::Text(self.largest_contribution_increase@),
        ).with(
            "largest_contribution_decrease"@,
            JsonView::Text(self.largest_contribution_decrease@),
        ).with(
            "portfolio_betas_before"@,
            table::numbers_json(self.portfolio_betas_before@),
        ).with(
            "portfolio_betas_after"@,
            table::numbers_json(self.portfolio_betas_after@),
        ).with(
            "portfolio_beta_delta"@,
            table::numbers_json(self.portfolio_beta_delta@),
        ).with(
            "correlation_before"@,
            table::numbers_json(self.correlation_before@),
        ).with(
            "correlation_after"@,
            table::numbers_json(self.correlation_after@),
        ).with(
            "correlation_delta"@,
            table::numbers_json(self.correlation_delta@),
        ).with(
            "largest_correlation_change"@,
            JsonView::Text(self.largest_correlation_change@),
        ).with(
            "regime_before"@,
            JsonView::Text(self.regime_before@),
        ).with(
            "regime_after"@,
            JsonView::Text(self.regime_after@),
        ).with(
            "regime_changed"@,
            JsonView::Bool(self.regime_changed),
        ).with(
            "smoothed_probs_before"@,
            JsonView::of_doubles(self.smoothed_probs_before@),
        ).with(
            "smoothed_probs_after"@,
            JsonView::of_doubles(self.smoothed_probs_after@),
        ).with(
            "specific_risk_share_before"@,
            JsonView::of_double(self.specific_risk_share_before),
        ).with(
            "specific_risk_share_after"@,
            JsonView::of_double(self.specific_risk_share_after),
        ).with(
            "specific_risk_share_delta"@,
            JsonView::of_double(self.specific_risk_share_delta),
        ).with(
            "vol_increased"@,
            JsonView::Bool(self.vol_increased),
        ).with(
            "regime_worsened"@,
            JsonView::Bool(self.regime_worsened),
        ).with(
            "top_growing_risk_factor"@,
            JsonView::Text(self.top_growing_risk_factor@),
        ).with(
            "risk_became_more_concentrated"@,
            JsonView::Bool(self.risk_became_more_concentrated),
        )
    }

    /// Each field of the object holds the figure that it is named after.
    pub proof fn lemma_json_fields(self)
        ensures
            self.json().field("baseline_snapshot_id"@) == Some(JsonView::Text(self.baseline_snapshot_id@)),
            self.json().field("baseline_created_at"@) == Some(JsonView::Text(self.baseline_created_at@)),
            self.json().field("current_as_of"@) == Some(JsonView::Text(crate::dates::date_text(self.current_as_of as int))),
            self.json().field("days_elapsed"@) == Some(JsonView::of_integer(self.days_elapsed as int)),
            self.json().field("vol_before"@) == Some(JsonView::of_double(self.vol_before)),
            self.json().field("vol_after"@) == Some(JsonView::of_double(self.vol_after)),
            self.json().field("vol_change_abs"@) == Some(JsonView::of_double(self.vol_change_abs)),
            self.json().field("vol_change_pct"@) == Some(JsonView::of_double(self.vol_change_pct)),
            self.json().field("factor_contributions_before"@) == Some(table::numbers_json(self.factor_contributions_before@)),
            self.json().field("factor_contributions_after"@) == Some(table::numbers_json(self.factor_contributions_after@)),
            self.json().field("factor_contribution_delta"@) == Some(table::numbers_json(self.factor_contribution_delta@)),
            self.json().field("largest_contribution_increase"@) == Some(JsonView::Text(self.largest_contribution_increase@)),
            self.json().field("largest_contribution_decrease"@) == Some(JsonView::Text(self.largest_contribution_decrease@)),
            self.json().field("portfolio_betas_before"@) == Some(table::numbers_json(self.portfolio_betas_before@)),
            self.json().field("portfolio_betas_after"@) == Some(table::numbers_json(self.portfolio_betas_after@)),
            self.json().field("portfolio_beta_delta"@) == Some(table::numbers_json(self.portfolio_beta_delta@)),
            self.json().field("correlation_before"@) == Some(table::numbers_json(self.correlation_before@)),
            self.json().field("correlation_after"@) == Some(table::numbers_json(self.correlation_after@)),
            self.json().field("correlation_delta"@) == Some(table::numbers_json(self.correlation_delta@)),
            self.json().field("largest_correlation_change"@) == Some(JsonView::Text(self.largest_correlation_change@)),
            self.json().field("regime_before"@) == Some(JsonView::Text(self.regime_before@)),
            self.json().field("regime_after"@) == Some(JsonView::Text(self.regime_after@)),
            self.json().field("regime_changed"@) == Some(JsonView::Bool(self.regime_changed)),
            self.json().field("smoothed_probs_before"@) == Some(JsonView::of_doubles(self.smoothed_probs_before@)),
            self.json().field("smoothed_probs_after"@) == Some(JsonView::of_doubles(self.smoothed_probs_after@)),
            self.json().field("specific_risk_share_before"@) == Some(JsonView::of_double(self.specific_risk_share_before)),
            self.json().field("specific_risk_share_after"@) == Some(JsonView::of_double(self.specific_risk_share_after)),
            self.json().field("specific_risk_share_delta"@) == Some(JsonView::of_double(self.specific_risk_share_delta)),
            self.json().field("vol_increased"@) == Some(JsonView::Bool(self.vol_increased)),
            self.json().field("regime_worsened"@) == Some(JsonView::Bool(self.regime_worsened)),
            self.json().field("top_growing_risk_factor"@) == Some(JsonView::Text(self.top_growing_risk_factor@)),
            self.json().field("risk_became_more_concentrated"@) == Some(JsonView::Bool(self.risk_became_more_concentrated)),
    {
        broadcast use crate::json::group_fields;

        reveal_strlit("baseline_snapshot_id");
        reveal_strlit("baseline_created_at");
        reveal_strlit("current_as_of");
        reveal_strlit("days_elapsed");
        reveal_strlit("vol_before");
        reveal_strlit("vol_after");
        reveal_strlit("vol_change_abs");
        reveal_strlit("vol_change_pct");
        reveal_strlit("factor_contributions_before");
        reveal_strlit("factor_contributions_after");
        reveal_strlit("factor_contribution_delta");
        reveal_strlit("largest_contribution_increase");
        reveal_strlit("largest_contribution_decrease");
        reveal_strlit("portfolio_betas_before");
        reveal_strlit("portfolio_betas_after");
        reveal_strlit("portfolio_beta_delta");
        reveal_strlit("correlation_before");
        reveal_strlit("correlation_after");
        reveal_strlit("correlation_delta");
        reveal_strlit("largest_correlation_change");
        reveal_strlit("regime_before");
        reveal_strlit("regime_after");
        reveal_strlit("regime_changed");
        reveal_strlit("smoothed_probs_before");
        reveal_strlit("smoothed_probs_after");
        reveal_strlit("specific_risk_share_before");
        reveal_strlit("specific_risk_share_after");
        reveal_strlit("specific_risk_share_delta");
        reveal_strlit("vol_increased");
        reveal_strlit("regime_worsened");
        reveal_strlit("top_growing_risk_factor");
        reveal_strlit("risk_became_more_concentrated");
        assert("baseline_snapshot_id"@.len() == 20);
        assert("baseline_created_at"@.len() == 19);
        assert("current_as_of"@.len() == 13);
        assert("days_elapsed"@.len() == 12);
        assert("vol_before"@.len() == 10);
        assert("vol_after"@.len() == 9);
        assert("vol_change_abs"@.len() == 14);
        assert("vol_change_pct"@.len() == 14);
        assert("factor_contributions_before"@.len() == 27);
        assert("factor_contributions_after"@.len() == 26);
        assert("factor_contribution_delta"@.len() == 25);
        assert("largest_contribution_increase"@.len() == 29);
        assert("largest_contribution_decrease"@.len() == 29);
        assert("portfolio_betas_before"@.len() == 22);
        assert("portfolio_betas_after"@.len() == 21);
        assert("portfolio_beta_delta"@.len() == 20);
        assert("correlation_before"@.len() == 18);
        assert("correlation_after"@.len() == 17);
        assert("correlation_delta"@.len() == 17);
        assert("largest_correlation_change"@.len() == 26);
        assert("regime_before"@.len() == 13);
        assert("regime_after"@.len() == 12);
        assert("regime_changed"@.len() == 14);
        assert("smoothed_probs_before"@.len() == 21);
        assert("smoothed_probs_after"@.len() == 20);
        assert("specific_risk_share_before"@.len() == 26);
        assert("specific_risk_share_after"@.len() == 25);
        assert("specific_risk_share_delta"@.len() == 25);
        assert("vol_increased"@.len() == 13);
        assert("regime_worsened"@.len() == 15);
        assert("top_growing_risk_factor"@.len() == 23);
        assert("risk_became_more_concentrated"@.len() == 29);
        assert("baseline_snapshot_id"@[0] == 'b');
        assert("portfolio_beta_delta"@[0] == 'p');
        assert("smoothed_probs_after"@[0] == 's');
        assert("current_as_of"@[0] == 'c');
        assert("regime_before"@[0] == 'r');
        assert("vol_increased"@[0] == 'v');
        assert("days_elapsed"@[0] == 'd');
        assert("regime_after"@[0] == 'r');
        assert("vol_change_abs"@[11] == 'a');
        assert("vol_change_pct"@[11] == 'p');
        assert("vol_change_abs"@[0] == 'v');
        assert("regime_changed"@[0] == 'r');
        assert("vol_change_pct"@[0] == 'v');
        assert("factor_contributions_after"@[0] == 'f');
        assert("largest_correlation_change"@[0] == 'l');
        assert("specific_risk_share_before"@[0] == 's');
        assert("factor_contribution_delta"@[0] == 'f');
        assert("specific_risk_share_after"@[0] == 's');
        assert("specific_risk_share_delta"@[0] == 's');
        assert("specific_risk_share_after"@[20] == 'a');
        assert("specific_risk_share_delta"@[20] == 'd');
        assert("largest_contribution_increase"@[21] == 'i');
        assert("largest_contribution_decrease"@[21] == 'd');
        assert("largest_contribution_increase"@[0] == 'l');
        assert("risk_became_more_concentrated"@[0] == 'r');
        assert("largest_contribution_decrease"@[0] == 'l');
        assert("portfolio_betas_after"@[0] == 'p');
        assert("smoothed_probs_before"@[0] == 's');
        assert("correlation_after"@[12] == 'a');
        assert("correlation_delta"@[12] == 'd');
    }

    /// The change as a JSON object.
    pub fn to_json(&self) -> (res: Json)
        requires
            crate::dates::is_day(self.current_as_of as int),
        ensures
            res@ == self.json(),
    {
        Json::object().with(
            "baseline_snapshot_id",
            Json::of_text(self.baseline_snapshot_id.as_str()),
        ).with("baseline_created_at", Json::of_text(self.baseline_created_at.as_str())).with(
            "current_as_of",
            Json::Text(trace::day_text(self.current_as_of)),
        ).with("days_elapsed", Json::of_integer(self.days_elapsed)).with(
            "vol_before",
            Json::of_double(self.vol_before),
        ).with("vol_after", Json::of_double(self.vol_after)).with(
            "vol_change_abs",
            Json::of_double(self.vol_change_abs),
        ).with("vol_change_pct", Json::of_double(self.vol_change_pct)).with(
            "factor_contributions_before",
            self.factor_contributions_before.to_json(),
        ).with("factor_contributions_after", self.factor_contributions_after.to_json()).with(
            "factor_contribution_delta",
            self.factor_contribution_delta.to_json(),
        ).with(
            "largest_contribution_increase",
            Json::of_text(self.largest_contribution_increase.as_str()),
        ).with(
            "largest_contribution_decrease",
            Json::of_text(self.largest_contribution_decrease.as_str()),
        ).with("portfolio_betas_before", self.portfolio_betas_before.to_json()).with(
            "portfolio_betas_after",
            self.portfolio_betas_after.to_json(),
        ).with("portfolio_beta_delta", self.portfolio_beta_delta.to_json()).with(
            "correlation_before",
            self.correlation_before.to_json(),
        ).with("correlation_after", self.correlation_after.to_json()).with(
            "correlation_delta",
            self.correlation_delta.to_json(),
        ).with(
            "largest_correlation_change",
            Json::of_text(self.largest_correlation_change.as_str()),
        ).with("regime_before", Json::of_text(self.regime_before.as_str())).with(
            "regime_after",
            Json::of_text(self.regime_after.as_str()),
        ).with("regime_changed", Json::Bool(self.regime_changed)).with(
            "smoothed_probs_before",
            probabilities_json(&self.smoothed_probs_before),
        ).with("smoothed_probs_after", probabilities_json(&self.smoothed_probs_after)).with(
            "specific_risk_share_before",
            Json::of_double(self.specific_risk_share_before),
        ).with("specific_risk_share_after", Json::of_double(self.specific_risk_share_after)).with(
            "specific_risk_share_delta",
            Json::of_double(self.specific_risk_share_delta),
        ).with("vol_increased", Json::Bool(self.vol_increased)).with(
            "regime_worsened",
            Json::Bool(self.regime_worsened),
        ).with("top_growing_risk_factor", Json::of_text(self.top_growing_risk_factor.as_str())).with(
            "risk_became_more_concentrated",
            Json::Bool(self.risk_became_more_concentrated),
        )
    }
}

} // verus!
