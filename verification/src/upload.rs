//! From an uploaded file to a portfolio.
//!
//! A file is a table in CSV or XLSX. [`read_upload`] takes it apart into rows
//! under their column names and finds out which of the two layouts it has; the
//! numbers in it are parsed from what [`number_texts`] hands out; and
//! [`build_weight_based`] or [`build_value_based`], then [`finish_upload`], put
//! the portfolio together.

use std::io::Cursor;
use std::sync::mpsc::channel;

use calamine::{open_workbook_from_rs, Data, DataType, Range, Reader, Xlsx, XlsxError};
use tokio::runtime::Builder;
use vstd::prelude::*;

use crate::api::{self, ApiError, ApiErrorView};
use crate::double::Double;
use crate::experiments::{Holding, Portfolio};
use crate::json::{Json, JsonView};
use crate::message::{self, Message};
use crate::table::{self, Rows, Table};
use crate::text;
use crate::validate;

verus! {

/// The value of a portfolio of which only the weights are known, in rupees.
pub const DEFAULT_TOTAL_VALUE_INR: i64 = 1_000_000;

/// What an uploaded table holds.
#[derive(Clone, Copy, Debug, PartialEq, Eq, Structural)]
pub enum Layout {
    /// Tickers and weights.
    Weight,
    /// Tickers, numbers of shares and average prices.
    Value,
}

/// One row of a table, under the names of its columns.
pub type Record = Table<String>;

/// What a row holds.
pub open spec fn record_view(record: Record) -> Rows<Seq<char>> {
    record@.map_values(|r: (Seq<char>, String)| (r.0, r.1@))
}

/// What rows hold.
pub open spec fn records_view(records: Seq<Record>) -> Seq<Rows<Seq<char>>> {
    records.map_values(|r: Record| record_view(r))
}

// ---------------------------------------------------------------------------
// CSV
// ---------------------------------------------------------------------------

/// What a CSV file holds.
#[derive(Debug)]
pub struct CsvTable {
    pub headers: Vec<String>,
    pub rows: Vec<Vec<String>>,
}

/// Where a CSV file could not be read, and why.
#[derive(Debug)]
pub enum CsvFault {
    Headers(String),
    Row(String),
}

/// Text by text, what rows of texts hold.
pub open spec fn rows_view(rows: Seq<Vec<String>>) -> Seq<Seq<Seq<char>>> {
    rows.map_values(|r: Vec<String>| text::views(r@))
}

/// What reading a CSV file comes to: its headers and rows, or where it failed
/// (at the headers or not) and why.
pub type CsvView = Result<(Seq<Seq<char>>, Seq<Seq<Seq<char>>>), (bool, Seq<char>)>;

/// What reading a CSV file came to.
pub open spec fn csv_view(read: Result<CsvTable, CsvFault>) -> CsvView {
    match read {
        Ok(table) => Ok((text::views(table.headers@), rows_view(table.rows@))),
        Err(CsvFault::Headers(cause)) => Err((true, cause@)),
        Err(CsvFault::Row(cause)) => Err((false, cause@)),
    }
}

/// The name of what reading a CSV file comes to.
pub uninterp spec fn csv_content(bytes: Seq<u8>) -> CsvView;

/// Reads bytes with a `csv::Reader` that takes the first row as headers:
/// `Reader::headers`, then `Reader::records` up to the first error. Claimed:
/// what comes out, errors and their words included, depends on the bytes
/// alone. How CSV is quoted and split is left to the name.
#[verifier::external_body]
fn read_csv(bytes: &[u8]) -> (res: Result<CsvTable, CsvFault>)
    ensures
        csv_view(res) == csv_content(bytes@),
{
    let mut reader = csv::ReaderBuilder::new().has_headers(true).from_reader(bytes);
    let headers = reader.headers().map_err(|e| CsvFault::Headers(e.to_string()))?;
    let headers = headers.iter().map(String::from).collect();
    let records = reader.records().collect::<Result<Vec<csv::StringRecord>, csv::Error>>();
    let records = records.map_err(|e| CsvFault::Row(e.to_string()))?;
    let rows = records.iter().map(|r| r.iter().map(String::from).collect()).collect();
    Ok(CsvTable { headers, rows })
}

// ---------------------------------------------------------------------------
// XLSX
// ---------------------------------------------------------------------------

/// One cell of a sheet.
#[derive(Debug)]
pub enum Cell {
    Text(String),
    /// A number with a fraction, as it is written.
    Number(String),
    Integer(i64),
    /// Any other cell, as a text where it has one.
    Other(Option<String>),
}

/// What a [`Cell`] holds.
pub enum CellView {
    Text(Seq<char>),
    Number(Seq<char>),
    Integer(int),
    Other(Option<Seq<char>>),
}

impl View for Cell {
    type V = CellView;

    open spec fn view(&self) -> CellView {
        match self {
            Cell::Text(s) => CellView::Text(s@),
            Cell::Number(s) => CellView::Number(s@),
            Cell::Integer(n) => CellView::Integer(*n as int),
            Cell::Other(Some(s)) => CellView::Other(Some(s@)),
            Cell::Other(None) => CellView::Other(None),
        }
    }
}

/// Where an XLSX file could not be read, and why.
#[derive(Debug)]
pub enum XlsxFault {
    Open(String),
    NoSheets,
    Sheet(String),
    /// The reading broke off without a result.
    Unwound,
}

/// What an [`XlsxFault`] says.
pub enum XlsxFaultView {
    Open(Seq<char>),
    NoSheets,
    Sheet(Seq<char>),
    Unwound,
}

/// What reading an XLSX file comes to: the rows of its first sheet, or where
/// it failed and why.
pub type XlsxView = Result<Seq<Seq<CellView>>, XlsxFaultView>;

/// Cell by cell, what one row holds.
pub open spec fn cells_view(row: Seq<Cell>) -> Seq<CellView> {
    row.map_values(|c: Cell| c@)
}

/// Cell by cell, what rows hold.
pub open spec fn sheet_view(rows: Seq<Vec<Cell>>) -> Seq<Seq<CellView>> {
    rows.map_values(|r: Vec<Cell>| cells_view(r@))
}

/// What reading an XLSX file came to.
pub open spec fn xlsx_view(read: Result<Vec<Vec<Cell>>, XlsxFault>) -> XlsxView {
    match read {
        Ok(rows) => Ok(sheet_view(rows@)),
        Err(XlsxFault::Open(cause)) => Err(XlsxFaultView::Open(cause@)),
        Err(XlsxFault::NoSheets) => Err(XlsxFaultView::NoSheets),
        Err(XlsxFault::Sheet(cause)) => Err(XlsxFaultView::Sheet(cause@)),
        Err(XlsxFault::Unwound) => Err(XlsxFaultView::Unwound),
    }
}

/// The name of what reading an XLSX file comes to.
pub uninterp spec fn xlsx_content(bytes: Seq<u8>) -> XlsxView;

/// One cell as calamine reads it.
#[verifier::external_type_specification]
#[verifier::external_body]
pub struct ExData(calamine::Data);

/// The cells of a sheet as calamine reads them.
#[verifier::external_type_specification]
#[verifier::external_body]
#[verifier::reject_recursive_types(T)]
pub struct ExRange<T>(calamine::Range<T>);

/// The name of what a range holds, row by row.
pub uninterp spec fn range_cells(range: Range<Data>) -> Seq<Seq<CellView>>;

/// What opening an XLSX file came to.
pub open spec fn opened_view(opened: Result<Range<Data>, XlsxFault>) -> XlsxView {
    match opened {
        Ok(range) => Ok(range_cells(range)),
        Err(XlsxFault::Open(cause)) => Err(XlsxFaultView::Open(cause@)),
        Err(XlsxFault::NoSheets) => Err(XlsxFaultView::NoSheets),
        Err(XlsxFault::Sheet(cause)) => Err(XlsxFaultView::Sheet(cause@)),
        Err(XlsxFault::Unwound) => Err(XlsxFaultView::Unwound),
    }
}

/// Opens bytes with `calamine::open_workbook_from_rs` and takes the first
/// sheet by `Reader::worksheet_range_at`. calamine trusts the sizes that a
/// workbook gives of itself and can panic on a malformed one, so this runs on
/// a worker of a runtime of its own, by `tokio::runtime::Runtime::spawn_blocking`;
/// where the worker ends without having sent a result, the result is `Unwound`.
/// Claimed: the call comes back, with `Unwound` or with what depends on the
/// bytes alone, errors and their words included. What the file format says is
/// left to the name, and which files are `Unwound` is left open: it rests on
/// how calamine was built. The machine has to have a thread for the worker and
/// the memory that calamine asks for.
#[verifier::external_body]
fn open_sheet(bytes: &[u8]) -> (res: Result<Range<Data>, XlsxFault>)
    ensures
        opened_view(res) == xlsx_content(bytes@) || res is Err && res->Err_0 is Unwound,
{
    let (file, (sender, receiver)) = (Cursor::new(bytes.to_vec()), channel());
    let sheet = |opened: Result<Xlsx<_>, XlsxError>| {
        let first = opened.map_err(|e| XlsxFault::Open(e.to_string()))?.worksheet_range_at(0);
        first.ok_or(XlsxFault::NoSheets)?.map_err(|e| XlsxFault::Sheet(e.to_string()))
    };
    let runtime = Builder::new_current_thread().build().map_err(|_| XlsxFault::Unwound)?;
    runtime.spawn_blocking(move || sender.send(sheet(open_workbook_from_rs(file))));
    let res = receiver.recv().unwrap_or(Err(XlsxFault::Unwound));
    runtime.shutdown_background();
    res
}

/// Walks a range with `calamine::Range::rows` and hands out each cell as a
/// text, a number, an integer, or what `DataType::as_string` makes of it.
/// Claimed: these are the cells that the range holds, row by row.
#[verifier::external_body]
fn sheet_cells(range: &Range<Data>) -> (res: Vec<Vec<Cell>>)
    ensures
        sheet_view(res@) == range_cells(*range),
{
    let cell = |data: &Data| match data {
        Data::String(s) => Cell::Text(s.clone()),
        Data::Float(x) => Cell::Number(x.to_string()),
        Data::Int(n) => Cell::Integer(*n),
        other => Cell::Other(other.as_string()),
    };
    range.rows().map(|row| row.iter().map(cell).collect()).collect()
}

/// Reads the first sheet of an XLSX file.
fn read_xlsx(bytes: &[u8]) -> (res: Result<Vec<Vec<Cell>>, XlsxFault>)
    ensures
        xlsx_view(res) == xlsx_content(bytes@) || xlsx_view(res) == Err::<
            Seq<Seq<CellView>>,
            XlsxFaultView,
        >(XlsxFaultView::Unwound),
{
    match open_sheet(bytes) {
        Ok(range) => Ok(sheet_cells(&range)),
        Err(fault) => Err(fault),
    }
}

/// An integer in decimal notation.
pub open spec fn integer_view(n: int) -> Seq<char> {
    if n < 0 {
        "-"@ + text::decimal((-n) as nat)
    } else {
        text::decimal(n as nat)
    }
}

fn integer_text(n: i64) -> (res: String)
    ensures
        res@ == integer_view(n as int),
{
    if n < 0 {
        let size: u64 = if n == i64::MIN {
            0x8000_0000_0000_0000
        } else {
            (-n) as u64
        };
        let digits = text::decimal_text(size);
        text::join2("-", digits.as_str())
    } else {
        text::decimal_text(n as u64)
    }
}

/// A cell as text: without white space around it, and a number without an
/// empty fraction.
pub open spec fn cell_text(cell: CellView) -> Seq<char> {
    match cell {
        CellView::Text(s) => text::trimmed(s),
        CellView::Number(s) => if ".0"@.is_suffix_of(s) {
            s.take(s.len() - ".0"@.len())
        } else {
            s
        },
        CellView::Integer(n) => integer_view(n),
        CellView::Other(Some(s)) => s,
        CellView::Other(None) => seq![],
    }
}

/// Writes a cell as text.
pub fn cell_to_string(cell: &Cell) -> (res: String)
    ensures
        res@ == cell_text(cell@),
{
    match cell {
        Cell::Text(s) => text::trim(s.as_str()),
        Cell::Number(s) => {
            if text::ends_with(s.as_str(), ".0") {
                let size = text::chars_of(s.as_str()).len();
                text::part(s.as_str(), 0, size - text::chars_of(".0").len())
            } else {
                text::copy(s.as_str())
            }
        },
        Cell::Integer(n) => integer_text(*n),
        Cell::Other(Some(s)) => text::copy(s.as_str()),
        Cell::Other(None) => String::new(),
    }
}

// ---------------------------------------------------------------------------
// Rows under column names
// ---------------------------------------------------------------------------

/// The first `n` values, each under its header.
pub open spec fn row_of(headers: Seq<Seq<char>>, values: Seq<Seq<char>>, n: int) -> Rows<Seq<char>> {
    table::rows_of(headers, values, n)
}

/// The number of columns that have both a header and a value.
pub open spec fn columns(headers: Seq<Seq<char>>, values: Seq<Seq<char>>) -> int {
    if headers.len() < values.len() {
        headers.len() as int
    } else {
        values.len() as int
    }
}

/// A row under its headers.
pub open spec fn headed(headers: Seq<Seq<char>>, values: Seq<Seq<char>>) -> Rows<Seq<char>> {
    row_of(headers, values, columns(headers, values))
}

proof fn lemma_record_with(rows: Rows<String>, name: Seq<char>, value: String)
    ensures
        table::with_row(rows, name, value).map_values(|r: (Seq<char>, String)| (r.0, r.1@))
            == table::with_row(
            rows.map_values(|r: (Seq<char>, String)| (r.0, r.1@)),
            name,
            value@,
        ),
    decreases rows.len(),
{
    let look = |r: (Seq<char>, String)| (r.0, r.1@);
    let viewed = rows.map_values(look);
    if rows.len() > 0 {
        lemma_record_with(rows.drop_first(), name, value);
        assert(viewed.drop_first() =~= rows.drop_first().map_values(look));
        assert(viewed[0].0 == rows[0].0);
    }
    assert(table::with_row(rows, name, value).map_values(look) =~= table::with_row(
        viewed,
        name,
        value@,
    ));
}

fn make_record(headers: &Vec<String>, values: &Vec<String>) -> (res: Record)
    ensures
        record_view(res) == headed(text::views(headers@), text::views(values@)),
{
    let ghost names = text::views(headers@);
    let ghost cells = text::views(values@);
    let mut record: Record = Table::new();
    let mut i: usize = 0;
    assert(record_view(record) =~= seq![]);
    while i < headers.len() && i < values.len()
        invariant
            i <= headers@.len(),
            i <= values@.len(),
            names == text::views(headers@),
            cells == text::views(values@),
            record_view(record) == row_of(names, cells, i as int),
        decreases headers.len() - i,
    {
        let value = text::copy(values[i].as_str());
        proof {
            lemma_record_with(record@, headers@[i as int]@, value);
        }
        record.set(headers[i].as_str(), value);
        i += 1;
    }
    record
}

/// A header as it is looked up.
pub open spec fn header_key(header: Seq<char>) -> Seq<char> {
    text::lowercase(text::trimmed(header))
}

/// What a table of texts comes to: its rows under their headers, which are
/// looked up in lower case and without the white space around them.
pub open spec fn csv_records(headers: Seq<Seq<char>>, rows: Seq<Seq<Seq<char>>>) -> Seq<
    Rows<Seq<char>>,
> {
    let keys = headers.map_values(|h: Seq<char>| header_key(h));
    rows.map_values(
        |row: Seq<Seq<char>>| headed(keys, row.map_values(|v: Seq<char>| text::trimmed(v))),
    )
}

/// Each row of a CSV file has every cell that has a header under that header,
/// in lower case and without the white space around it, and the cell is kept
/// without the white space around it.
pub proof fn lemma_csv_cells(headers: Seq<Seq<char>>, rows: Seq<Seq<Seq<char>>>, r: int, c: int)
    requires
        0 <= r < rows.len(),
        0 <= c < headers.len(),
        c < rows[r].len(),
        forall|a: int, b: int|
            0 <= a < b < headers.len() ==> text::lowercase(text::trimmed(#[trigger] headers[a]))
                != text::lowercase(text::trimmed(#[trigger] headers[b])),
    ensures
        csv_records(headers, rows).len() == rows.len(),
        table::value_of(
            csv_records(headers, rows)[r],
            text::lowercase(text::trimmed(headers[c])),
        ) == Some(text::trimmed(rows[r][c])),
{
    let keys = headers.map_values(|h: Seq<char>| header_key(h));
    let values = rows[r].map_values(|v: Seq<char>| text::trimmed(v));
    let n = columns(keys, values);
    assert forall|a: int, b: int| 0 <= a < b < n implies keys[a] != keys[b] by {
        assert(text::lowercase(text::trimmed(headers[a])) != text::lowercase(
            text::trimmed(headers[b]),
        ));
    }
    table::lemma_value_of_rows_of(keys, values, n, c);
    assert(keys[c] == text::lowercase(text::trimmed(headers[c])));
}

fn trim_all(values: &Vec<String>) -> (res: Vec<String>)
    ensures
        text::views(res@) == text::views(values@).map_values(|v: Seq<char>| text::trimmed(v)),
{
    let mut out: Vec<String> = Vec::new();
    let mut i: usize = 0;
    while i < values.len()
        invariant
            i <= values@.len(),
            out@.len() == i,
            forall|k: int| 0 <= k < i ==> (#[trigger] out@[k])@ == text::trimmed(values@[k]@),
        decreases values.len() - i,
    {
        out.push(text::trim(values[i].as_str()));
        i += 1;
    }
    assert(text::views(out@) =~= text::views(values@).map_values(
        |v: Seq<char>| text::trimmed(v),
    ));
    out
}

/// Puts the rows of a table of texts under their headers.
pub fn records_of_csv(content: &CsvTable) -> (res: Vec<Record>)
    ensures
        records_view(res@) == csv_records(text::views(content.headers@), rows_view(content.rows@)),
{
    let mut keys: Vec<String> = Vec::new();
    let mut i: usize = 0;
    while i < content.headers.len()
        invariant
            i <= content.headers@.len(),
            keys@.len() == i,
            forall|k: int|
                0 <= k < i ==> (#[trigger] keys@[k])@ == header_key(content.headers@[k]@),
        decreases content.headers.len() - i,
    {
        let trimmed = text::trim(content.headers[i].as_str());
        keys.push(text::lower(trimmed.as_str()));
        i += 1;
    }
    assert(text::views(keys@) =~= text::views(content.headers@).map_values(
        |h: Seq<char>| header_key(h),
    ));
    let mut out: Vec<Record> = Vec::new();
    let mut r: usize = 0;
    while r < content.rows.len()
        invariant
            r <= content.rows@.len(),
            out@.len() == r,
            text::views(keys@) == text::views(content.headers@).map_values(
                |h: Seq<char>| header_key(h),
            ),
            forall|k: int|
                0 <= k < r ==> record_view(#[trigger] out@[k]) == headed(
                    text::views(keys@),
                    text::views(content.rows@[k]@).map_values(|v: Seq<char>| text::trimmed(v)),
                ),
        decreases content.rows.len() - r,
    {
        let values = trim_all(&content.rows[r]);
        out.push(make_record(&keys, &values));
        r += 1;
    }
    assert(records_view(out@) =~= csv_records(
        text::views(content.headers@),
        rows_view(content.rows@),
    ));
    out
}

/// What a sheet comes to: its rows but the first, under the cells of the first.
pub open spec fn xlsx_records(rows: Seq<Seq<CellView>>) -> Seq<Rows<Seq<char>>> {
    if rows.len() == 0 {
        seq![]
    } else {
        let keys = rows[0].map_values(|c: CellView| text::lowercase(cell_text(c)));
        rows.drop_first().map_values(
            |row: Seq<CellView>| headed(keys, row.map_values(|c: CellView| cell_text(c))),
        )
    }
}

/// The first row of a sheet holds the headers. Each later row has every cell
/// that has a header under that header, in lower case.
pub proof fn lemma_xlsx_cells(rows: Seq<Seq<CellView>>, r: int, c: int)
    requires
        1 <= r < rows.len(),
        0 <= c < rows[0].len(),
        c < rows[r].len(),
        forall|a: int, b: int|
            0 <= a < b < rows[0].len() ==> text::lowercase(cell_text(#[trigger] rows[0][a]))
                != text::lowercase(cell_text(#[trigger] rows[0][b])),
    ensures
        xlsx_records(rows).len() == rows.len() - 1,
        table::value_of(xlsx_records(rows)[r - 1], text::lowercase(cell_text(rows[0][c]))) == Some(
            cell_text(rows[r][c]),
        ),
{
    let keys = rows[0].map_values(|c: CellView| text::lowercase(cell_text(c)));
    let values = rows[r].map_values(|c: CellView| cell_text(c));
    let n = columns(keys, values);
    assert(rows.drop_first()[r - 1] == rows[r]);
    assert forall|a: int, b: int| 0 <= a < b < n implies keys[a] != keys[b] by {
        assert(text::lowercase(cell_text(rows[0][a])) != text::lowercase(cell_text(rows[0][b])));
    }
    table::lemma_value_of_rows_of(keys, values, n, c);
    assert(keys[c] == text::lowercase(cell_text(rows[0][c])));
}

/// A number that is whole is written without its decimal point, and any other
/// as it stands; a whole number is written in digits, behind a minus sign where
/// it is negative; and a text without the white space around it.
pub proof fn lemma_cell_texts(s: Seq<char>, n: nat)
    ensures
        cell_text(CellView::Number(s + ".0"@)) == s,
        s.len() < 2 || s[s.len() - 2] != '.' || s[s.len() - 1] != '0' ==> cell_text(
            CellView::Number(s),
        ) == s,
        cell_text(CellView::Integer(n as int)) == text::decimal(n),
        n > 0 ==> cell_text(CellView::Integer(-n)) == seq!['-'] + text::decimal(n),
        cell_text(CellView::Text(s)) == text::trimmed(s),
        cell_text(CellView::Other(Some(s))) == s,
        cell_text(CellView::Other(None)).len() == 0,
{
    reveal_strlit(".0");
    reveal_strlit("-");
    let whole = s + ".0"@;
    assert(".0"@.len() == 2 && ".0"@[0] == '.' && ".0"@[1] == '0');
    assert(".0"@ =~= whole.subrange(whole.len() - 2, whole.len() as int));
    assert(".0"@.is_suffix_of(whole));
    assert(whole.take(whole.len() - 2) =~= s);
    if ".0"@.is_suffix_of(s) {
        let end = s.subrange(s.len() - 2, s.len() as int);
        assert(end == ".0"@);
        assert(end[0] == s[s.len() - 2] && end[1] == s[s.len() - 1]);
    }
    assert("-"@ =~= seq!['-']);
}

fn cell_texts(row: &Vec<Cell>) -> (res: Vec<String>)
    ensures
        text::views(res@) == cells_view(row@).map_values(|c: CellView| cell_text(c)),
{
    let mut out: Vec<String> = Vec::new();
    let mut i: usize = 0;
    while i < row.len()
        invariant
            i <= row@.len(),
            out@.len() == i,
            forall|k: int| 0 <= k < i ==> (#[trigger] out@[k])@ == cell_text(row@[k]@),
        decreases row.len() - i,
    {
        out.push(cell_to_string(&row[i]));
        i += 1;
    }
    assert(text::views(out@) =~= cells_view(row@).map_values(|c: CellView| cell_text(c)));
    out
}

/// Puts the rows of a sheet under the cells of its first row.
pub fn records_of_xlsx(rows: &Vec<Vec<Cell>>) -> (res: Vec<Record>)
    ensures
        records_view(res@) == xlsx_records(sheet_view(rows@)),
{
    let mut out: Vec<Record> = Vec::new();
    if rows.len() == 0 {
        assert(records_view(out@) =~= seq![]);
        return out;
    }
    let ghost sheet = sheet_view(rows@);
    let firsts = cell_texts(&rows[0]);
    let mut keys: Vec<String> = Vec::new();
    let mut i: usize = 0;
    while i < firsts.len()
        invariant
            i <= firsts@.len(),
            keys@.len() == i,
            forall|k: int|
                0 <= k < i ==> (#[trigger] keys@[k])@ == text::lowercase(firsts@[k]@),
        decreases firsts.len() - i,
    {
        keys.push(text::lower(firsts[i].as_str()));
        i += 1;
    }
    proof {
        assert(sheet[0] == cells_view(rows@[0]@));
        assert(text::views(firsts@).len() == sheet[0].len());
        assert forall|k: int| 0 <= k < keys@.len() implies (#[trigger] text::views(keys@)[k])
            == sheet[0].map_values(|c: CellView| text::lowercase(cell_text(c)))[k] by {
            assert(text::views(firsts@)[k] == firsts@[k]@);
            assert(text::views(firsts@)[k] == cell_text(sheet[0][k]));
            assert(text::views(keys@)[k] == keys@[k]@);
        }
        assert(text::views(keys@).len() == text::views(firsts@).len());
        assert(text::views(keys@) =~= sheet[0].map_values(
            |c: CellView| text::lowercase(cell_text(c)),
        ));
    }
    let mut r: usize = 1;
    while r < rows.len()
        invariant
            1 <= r <= rows@.len(),
            out@.len() == r - 1,
            forall|k: int|
                0 <= k < r - 1 ==> record_view(#[trigger] out@[k]) == headed(
                    text::views(keys@),
                    cells_view(rows@[k + 1]@).map_values(|c: CellView| cell_text(c)),
                ),
        decreases rows.len() - r,
    {
        let values = cell_texts(&rows[r]);
        out.push(make_record(&keys, &values));
        r += 1;
    }
    assert(records_view(out@) =~= xlsx_records(sheet));
    out
}

// ---------------------------------------------------------------------------
// The file
// ---------------------------------------------------------------------------

/// A wrong upload.
pub open spec fn wrong_upload(code: Seq<char>, words: Seq<char>) -> ApiErrorView {
    api::wrong_request(code, message::plain(words))
}

fn refuse(code: &'static str, words: &str) -> (res: ApiError)
    ensures
        res@ == wrong_upload(code@, words@),
{
    ApiError::bad_request(code, Message::of(words))
}

fn refuse_because(code: &'static str, words: &str, cause: &str) -> (res: ApiError)
    ensures
        res@ == wrong_upload(code@, words@ + cause@),
{
    let all = text::join2(words, cause);
    ApiError::bad_request(code, Message::of(all.as_str()))
}

/// The rows of a CSV file, or the report on it.
pub open spec fn csv_outcome(content: CsvView) -> Result<Seq<Rows<Seq<char>>>, ApiErrorView> {
    match content {
        Ok((headers, rows)) => Ok(csv_records(headers, rows)),
        Err((true, cause)) => Err(
            wrong_upload("invalid_upload"@, "failed to read CSV headers: "@ + cause),
        ),
        Err((false, cause)) => Err(
            wrong_upload("invalid_upload"@, "malformed CSV row: "@ + cause),
        ),
    }
}

/// Whether rows, or the report, are what is expected.
pub open spec fn rows_match(
    res: Result<Vec<Record>, ApiError>,
    expected: Result<Seq<Rows<Seq<char>>>, ApiErrorView>,
) -> bool {
    match expected {
        Ok(rows) => res is Ok && records_view(res->Ok_0@) == rows,
        Err(e) => res is Err && res->Err_0@ == e,
    }
}

/// What a CSV file that was read comes to.
pub fn csv_rows(read: Result<CsvTable, CsvFault>) -> (res: Result<Vec<Record>, ApiError>)
    ensures
        rows_match(res, csv_outcome(csv_view(read))),
{
    match read {
        Ok(content) => Ok(records_of_csv(&content)),
        Err(CsvFault::Headers(cause)) => Err(
            refuse_because("invalid_upload", "failed to read CSV headers: ", cause.as_str()),
        ),
        Err(CsvFault::Row(cause)) => Err(
            refuse_because("invalid_upload", "malformed CSV row: ", cause.as_str()),
        ),
    }
}

/// Reads a CSV file.
pub fn parse_csv(bytes: &[u8]) -> (res: Result<Vec<Record>, ApiError>)
    ensures
        rows_match(res, csv_outcome(csv_content(bytes@))),
{
    csv_rows(read_csv(bytes))
}

/// What is said of an XLSX file whose reading broke off.
pub const BROKEN_WORKBOOK: &'static str = "failed to read XLSX file: the workbook is malformed";

/// The rows of an XLSX file, or the report on it.
pub open spec fn xlsx_outcome(content: XlsxView) -> Result<Seq<Rows<Seq<char>>>, ApiErrorView> {
    match content {
        Ok(rows) => Ok(xlsx_records(rows)),
        Err(XlsxFaultView::Open(cause)) => Err(
            wrong_upload("invalid_upload"@, "failed to open XLSX file: "@ + cause),
        ),
        Err(XlsxFaultView::NoSheets) => Err(
            wrong_upload("invalid_upload"@, "XLSX file has no sheets"@),
        ),
        Err(XlsxFaultView::Sheet(cause)) => Err(
            wrong_upload("invalid_upload"@, "failed to read XLSX sheet: "@ + cause),
        ),
        Err(XlsxFaultView::Unwound) => Err(wrong_upload("invalid_upload"@, BROKEN_WORKBOOK@)),
    }
}

/// What an XLSX file that was read comes to.
pub fn xlsx_rows(read: Result<Vec<Vec<Cell>>, XlsxFault>) -> (res: Result<Vec<Record>, ApiError>)
    ensures
        rows_match(res, xlsx_outcome(xlsx_view(read))),
{
    match read {
        Ok(rows) => Ok(records_of_xlsx(&rows)),
        Err(XlsxFault::Open(cause)) => Err(
            refuse_because("invalid_upload", "failed to open XLSX file: ", cause.as_str()),
        ),
        Err(XlsxFault::NoSheets) => Err(refuse("invalid_upload", "XLSX file has no sheets")),
        Err(XlsxFault::Sheet(cause)) => Err(
            refuse_because("invalid_upload", "failed to read XLSX sheet: ", cause.as_str()),
        ),
        Err(XlsxFault::Unwound) => Err(refuse("invalid_upload", BROKEN_WORKBOOK)),
    }
}

/// Reads an XLSX file. One that cannot be read to the end is refused as
/// malformed.
pub fn parse_xlsx(bytes: &[u8]) -> (res: Result<Vec<Record>, ApiError>)
    ensures
        rows_match(res, xlsx_outcome(xlsx_content(bytes@))) || rows_match(
            res,
            xlsx_outcome(Err(XlsxFaultView::Unwound)),
        ),
{
    xlsx_rows(read_xlsx(bytes))
}

/// The kind of an uploaded file.
#[derive(Clone, Copy, Debug, PartialEq, Eq, Structural)]
pub enum FileKind {
    Csv,
    Xlsx,
}

/// The kind of a file with the given name, in lower case.
pub open spec fn kind_named(lower: Seq<char>) -> Option<FileKind> {
    if ".csv"@.is_suffix_of(lower) {
        Some(FileKind::Csv)
    } else if ".xlsx"@.is_suffix_of(lower) {
        Some(FileKind::Xlsx)
    } else {
        None
    }
}

/// A file is a table of texts where its name ends in `.csv`, and a workbook
/// where it ends in `.xlsx`; by any other name it is neither.
pub proof fn lemma_kinds(stem: Seq<char>, lower: Seq<char>)
    ensures
        kind_named(stem + ".csv"@) == Some(FileKind::Csv),
        kind_named(stem + ".xlsx"@) == Some(FileKind::Xlsx),
        lower.len() < 4 || lower[lower.len() - 1] != 'v' && lower[lower.len() - 1] != 'x'
            ==> kind_named(lower) is None,
{
    reveal_strlit(".csv");
    reveal_strlit(".xlsx");
    let (a, b) = (stem + ".csv"@, stem + ".xlsx"@);
    assert(".csv"@.len() == 4 && ".xlsx"@.len() == 5);
    assert(".csv"@[3] == 'v' && ".xlsx"@[4] == 'x');
    assert(a.subrange(a.len() - 4, a.len() as int) =~= ".csv"@);
    assert(b.subrange(b.len() - 5, b.len() as int) =~= ".xlsx"@);
    if ".csv"@.is_suffix_of(b) {
        let end = b.subrange(b.len() - 4, b.len() as int);
        assert(end[3] == b[b.len() - 1]);
        assert(b[b.len() - 1] == 'x');
    }
    if ".csv"@.is_suffix_of(lower) {
        let end = lower.subrange(lower.len() - 4, lower.len() as int);
        assert(end[3] == lower[lower.len() - 1]);
    }
    if ".xlsx"@.is_suffix_of(lower) {
        let end = lower.subrange(lower.len() - 5, lower.len() as int);
        assert(end[4] == lower[lower.len() - 1]);
    }
}

/// What is wrong with a file of any other kind.
pub open spec fn unsupported(filename: Seq<char>) -> Seq<char> {
    "unsupported file type for \""@ + filename + "\"; expected .csv or .xlsx"@
}

/// The kind of a file, by its name.
pub fn file_kind(filename: &str) -> (res: Result<FileKind, ApiError>)
    ensures
        match kind_named(text::lowercase(filename@)) {
            Some(kind) => res == Ok::<FileKind, ApiError>(kind),
            None => res is Err && res->Err_0@ == wrong_upload(
                "unsupported_file_type"@,
                unsupported(filename@),
            ),
        },
{
    let lower = text::lower(filename);
    if text::ends_with(lower.as_str(), ".csv") {
        Ok(FileKind::Csv)
    } else if text::ends_with(lower.as_str(), ".xlsx") {
        Ok(FileKind::Xlsx)
    } else {
        let words = text::join3(
            "unsupported file type for \"",
            filename,
            "\"; expected .csv or .xlsx",
        );
        Err(refuse("unsupported_file_type", words.as_str()))
    }
}

// ---------------------------------------------------------------------------
// Layouts
// ---------------------------------------------------------------------------

proof fn lemma_record_value(rows: Rows<String>, name: Seq<char>)
    ensures
        table::value_of(rows.map_values(|r: (Seq<char>, String)| (r.0, r.1@)), name) == (
        match table::value_of(rows, name) {
            Some(s) => Some(s@),
            None => None,
        }),
    decreases rows.len(),
{
    let look = |r: (Seq<char>, String)| (r.0, r.1@);
    let viewed = rows.map_values(look);
    if rows.len() > 0 {
        lemma_record_value(rows.drop_first(), name);
        assert(viewed.drop_first() =~= rows.drop_first().map_values(look));
        assert(viewed[0] == (rows[0].0, rows[0].1@));
    }
}

/// The value under a column name.
pub fn field<'a>(record: &'a Record, name: &str) -> (res: Option<&'a str>)
    ensures
        match res {
            Some(s) => table::value_of(record_view(*record), name@) == Some(s@),
            None => table::value_of(record_view(*record), name@) is None,
        },
{
    proof {
        lemma_record_value(record@, name@);
    }
    match record.find(name) {
        Some(i) => Some(record.entries[i].value.as_str()),
        None => None,
    }
}

/// Whether a row has a column.
pub open spec fn has_column(row: Rows<Seq<char>>, name: Seq<char>) -> bool {
    table::value_of(row, name) is Some
}

/// The layout of a row.
pub open spec fn layout_of(row: Rows<Seq<char>>) -> Option<Layout> {
    if has_column(row, "ticker"@) && has_column(row, "weight"@) {
        Some(Layout::Weight)
    } else if has_column(row, "ticker"@) && has_column(row, "shares"@) && has_column(
        row,
        "avg_price_inr"@,
    ) {
        Some(Layout::Value)
    } else {
        None
    }
}

/// A table is read by weights where it has tickers and weights, by shares where
/// it has tickers, shares and prices and no weights, and not at all otherwise.
pub proof fn lemma_layouts(row: Rows<Seq<char>>)
    ensures
        layout_of(row) == Some(Layout::Weight) <==> table::value_of(row, "ticker"@) is Some
            && table::value_of(row, "weight"@) is Some,
        layout_of(row) == Some(Layout::Value) <==> table::value_of(row, "ticker"@) is Some
            && table::value_of(row, "weight"@) is None && table::value_of(row, "shares"@) is Some
            && table::value_of(row, "avg_price_inr"@) is Some,
        table::value_of(row, "ticker"@) is None ==> layout_of(row) is None,
{
}

/// What is wrong with a row of neither layout.
pub const MISSING_COLUMNS: &'static str =
    "expected either [ticker, weight] or [ticker, shares, avg_price_inr] columns";

/// Finds out the layout of a table by its first row.
pub fn detect_layout(first: &Record) -> (res: Result<Layout, ApiError>)
    ensures
        match layout_of(record_view(*first)) {
            Some(layout) => res == Ok::<Layout, ApiError>(layout),
            None => res is Err && res->Err_0@ == wrong_upload(
                "missing_columns"@,
                MISSING_COLUMNS@,
            ),
        },
{
    let has_ticker = field(first, "ticker").is_some();
    if has_ticker && field(first, "weight").is_some() {
        Ok(Layout::Weight)
    } else if has_ticker && field(first, "shares").is_some() && field(
        first,
        "avg_price_inr",
    ).is_some() {
        Ok(Layout::Value)
    } else {
        Err(refuse("missing_columns", MISSING_COLUMNS))
    }
}

/// What rows come to: their layout, or the report on them.
pub open spec fn rows_outcome(rows: Result<Seq<Rows<Seq<char>>>, ApiErrorView>) -> Result<
    (Layout, Seq<Rows<Seq<char>>>),
    ApiErrorView,
> {
    match rows {
        Err(e) => Err(e),
        Ok(all) => if all.len() == 0 {
            Err(wrong_upload("empty_file"@, "file contains no data rows"@))
        } else {
            match layout_of(all[0]) {
                Some(layout) => Ok((layout, all)),
                None => Err(wrong_upload("missing_columns"@, MISSING_COLUMNS@)),
            }
        },
    }
}

/// Whether an upload, or the report on it, is what is expected.
pub open spec fn upload_matches(
    res: Result<(Layout, Vec<Record>), ApiError>,
    expected: Result<(Layout, Seq<Rows<Seq<char>>>), ApiErrorView>,
) -> bool {
    match expected {
        Ok((layout, rows)) => {
            &&& res is Ok
            &&& res->Ok_0.0 == layout
            &&& records_view(res->Ok_0.1@) == rows
        },
        Err(e) => res is Err && res->Err_0@ == e,
    }
}

/// Decides on the rows of an upload.
pub fn accept_rows(read: Result<Vec<Record>, ApiError>) -> (res: Result<
    (Layout, Vec<Record>),
    ApiError,
>)
    ensures
        upload_matches(
            res,
            rows_outcome(
                match read {
                    Ok(records) => Ok(records_view(records@)),
                    Err(e) => Err(e@),
                },
            ),
        ),
{
    match read {
        Err(e) => Err(e),
        Ok(records) => {
            if records.len() == 0 {
                return Err(refuse("empty_file", "file contains no data rows"));
            }
            assert(records_view(records@)[0] == record_view(records@[0]));
            match detect_layout(&records[0]) {
                Ok(layout) => Ok((layout, records)),
                Err(e) => Err(e),
            }
        },
    }
}

/// What an upload comes to.
pub open spec fn upload_outcome(filename: Option<Seq<char>>, bytes: Option<Seq<u8>>) -> Result<
    (Layout, Seq<Rows<Seq<char>>>),
    ApiErrorView,
> {
    match (filename, bytes) {
        (Some(name), Some(content)) => if content.len() == 0 {
            Err(wrong_upload("empty_file"@, "uploaded file is empty"@))
        } else {
            match kind_named(text::lowercase(name)) {
                Some(FileKind::Csv) => rows_outcome(csv_outcome(csv_content(content))),
                Some(FileKind::Xlsx) => rows_outcome(xlsx_outcome(xlsx_content(content))),
                None => Err(wrong_upload("unsupported_file_type"@, unsupported(name))),
            }
        },
        _ => Err(wrong_upload("invalid_upload"@, "missing a \"file\" form field"@)),
    }
}

/// What becomes of an upload: without a file, or with an empty one, it is
/// refused; a file of another kind is refused for that; a file of either kind
/// is read as what it is; and a file without rows, or with a first row of
/// neither layout, is refused.
pub proof fn lemma_uploads(name: Seq<char>, content: Seq<u8>, all: Seq<Rows<Seq<char>>>)
    ensures
        upload_outcome(None, Some(content)) is Err && upload_outcome(Some(name), None) is Err,
        upload_outcome(Some(name), Some(seq![])) is Err && upload_outcome(
            Some(name),
            Some(seq![]),
        )->Err_0.code == "empty_file"@,
        content.len() > 0 && kind_named(text::lowercase(name)) is None ==> upload_outcome(
            Some(name),
            Some(content),
        ) is Err && upload_outcome(Some(name), Some(content))->Err_0.code
            == "unsupported_file_type"@,
        content.len() > 0 && kind_named(text::lowercase(name)) == Some(FileKind::Csv)
            ==> upload_outcome(Some(name), Some(content)) == rows_outcome(
            csv_outcome(csv_content(content)),
        ),
        content.len() > 0 && kind_named(text::lowercase(name)) == Some(FileKind::Xlsx)
            ==> upload_outcome(Some(name), Some(content)) == rows_outcome(
            xlsx_outcome(xlsx_content(content)),
        ),
        all.len() == 0 ==> rows_outcome(Ok(all)) is Err && rows_outcome(Ok(all))->Err_0.code
            == "empty_file"@,
        all.len() > 0 && layout_of(all[0]) is None ==> rows_outcome(Ok(all)) is Err
            && rows_outcome(Ok(all))->Err_0.code == "missing_columns"@,
        all.len() > 0 && layout_of(all[0]) is Some ==> rows_outcome(Ok(all)) == Ok::<
            (Layout, Seq<Rows<Seq<char>>>),
            ApiErrorView,
        >((layout_of(all[0])->Some_0, all)),
{
}

/// Whether an upload is a workbook: it has a name that ends as one, and bytes.
pub open spec fn is_workbook(filename: Option<Seq<char>>, bytes: Option<Seq<u8>>) -> bool {
    match (filename, bytes) {
        (Some(name), Some(content)) => content.len() > 0 && kind_named(text::lowercase(name))
            == Some(FileKind::Xlsx),
        _ => false,
    }
}

/// The bytes that were uploaded.
pub open spec fn content_of(bytes: Option<Vec<u8>>) -> Option<Seq<u8>> {
    match bytes {
        Some(b) => Some(b@),
        None => None,
    }
}

/// The name that was uploaded.
pub open spec fn name_of(filename: Option<String>) -> Option<Seq<char>> {
    match filename {
        Some(s) => Some(s@),
        None => None,
    }
}

/// Takes an uploaded file apart into rows and finds out their layout. A
/// workbook that cannot be read to the end is refused as malformed.
pub fn read_upload(filename: Option<String>, bytes: Option<Vec<u8>>) -> (res: Result<
    (Layout, Vec<Record>),
    ApiError,
>)
    ensures
        upload_matches(res, upload_outcome(name_of(filename), content_of(bytes))) || {
            &&& is_workbook(name_of(filename), content_of(bytes))
            &&& res is Err
            &&& res->Err_0@ == wrong_upload("invalid_upload"@, BROKEN_WORKBOOK@)
        },
{
    let (name, content) = match (filename, bytes) {
        (Some(name), Some(content)) => (name, content),
        _ => {
            return Err(refuse("invalid_upload", "missing a \"file\" form field"));
        },
    };
    if content.len() == 0 {
        return Err(refuse("empty_file", "uploaded file is empty"));
    }
    match file_kind(name.as_str()) {
        Ok(FileKind::Csv) => accept_rows(parse_csv(content.as_slice())),
        Ok(FileKind::Xlsx) => accept_rows(parse_xlsx(content.as_slice())),
        Err(e) => Err(e),
    }
}

// ---------------------------------------------------------------------------
// Tickers and numbers
// ---------------------------------------------------------------------------

/// Whether a ticker looks like a symbol of the National Stock Exchange without
/// its suffix: capitals and digits only.
pub open spec fn is_bare(ticker: Seq<char>) -> bool {
    &&& ticker.len() > 0
    &&& forall|i: int|
        0 <= i < ticker.len() ==> ('A' <= (#[trigger] ticker[i]) && ticker[i] <= 'Z') || (
        '0' <= ticker[i] && ticker[i] <= '9')
}

/// A ticker without white space around it, and with its suffix.
pub open spec fn normalised(raw: Seq<char>) -> Seq<char> {
    let ticker = text::trimmed(raw);
    if is_bare(ticker) {
        ticker + ".NS"@
    } else {
        ticker
    }
}

/// The note on a ticker that was given its suffix.
pub open spec fn normalisation_note(raw: Seq<char>) -> Option<Seq<char>> {
    let ticker = text::trimmed(raw);
    if is_bare(ticker) {
        Some(ticker + " -> "@ + normalised(raw))
    } else {
        None
    }
}

/// A ticker of capitals and digits alone gets the suffix of the exchange, and a
/// note that says so; one with any other character, or with none at all, stays
/// as it is without a note.
pub proof fn lemma_suffixes(raw: Seq<char>)
    ensures
        ({
            let ticker = text::trimmed(raw);
            let symbol = ticker.len() > 0 && forall|i: int|
                0 <= i < ticker.len() ==> ('A' <= (#[trigger] ticker[i]) && ticker[i] <= 'Z') || (
                '0' <= ticker[i] && ticker[i] <= '9');
            &&& symbol ==> normalised(raw) == ticker + seq!['.', 'N', 'S'] && normalisation_note(
                raw,
            ) == Some(ticker + " -> "@ + ticker + seq!['.', 'N', 'S'])
            &&& !symbol ==> normalised(raw) == ticker && normalisation_note(raw) is None
        }),
{
    reveal_strlit(".NS");
    let ticker = text::trimmed(raw);
    assert(".NS"@ =~= seq!['.', 'N', 'S']);
    if is_bare(ticker) {
        assert(ticker + " -> "@ + normalised(raw) =~= ticker + " -> "@ + ticker + seq![
            '.',
            'N',
            'S',
        ]);
    }
}

fn bare(ticker: &str) -> (res: bool)
    ensures
        res == is_bare(ticker@),
{
    let chars = text::chars_of(ticker);
    if chars.len() == 0 {
        return false;
    }
    let mut i: usize = 0;
    while i < chars.len()
        invariant
            i <= chars@.len(),
            chars@ == ticker@,
            forall|k: int|
                0 <= k < i ==> ('A' <= (#[trigger] chars@[k]) && chars@[k] <= 'Z') || ('0'
                    <= chars@[k] && chars@[k] <= '9'),
        decreases chars.len() - i,
    {
        let c = chars[i];
        if !(('A' <= c && c <= 'Z') || ('0' <= c && c <= '9')) {
            assert(ticker@[i as int] == c);
            return false;
        }
        i += 1;
    }
    true
}

/// Gives a bare symbol its suffix, and says so.
pub fn normalise_ticker(raw: &str) -> (res: (String, Option<String>))
    ensures
        res.0@ == normalised(raw@),
        match res.1 {
            Some(note) => normalisation_note(raw@) == Some(note@),
            None => normalisation_note(raw@) is None,
        },
{
    let ticker = text::trim(raw);
    if bare(ticker.as_str()) {
        let full = text::join2(ticker.as_str(), ".NS");
        let note = text::join3(ticker.as_str(), " -> ", full.as_str());
        (full, Some(note))
    } else {
        (ticker, None)
    }
}

/// Normalising a ticker twice does no more than normalising it once.
pub proof fn lemma_normalising_twice(raw: Seq<char>)
    ensures
        normalised(normalised(raw)) == normalised(raw),
        normalisation_note(normalised(raw)) is None,
{
    reveal_strlit(".NS");
    let once = normalised(raw);
    text::lemma_trimmed_ends(raw);
    assert(text::trimmed(once) == once);
    if is_bare(text::trimmed(raw)) {
        assert(once[once.len() - 3] == '.');
        assert(!is_bare(once));
    }
}

/// A column of numbers, with the value of each of its cells that is one.
#[derive(Debug)]
pub struct NumberColumn {
    pub name: &'static str,
    pub values: Vec<Option<Double>>,
}

/// The cells of a column as they are to be parsed, `None` where a row has
/// none.
pub fn number_texts(records: &Vec<Record>, name: &str) -> (res: Vec<Option<String>>)
    ensures
        res@.len() == records@.len(),
        forall|i: int|
            0 <= i < records@.len() ==> match (#[trigger] res@[i]) {
                Some(s) => table::value_of(record_view(records@[i]), name@) is Some && s@
                    == text::trimmed(
                    table::value_of(record_view(records@[i]), name@)->Some_0,
                ),
                None => table::value_of(record_view(records@[i]), name@) is None,
            },
{
    let mut out: Vec<Option<String>> = Vec::new();
    let mut i: usize = 0;
    while i < records.len()
        invariant
            i <= records@.len(),
            out@.len() == i,
            forall|k: int|
                0 <= k < i ==> match (#[trigger] out@[k]) {
                    Some(s) => table::value_of(record_view(records@[k]), name@) is Some && s@
                        == text::trimmed(
                        table::value_of(record_view(records@[k]), name@)->Some_0,
                    ),
                    None => table::value_of(record_view(records@[k]), name@) is None,
                },
        decreases records.len() - i,
    {
        match field(&records[i], name) {
            Some(raw) => out.push(Some(text::trim(raw))),
            None => out.push(None),
        }
        i += 1;
    }
    out
}

/// What is wrong with a row that lacks a column.
pub open spec fn lacks_column(row: nat, name: Seq<char>) -> Seq<char> {
    "row "@ + text::decimal(row) + ": missing \""@ + name + "\""@
}

/// What is wrong with a cell that is no number.
pub open spec fn not_a_number(row: nat, name: Seq<char>, raw: Seq<char>) -> Seq<char> {
    "row "@ + text::decimal(row) + ": \""@ + name + "\" is not a number: "@ + text::quoted(raw)
}

fn lacks(row: usize, name: &str) -> (res: ApiError)
    ensures
        res@ == wrong_upload("missing_columns"@, lacks_column(row as nat, name@)),
{
    let number = text::decimal_text(row as u64);
    let head = text::join3("row ", number.as_str(), ": missing \"");
    let words = text::join3(head.as_str(), name, "\"");
    refuse("missing_columns", words.as_str())
}

fn no_number(row: usize, name: &str, raw: &str) -> (res: ApiError)
    ensures
        res@ == wrong_upload("invalid_upload"@, not_a_number(row as nat, name@, raw@)),
{
    let number = text::decimal_text(row as u64);
    let shown = text::quote(raw);
    let head = text::join3("row ", number.as_str(), ": \"");
    let middle = text::join3(head.as_str(), name, "\" is not a number: ");
    let words = text::join2(middle.as_str(), shown.as_str());
    refuse("invalid_upload", words.as_str())
}

/// What is wrong with the numbers of a row, the first thing found from column
/// `c` on.
pub open spec fn numbers_fault(
    row: Rows<Seq<char>>,
    columns: Seq<NumberColumn>,
    i: int,
    c: nat,
) -> Option<ApiErrorView>
    decreases columns.len() - c,
{
    if c >= columns.len() {
        None
    } else {
        let name = columns[c as int].name@;
        match table::value_of(row, name) {
            None => Some(wrong_upload("missing_columns"@, lacks_column(i as nat, name))),
            Some(raw) => match columns[c as int].values@[i] {
                None => Some(wrong_upload("invalid_upload"@, not_a_number(i as nat, name, raw))),
                Some(_) => numbers_fault(row, columns, i, c + 1),
            },
        }
    }
}

/// What is wrong with a row: its ticker is looked at first.
pub open spec fn row_fault(row: Rows<Seq<char>>, columns: Seq<NumberColumn>, i: int) -> Option<
    ApiErrorView,
> {
    if !has_column(row, "ticker"@) {
        Some(wrong_upload("missing_columns"@, lacks_column(i as nat, "ticker"@)))
    } else {
        numbers_fault(row, columns, i, 0)
    }
}

/// What is wrong with the first `n` rows, the first thing found.
pub open spec fn rows_fault(
    rows: Seq<Rows<Seq<char>>>,
    columns: Seq<NumberColumn>,
    n: int,
) -> Option<ApiErrorView>
    decreases n,
{
    if n <= 0 {
        None
    } else {
        match rows_fault(rows, columns, n - 1) {
            Some(e) => Some(e),
            None => row_fault(rows[n - 1], columns, n - 1),
        }
    }
}

proof fn lemma_fault_stays(
    rows: Seq<Rows<Seq<char>>>,
    columns: Seq<NumberColumn>,
    n: int,
    all: int,
)
    requires
        n <= all,
        rows_fault(rows, columns, n) is Some,
    ensures
        rows_fault(rows, columns, all) == rows_fault(rows, columns, n),
    decreases all - n,
{
    if n < all {
        lemma_fault_stays(rows, columns, n, all - 1);
    }
}

proof fn lemma_numbers_are_there(
    row: Rows<Seq<char>>,
    columns: Seq<NumberColumn>,
    i: int,
    c: nat,
    k: int,
)
    requires
        numbers_fault(row, columns, i, c) is None,
        c <= k < columns.len(),
    ensures
        columns[k].values@[i] is Some,
    decreases columns.len() - c,
{
    if c < k {
        lemma_numbers_are_there(row, columns, i, c + 1, k);
    }
}

proof fn lemma_rows_are_fine(
    rows: Seq<Rows<Seq<char>>>,
    columns: Seq<NumberColumn>,
    n: int,
    i: int,
)
    requires
        rows_fault(rows, columns, n) is None,
        0 <= i < n,
    ensures
        row_fault(rows[i], columns, i) is None,
    decreases n,
{
    if i < n - 1 {
        lemma_rows_are_fine(rows, columns, n - 1, i);
    }
}

/// Whether every column has a cell for every row.
pub open spec fn columns_fit(columns: Seq<NumberColumn>, rows: nat) -> bool {
    forall|c: int| 0 <= c < columns.len() ==> (#[trigger] columns[c]).values@.len() == rows
}

fn check_numbers(record: &Record, columns: &Vec<NumberColumn>, i: usize) -> (res: Option<ApiError>)
    requires
        forall|c: int| 0 <= c < columns@.len() ==> i < (#[trigger] columns@[c]).values@.len(),
    ensures
        match numbers_fault(record_view(*record), columns@, i as int, 0) {
            Some(e) => res is Some && res->Some_0@ == e,
            None => res is None,
        },
{
    let ghost row = record_view(*record);
    let mut c: usize = 0;
    while c < columns.len()
        invariant
            c <= columns@.len(),
            row == record_view(*record),
            forall|k: int| 0 <= k < columns@.len() ==> i < (#[trigger] columns@[k]).values@.len(),
            numbers_fault(row, columns@, i as int, 0) == numbers_fault(
                row,
                columns@,
                i as int,
                c as nat,
            ),
        decreases columns.len() - c,
    {
        let column = &columns[c];
        assert(i < columns@[c as int].values@.len());
        match field(record, column.name) {
            None => {
                return Some(lacks(i, column.name));
            },
            Some(raw) => {
                if column.values[i].is_none() {
                    return Some(no_number(i, column.name, raw));
                }
            },
        }
        c += 1;
    }
    None
}

/// The tickers of the first `n` rows.
pub open spec fn tickers_of(rows: Seq<Rows<Seq<char>>>, n: int) -> Seq<Seq<char>>
    decreases n,
{
    if n <= 0 {
        seq![]
    } else {
        tickers_of(rows, n - 1).push(
            normalised(table::value_of(rows[n - 1], "ticker"@)->Some_0),
        )
    }
}

/// The notes on the tickers of the first `n` rows.
pub open spec fn notes_of(rows: Seq<Rows<Seq<char>>>, n: int) -> Seq<Seq<char>>
    decreases n,
{
    if n <= 0 {
        seq![]
    } else {
        match normalisation_note(table::value_of(rows[n - 1], "ticker"@)->Some_0) {
            Some(note) => notes_of(rows, n - 1).push(note),
            None => notes_of(rows, n - 1),
        }
    }
}

fn read_tickers(records: &Vec<Record>, columns: &Vec<NumberColumn>) -> (res: Result<
    (Vec<String>, Vec<String>),
    ApiError,
>)
    requires
        columns_fit(columns@, records@.len()),
    ensures
        match rows_fault(records_view(records@), columns@, records@.len() as int) {
            Some(e) => res is Err && res->Err_0@ == e,
            None => {
                &&& res is Ok
                &&& text::views(res->Ok_0.0@) == tickers_of(
                    records_view(records@),
                    records@.len() as int,
                )
                &&& res->Ok_0.0@.len() == records@.len()
                &&& text::views(res->Ok_0.1@) == notes_of(
                    records_view(records@),
                    records@.len() as int,
                )
            },
        },
{
    let ghost rows = records_view(records@);
    let mut tickers: Vec<String> = Vec::new();
    let mut notes: Vec<String> = Vec::new();
    let mut i: usize = 0;
    assert(text::views(tickers@) =~= seq![]);
    assert(text::views(notes@) =~= seq![]);
    while i < records.len()
        invariant
            i <= records@.len(),
            rows == records_view(records@),
            columns_fit(columns@, records@.len()),
            rows_fault(rows, columns@, i as int) is None,
            tickers@.len() == i,
            text::views(tickers@) == tickers_of(rows, i as int),
            text::views(notes@) == notes_of(rows, i as int),
        decreases records.len() - i,
    {
        let ghost tickers_before = tickers@;
        let ghost notes_before = notes@;
        let record = &records[i];
        assert(rows[i as int] == record_view(records@[i as int]));
        let raw = match field(record, "ticker") {
            Some(raw) => raw,
            None => {
                proof {
                    lemma_fault_stays(rows, columns@, i + 1, rows.len() as int);
                }
                return Err(lacks(i, "ticker"));
            },
        };
        let (ticker, note) = normalise_ticker(raw);
        if let Some(words) = note {
            notes.push(words);
            assert(text::views(notes@) =~= text::views(notes_before).push(words@));
        }
        if let Some(e) = check_numbers(record, columns, i) {
            proof {
                lemma_fault_stays(rows, columns@, i + 1, rows.len() as int);
            }
            return Err(e);
        }
        tickers.push(ticker);
        assert(text::views(tickers@) =~= text::views(tickers_before).push(ticker@));
        i += 1;
    }
    Ok((tickers, notes))
}

/// A portfolio as it comes out of a file, before it is validated.
#[derive(Debug)]
pub struct UploadedPortfolio {
    pub portfolio: Portfolio,
    /// The tickers that were given a suffix.
    pub tickers_normalised: Vec<String>,
}

/// Whether a portfolio holds the tickers of rows with the given weights.
pub open spec fn is_uploaded(
    res: UploadedPortfolio,
    rows: Seq<Rows<Seq<char>>>,
    weights: Seq<Double>,
    total: Double,
) -> bool {
    let n = rows.len() as int;
    &&& res.portfolio.tickers_view() == tickers_of(rows, n)
    &&& res.portfolio.weights_view() == weights
    &&& res.portfolio.total_value_inr == total
    &&& text::views(res.tickers_normalised@) == notes_of(rows, n)
}

proof fn lemma_tickers_of(rows: Seq<Rows<Seq<char>>>, n: int)
    requires
        0 <= n <= rows.len(),
    ensures
        tickers_of(rows, n).len() == n,
        forall|i: int|
            0 <= i < n ==> #[trigger] tickers_of(rows, n)[i] == normalised(
                table::value_of(rows[i], "ticker"@)->Some_0,
            ),
    decreases n,
{
    if n > 0 {
        lemma_tickers_of(rows, n - 1);
    }
}

/// An uploaded portfolio has one holding for each row, in the order of the
/// rows, with the row's own ticker and weight.
pub proof fn lemma_uploaded_holdings(
    res: UploadedPortfolio,
    rows: Seq<Rows<Seq<char>>>,
    weights: Seq<Double>,
    total: Double,
)
    requires
        is_uploaded(res, rows, weights, total),
    ensures
        res.portfolio.holdings@.len() == rows.len(),
        res.portfolio.holdings@.len() == weights.len(),
        res.portfolio.total_value_inr == total,
        forall|i: int|
            0 <= i < rows.len() ==> (#[trigger] res.portfolio.holdings@[i]).ticker@ == normalised(
                table::value_of(rows[i], "ticker"@)->Some_0,
            ) && res.portfolio.holdings@[i].weight == weights[i],
{
    lemma_tickers_of(rows, rows.len() as int);
    assert(res.portfolio.tickers_view().len() == rows.len());
    assert(res.portfolio.weights_view().len() == weights.len());
    assert forall|i: int| 0 <= i < rows.len() implies (
    #[trigger] res.portfolio.holdings@[i]).ticker@ == normalised(
        table::value_of(rows[i], "ticker"@)->Some_0,
    ) && res.portfolio.holdings@[i].weight == weights[i] by {
        assert(res.portfolio.tickers_view()[i] == tickers_of(rows, rows.len() as int)[i]);
        assert(res.portfolio.weights_view()[i] == weights[i]);
    }
}

/// A table without a fault has, in every row, a ticker and a number in every
/// column of numbers; and one that has these is without a fault.
pub proof fn lemma_rows_without_fault(
    rows: Seq<Rows<Seq<char>>>,
    columns: Seq<NumberColumn>,
    n: int,
)
    requires
        0 <= n <= rows.len(),
    ensures
        rows_fault(rows, columns, n) is None <==> forall|i: int|
            #![trigger rows[i]]
            0 <= i < n ==> table::value_of(rows[i], "ticker"@) is Some && forall|c: int|
                0 <= c < columns.len() ==> table::value_of(
                    rows[i],
                    (#[trigger] columns[c]).name@,
                ) is Some && columns[c].values@[i] is Some,
    decreases n,
{
    if n > 0 {
        lemma_rows_without_fault(rows, columns, n - 1);
        lemma_numbers_without_fault(rows[n - 1], columns, n - 1, 0);
        assert(rows[n - 1] == rows[n - 1]);
    }
}

proof fn lemma_numbers_without_fault(
    row: Rows<Seq<char>>,
    columns: Seq<NumberColumn>,
    i: int,
    c: nat,
)
    ensures
        numbers_fault(row, columns, i, c) is None <==> forall|d: int|
            c <= d < columns.len() ==> table::value_of(row, (#[trigger] columns[d]).name@) is Some
                && columns[d].values@[i] is Some,
    decreases columns.len() - c,
{
    if c < columns.len() {
        lemma_numbers_without_fault(row, columns, i, c + 1);
        assert(columns[c as int] == columns[c as int]);
    }
}

fn assemble(tickers: Vec<String>, weights: &Vec<Double>, total: Double, notes: Vec<String>) -> (res:
    UploadedPortfolio)
    requires
        tickers@.len() == weights@.len(),
    ensures
        res.portfolio.tickers_view() == text::views(tickers@),
        res.portfolio.weights_view() == weights@,
        res.portfolio.total_value_inr == total,
        res.tickers_normalised == notes,
{
    let mut holdings: Vec<Holding> = Vec::new();
    let mut i: usize = 0;
    while i < tickers.len()
        invariant
            i <= tickers@.len(),
            tickers@.len() == weights@.len(),
            holdings@.len() == i,
            forall|k: int|
                0 <= k < i ==> (#[trigger] holdings@[k]).ticker@ == tickers@[k]@
                    && holdings@[k].weight == weights@[k],
        decreases tickers.len() - i,
    {
        holdings.push(Holding { ticker: text::copy(tickers[i].as_str()), weight: weights[i] });
        i += 1;
    }
    let portfolio = Portfolio { holdings, total_value_inr: total };
    assert(portfolio.tickers_view() =~= text::views(tickers@));
    assert(portfolio.weights_view() =~= weights@);
    UploadedPortfolio { portfolio, tickers_normalised: notes }
}

/// The numbers of a column of which every cell is one.
pub open spec fn all_values(values: Seq<Option<Double>>) -> Seq<Double> {
    values.map_values(|v: Option<Double>| v->Some_0)
}

/// Makes a portfolio of rows with weights. Its value is not known, and set to
/// a million rupees.
pub fn build_weight_based(records: &Vec<Record>, weights: Vec<Option<Double>>) -> (res: Result<
    UploadedPortfolio,
    ApiError,
>)
    requires
        weights@.len() == records@.len(),
    ensures
        match rows_fault(
            records_view(records@),
            seq![NumberColumn { name: "weight", values: weights }],
            records@.len() as int,
        ) {
            Some(e) => res is Err && res->Err_0@ == e,
            None => res is Ok && is_uploaded(
                res->Ok_0,
                records_view(records@),
                all_values(weights@),
                crate::double::double_of_integer(DEFAULT_TOTAL_VALUE_INR as int),
            ),
        },
{
    let ghost rows = records_view(records@);
    let mut columns: Vec<NumberColumn> = Vec::new();
    columns.push(NumberColumn { name: "weight", values: weights });
    assert(columns@ =~= seq![NumberColumn { name: "weight", values: weights }]);
    match read_tickers(records, &columns) {
        Err(e) => Err(e),
        Ok((tickers, notes)) => {
            let mut numbers: Vec<Double> = Vec::new();
            let mut i: usize = 0;
            while i < records.len()
                invariant
                    i <= records@.len(),
                    rows == records_view(records@),
                    columns@.len() == 1,
                    columns@[0].values == weights,
                    weights@.len() == records@.len(),
                    rows_fault(rows, columns@, records@.len() as int) is None,
                    numbers@.len() == i,
                    forall|k: int|
                        0 <= k < i ==> (#[trigger] numbers@[k]) == weights@[k]->Some_0,
                decreases records.len() - i,
            {
                proof {
                    lemma_rows_are_fine(rows, columns@, records@.len() as int, i as int);
                    lemma_numbers_are_there(rows[i as int], columns@, i as int, 0, 0);
                }
                if let Some(x) = columns[0].values[i] {
                    numbers.push(x);
                }
                i += 1;
            }
            assert(numbers@ =~= all_values(weights@));
            let total = Double::of_integer(DEFAULT_TOTAL_VALUE_INR);
            Ok(assemble(tickers, &numbers, total, notes))
        },
    }
}

/// The weights of a portfolio of the given value: zero where it has none.
pub open spec fn value_weights(shares_of_value: Seq<Double>, total: Double) -> Seq<Double> {
    shares_of_value.map_values(
        |w: Double|
            if (Double { bits: 0 }).below(total) {
                w
            } else {
                Double { bits: 0 }
            },
    )
}

/// Where the portfolio is worth something each weight stays; where it is worth
/// nothing, or its worth is no number, each is zero.
pub proof fn lemma_value_weights(weights: Seq<Double>, total: Double)
    ensures
        !total.nan() && total.rank() > 0 ==> value_weights(weights, total) == weights,
        total.nan() || total.rank() <= 0 ==> value_weights(weights, total).len() == weights.len()
            && forall|i: int|
            0 <= i < weights.len() ==> (#[trigger] value_weights(weights, total)[i]).bits == 0,
        DEFAULT_TOTAL_VALUE_INR == 1_000_000,
{
    if !total.nan() && total.rank() > 0 {
        assert(value_weights(weights, total) =~= weights);
    }
}

/// Makes a portfolio of rows with numbers of shares and prices. `total` is the
/// sum of what each row is worth, and `weights` each row's part of it, rounded
/// to six places.
pub fn build_value_based(
    records: &Vec<Record>,
    shares: Vec<Option<Double>>,
    prices: Vec<Option<Double>>,
    weights: &Vec<Double>,
    total: Double,
) -> (res: Result<UploadedPortfolio, ApiError>)
    requires
        shares@.len() == records@.len(),
        prices@.len() == records@.len(),
        weights@.len() == records@.len(),
    ensures
        match rows_fault(
            records_view(records@),
            seq![
                NumberColumn { name: "shares", values: shares },
                NumberColumn { name: "avg_price_inr", values: prices },
            ],
            records@.len() as int,
        ) {
            Some(e) => res is Err && res->Err_0@ == e,
            None => res is Ok && is_uploaded(
                res->Ok_0,
                records_view(records@),
                value_weights(weights@, total),
                total,
            ),
        },
{
    let mut columns: Vec<NumberColumn> = Vec::new();
    columns.push(NumberColumn { name: "shares", values: shares });
    columns.push(NumberColumn { name: "avg_price_inr", values: prices });
    assert(columns@ =~= seq![
        NumberColumn { name: "shares", values: shares },
        NumberColumn { name: "avg_price_inr", values: prices },
    ]);
    match read_tickers(records, &columns) {
        Err(e) => Err(e),
        Ok((tickers, notes)) => {
            let has_value = Double::zero().lt(total);
            let mut numbers: Vec<Double> = Vec::new();
            let mut i: usize = 0;
            while i < weights.len()
                invariant
                    i <= weights@.len(),
                    has_value == (Double { bits: 0 }).below(total),
                    numbers@.len() == i,
                    forall|k: int|
                        0 <= k < i ==> (#[trigger] numbers@[k]) == value_weights(
                            weights@,
                            total,
                        )[k],
                decreases weights.len() - i,
            {
                if has_value {
                    numbers.push(weights[i]);
                } else {
                    numbers.push(Double::zero());
                }
                i += 1;
            }
            assert(numbers@ =~= value_weights(weights@, total));
            Ok(assemble(tickers, &numbers, total, notes))
        },
    }
}

/// The answer to an upload.
#[derive(Debug)]
pub struct UploadResponse {
    pub portfolio: Portfolio,
    pub layout_detected: &'static str,
    pub tickers_normalised: Vec<String>,
    pub row_count: usize,
}

/// The name of a layout.
pub open spec fn layout_name(layout: Layout) -> Seq<char> {
    match layout {
        Layout::Weight => "weight"@,
        Layout::Value => "value"@,
    }
}

/// Validates an uploaded portfolio and answers.
pub fn finish_upload(layout: Layout, uploaded: UploadedPortfolio, sum: Double, distance: Double) -> (res:
    Result<UploadResponse, ApiError>)
    ensures
        match validate::portfolio_fault(uploaded.portfolio, sum, distance) {
            Some(fault) => res is Err && res->Err_0@ == api::wrong_request(
                "invalid_portfolio"@,
                fault,
            ),
            None => {
                &&& res is Ok
                &&& res->Ok_0.portfolio == uploaded.portfolio
                &&& res->Ok_0.layout_detected@ == layout_name(layout)
                &&& res->Ok_0.tickers_normalised == uploaded.tickers_normalised
                &&& res->Ok_0.row_count == uploaded.portfolio.holdings@.len()
            },
        },
{
    match validate::validate_portfolio(&uploaded.portfolio, sum, distance) {
        Err(e) => Err(e),
        Ok(_) => {
            let row_count = uploaded.portfolio.holdings.len();
            Ok(
                UploadResponse {
                    portfolio: uploaded.portfolio,
                    layout_detected: match layout {
                        Layout::Weight => "weight",
                        Layout::Value => "value",
                    },
                    tickers_normalised: uploaded.tickers_normalised,
                    row_count,
                },
            )
        },
    }
}

impl UploadResponse {
    /// The answer as a JSON object.
    pub fn to_json(&self) -> (res: Json)
        ensures
            res@ == JsonView::empty().with("portfolio"@, self.portfolio.json()).with(
                "layout_detected"@,
                JsonView::Text(self.layout_detected@),
            ).with(
                "tickers_normalised"@,
                JsonView::of_texts(text::views(self.tickers_normalised@)),
            ).with("row_count"@, JsonView::of_integer(self.row_count as int)),
    {
        Json::object().with("portfolio", self.portfolio.to_json()).with(
            "layout_detected",
            Json::of_text(self.layout_detected),
        ).with("tickers_normalised", Json::of_texts(&self.tickers_normalised)).with(
            "row_count",
            Json::of_count(self.row_count),
        )
    }
}

} // verus!
